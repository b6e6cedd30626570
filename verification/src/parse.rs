use vstd::prelude::*;
use crate::config::{category_from_chars, category_named, Category, UnknownCategoryError};
use crate::money::{decimal, digit_char, grouped};
use crate::text::{chars_of, is_white, join, join_with, split_words, string_of, views, words};

verus! {

/// The outcome of reading one free-text message: `<monto> <categoria> [descripcion]`.
#[derive(Debug, Clone, PartialEq, Eq)]
pub enum ParseResult {
    Expense { amount: i64, category: Category, description: String },
    UnknownCategory(String),
    MissingCategory,
    NoAmount,
    Empty,
}

/// A `ParseResult` with its strings taken as character sequences.
pub enum ParsedMessage {
    Expense { amount: int, category: Category, description: Seq<char> },
    UnknownCategory(Seq<char>),
    MissingCategory,
    NoAmount,
    Empty,
}

impl View for ParseResult {
    type V = ParsedMessage;

    open spec fn view(&self) -> ParsedMessage {
        match self {
            ParseResult::Expense { amount, category, description } => ParsedMessage::Expense {
                amount: *amount as int,
                category: *category,
                description: description@,
            },
            ParseResult::UnknownCategory(word) => ParsedMessage::UnknownCategory(word@),
            ParseResult::MissingCategory => ParsedMessage::MissingCategory,
            ParseResult::NoAmount => ParsedMessage::NoAmount,
            ParseResult::Empty => ParsedMessage::Empty,
        }
    }
}

pub open spec fn is_ascii_digit(c: char) -> bool {
    '0' <= c && c <= '9'
}

pub open spec fn is_separator(c: char) -> bool {
    c == '.' || c == ','
}

/// A token that can be part of an amount: at least one ASCII digit, and
/// nothing but digits, dots and commas.
pub open spec fn is_digit_group(t: Seq<char>) -> bool {
    &&& exists|i: int| 0 <= i < t.len() && is_ascii_digit(#[trigger] t[i])
    &&& forall|i: int| 0 <= i < t.len() ==> is_ascii_digit(#[trigger] t[i]) || is_separator(t[i])
}

/// A digit group followed by one `k` or `K`, without that letter.
pub open spec fn k_head(t: Seq<char>) -> Option<Seq<char>> {
    if t.len() > 0 && (t.last() == 'k' || t.last() == 'K') && is_digit_group(t.drop_last()) {
        Some(t.drop_last())
    } else {
        None
    }
}

/// The number of leading tokens that are digit groups.
pub open spec fn digit_run(ts: Seq<Seq<char>>) -> nat
    decreases ts.len(),
{
    if ts.len() > 0 && is_digit_group(ts[0]) {
        1 + digit_run(ts.drop_first())
    } else {
        0
    }
}

/// The tokens written one after the other.
pub open spec fn concat(ts: Seq<Seq<char>>) -> Seq<char>
    decreases ts.len(),
{
    if ts.len() == 0 {
        seq![]
    } else {
        concat(ts.drop_last()) + ts.last()
    }
}

/// The ASCII digits of `s`, in order.
pub open spec fn digits_of(s: Seq<char>) -> Seq<char>
    decreases s.len(),
{
    if s.len() == 0 {
        seq![]
    } else if is_ascii_digit(s.last()) {
        digits_of(s.drop_last()).push(s.last())
    } else {
        digits_of(s.drop_last())
    }
}

/// The number that the decimal digits `ds` write.
pub open spec fn digit_value(ds: Seq<char>) -> int
    decreases ds.len(),
{
    if ds.len() == 0 {
        0
    } else {
        digit_value(ds.drop_last()) * 10 + (ds.last() as int - 48)
    }
}

pub open spec fn all_digits(ds: Seq<char>) -> bool {
    forall|i: int| 0 <= i < ds.len() ==> is_ascii_digit(#[trigger] ds[i])
}

/// What `str::parse::<i64>` gives for a string of ASCII digits: its value,
/// if the string is not empty and the value fits.
pub open spec fn parse_digits(ds: Seq<char>) -> Option<int> {
    if ds.len() > 0 && all_digits(ds) && digit_value(ds) <= i64::MAX {
        Some(digit_value(ds))
    } else {
        None
    }
}

/// The position of the first dot or comma in `t`.
pub open spec fn first_separator(t: Seq<char>) -> Option<int> {
    if exists|i: int| 0 <= i < t.len() && is_separator(#[trigger] t[i]) {
        Some(choose|i: int| 0 <= i < t.len() && is_separator(t[i]) && forall|j: int| 0 <= j < i ==> !is_separator(#[trigger] t[j]))
    } else {
        None
    }
}

/// The first three characters of `d`, padded on the right with `0`s to three.
pub open spec fn three_places(d: Seq<char>) -> Seq<char>
    decreases 3 - d.len(),
{
    if d.len() >= 3 {
        d.take(3)
    } else {
        three_places(d.push('0'))
    }
}

/// In the `k` form the separator is a decimal point: `1,5` is 1500 and
/// `1,1259` is 1125, truncated below the peso. More than one separator, an
/// empty whole part or an overflow gives nothing.
pub open spec fn k_amount(t: Seq<char>) -> Option<int> {
    let (whole, fraction) = match first_separator(t) {
        None => (t, Some(0int)),
        Some(p) => {
            let rest = t.skip(p + 1);
            if first_separator(rest) is Some {
                (t.take(p), None::<int>)
            } else {
                (t.take(p), parse_digits(three_places(rest)))
            }
        },
    };
    match (parse_digits(whole), fraction) {
        (Some(w), Some(f)) => if w * 1000 + f <= i64::MAX { Some(w * 1000 + f) } else { None },
        _ => None,
    }
}

/// Without a `k`, dots and commas are only grouping: the digits are the amount.
pub open spec fn plain_amount(t: Seq<char>) -> Option<int> {
    parse_digits(digits_of(t))
}

/// The text of the amount, whether it ended in `k`, and the index of the
/// first token after it. The amount is the leading run of digit groups,
/// plus one more token when that one is a digit group with a `k` suffix.
pub open spec fn amount_span(ts: Seq<Seq<char>>) -> (Seq<char>, bool, int) {
    let j = digit_run(ts) as int;
    if j < ts.len() && k_head(ts[j]) is Some {
        (concat(ts.take(j)) + k_head(ts[j])->0, true, j + 1)
    } else {
        (concat(ts.take(j)), false, j)
    }
}

/// The positive amount at the start of `ts` and the index after it.
pub open spec fn leading_amount(ts: Seq<Seq<char>>) -> Option<(int, int)> {
    let (text, scaled, next) = amount_span(ts);
    if text.len() == 0 {
        None
    } else {
        let value = if scaled { k_amount(text) } else { plain_amount(text) };
        match value {
            Some(a) => if a > 0 { Some((a, next)) } else { None },
            None => None,
        }
    }
}

/// What a message means, over its whitespace-separated words.
pub open spec fn parsed(s: Seq<char>) -> ParsedMessage {
    let ts = words(s);
    if ts.len() == 0 {
        ParsedMessage::Empty
    } else {
        match leading_amount(ts) {
            None => ParsedMessage::NoAmount,
            Some((amount, next)) => if next >= ts.len() {
                ParsedMessage::MissingCategory
            } else {
                match category_named(ts[next]) {
                    None => ParsedMessage::UnknownCategory(ts[next]),
                    Some(category) => ParsedMessage::Expense {
                        amount,
                        category,
                        description: join(ts.skip(next + 1), seq![' ']),
                    },
                }
            },
        }
    }
}

pub proof fn lemma_digit_value_monotone(ds: Seq<char>, i: int)
    requires
        all_digits(ds),
        0 <= i <= ds.len(),
    ensures
        0 <= digit_value(ds.take(i)) <= digit_value(ds),
    decreases ds.len(),
{
    if ds.len() > 0 {
        let t = ds.drop_last();
        assert(all_digits(t)) by {
            assert forall|k: int| 0 <= k < t.len() implies is_ascii_digit(#[trigger] t[k]) by {
                assert(t[k] == ds[k]);
            }
        }
        assert(is_ascii_digit(ds[ds.len() - 1]));
        if i == ds.len() {
            assert(ds.take(i) =~= ds);
            lemma_digit_value_monotone(t, 0);
            assert(t.take(0) =~= ds.take(0));
        } else {
            lemma_digit_value_monotone(t, i);
            assert(t.take(i) =~= ds.take(i));
        }
    } else {
        assert(ds.take(i) =~= ds);
    }
}

fn is_digit(c: char) -> (b: bool)
    ensures
        b == is_ascii_digit(c),
{
    '0' <= c && c <= '9'
}

/// Reads a string of ASCII digits as an `i64`, as `str::parse` does.
pub(crate) fn read_digits(ds: &Vec<char>) -> (r: Option<i64>)
    ensures
        match r {
            Some(v) => parse_digits(ds@) == Some(v as int) && v >= 0,
            None => parse_digits(ds@) is None,
        },
{
    if ds.len() == 0 {
        return None;
    }
    let mut value: i64 = 0;
    let mut overflowed = false;
    let mut i: usize = 0;
    while i < ds.len()
        invariant
            i <= ds.len(),
            forall|k: int| 0 <= k < i ==> is_ascii_digit(#[trigger] ds@[k]),
            !overflowed ==> value as int == digit_value(ds@.take(i as int)),
            value >= 0,
            overflowed ==> digit_value(ds@.take(i as int)) > i64::MAX,
        decreases ds.len() - i,
    {
        let c = ds[i];
        if !is_digit(c) {
            return None;
        }
        let d = ((c as u32) - 48) as i64;
        let ghost prefix = ds@.take(i + 1);
        assert(prefix.drop_last() =~= ds@.take(i as int));
        assert(prefix.last() == c);
        proof {
            assert(all_digits(ds@.take(i as int))) by {
                assert forall|k: int| 0 <= k < i implies is_ascii_digit(#[trigger] ds@.take(i as int)[k]) by {
                    assert(ds@.take(i as int)[k] == ds@[k]);
                }
            }
            lemma_digit_value_monotone(ds@.take(i as int), 0);
            assert(ds@.take(i as int).take(0) =~= seq![]);
        }
        if !overflowed {
            if value > (i64::MAX - d) / 10 {
                overflowed = true;
            } else {
                value = value * 10 + d;
            }
        }
        i += 1;
    }
    assert(ds@.take(ds.len() as int) =~= ds@);
    if overflowed {
        None
    } else {
        Some(value)
    }
}

fn all_digits_or_separators(t: &Vec<char>) -> (b: bool)
    ensures
        b == is_digit_group(t@),
{
    let mut any_digit = false;
    let mut i: usize = 0;
    while i < t.len()
        invariant
            i <= t.len(),
            forall|k: int| 0 <= k < i ==> is_ascii_digit(#[trigger] t@[k]) || is_separator(t@[k]),
            any_digit == exists|k: int| 0 <= k < i && is_ascii_digit(#[trigger] t@[k]),
        decreases t.len() - i,
    {
        let c = t[i];
        if !(is_digit(c) || c == '.' || c == ',') {
            return false;
        }
        if is_digit(c) {
            any_digit = true;
        }
        i += 1;
    }
    any_digit
}

/// The head of a `<digits>k` token.
fn strip_k_suffix(t: &Vec<char>) -> (r: Option<Vec<char>>)
    ensures
        match r {
            Some(h) => k_head(t@) == Some(h@),
            None => k_head(t@) is None,
        },
{
    if t.len() == 0 {
        return None;
    }
    let last = t[t.len() - 1];
    if last != 'k' && last != 'K' {
        return None;
    }
    let mut head = t.clone();
    head.pop();
    assert(head@ =~= t@.drop_last());
    if all_digits_or_separators(&head) {
        Some(head)
    } else {
        None
    }
}


fn pad_three(d: Vec<char>) -> (r: Vec<char>)
    ensures
        r@ == three_places(d@),
    decreases 3 - d@.len(),
{
    if d.len() >= 3 {
        let mut d = d;
        let ghost before = d@;
        d.truncate(3);
        assert(d@ =~= before.take(3));
        d
    } else {
        let mut d = d;
        d.push('0');
        pad_three(d)
    }
}

/// In the `k` form the separator is a decimal point, not a grouping mark:
/// `1,5k` and `1.5k` are both 1500.
fn thousands_from_k(text: &Vec<char>) -> (r: Option<i64>)
    ensures
        match r {
            Some(v) => k_amount(text@) == Some(v as int),
            None => k_amount(text@) is None,
        },
{
    let mut p: usize = 0;
    while p < text.len() && !(text[p] == '.' || text[p] == ',')
        invariant
            p <= text.len(),
            forall|j: int| 0 <= j < p ==> !is_separator(#[trigger] text@[j]),
        decreases text.len() - p,
    {
        p += 1;
    }
    let ghost spec_whole: Seq<char>;
    let ghost spec_fraction: Option<int>;
    let (whole, fraction): (Option<i64>, Option<i64>) = if p == text.len() {
        assert(first_separator(text@) is None);
        proof {
            spec_whole = text@;
            spec_fraction = Some(0int);
        }
        (read_digits(text), Some(0))
    } else {
        proof {
            let t = text@;
            assert(is_separator(t[p as int]));
            let q = choose|i: int| 0 <= i < t.len() && is_separator(t[i]) && forall|j: int| 0 <= j < i ==> !is_separator(#[trigger] t[j]);
            assert(q == p);
            assert(first_separator(t) == Some(p as int));
        }
        let head = crate::text::copy_range(text, 0, p);
        let rest = crate::text::copy_range(text, p + 1, text.len());
        assert(head@ =~= text@.take(p as int));
        assert(rest@ =~= text@.skip(p + 1));
        let mut q: usize = 0;
        while q < rest.len() && !(rest[q] == '.' || rest[q] == ',')
            invariant
                q <= rest.len(),
                forall|j: int| 0 <= j < q ==> !is_separator(#[trigger] rest@[j]),
            decreases rest.len() - q,
        {
            q += 1;
        }
        if q < rest.len() {
            assert(is_separator(rest@[q as int]));
            assert(first_separator(rest@) is Some);
            return None;
        }
        assert(first_separator(rest@) is None);
        proof {
            spec_whole = head@;
            spec_fraction = parse_digits(three_places(rest@));
        }
        (read_digits(&head), read_digits(&pad_three(rest)))
    };
    assert(match (parse_digits(spec_whole), spec_fraction) {
        (Some(w), Some(f)) => k_amount(text@) == if w * 1000 + f <= i64::MAX { Some(w * 1000 + f) } else { None },
        _ => k_amount(text@) is None,
    });
    match (whole, fraction) {
        (Some(w), Some(f)) => {
            assert(f >= 0);
            match w.checked_mul(1000) {
                Some(m) => m.checked_add(f),
                None => None,
            }
        },
        _ => None,
    }
}

proof fn lemma_k_token_is_not_digit_group(t: Seq<char>)
    requires
        k_head(t) is Some,
    ensures
        !is_digit_group(t),
{
    assert(!is_ascii_digit(t[t.len() - 1]) && !is_separator(t[t.len() - 1]));
}

proof fn lemma_digit_run(ts: Seq<Seq<char>>, i: int)
    requires
        0 <= i <= ts.len(),
        forall|k: int| 0 <= k < i ==> is_digit_group(#[trigger] ts[k]),
        i == ts.len() || !is_digit_group(ts[i]),
    ensures
        digit_run(ts) == i,
    decreases i,
{
    if i > 0 {
        let r = ts.drop_first();
        assert forall|k: int| 0 <= k < i - 1 implies is_digit_group(#[trigger] r[k]) by {
            assert(r[k] == ts[k + 1]);
        }
        if i < ts.len() {
            assert(r[i - 1] == ts[i]);
        }
        lemma_digit_run(r, i - 1);
        assert(is_digit_group(ts[0]));
    }
}

fn append_chars(dst: &mut Vec<char>, src: &Vec<char>)
    ensures
        final(dst)@ == old(dst)@ + src@,
{
    let mut copy = src.clone();
    assert(copy@ =~= src@);
    dst.append(&mut copy);
}

fn digits_only(t: &Vec<char>) -> (r: Vec<char>)
    ensures
        r@ == digits_of(t@),
{
    let mut r: Vec<char> = Vec::new();
    let mut i: usize = 0;
    while i < t.len()
        invariant
            i <= t.len(),
            r@ == digits_of(t@.take(i as int)),
        decreases t.len() - i,
    {
        assert(t@.take(i + 1).drop_last() =~= t@.take(i as int));
        if is_digit(t[i]) {
            r.push(t[i]);
        }
        i += 1;
    }
    assert(t@.take(t.len() as int) =~= t@);
    r
}

/// Reads the leading amount and returns it with the index of the first token
/// after it. Spaces count as thousand separators, so the amount can span
/// several tokens (`1 500 super`); a `k` suffix ends it immediately.
fn take_amount(tokens: &Vec<Vec<char>>) -> (r: Option<(i64, usize)>)
    ensures
        match r {
            Some((a, next)) => leading_amount(views(tokens@)) == Some((a as int, next as int)),
            None => leading_amount(views(tokens@)) is None,
        },
{
    let ghost ts = views(tokens@);
    let mut chunks: Vec<char> = Vec::new();
    let mut index: usize = 0;
    let mut scaled_by_k = false;
    let mut done = false;
    while !done && index < tokens.len()
        invariant
            index <= tokens.len(),
            ts == views(tokens@),
            !scaled_by_k ==> forall|k: int| 0 <= k < index ==> is_digit_group(#[trigger] ts[k]),
            !scaled_by_k ==> chunks@ == concat(ts.take(index as int)),
            !scaled_by_k && done ==> !is_digit_group(ts[index as int]) && k_head(ts[index as int]) is None,
            !scaled_by_k ==> !done || index < tokens.len(),
            scaled_by_k ==> done && index >= 1,
            scaled_by_k ==> forall|k: int| 0 <= k < index - 1 ==> is_digit_group(#[trigger] ts[k]),
            scaled_by_k ==> !is_digit_group(ts[index - 1]),
            scaled_by_k ==> k_head(ts[index - 1]) is Some,
            scaled_by_k ==> chunks@ == concat(ts.take(index - 1)) + k_head(ts[index - 1])->0,
        decreases tokens.len() - index, (if done { 0int } else { 1int }),
    {
        let token = &tokens[index];
        assert(token@ == ts[index as int]);
        match strip_k_suffix(token) {
            Some(head) => {
                proof { lemma_k_token_is_not_digit_group(ts[index as int]); }
                append_chars(&mut chunks, &head);
                scaled_by_k = true;
                index += 1;
                done = true;
            },
            None => {
                if !all_digits_or_separators(token) {
                    done = true;
                } else {
                    append_chars(&mut chunks, token);
                    assert(ts.take(index + 1).drop_last() =~= ts.take(index as int));
                    index += 1;
                }
            },
        }
    }
    proof {
        if scaled_by_k {
            lemma_digit_run(ts, index - 1);
        } else {
            lemma_digit_run(ts, index as int);
        }
    }
    if chunks.len() == 0 {
        return None;
    }
    let amount = if scaled_by_k {
        thousands_from_k(&chunks)
    } else {
        // No `k`, so `.` and `,` are purely cosmetic grouping: 1.500 is 1500.
        read_digits(&digits_only(&chunks))
    };
    match amount {
        Some(a) => if a > 0 { Some((a, index)) } else { None },
        None => None,
    }
}

/// Reads a free-text message: `<monto> <categoria> [descripcion]`.
pub fn parse_message(input: &str) -> (r: ParseResult)
    ensures
        r@ == parsed(input@),
{
    let chars = chars_of(input);
    let mut tokens = split_words(&chars);
    if tokens.len() == 0 {
        return ParseResult::Empty;
    }
    let (amount, next) = match take_amount(&tokens) {
        Some(found) => found,
        None => return ParseResult::NoAmount,
    };
    if next >= tokens.len() {
        return ParseResult::MissingCategory;
    }
    let category = match category_from_chars(&tokens[next]) {
        Ok(category) => category,
        Err(UnknownCategoryError) => {
            return ParseResult::UnknownCategory(string_of(&tokens[next]));
        },
    };
    let ghost all = views(tokens@);
    let rest = tokens.split_off(next + 1);
    assert(views(rest@) =~= all.skip(next + 1));
    let description = string_of(&join_with(&rest, ' '));
    ParseResult::Expense { amount, category, description }
}


/// Reads a string of ASCII digits as a `u64`: its value when the string is
/// not empty, holds only digits, and the value fits.
pub fn read_u64_digits(ds: &Vec<char>) -> (r: Option<u64>)
    ensures
        match r {
            Some(v) => ds@.len() > 0 && all_digits(ds@) && digit_value(ds@) == v as int,
            None => !(ds@.len() > 0 && all_digits(ds@) && digit_value(ds@) <= u64::MAX),
        },
{
    if ds.len() == 0 {
        return None;
    }
    let mut value: u64 = 0;
    let mut overflowed = false;
    let mut i: usize = 0;
    while i < ds.len()
        invariant
            i <= ds.len(),
            forall|k: int| 0 <= k < i ==> is_ascii_digit(#[trigger] ds@[k]),
            !overflowed ==> value as int == digit_value(ds@.take(i as int)),
            overflowed ==> digit_value(ds@.take(i as int)) > u64::MAX,
        decreases ds.len() - i,
    {
        let c = ds[i];
        if !is_digit(c) {
            assert(!all_digits(ds@));
            return None;
        }
        let d = ((c as u32) - 48) as u64;
        let ghost prefix = ds@.take(i + 1);
        assert(prefix.drop_last() =~= ds@.take(i as int));
        assert(prefix.last() == c);
        proof {
            assert(all_digits(ds@.take(i as int))) by {
                assert forall|k: int| 0 <= k < i implies is_ascii_digit(#[trigger] ds@.take(i as int)[k]) by {
                    assert(ds@.take(i as int)[k] == ds@[k]);
                }
            }
            lemma_digit_value_monotone(ds@.take(i as int), 0);
            assert(ds@.take(i as int).take(0) =~= seq![]);
        }
        if !overflowed {
            if value > (u64::MAX - d) / 10 {
                overflowed = true;
            } else {
                value = value * 10 + d;
            }
        }
        i += 1;
    }
    assert(ds@.take(ds.len() as int) =~= ds@);
    assert(all_digits(ds@));
    if overflowed {
        None
    } else {
        Some(value)
    }
}


/// Ten to the power `k`.
pub open spec fn pow10(k: nat) -> int
    decreases k,
{
    if k == 0 {
        1
    } else {
        10 * pow10((k - 1) as nat)
    }
}

pub(crate) proof fn lemma_digit_value_append(a: Seq<char>, b: Seq<char>)
    ensures
        digit_value(a + b) == digit_value(a) * pow10(b.len()) + digit_value(b),
    decreases b.len(),
{
    if b.len() == 0 {
        assert(a + b =~= a);
    } else {
        let b1 = b.drop_last();
        lemma_digit_value_append(a, b1);
        assert((a + b).drop_last() =~= a + b1);
        assert((a + b).last() == b.last());
        let va = digit_value(a);
        let p = pow10(b1.len());
        assert(pow10(b.len()) == 10 * p);
        assert((va * p + digit_value(b1)) * 10 == va * (10 * p) + digit_value(b1) * 10)
            by (nonlinear_arith);
    }
}

proof fn lemma_digits_of_append(a: Seq<char>, b: Seq<char>)
    ensures
        digits_of(a + b) == digits_of(a) + digits_of(b),
    decreases b.len(),
{
    if b.len() == 0 {
        assert(a + b =~= a);
        assert(digits_of(a) + digits_of(b) =~= digits_of(a));
    } else {
        let b1 = b.drop_last();
        lemma_digits_of_append(a, b1);
        assert((a + b).drop_last() =~= a + b1);
        assert((a + b).last() == b.last());
        if is_ascii_digit(b.last()) {
            assert(digits_of(a) + digits_of(b1).push(b.last()) =~= (digits_of(a) + digits_of(b1)).push(b.last()));
        }
    }
}

proof fn lemma_digits_of_digits(s: Seq<char>)
    requires
        all_digits(s),
    ensures
        digits_of(s) == s,
    decreases s.len(),
{
    if s.len() > 0 {
        let t = s.drop_last();
        assert(all_digits(t)) by {
            assert forall|k: int| 0 <= k < t.len() implies is_ascii_digit(#[trigger] t[k]) by {
                assert(t[k] == s[k]);
            }
        }
        assert(is_ascii_digit(s[s.len() - 1]));
        lemma_digits_of_digits(t);
        assert(t.push(s.last()) =~= s);
    }
}

pub(crate) proof fn lemma_digit_char(d: int)
    requires
        0 <= d < 10,
    ensures
        is_ascii_digit(digit_char(d)),
        digit_char(d) as int - 48 == d,
{
}

pub(crate) proof fn lemma_decimal(n: nat)
    ensures
        decimal(n).len() > 0,
        all_digits(decimal(n)),
        digit_value(decimal(n)) == n,
    decreases n,
{
    if n < 10 {
        lemma_digit_char(n as int);
        let s = decimal(n);
        assert(s == seq![digit_char(n as int)]);
        assert(s.drop_last() =~= seq![]);
        assert(digit_value(s.drop_last()) == 0);
        assert(digit_value(s) == digit_value(s.drop_last()) * 10 + (s.last() as int - 48));
    } else {
        lemma_decimal(n / 10);
        lemma_digit_char((n % 10) as int);
        let t = decimal(n / 10);
        let s = decimal(n);
        assert(s == t.push(digit_char((n % 10) as int)));
        assert(s.drop_last() =~= t);
        assert(digit_value(s) == digit_value(t) * 10 + (s.last() as int - 48));
        assert(n == (n / 10) * 10 + n % 10);
        assert forall|k: int| 0 <= k < s.len() implies is_ascii_digit(#[trigger] s[k]) by {
            if k < t.len() {
                assert(s[k] == t[k]);
            }
        }
    }
}

/// The three digits `grouped` writes after a dot: `r` zero padded to three.
proof fn lemma_three_digits(r: nat)
    requires
        r < 1000,
    ensures
        decimal(1000 + r).drop_first().len() == 3,
        all_digits(decimal(1000 + r).drop_first()),
        digit_value(decimal(1000 + r).drop_first()) == r,
{
    let m: nat = 1000 + r;
    let a = digit_char(((m / 100) % 10) as int);
    let b = digit_char(((m / 10) % 10) as int);
    let c = digit_char((m % 10) as int);
    assert(m / 10 / 10 == m / 100);
    assert(m / 100 / 10 == 1);
    assert(decimal(1) == seq![digit_char(1)]);
    assert(decimal(m / 100) == decimal(1).push(a));
    assert(decimal(m / 10) == decimal(m / 100).push(b));
    assert(decimal(m) == decimal(m / 10).push(c));
    let t = decimal(m).drop_first();
    assert(t =~= seq![a, b, c]);
    lemma_digit_char(((m / 100) % 10) as int);
    lemma_digit_char(((m / 10) % 10) as int);
    lemma_digit_char((m % 10) as int);
    assert(t.drop_last() =~= seq![a, b]);
    assert(t.drop_last().drop_last() =~= seq![a]);
    assert(t.drop_last().drop_last().drop_last() =~= seq![]);
    let t1 = t.drop_last();
    let t2 = t1.drop_last();
    let t3 = t2.drop_last();
    assert(digit_value(t3) == 0);
    assert(digit_value(t2) == digit_value(t3) * 10 + (a as int - 48));
    assert(digit_value(t1) == digit_value(t2) * 10 + (b as int - 48));
    assert(digit_value(t) == digit_value(t1) * 10 + (c as int - 48));
    assert(((m / 100) % 10) * 100 + ((m / 10) % 10) * 10 + m % 10 == r);
}

proof fn lemma_grouped(n: nat)
    ensures
        grouped(n).len() > 0,
        is_ascii_digit(grouped(n).last()),
        forall|i: int| 0 <= i < grouped(n).len() ==> is_ascii_digit(#[trigger] grouped(n)[i]) || is_separator(grouped(n)[i]),
        digits_of(grouped(n)).len() > 0,
        all_digits(digits_of(grouped(n))),
        digit_value(digits_of(grouped(n))) == n,
    decreases n,
{
    if n < 1000 {
        lemma_decimal(n);
        lemma_digits_of_digits(decimal(n));
        assert(is_ascii_digit(decimal(n)[decimal(n).len() - 1]));
    } else {
        let q: nat = n / 1000;
        let r: nat = n % 1000;
        lemma_grouped(q);
        lemma_three_digits(r);
        let g = grouped(q);
        let t = decimal(1000 + r).drop_first();
        let dot = seq!['.'];
        assert(grouped(n) == g + dot + t);
        lemma_digits_of_append(g + dot, t);
        lemma_digits_of_append(g, dot);
        assert(dot.drop_last() =~= seq![]);
        assert(!is_ascii_digit(dot.last()));
        assert(digits_of(dot.drop_last()) =~= seq![]);
        assert(digits_of(dot) =~= seq![]);
        lemma_digits_of_digits(t);
        let dg = digits_of(g);
        assert(digits_of(grouped(n)) =~= dg + t);
        lemma_digit_value_append(dg, t);
        assert(pow10(3) == 1000) by {
            reveal_with_fuel(pow10, 4);
        }
        let all = grouped(n);
        assert(all.last() == t[2]);
        assert forall|i: int| 0 <= i < all.len() implies is_ascii_digit(#[trigger] all[i]) || is_separator(all[i]) by {
            if i < g.len() {
                assert(all[i] == g[i]);
            } else if i == g.len() {
                assert(all[i] == '.');
            } else {
                assert(all[i] == t[i - g.len() - 1]);
            }
        }
        let d = dg + t;
        assert forall|k: int| 0 <= k < d.len() implies is_ascii_digit(#[trigger] d[k]) by {
            if k < dg.len() {
                assert(d[k] == dg[k]);
            } else {
                assert(d[k] == t[k - dg.len()]);
            }
        }
    }
}

/// An amount as the bot prints it, without the `$`, reads back as the same
/// amount: it is a digit group, and its digits are the amount.
pub proof fn law_printed_amount_reads_back(n: nat)
    requires
        n <= i64::MAX,
    ensures
        is_digit_group(grouped(n)),
        plain_amount(grouped(n)) == Some(n as int),
{
    lemma_grouped(n);
    let g = grouped(n);
    assert(is_ascii_digit(g[g.len() - 1]));
}


/// The groups `grouped` writes between its dots, most significant first.
pub open spec fn thousands_groups(n: nat) -> Seq<Seq<char>>
    decreases n,
{
    if n < 1000 {
        seq![decimal(n)]
    } else {
        thousands_groups(n / 1000).push(decimal(1000 + n % 1000).drop_first())
    }
}

proof fn lemma_char_of_digit(c: char)
    requires
        is_ascii_digit(c),
    ensures
        digit_char(c as int - 48) == c,
{
}

/// A digit string without a leading zero is the decimal form of its value.
proof fn lemma_decimal_canonical(s: Seq<char>)
    requires
        s.len() > 0,
        all_digits(s),
        s.len() == 1 || s[0] != '0',
    ensures
        s == decimal(digit_value(s) as nat),
    decreases s.len(),
{
    let t = s.drop_last();
    let c = s.last();
    assert(is_ascii_digit(s[s.len() - 1]));
    lemma_char_of_digit(c);
    assert(all_digits(t)) by {
        assert forall|k: int| 0 <= k < t.len() implies is_ascii_digit(#[trigger] t[k]) by {
            assert(t[k] == s[k]);
        }
    }
    lemma_digit_value_monotone(t, 0);
    assert(t.take(0) =~= Seq::<char>::empty());
    let n = digit_value(s);
    assert(n == digit_value(t) * 10 + (c as int - 48));
    if t.len() == 0 {
        assert(digit_value(t) == 0);
        assert(s =~= seq![c]);
        assert(decimal(n as nat) == seq![digit_char(n)]);
    } else {
        assert(t[0] == s[0]);
        lemma_digit_value_monotone(t, 1);
        let h = t.take(1);
        assert(h.drop_last() =~= Seq::<char>::empty());
        assert(digit_value(h) == digit_value(h.drop_last()) * 10 + (h.last() as int - 48));
        assert(is_ascii_digit(t[0]));
        assert(digit_value(t) >= 1);
        lemma_decimal_canonical(t);
        assert(n / 10 == digit_value(t));
        assert(n % 10 == c as int - 48);
        assert(decimal(n as nat) == decimal((n / 10) as nat).push(digit_char(n % 10)));
        assert(t.push(c) =~= s);
    }
}

proof fn lemma_grouped_lead(n: nat)
    ensures
        grouped(n).len() > 0,
        grouped(n)[0] == thousands_groups(n)[0][0],
        1 <= thousands_groups(n)[0].len() <= 3,
        all_digits(thousands_groups(n)[0]),
        n > 0 ==> thousands_groups(n)[0][0] != '0',
    decreases n,
{
    lemma_grouped(n);
    if n < 1000 {
        lemma_decimal(n);
        lemma_decimal_small(n);
    } else {
        lemma_grouped_lead(n / 1000);
        assert(thousands_groups(n)[0] == thousands_groups(n / 1000)[0]);
        lemma_grouped(n / 1000);
        assert(grouped(n)[0] == grouped(n / 1000)[0]);
    }
}

proof fn lemma_decimal_small(n: nat)
    requires
        n < 1000,
    ensures
        n < 10 ==> decimal(n).len() == 1,
        n < 100 ==> decimal(n).len() <= 2,
        1 <= decimal(n).len() <= 3,
        n > 0 ==> decimal(n)[0] != '0',
    decreases n,
{
    if n >= 10 {
        lemma_decimal_small(n / 10);
        assert(decimal(n)[0] == decimal(n / 10)[0]);
    } else {
        lemma_digit_char(n as int);
    }
}

/// `s` with every `.` removed.
pub open spec fn without_dots(s: Seq<char>) -> Seq<char>
    decreases s.len(),
{
    if s.len() == 0 {
        seq![]
    } else if s.last() == '.' {
        without_dots(s.drop_last())
    } else {
        without_dots(s.drop_last()).push(s.last())
    }
}

proof fn lemma_without_dots_is_digits(s: Seq<char>)
    requires
        forall|i: int| 0 <= i < s.len() ==> is_ascii_digit(#[trigger] s[i]) || s[i] == '.',
    ensures
        without_dots(s) == digits_of(s),
    decreases s.len(),
{
    if s.len() > 0 {
        let t = s.drop_last();
        assert forall|i: int| 0 <= i < t.len() implies is_ascii_digit(#[trigger] t[i]) || t[i] == '.' by {
            assert(t[i] == s[i]);
        }
        lemma_without_dots_is_digits(t);
        assert(is_ascii_digit(s[s.len() - 1]) || s[s.len() - 1] == '.');
    }
}

proof fn lemma_decimal_lead(n: nat)
    ensures
        decimal(n).len() > 0,
        n > 0 ==> decimal(n)[0] != '0',
    decreases n,
{
    if n >= 10 {
        lemma_decimal_lead(n / 10);
        assert(decimal(n)[0] == decimal(n / 10)[0]);
    } else {
        lemma_digit_char(n as int);
    }
}

/// Every amount is printed in groups of three digits separated by dots: the
/// first group has one to three digits, every later group exactly three, and
/// with the dots removed the digits are the amount in decimal, with no
/// leading zero.
pub proof fn law_amount_groups(n: nat)
    ensures
        grouped(n) == join(thousands_groups(n), seq!['.']),
        thousands_groups(n).len() >= 1,
        1 <= thousands_groups(n)[0].len() <= 3,
        forall|k: int| 1 <= k < thousands_groups(n).len() ==> (#[trigger] thousands_groups(n)[k]).len() == 3,
        forall|k: int| 0 <= k < thousands_groups(n).len() ==> all_digits(#[trigger] thousands_groups(n)[k]),
        n > 0 ==> grouped(n)[0] != '0',
        digits_of(grouped(n)) == decimal(n),
        forall|i: int| 0 <= i < grouped(n).len() ==> is_ascii_digit(#[trigger] grouped(n)[i]) || grouped(n)[i] == '.',
        grouped(n)[0] != '.' && grouped(n).last() != '.',
        without_dots(grouped(n)) == decimal(n),
        n > 0 ==> decimal(n)[0] != '0',
    decreases n,
{
    lemma_decimal_lead(n);
    lemma_grouped_lead(n);
    lemma_grouped(n);
    let gs = thousands_groups(n);
    if n < 1000 {
        lemma_decimal(n);
        lemma_digits_of_digits(decimal(n));
        assert forall|i: int| 0 <= i < grouped(n).len() implies is_ascii_digit(#[trigger] grouped(n)[i])
            || grouped(n)[i] == '.' by {
            assert(all_digits(decimal(n)));
        }
        lemma_without_dots_is_digits(grouped(n));
    } else {
        law_amount_groups(n / 1000);
        lemma_three_digits(n % 1000);
        let prev = thousands_groups(n / 1000);
        let t = decimal(1000 + n % 1000).drop_first();
        assert(gs == prev.push(t));
        assert(gs.drop_last() =~= prev);
        assert forall|k: int| 1 <= k < gs.len() implies (#[trigger] gs[k]).len() == 3 by {
            if k < prev.len() {
                assert(gs[k] == prev[k]);
            }
        }
        assert forall|k: int| 0 <= k < gs.len() implies all_digits(#[trigger] gs[k]) by {
            if k < prev.len() {
                assert(gs[k] == prev[k]);
            }
        }
        let g = grouped(n);
        let d = digits_of(g);
        assert(is_ascii_digit(g[0])) by {
            assert(all_digits(gs[0]));
            assert(is_ascii_digit(gs[0][0]));
        }
        lemma_digits_of_append(seq![g[0]], g.skip(1));
        assert(seq![g[0]] + g.skip(1) =~= g);
        let one = seq![g[0]];
        assert(one.drop_last() =~= Seq::<char>::empty());
        assert(one.last() == g[0]);
        assert(digits_of(Seq::<char>::empty()) =~= Seq::<char>::empty());
        assert(digits_of(one) == digits_of(one.drop_last()).push(one.last()));
        assert(digits_of(one) =~= one);
        assert(d[0] == g[0]);
        lemma_decimal_canonical(d);
        let g0 = grouped(n / 1000);
        assert(g == g0 + seq!['.'] + t);
        assert forall|i: int| 0 <= i < g.len() implies is_ascii_digit(#[trigger] g[i]) || g[i] == '.' by {
            if i < g0.len() {
                assert(g[i] == g0[i]);
            } else if i > g0.len() {
                assert(g[i] == t[i - g0.len() - 1]);
                assert(all_digits(t));
            }
        }
        lemma_without_dots_is_digits(g);
    }
}


proof fn lemma_words_have_no_white(s: Seq<char>)
    ensures
        forall|k: int, i: int| 0 <= k < words(s).len() && 0 <= i < words(s)[k].len() ==> !is_white(
            #[trigger] words(s)[k][i],
        ),
    decreases s.len(),
{
    if s.len() > 0 {
        let t = s.drop_last();
        lemma_words_have_no_white(t);
        crate::text::lemma_words_nonempty(t);
        let w = words(t);
        let c = s.last();
        if !is_white(c) {
            if s.len() >= 2 && !is_white(s[s.len() - 2]) {
                assert(t.last() == s[s.len() - 2]);
                let u = w.update(w.len() - 1, w.last().push(c));
                assert forall|k: int, i: int| 0 <= k < u.len() && 0 <= i < u[k].len() implies !is_white(
                    #[trigger] u[k][i],
                ) by {
                    if k < w.len() - 1 {
                        assert(u[k] == w[k]);
                    } else if i < w.last().len() {
                        assert(u[k][i] == w[w.len() - 1][i]);
                    }
                }
            } else {
                let u = w.push(seq![c]);
                assert forall|k: int, i: int| 0 <= k < u.len() && 0 <= i < u[k].len() implies !is_white(
                    #[trigger] u[k][i],
                ) by {
                    if k < w.len() {
                        assert(u[k] == w[k]);
                    }
                }
            }
        }
    }
}

proof fn lemma_words_append_word(x: Seq<char>, w: Seq<char>)
    requires
        w.len() > 0,
        forall|i: int| 0 <= i < w.len() ==> !is_white(#[trigger] w[i]),
        x.len() == 0 || is_white(x.last()),
    ensures
        words(x + w) == words(x).push(w),
    decreases w.len(),
{
    let t = x + w;
    let c = w.last();
    assert(!is_white(w[w.len() - 1]));
    if w.len() == 1 {
        assert(t.drop_last() =~= x);
        if t.len() >= 2 {
            assert(t[t.len() - 2] == x.last());
        }
        assert(seq![c] =~= w);
    } else {
        let w1 = w.drop_last();
        lemma_words_append_word(x, w1);
        assert(t.drop_last() =~= x + w1);
        assert(t[t.len() - 2] == w1.last());
        assert(!is_white(w[w.len() - 2]));
        let ws = words(x).push(w1);
        assert(w1.push(c) =~= w);
        assert(ws.last() == w1);
        assert(ws.update(ws.len() - 1, ws.last().push(c)) =~= words(x).push(w));
    }
}

proof fn lemma_words_of_joined(ws: Seq<Seq<char>>)
    requires
        forall|k: int| 0 <= k < ws.len() ==> (#[trigger] ws[k]).len() > 0,
        forall|k: int, i: int| 0 <= k < ws.len() && 0 <= i < ws[k].len() ==> !is_white(#[trigger] ws[k][i]),
    ensures
        words(join(ws, seq![' '])) == ws,
    decreases ws.len(),
{
    let sp = seq![' '];
    if ws.len() == 0 {
        assert(words(Seq::<char>::empty()) =~= Seq::<Seq<char>>::empty());
    } else if ws.len() == 1 {
        let w = ws[0];
        assert forall|i: int| 0 <= i < w.len() implies !is_white(#[trigger] w[i]) by {
            assert(ws[0][i] == w[i]);
        }
        lemma_words_append_word(Seq::<char>::empty(), w);
        assert(Seq::<char>::empty() + w =~= w);
        assert(words(Seq::<char>::empty()) =~= Seq::<Seq<char>>::empty());
        assert(Seq::<Seq<char>>::empty().push(w) =~= ws);
    } else {
        let init = ws.drop_last();
        let w = ws.last();
        assert forall|k: int| 0 <= k < init.len() implies (#[trigger] init[k]).len() > 0 by {
            assert(init[k] == ws[k]);
        }
        assert forall|k: int, i: int| 0 <= k < init.len() && 0 <= i < init[k].len() implies !is_white(
            #[trigger] init[k][i],
        ) by {
            assert(init[k] == ws[k]);
        }
        lemma_words_of_joined(init);
        assert(w == ws[ws.len() - 1]);
        assert forall|i: int| 0 <= i < w.len() implies !is_white(#[trigger] w[i]) by {
            assert(ws[ws.len() - 1][i] == w[i]);
        }
        let x = join(init, sp) + sp;
        assert(x.drop_last() =~= join(init, sp));
        assert(is_white(x.last()));
        assert(words(x) == words(join(init, sp)));
        lemma_words_append_word(x, w);
        assert(join(ws, sp) == x + w);
        assert(init.push(w) =~= ws);
    }
}

/// Parsing depends only on the words of a message: collapsing its whitespace
/// into single spaces changes nothing.
pub proof fn law_parse_reads_only_the_words(s: Seq<char>)
    ensures
        parsed(join(words(s), seq![' '])) == parsed(s),
{
    crate::text::lemma_words_nonempty(s);
    lemma_words_have_no_white(s);
    lemma_words_of_joined(words(s));
}

} // verus!
