use vstd::prelude::*;
use crate::parse::{all_digits, law_amount_groups, thousands_groups, without_dots};
use crate::text::join;

verus! {

/// The ASCII character of the decimal digit `d`.
pub open spec fn digit_char(d: int) -> char {
    (48 + d) as char
}

/// `n` written in decimal, most significant digit first, with no leading zeros
/// (zero itself is `"0"`).
pub open spec fn decimal(n: nat) -> Seq<char>
    decreases n,
{
    if n < 10 {
        seq![digit_char(n as int)]
    } else {
        decimal(n / 10).push(digit_char((n % 10) as int))
    }
}

/// `n` in decimal with a dot between each group of three digits, counted
/// from the right: `1234567` is `1.234.567`.
pub open spec fn grouped(n: nat) -> Seq<char>
    decreases n,
{
    if n < 1000 {
        decimal(n)
    } else {
        grouped(n / 1000) + seq!['.'] + decimal(1000 + n % 1000).drop_first()
    }
}

/// The magnitude of `amount`, which for `i64::MIN` does not fit an `i64`.
pub open spec fn magnitude(amount: int) -> nat {
    if amount < 0 { (-amount) as nat } else { amount as nat }
}

/// How an amount of pesos is shown: the sign, then `$`, then the grouped digits.
pub open spec fn amount_text(amount: int) -> Seq<char> {
    (if amount < 0 { seq!['-', '$'] } else { seq!['$'] }) + grouped(magnitude(amount))
}

fn digit(d: u64) -> (c: char)
    requires
        d < 10,
    ensures
        c == digit_char(d as int),
{
    ((d as u8) + 48u8) as char
}

pub(crate) fn push_decimal(n: u64, out: &mut Vec<char>)
    ensures
        final(out)@ == old(out)@ + decimal(n as nat),
    decreases n,
{
    if n < 10 {
        out.push(digit(n));
        assert(decimal(n as nat) =~= seq![digit_char(n as int)]);
    } else {
        push_decimal(n / 10, out);
        out.push(digit(n % 10));
    }
}

fn push_grouped(n: u64, out: &mut Vec<char>)
    ensures
        final(out)@ == old(out)@ + grouped(n as nat),
    decreases n,
{
    if n < 1000 {
        push_decimal(n, out);
    } else {
        push_grouped(n / 1000, out);
        out.push('.');
        let ghost mid = out@;
        let mut three: Vec<char> = Vec::new();
        push_decimal(1000 + n % 1000, &mut three);
        let mut i: usize = 1;
        while i < three.len()
            invariant
                1 <= i <= three.len(),
                out@ == mid + three@.subrange(1, i as int),
            decreases three.len() - i,
        {
            out.push(three[i]);
            assert(three@.subrange(1, i as int).push(three@[i as int]) =~= three@.subrange(1, i + 1));
            i += 1;
        }
        assert(three@.subrange(1, three@.len() as int) =~= decimal((1000 + n % 1000) as nat).drop_first());
    }
}

/// Appends the es-AR rendering of `amount`.
pub fn push_amount(amount: i64, out: &mut Vec<char>)
    ensures
        final(out)@ == old(out)@ + amount_text(amount as int),
{
    let ghost before = out@;
    if amount < 0 {
        out.push('-');
    }
    out.push('$');
    let mag: u64 = if amount >= 0 { amount as u64 } else { ((-(amount + 1)) as u64) + 1 };
    push_grouped(mag, out);
    assert(mag as nat == magnitude(amount as int));
    assert(out@ =~= before + amount_text(amount as int));
}

/// `n` in decimal, with a leading `-` when negative: what `{}` prints.
pub open spec fn int_text(n: int) -> Seq<char> {
    if n < 0 {
        seq!['-'] + decimal((-n) as nat)
    } else {
        decimal(n as nat)
    }
}

/// Appends `n` in decimal, as `{}` prints it.
pub fn push_int(n: i64, out: &mut Vec<char>)
    ensures
        final(out)@ == old(out)@ + int_text(n as int),
{
    let ghost before = out@;
    if n < 0 {
        out.push('-');
        let mag: u64 = ((-(n + 1)) as u64) + 1;
        push_decimal(mag, out);
    } else {
        push_decimal(n as u64, out);
    }
    assert(out@ =~= before + int_text(n as int));
}

/// es-AR currency rendering: dot as the thousands separator, no decimals,
/// because every amount the bot stores is a whole number of pesos; a minus
/// sign goes before the `$`.
pub fn format_amount(amount: i64) -> (s: String)
    ensures
        s@ == amount_text(amount as int),
{
    let mut out: Vec<char> = Vec::new();
    push_amount(amount, &mut out);
    assert(out@ =~= amount_text(amount as int));
    crate::text::string_of(&out)
}


/// How `format_amount` writes any amount: the sign outside the `$`, then
/// groups of digits separated by dots, the first of one to three digits and
/// every later one of exactly three, which without the dots are the
/// magnitude in decimal with no leading zero.
pub proof fn law_amount_text_shape(amount: int)
    ensures
        amount_text(amount) == (if amount < 0 { seq!['-', '$'] } else { seq!['$'] }) + join(
            thousands_groups(magnitude(amount)),
            seq!['.'],
        ),
        1 <= thousands_groups(magnitude(amount))[0].len() <= 3,
        forall|k: int| 1 <= k < thousands_groups(magnitude(amount)).len()
            ==> (#[trigger] thousands_groups(magnitude(amount))[k]).len() == 3,
        forall|k: int| 0 <= k < thousands_groups(magnitude(amount)).len()
            ==> all_digits(#[trigger] thousands_groups(magnitude(amount))[k]),
        without_dots(grouped(magnitude(amount))) == decimal(magnitude(amount)),
        magnitude(amount) > 0 ==> decimal(magnitude(amount))[0] != '0',
{
    law_amount_groups(magnitude(amount));
}

} // verus!
