use vstd::prelude::*;

verus! {

/// The characters of `s`, in order.
pub fn chars_of(s: &str) -> (v: Vec<char>)
    ensures
        v@ == s@,
{
    let mut v: Vec<char> = Vec::new();
    for c in it: s.chars()
        invariant
            v@ == it.seq().take(it.index() as int),
            it.seq() == s@,
    {
        v.push(c);
    }
    v
}

/// `String::push`: appends one character to a string.
#[verifier::external_body]
fn push_char(s: &mut String, c: char)
    ensures
        final(s)@ == old(s)@.push(c),
{
    s.push(c)
}

/// A string holding exactly the characters of `v`.
pub fn string_of(v: &Vec<char>) -> (s: String)
    ensures
        s@ == v@,
{
    let mut s = String::new();
    let mut i: usize = 0;
    while i < v.len()
        invariant
            i <= v.len(),
            s@ == v@.take(i as int),
        decreases v.len() - i,
    {
        push_char(&mut s, v[i]);
        assert(v@.take(i as int).push(v@[i as int]) =~= v@.take(i + 1));
        i += 1;
    }
    assert(v@.take(v.len() as int) =~= v@);
    s
}

} // verus!

verus! {

/// Unicode `White_Space`, the property `char::is_whitespace` reports.
pub open spec fn is_white(c: char) -> bool {
    ||| ('\t' <= c && c <= '\r')
    ||| c == ' '
    ||| c == '\u{85}'
    ||| c == '\u{a0}'
    ||| c == '\u{1680}'
    ||| ('\u{2000}' <= c && c <= '\u{200a}')
    ||| c == '\u{2028}'
    ||| c == '\u{2029}'
    ||| c == '\u{202f}'
    ||| c == '\u{205f}'
    ||| c == '\u{3000}'
}

/// Whether `c` is Unicode whitespace.
pub fn is_whitespace(c: char) -> (b: bool)
    ensures
        b == is_white(c),
{
    ('\t' <= c && c <= '\r') || c == ' ' || c == '\u{85}' || c == '\u{a0}' || c == '\u{1680}'
        || ('\u{2000}' <= c && c <= '\u{200a}') || c == '\u{2028}' || c == '\u{2029}'
        || c == '\u{202f}' || c == '\u{205f}' || c == '\u{3000}'
}

/// `s` without its leading whitespace.
pub open spec fn trim_start(s: Seq<char>) -> Seq<char>
    decreases s.len(),
{
    if s.len() > 0 && is_white(s[0]) {
        trim_start(s.drop_first())
    } else {
        s
    }
}

/// `s` without its trailing whitespace.
pub open spec fn trim_end(s: Seq<char>) -> Seq<char>
    decreases s.len(),
{
    if s.len() > 0 && is_white(s.last()) {
        trim_end(s.drop_last())
    } else {
        s
    }
}

/// `s` without leading or trailing whitespace.
pub open spec fn trim(s: Seq<char>) -> Seq<char> {
    trim_end(trim_start(s))
}

/// The maximal runs of non-whitespace characters of `s`, in order.
pub open spec fn words(s: Seq<char>) -> Seq<Seq<char>>
    decreases s.len(),
{
    if s.len() == 0 {
        seq![]
    } else {
        let w = words(s.drop_last());
        if is_white(s.last()) {
            w
        } else if s.len() >= 2 && !is_white(s[s.len() - 2]) {
            w.update(w.len() - 1, w.last().push(s.last()))
        } else {
            w.push(seq![s.last()])
        }
    }
}

/// The pieces of `ws` with `sep` between each two neighbours.
pub open spec fn join(ws: Seq<Seq<char>>, sep: Seq<char>) -> Seq<char>
    decreases ws.len(),
{
    if ws.len() == 0 {
        seq![]
    } else if ws.len() == 1 {
        ws[0]
    } else {
        join(ws.drop_last(), sep) + sep + ws.last()
    }
}

/// The views of a vector of character vectors.
pub open spec fn views(v: Seq<Vec<char>>) -> Seq<Seq<char>> {
    v.map_values(|w: Vec<char>| w@)
}

pub proof fn lemma_words_nonempty(s: Seq<char>)
    ensures
        forall|k: int| 0 <= k < words(s).len() ==> #[trigger] words(s)[k].len() > 0,
        s.len() > 0 && !is_white(s.last()) ==> words(s).len() > 0,
    decreases s.len(),
{
    if s.len() > 0 {
        let t = s.drop_last();
        lemma_words_nonempty(t);
        let w = words(t);
        if !is_white(s.last()) && s.len() >= 2 && !is_white(s[s.len() - 2]) {
            assert(t.last() == s[s.len() - 2]);
            assert(w.len() > 0);
            let u = w.update(w.len() - 1, w.last().push(s.last()));
            assert forall|k: int| 0 <= k < u.len() implies #[trigger] u[k].len() > 0 by {
                if k < w.len() - 1 {
                    assert(u[k] == w[k]);
                }
            }
        }
    }
}

/// The characters of `s` split into words, as `str::split_whitespace` does.
pub fn split_words(s: &Vec<char>) -> (ws: Vec<Vec<char>>)
    ensures
        views(ws@) == words(s@),
{
    let mut ws: Vec<Vec<char>> = Vec::new();
    let mut cur: Vec<char> = Vec::new();
    let mut i: usize = 0;
    while i < s.len()
        invariant
            i <= s.len(),
            cur@.len() > 0 ==> i > 0 && !is_white(s@[i - 1]),
            i > 0 && !is_white(s@[i - 1]) ==> cur@.len() > 0,
            cur@.len() > 0 ==> words(s@.take(i as int)) == views(ws@).push(cur@),
            cur@.len() == 0 ==> words(s@.take(i as int)) == views(ws@),
        decreases s.len() - i,
    {
        let c = s[i];
        let ghost prev = s@.take(i as int);
        let ghost next = s@.take(i + 1);
        assert(next.drop_last() =~= prev);
        assert(next.last() == c);
        if is_whitespace(c) {
            if cur.len() > 0 {
                let ghost before = ws@;
                ws.push(cur);
                assert(views(ws@) =~= views(before).push(cur@));
                cur = Vec::new();
            }
        } else {
            if cur.len() > 0 {
                assert(next[next.len() - 2] == s@[i - 1]);
            } else if i > 0 {
                assert(next[next.len() - 2] == s@[i - 1]);
            }
            let ghost old_cur = cur@;
            cur.push(c);
            proof {
                if old_cur.len() > 0 {
                    let w = views(ws@).push(old_cur);
                    assert(w.update(w.len() - 1, w.last().push(c)) =~= views(ws@).push(cur@));
                } else {
                    assert(cur@ =~= seq![c]);
                }
            }
        }
        i += 1;
    }
    assert(s@.take(s.len() as int) =~= s@);
    if cur.len() > 0 {
        let ghost before = ws@;
        ws.push(cur);
        assert(views(ws@) =~= views(before).push(cur@));
    }
    ws
}

} // verus!

verus! {

/// The characters `v[from..to]`.
pub fn copy_range(v: &Vec<char>, from: usize, to: usize) -> (r: Vec<char>)
    requires
        from <= to <= v.len(),
    ensures
        r@ == v@.subrange(from as int, to as int),
{
    let mut r: Vec<char> = Vec::new();
    let mut i: usize = from;
    while i < to
        invariant
            from <= i <= to <= v.len(),
            r@ == v@.subrange(from as int, i as int),
        decreases to - i,
    {
        r.push(v[i]);
        assert(v@.subrange(from as int, i as int).push(v@[i as int]) =~= v@.subrange(from as int, i + 1));
        i += 1;
    }
    r
}

/// `v` without leading and trailing whitespace, as `str::trim` leaves it.
pub fn trimmed(v: &Vec<char>) -> (r: Vec<char>)
    ensures
        r@ == trim(v@),
{
    let mut a: usize = 0;
    assert(v@.skip(0) =~= v@);
    while a < v.len() && is_whitespace(v[a])
        invariant
            a <= v.len(),
            trim_start(v@) == trim_start(v@.skip(a as int)),
        decreases v.len() - a,
    {
        assert(v@.skip(a as int).drop_first() =~= v@.skip(a + 1));
        a += 1;
    }
    assert(trim_start(v@) == v@.skip(a as int)) by {
        if a < v.len() {
            assert(v@.skip(a as int)[0] == v@[a as int]);
        }
    }
    let mut b: usize = v.len();
    assert(v@.skip(a as int) =~= v@.subrange(a as int, b as int));
    while b > a && is_whitespace(v[b - 1])
        invariant
            a <= b <= v.len(),
            trim(v@) == trim_end(v@.subrange(a as int, b as int)),
        decreases b - a,
    {
        assert(v@.subrange(a as int, b as int).drop_last() =~= v@.subrange(a as int, b - 1));
        b -= 1;
    }
    copy_range(v, a, b)
}

/// Whether the characters of `v` are exactly those of `text`.
pub fn same_text(v: &Vec<char>, text: &str) -> (b: bool)
    ensures
        b == (v@ == text@),
{
    let n = text.unicode_len();
    if n != v.len() {
        return false;
    }
    let mut i: usize = 0;
    while i < n
        invariant
            i <= n,
            n == v.len(),
            n == text@.len(),
            forall|k: int| 0 <= k < i ==> v@[k] == text@[k],
        decreases n - i,
    {
        if v[i] != text.get_char(i) {
            return false;
        }
        i += 1;
    }
    assert(v@ =~= text@);
    true
}

/// Joins `ws` with `sep` between neighbours, as `[String]::join` does.
pub fn join_with(ws: &Vec<Vec<char>>, sep: char) -> (r: Vec<char>)
    ensures
        r@ == join(views(ws@), seq![sep]),
{
    let mut r: Vec<char> = Vec::new();
    let mut i: usize = 0;
    while i < ws.len()
        invariant
            i <= ws.len(),
            r@ == join(views(ws@).take(i as int), seq![sep]),
        decreases ws.len() - i,
    {
        let ghost before = r@;
        if i > 0 {
            r.push(sep);
        }
        let w = &ws[i];
        let mut j: usize = 0;
        let ghost mid = r@;
        while j < w.len()
            invariant
                j <= w.len(),
                r@ == mid + w@.take(j as int),
            decreases w.len() - j,
        {
            r.push(w[j]);
            assert(w@.take(j as int).push(w@[j as int]) =~= w@.take(j + 1));
            j += 1;
        }
        proof {
            assert(w@.take(w@.len() as int) =~= w@);
            let t = views(ws@).take(i + 1);
            assert(t.drop_last() =~= views(ws@).take(i as int));
            assert(t.last() == ws@[i as int]@);
            if i == 0 {
                assert(r@ =~= t[0]);
            } else {
                assert(r@ =~= before + seq![sep] + t.last());
            }
        }
        i += 1;
    }
    assert(views(ws@).take(ws.len() as int) =~= views(ws@));
    r
}

} // verus!

verus! {

/// Appends the characters of `s`.
pub fn push_str(out: &mut Vec<char>, s: &str)
    ensures
        final(out)@ == old(out)@ + s@,
{
    let ghost before = out@;
    for c in it: s.chars()
        invariant
            out@ == before + it.seq().take(it.index() as int),
            it.seq() == s@,
    {
        out.push(c);
    }
    assert(s@.take(s@.len() as int) =~= s@);
}

/// Appends the characters of `v`.
pub fn push_chars(out: &mut Vec<char>, v: &Vec<char>)
    ensures
        final(out)@ == old(out)@ + v@,
{
    let ghost before = out@;
    let mut i: usize = 0;
    while i < v.len()
        invariant
            i <= v.len(),
            out@ == before + v@.take(i as int),
        decreases v.len() - i,
    {
        out.push(v[i]);
        assert(v@.take(i as int).push(v@[i as int]) =~= v@.take(i + 1));
        i += 1;
    }
    assert(v@.take(v.len() as int) =~= v@);
}

} // verus!
