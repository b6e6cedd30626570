use vstd::prelude::*;
use crate::config::{category_name, lowercase, weekly_limit, Category};
use crate::dates::{
    day_month_text, first_index_of, iso_text, local_date, local_date_spec, month_key_parsed,
    month_key_text, unsigned_value, weekday_index, Date,
};
use crate::db::{request_of, AddOutcome, BotError, CategoryTotal, Db, ExpenseRow, NewExpense, StoreAnswer, StoreRequest};
use crate::parse::{all_digits, digit_value, parse_message, parsed, ParseResult, ParsedMessage};
use crate::text::{is_white, is_whitespace, same_text, trim, trimmed};
use crate::money::{amount_text, int_text, push_amount, push_int};
use crate::text::{chars_of, copy_range, join, push_chars, push_str, string_of, views};

verus! {

/// Telegram rejects a sendMessage body longer than this many characters.
pub const TELEGRAM_MAX_CHARS: usize = 4096;

/// The lines of a text scanned so far: the finished ones, and the one in
/// progress.
pub open spec fn line_scan(s: Seq<char>) -> (Seq<Seq<char>>, Seq<char>)
    decreases s.len(),
{
    if s.len() == 0 {
        (seq![], seq![])
    } else {
        let (done, cur) = line_scan(s.drop_last());
        if s.last() == '\n' {
            (done.push(strip_cr(cur)), seq![])
        } else {
            (done, cur.push(s.last()))
        }
    }
}

/// A line that ended in `\r\n` loses its `\r`.
pub open spec fn strip_cr(l: Seq<char>) -> Seq<char> {
    if l.len() > 0 && l.last() == '\r' {
        l.drop_last()
    } else {
        l
    }
}

/// The lines of `s`, as `str::lines` yields them: split at `\n` or `\r\n`,
/// terminators dropped, and a final line ending optional.
pub open spec fn lines(s: Seq<char>) -> Seq<Seq<char>> {
    let (done, cur) = line_scan(s);
    if cur.len() > 0 {
        done.push(cur)
    } else {
        done
    }
}

/// A line cut into pieces of at most `TELEGRAM_MAX_CHARS` characters.
pub open spec fn line_pieces(l: Seq<char>) -> Seq<Seq<char>>
    decreases l.len(),
{
    if l.len() <= TELEGRAM_MAX_CHARS {
        seq![l]
    } else {
        seq![l.take(TELEGRAM_MAX_CHARS as int)] + line_pieces(l.skip(TELEGRAM_MAX_CHARS as int))
    }
}

/// Every line of `ls` cut into pieces, in order.
pub open spec fn pieces(ls: Seq<Seq<char>>) -> Seq<Seq<char>>
    decreases ls.len(),
{
    if ls.len() == 0 {
        seq![]
    } else {
        pieces(ls.drop_last()) + line_pieces(ls.last())
    }
}

/// Greedy packing of pieces into messages: a piece joins the message in
/// progress, after a newline, unless that would make it longer than the
/// limit, in which case the message is closed first.
pub open spec fn pack(ps: Seq<Seq<char>>) -> (Seq<Seq<char>>, Seq<char>)
    decreases ps.len(),
{
    if ps.len() == 0 {
        (seq![], seq![])
    } else {
        let (cs, cur) = pack(ps.drop_last());
        let p = ps.last();
        let (cs2, cur2) = if cur.len() > 0 && cur.len() + 1 + p.len() > TELEGRAM_MAX_CHARS {
            (cs.push(cur), seq![])
        } else {
            (cs, cur)
        };
        (cs2, if cur2.len() > 0 { cur2 + seq!['\n'] + p } else { cur2 + p })
    }
}

/// The messages a reply is sent as.
pub open spec fn message_chunks(s: Seq<char>) -> Seq<Seq<char>> {
    let (cs, cur) = pack(pieces(lines(s)));
    if cur.len() > 0 || cs.len() == 0 {
        cs.push(cur)
    } else {
        cs
    }
}

proof fn lemma_line_pieces_fit(l: Seq<char>)
    ensures
        forall|k: int| 0 <= k < line_pieces(l).len() ==> #[trigger] line_pieces(l)[k].len() <= TELEGRAM_MAX_CHARS,
    decreases l.len(),
{
    if l.len() > TELEGRAM_MAX_CHARS {
        lemma_line_pieces_fit(l.skip(TELEGRAM_MAX_CHARS as int));
        let r = line_pieces(l.skip(TELEGRAM_MAX_CHARS as int));
        assert forall|k: int| 0 <= k < line_pieces(l).len() implies #[trigger] line_pieces(l)[k].len() <= TELEGRAM_MAX_CHARS by {
            if k > 0 {
                assert(line_pieces(l)[k] == r[k - 1]);
            }
        }
    }
}

/// No piece is longer than one message.
pub proof fn lemma_pieces_fit(ls: Seq<Seq<char>>)
    ensures
        forall|k: int| 0 <= k < pieces(ls).len() ==> #[trigger] pieces(ls)[k].len() <= TELEGRAM_MAX_CHARS,
    decreases ls.len(),
{
    if ls.len() > 0 {
        lemma_pieces_fit(ls.drop_last());
        lemma_line_pieces_fit(ls.last());
        let a = pieces(ls.drop_last());
        let b = line_pieces(ls.last());
        assert forall|k: int| 0 <= k < pieces(ls).len() implies #[trigger] pieces(ls)[k].len() <= TELEGRAM_MAX_CHARS by {
            if k < a.len() {
                assert(pieces(ls)[k] == a[k]);
            } else {
                assert(pieces(ls)[k] == b[k - a.len()]);
            }
        }
    }
}

/// The pieces of `lines`, each at most `TELEGRAM_MAX_CHARS` long.
fn hard_split(line: &Vec<char>, out: &mut Vec<Vec<char>>)
    ensures
        views(final(out)@) == views(old(out)@) + line_pieces(line@),
{
    let mut start: usize = 0;
    let ghost first = views(out@);
    assert(line@.skip(0) =~= line@);
    while line.len() - start > TELEGRAM_MAX_CHARS
        invariant
            start <= line.len(),
            views(old(out)@) + line_pieces(line@) == views(out@) + line_pieces(line@.skip(start as int)),
        decreases line.len() - start,
    {
        let ghost rest = line@.skip(start as int);
        let piece = copy_range(line, start, start + TELEGRAM_MAX_CHARS);
        let ghost before = out@;
        out.push(piece);
        proof {
            assert(piece@ =~= rest.take(TELEGRAM_MAX_CHARS as int));
            assert(rest.skip(TELEGRAM_MAX_CHARS as int) =~= line@.skip(start + TELEGRAM_MAX_CHARS));
            assert(views(out@) =~= views(before).push(piece@));
            assert(line_pieces(rest) == seq![rest.take(TELEGRAM_MAX_CHARS as int)] + line_pieces(rest.skip(TELEGRAM_MAX_CHARS as int)));
            assert(views(before) + line_pieces(rest) =~= views(out@) + line_pieces(rest.skip(TELEGRAM_MAX_CHARS as int)));
        }
        start = start + TELEGRAM_MAX_CHARS;
    }
    let piece = copy_range(line, start, line.len());
    let ghost before = out@;
    out.push(piece);
    proof {
        let rest = line@.skip(start as int);
        assert(piece@ =~= rest);
        assert(line_pieces(rest) == seq![rest]);
        assert(views(out@) =~= views(before) + line_pieces(rest));
    }
}

/// The lines of `text`, with any single line that already exceeds one message
/// hard-split so the caller can assume every line fits.
fn lines_within_limit(text: &Vec<char>) -> (r: Vec<Vec<char>>)
    ensures
        views(r@) == pieces(lines(text@)),
{
    let mut out: Vec<Vec<char>> = Vec::new();
    let mut cur: Vec<char> = Vec::new();
    let mut i: usize = 0;
    while i < text.len()
        invariant
            i <= text.len(),
            line_scan(text@.take(i as int)).1 == cur@,
            views(out@) == pieces(line_scan(text@.take(i as int)).0),
        decreases text.len() - i,
    {
        let c = text[i];
        let ghost prev = text@.take(i as int);
        assert(text@.take(i + 1).drop_last() =~= prev);
        if c == '\n' {
            if cur.len() > 0 && cur[cur.len() - 1] == '\r' {
                cur.pop();
            }
            let ghost done = line_scan(prev).0;
            assert(cur@ =~= strip_cr(line_scan(prev).1));
            hard_split(&cur, &mut out);
            assert(done.push(cur@).drop_last() =~= done);
            cur = Vec::new();
        } else {
            cur.push(c);
        }
        i += 1;
    }
    assert(text@.take(text.len() as int) =~= text@);
    if cur.len() > 0 {
        let ghost done = line_scan(text@).0;
        hard_split(&cur, &mut out);
        assert(done.push(cur@).drop_last() =~= done);
    }
    out
}

/// Breaks a reply into sendable messages. `/ultimos 100` can exceed Telegram's
/// limit, and the API rejects the whole message rather than truncating it.
pub fn split_message(text: &str) -> (r: Vec<String>)
    ensures
        r@.map_values(|s: String| s@) == message_chunks(text@),
{
    let ps = lines_within_limit(&chars_of(text));
    let ghost all = views(ps@);
    proof {
        lemma_pieces_fit(lines(text@));
    }
    let mut chunks: Vec<String> = Vec::new();
    let mut current: Vec<char> = Vec::new();
    let mut i: usize = 0;
    while i < ps.len()
        invariant
            i <= ps.len(),
            all == views(ps@),
            all == pieces(lines(text@)),
            forall|k: int| 0 <= k < all.len() ==> #[trigger] all[k].len() <= TELEGRAM_MAX_CHARS,
            current@.len() <= TELEGRAM_MAX_CHARS,
            pack(all.take(i as int)) == (chunks@.map_values(|s: String| s@), current@),
        decreases ps.len() - i,
    {
        let line = &ps[i];
        assert(line@.len() == all[i as int].len());
        let ghost before_chunks = chunks@.map_values(|s: String| s@);
        let ghost before_cur = current@;
        assert(all.take(i + 1).drop_last() =~= all.take(i as int));
        assert(all.take(i + 1).last() == line@);
        if current.len() > 0 && current.len() + 1 + line.len() > TELEGRAM_MAX_CHARS {
            let s = string_of(&current);
            chunks.push(s);
            assert(chunks@.map_values(|s: String| s@) =~= before_chunks.push(before_cur));
            current = Vec::new();
        }
        let ghost mid = current@;
        if current.len() > 0 {
            current.push('\n');
        }
        let mut j: usize = 0;
        let ghost base = current@;
        while j < line.len()
            invariant
                j <= line.len(),
                current@ == base + line@.take(j as int),
            decreases line.len() - j,
        {
            current.push(line[j]);
            assert(line@.take(j as int).push(line@[j as int]) =~= line@.take(j + 1));
            j += 1;
        }
        assert(line@.take(line.len() as int) =~= line@);
        proof {
            if mid.len() > 0 {
                assert(current@ =~= mid + seq!['\n'] + line@);
            } else {
                assert(current@ =~= mid + line@);
            }
        }
        i += 1;
    }
    assert(all.take(ps.len() as int) =~= all);
    if current.len() > 0 || chunks.len() == 0 {
        let ghost before_chunks = chunks@.map_values(|s: String| s@);
        let s = string_of(&current);
        chunks.push(s);
        assert(chunks@.map_values(|s: String| s@) =~= before_chunks.push(current@));
    }
    chunks
}


/// What the bot wants to send back. Handlers build this from data alone.
#[derive(Debug, Clone, PartialEq, Eq)]
pub enum Reply {
    Text(String),
    Csv { filename: String, content: String, caption: String },
}

/// A `Reply` with its strings taken as character sequences.
pub enum ReplyView {
    Text(Seq<char>),
    Csv { filename: Seq<char>, content: Seq<char>, caption: Seq<char> },
}

impl View for Reply {
    type V = ReplyView;

    open spec fn view(&self) -> ReplyView {
        match self {
            Reply::Text(t) => ReplyView::Text(t@),
            Reply::Csv { filename, content, caption } => ReplyView::Csv {
                filename: filename@,
                content: content@,
                caption: caption@,
            },
        }
    }
}

/// The weekly cap of a category, as `weekly_limit` returns it.
pub open spec fn limit_of(c: Category) -> Option<int> {
    if c == Category::Comida { Some(100_000) } else { None }
}

/// ASCII letters upper-cased, everything else kept.
pub open spec fn ascii_upper(s: Seq<char>) -> Seq<char> {
    s.map_values(|c: char| if 'a' <= c && c <= 'z' { ((c as int) - 32) as char } else { c })
}

/// The warning for the expense that takes a category's week total from below
/// its limit to the limit or above; nothing for any other expense.
pub open spec fn alert_text(c: Category, week: Date, before: int, after: int) -> Option<Seq<char>> {
    match limit_of(c) {
        None => None,
        Some(limit) => if before >= limit || after < limit {
            None
        } else {
            Some("Limite semanal de "@ + ascii_upper(category_name(c)) + " superado\nSemana del "@
                + day_month_text(week) + ": "@ + amount_text(after) + " de "@ + amount_text(limit)
                + " (+"@ + amount_text(after - limit) + ")"@)
        },
    }
}

fn push_ascii_upper(out: &mut Vec<char>, s: &str)
    ensures
        final(out)@ == old(out)@ + ascii_upper(s@),
{
    let v = chars_of(s);
    let ghost before = out@;
    let mut i: usize = 0;
    while i < v.len()
        invariant
            i <= v.len(),
            v@ == s@,
            out@ == before + ascii_upper(v@.take(i as int)),
        decreases v.len() - i,
    {
        let c = v[i];
        let u = if 'a' <= c && c <= 'z' { ((c as u32 - 32) as u8) as char } else { c };
        out.push(u);
        assert(ascii_upper(v@.take(i + 1)) =~= ascii_upper(v@.take(i as int)).push(u));
        i += 1;
    }
    assert(v@.take(v.len() as int) =~= v@);
}

/// The weekly-limit warning, or `None` when this expense is not the one that
/// crosses the line. Deriving it from the two totals means it fires exactly
/// once per crossing and needs no stored state.
pub fn limit_alert(category: Category, week_start: Date, before: i64, after: i64) -> (r: Option<String>)
    requires
        week_start.is_calendar(),
    ensures
        match alert_text(category, week_start, before as int, after as int) {
            Some(t) => r matches Some(s) && s@ == t,
            None => r is None,
        },
{
    let limit = match weekly_limit(category) {
        Some(limit) => limit,
        None => return None,
    };
    if before >= limit || after < limit {
        return None;
    }
    let mut out: Vec<char> = Vec::new();
    push_str(&mut out, "Limite semanal de ");
    push_ascii_upper(&mut out, category.as_str());
    push_str(&mut out, " superado\nSemana del ");
    push_str(&mut out, crate::dates::day_month(week_start).as_str());
    push_str(&mut out, ": ");
    push_amount(after, &mut out);
    push_str(&mut out, " de ");
    push_amount(limit, &mut out);
    push_str(&mut out, " (+");
    push_amount(after - limit, &mut out);
    push_str(&mut out, ")");
    let s = string_of(&out);
    assert(s@ =~= alert_text(category, week_start, before as int, after as int)->0);
    Some(s)
}

/// The sum of the totals.
pub open spec fn totals_sum(ts: Seq<CategoryTotal>) -> int
    decreases ts.len(),
{
    if ts.len() == 0 {
        0
    } else {
        totals_sum(ts.drop_last()) + ts.last().total
    }
}

/// One category's line of a report; the weekly report adds the limit.
pub open spec fn entry_text(e: CategoryTotal, with_limits: bool) -> Seq<char> {
    "\n- "@ + category_name(e.category) + ": "@ + amount_text(e.total as int) + (
    if with_limits && limit_of(e.category) is Some {
        " / "@ + amount_text(limit_of(e.category)->0)
    } else {
        seq![]
    })
}

pub open spec fn entries_text(ts: Seq<CategoryTotal>, with_limits: bool) -> Seq<char>
    decreases ts.len(),
{
    if ts.len() == 0 {
        seq![]
    } else {
        entries_text(ts.drop_last(), with_limits) + entry_text(ts.last(), with_limits)
    }
}

/// One shared shape for `/hoy`, `/semana` and `/mes`: the title, then the sum
/// and one line per category, or `sin gastos`. Nothing when the sum does not
/// fit an `i64`.
pub open spec fn report_text(title: Seq<char>, ts: Seq<CategoryTotal>, with_limits: bool) -> Option<Seq<char>> {
    if ts.len() == 0 {
        Some(title + ": sin gastos"@)
    } else if i64::MIN <= totals_sum(ts) <= i64::MAX {
        Some(title + ": "@ + amount_text(totals_sum(ts)) + entries_text(ts, with_limits))
    } else {
        None
    }
}

proof fn lemma_totals_sum_bound(ts: Seq<CategoryTotal>)
    ensures
        -(ts.len() as int) * 0x8000_0000_0000_0000 <= totals_sum(ts) <= (ts.len() as int) * 0x8000_0000_0000_0000,
    decreases ts.len(),
{
    if ts.len() > 0 {
        lemma_totals_sum_bound(ts.drop_last());
    }
}

/// The text of a report titled `title` of these totals: `None` when their sum
/// does not fit an `i64`.
pub fn report(title: &Vec<char>, totals: &Vec<CategoryTotal>, with_limits: bool) -> (r: Option<String>)
    ensures
        match report_text(title@, totals@, with_limits) {
            Some(t) => r matches Some(s) && s@ == t,
            None => r is None,
        },
{
    let mut out: Vec<char> = Vec::new();
    push_chars(&mut out, title);
    if totals.len() == 0 {
        push_str(&mut out, ": sin gastos");
        return Some(string_of(&out));
    }
    let mut sum: i128 = 0;
    let mut i: usize = 0;
    while i < totals.len()
        invariant
            i <= totals@.len() <= usize::MAX,
            sum as int == totals_sum(totals@.take(i as int)),
        decreases totals.len() - i,
    {
        proof {
            assert(totals@.take(i + 1).drop_last() =~= totals@.take(i as int));
            lemma_totals_sum_bound(totals@.take(i as int));
        }
        sum = sum + totals[i].total as i128;
        i += 1;
    }
    assert(totals@.take(totals.len() as int) =~= totals@);
    if sum < i64::MIN as i128 || sum > i64::MAX as i128 {
        return None;
    }
    push_str(&mut out, ": ");
    push_amount(sum as i64, &mut out);
    let ghost head = out@;
    let mut j: usize = 0;
    while j < totals.len()
        invariant
            j <= totals@.len(),
            out@ == head + entries_text(totals@.take(j as int), with_limits),
        decreases totals.len() - j,
    {
        let entry = totals[j];
        let ghost before = out@;
        push_str(&mut out, "\n- ");
        push_str(&mut out, entry.category.as_str());
        push_str(&mut out, ": ");
        push_amount(entry.total, &mut out);
        if with_limits {
            if let Some(limit) = weekly_limit(entry.category) {
                push_str(&mut out, " / ");
                push_amount(limit, &mut out);
            }
        }
        proof {
            assert(out@ =~= before + entry_text(entry, with_limits));
            assert(totals@.take(j + 1).drop_last() =~= totals@.take(j as int));
        }
        j += 1;
    }
    assert(totals@.take(totals.len() as int) =~= totals@);
    let s = string_of(&out);
    assert(s@ =~= report_text(title@, totals@, with_limits)->0);
    Some(s)
}

/// How a stored row is listed: `#2 20/07 $12.000 super - description`.
pub open spec fn row_text(row: ExpenseRow) -> Seq<char> {
    "#"@ + int_text(row.id as int) + " "@ + day_month_text(row.local_date) + " "@ + amount_text(row.amount as int)
        + " "@ + category_name(row.category) + (if row.description@.len() > 0 {
        " - "@ + row.description@
    } else {
        seq![]
    })
}

fn push_row(out: &mut Vec<char>, row: &ExpenseRow)
    requires
        row.local_date.is_calendar(),
    ensures
        final(out)@ == old(out)@ + row_text(*row),
{
    let ghost before = out@;
    push_str(out, "#");
    push_int(row.id, out);
    push_str(out, " ");
    push_str(out, crate::dates::day_month(row.local_date).as_str());
    push_str(out, " ");
    push_amount(row.amount, out);
    push_str(out, " ");
    push_str(out, row.category.as_str());
    if row.description.as_str().unicode_len() > 0 {
        push_str(out, " - ");
        push_str(out, row.description.as_str());
    }
    assert(out@ =~= before + row_text(*row));
}

/// The text of one listed row.
pub fn format_row(row: &ExpenseRow) -> (s: String)
    requires
        row.local_date.is_calendar(),
    ensures
        s@ == row_text(*row),
{
    let mut out: Vec<char> = Vec::new();
    push_row(&mut out, row);
    assert(out@ =~= row_text(*row));
    string_of(&out)
}

/// A CSV field needs quotes when it holds a comma, a quote or a line break.
pub open spec fn needs_quotes(v: Seq<char>) -> bool {
    exists|i: int| 0 <= i < v.len() && (v[i] == ',' || v[i] == '"' || v[i] == '\n' || v[i] == '\r')
}

/// Every `"` doubled.
pub open spec fn double_quotes(v: Seq<char>) -> Seq<char>
    decreases v.len(),
{
    if v.len() == 0 {
        seq![]
    } else if v.last() == '"' {
        double_quotes(v.drop_last()) + seq!['"', '"']
    } else {
        double_quotes(v.drop_last()).push(v.last())
    }
}

/// A field written as CSV: quoted, with inner quotes doubled, only when needed.
pub open spec fn csv_field_text(v: Seq<char>) -> Seq<char> {
    if needs_quotes(v) {
        seq!['"'] + double_quotes(v) + seq!['"']
    } else {
        v
    }
}

fn push_csv_field(out: &mut Vec<char>, value: &str)
    ensures
        final(out)@ == old(out)@ + csv_field_text(value@),
{
    let v = chars_of(value);
    let mut quote = false;
    let mut i: usize = 0;
    while i < v.len()
        invariant
            i <= v.len(),
            quote == exists|k: int| 0 <= k < i && (v@[k] == ',' || v@[k] == '"' || v@[k] == '\n' || v@[k] == '\r'),
        decreases v.len() - i,
    {
        let c = v[i];
        if c == ',' || c == '"' || c == '\n' || c == '\r' {
            quote = true;
        }
        i += 1;
    }
    assert(v@ == value@);
    if !quote {
        push_chars(out, &v);
        return;
    }
    let ghost before = out@;
    out.push('"');
    let mut j: usize = 0;
    while j < v.len()
        invariant
            j <= v.len(),
            out@ == before + seq!['"'] + double_quotes(v@.take(j as int)),
        decreases v.len() - j,
    {
        assert(v@.take(j + 1).drop_last() =~= v@.take(j as int));
        if v[j] == '"' {
            out.push('"');
            out.push('"');
        } else {
            out.push(v[j]);
        }
        proof {
            let t = v@.take(j + 1);
            if v@[j as int] == '"' {
                assert(double_quotes(t) == double_quotes(t.drop_last()) + seq!['"', '"']);
            }
            assert(out@ =~= before + seq!['"'] + double_quotes(t));
        }
        j += 1;
    }
    assert(v@.take(v.len() as int) =~= v@);
    out.push('"');
    assert(out@ =~= before + csv_field_text(value@));
}

/// The text of a CSV field.
pub fn csv_field(value: &str) -> (s: String)
    ensures
        s@ == csv_field_text(value@),
{
    let mut out: Vec<char> = Vec::new();
    push_csv_field(&mut out, value);
    assert(out@ =~= csv_field_text(value@));
    string_of(&out)
}

/// One CSV record of a row.
pub open spec fn csv_line(row: ExpenseRow) -> Seq<char> {
    int_text(row.id as int) + ","@ + iso_text(row.local_date) + ","@ + category_name(row.category) + ","@
        + csv_field_text(row.description@) + ","@ + int_text(row.amount as int) + "\n"@
}

pub open spec fn csv_lines(rows: Seq<ExpenseRow>) -> Seq<char>
    decreases rows.len(),
{
    if rows.len() == 0 {
        seq![]
    } else {
        csv_lines(rows.drop_last()) + csv_line(rows.last())
    }
}

/// The export: a header, then one record per row in order.
pub open spec fn csv_text(rows: Seq<ExpenseRow>) -> Seq<char> {
    "id,fecha,categoria,descripcion,monto\n"@ + csv_lines(rows)
}

fn push_csv_line(out: &mut Vec<char>, row: &ExpenseRow)
    requires
        row.local_date.is_calendar(),
    ensures
        final(out)@ == old(out)@ + csv_line(*row),
{
    let ghost before = out@;
    push_int(row.id, out);
    push_str(out, ",");
    push_str(out, crate::dates::iso(row.local_date).as_str());
    push_str(out, ",");
    push_str(out, row.category.as_str());
    push_str(out, ",");
    push_csv_field(out, row.description.as_str());
    push_str(out, ",");
    push_int(row.amount, out);
    push_str(out, "\n");
    assert(out@ =~= before + csv_line(*row));
}

/// Writes the rows as CSV.
pub fn to_csv(rows: &Vec<ExpenseRow>) -> (s: String)
    requires
        forall|i: int| 0 <= i < rows@.len() ==> (#[trigger] rows@[i]).local_date.is_calendar(),
    ensures
        s@ == csv_text(rows@),
{
    let mut out: Vec<char> = Vec::new();
    push_str(&mut out, "id,fecha,categoria,descripcion,monto\n");
    let ghost head = out@;
    let mut i: usize = 0;
    while i < rows.len()
        invariant
            i <= rows@.len(),
            forall|k: int| 0 <= k < rows@.len() ==> (#[trigger] rows@[k]).local_date.is_calendar(),
            out@ == head + csv_lines(rows@.take(i as int)),
        decreases rows.len() - i,
    {
        push_csv_line(&mut out, &rows[i]);
        assert(rows@.take(i + 1).drop_last() =~= rows@.take(i as int));
        i += 1;
    }
    assert(rows@.take(rows.len() as int) =~= rows@);
    let s = string_of(&out);
    assert(s@ =~= csv_text(rows@));
    s
}


/// The category names, comma separated, in their fixed order.
pub open spec fn category_list_text() -> Seq<char> {
    category_name(Category::Cafe) + ", "@ + category_name(Category::Comida) + ", "@
        + category_name(Category::Transporte) + ", "@ + category_name(Category::Salud) + ", "@
        + category_name(Category::Super) + ", "@ + category_name(Category::Otros)
}

/// The format reminder.
pub open spec fn hint_text() -> Seq<char> {
    "Formato: <monto> <categoria> [descripcion]\nEjemplos: 4500 cafe con Juan | 1.500 transporte subte | 1,5k super\nCategorias: "@
        + category_list_text()
}

/// The format reminder and the list of commands.
pub open spec fn help_text_of() -> Seq<char> {
    hint_text() + "\n\nComandos:\n/hoy - total de hoy por categoria\n/semana - total de la semana (lunes a domingo)\n/mes [YYYY-MM] - total del mes\n/ultimos [n] - ultimos gastos con su id\n/borrar [id] - borra el ultimo gasto, o el que indiques\n/export [YYYY-MM] - descarga el mes en CSV\n/ayuda - este mensaje"@
}

fn push_category_list(out: &mut Vec<char>)
    ensures
        final(out)@ == old(out)@ + category_list_text(),
{
    let ghost before = out@;
    push_str(out, Category::Cafe.as_str());
    push_str(out, ", ");
    push_str(out, Category::Comida.as_str());
    push_str(out, ", ");
    push_str(out, Category::Transporte.as_str());
    push_str(out, ", ");
    push_str(out, Category::Salud.as_str());
    push_str(out, ", ");
    push_str(out, Category::Super.as_str());
    push_str(out, ", ");
    push_str(out, Category::Otros.as_str());
    assert(out@ =~= before + category_list_text());
}

fn push_hint(out: &mut Vec<char>)
    ensures
        final(out)@ == old(out)@ + hint_text(),
{
    let ghost before = out@;
    push_str(
        out,
        "Formato: <monto> <categoria> [descripcion]\n\
         Ejemplos: 4500 cafe con Juan | 1.500 transporte subte | 1,5k super\n\
         Categorias: ",
    );
    push_category_list(out);
    assert(out@ =~= before + hint_text());
}

fn push_help(out: &mut Vec<char>)
    ensures
        final(out)@ == old(out)@ + help_text_of(),
{
    let ghost before = out@;
    push_hint(out);
    push_str(
        out,
        "\n\n\
         Comandos:\n\
         /hoy - total de hoy por categoria\n\
         /semana - total de la semana (lunes a domingo)\n\
         /mes [YYYY-MM] - total del mes\n\
         /ultimos [n] - ultimos gastos con su id\n\
         /borrar [id] - borra el ultimo gasto, o el que indiques\n\
         /export [YYYY-MM] - descarga el mes en CSV\n\
         /ayuda - este mensaje",
    );
    assert(out@ =~= before + help_text_of());
}

/// The list of valid categories, as the replies show it.
pub fn category_list() -> (s: String)
    ensures
        s@ == category_list_text(),
{
    let mut out: Vec<char> = Vec::new();
    push_category_list(&mut out);
    assert(out@ =~= category_list_text());
    string_of(&out)
}

/// The format reminder.
pub fn format_hint() -> (s: String)
    ensures
        s@ == hint_text(),
{
    let mut out: Vec<char> = Vec::new();
    push_hint(&mut out);
    assert(out@ =~= hint_text());
    string_of(&out)
}

/// The reply to `/ayuda`.
pub fn help_text() -> (s: String)
    ensures
        s@ == help_text_of(),
{
    let mut out: Vec<char> = Vec::new();
    push_help(&mut out);
    assert(out@ =~= help_text_of());
    string_of(&out)
}

/// The reply to a message naming no known category.
pub open spec fn unknown_category_text(word: Seq<char>) -> Seq<char> {
    "No conozco la categoria \""@ + word + "\".\nValidas: "@ + category_list_text()
}

pub open spec fn missing_category_text() -> Seq<char> {
    "Falta la categoria.\n"@ + hint_text()
}

pub open spec fn no_amount_text() -> Seq<char> {
    "No encontre el monto.\n"@ + hint_text()
}

/// The confirmation of a stored expense: its id, amount and category, the
/// description when there is one, the month's total, and the limit warning
/// when this expense is the one that crosses the limit.
pub open spec fn confirmation_text(
    amount: int,
    category: Category,
    description: Seq<char>,
    outcome: AddOutcome,
    today: Date,
    week: Date,
) -> Seq<char> {
    "Anotado #"@ + int_text(outcome.id as int) + ": "@ + amount_text(amount) + " "@ + category_name(category)
        + (if description.len() > 0 { " - "@ + description } else { seq![] }) + "\nMes "@
        + month_key_text(today) + ": "@ + amount_text(outcome.month_total as int) + (
    match alert_text(category, week, outcome.week_before as int, outcome.week_after as int) {
        Some(a) => "\n\n"@ + a,
        None => seq![],
    })
}

/// The text of a text reply.
pub open spec fn text_of(r: ReplyView) -> Seq<char> {
    match r {
        ReplyView::Text(t) => t,
        ReplyView::Csv { .. } => seq![],
    }
}

/// `reply` confirms the expense `amount`/`category`/`description` stored at
/// `now_ms` with outcome `o`, on `today` in the week starting `week`.
pub open spec fn confirms(
    reply: Seq<char>,
    now_ms: i64,
    amount: int,
    category: Category,
    description: Seq<char>,
    o: AddOutcome,
    today: Date,
    week: Date,
) -> bool {
    &&& local_date_spec(now_ms) == Some(today)
    &&& week.is_representable()
    &&& week.number() == today.number() - weekday_index(today.number())
    &&& o.week_after == o.week_before + amount
    &&& reply == confirmation_text(amount, category, description, o, today, week)
}

/// `rep` is the confirmation of some stored outcome of this expense.
pub open spec fn confirmed(rep: ReplyView, now_ms: i64, amount: int, category: Category, description: Seq<char>) -> bool {
    exists|o: AddOutcome, today: Date, week: Date|
        rep is Text && #[trigger] confirms(text_of(rep), now_ms, amount, category, description, o, today, week)
}

/// What answering a message that is not a command may give: every message
/// that is not an expense gets its fixed reply and never fails; an expense,
/// once stored, gets its confirmation.
pub open spec fn expense_reply_ok(
    t: Seq<char>,
    now_ms: i64,
    r: Result<Reply, BotError>,
    before: Seq<StoreRequest>,
    after: Seq<StoreRequest>,
    answers_before: Seq<StoreAnswer>,
    answers_after: Seq<StoreAnswer>,
) -> bool {
    &&& !(parsed(t) is Expense) ==> answers_after == answers_before
    &&& parsed(t) matches ParsedMessage::Expense { amount, category, description } ==> (r matches Ok(rep)
        ==> exists|o: AddOutcome| #[trigger] added_answer(answers_before, answers_after, o)
        && confirmed_outcome(rep@, now_ms, amount, category, description, o))
    &&& match parsed(t) {
        ParsedMessage::Expense { amount, category, description } => {
            &&& (r matches Ok(rep) ==> confirmed(rep@, now_ms, amount, category, description))
            &&& (!week_known(now_ms) <==> (r matches Err(BotError::ClockOutOfRange)))
            &&& week_known(now_ms) ==> sum_failure(r)
            &&& !week_known(now_ms) ==> after == before
            &&& week_known(now_ms) ==> exists|week: Date| #[trigger] week_of(now_ms, week) && after == before.push(
                expense_request(amount, category, description, t, now_ms, week),
            )
        },
        ParsedMessage::UnknownCategory(word) => r matches Ok(rep) && rep@ == ReplyView::Text(
            unknown_category_text(word),
        ) && after == before,
        ParsedMessage::MissingCategory => r matches Ok(rep) && rep@ == ReplyView::Text(missing_category_text())
            && after == before,
        ParsedMessage::NoAmount => r matches Ok(rep) && rep@ == ReplyView::Text(no_amount_text()) && after == before,
        ParsedMessage::Empty => r matches Ok(rep) && rep@ == ReplyView::Text(hint_text()) && after == before,
    }
}

/// The store answered the one request made with the outcome `o`.
pub open spec fn added_answer(before: Seq<StoreAnswer>, after: Seq<StoreAnswer>, o: AddOutcome) -> bool {
    after == before.push(StoreAnswer::Added(o))
}

/// The store answered the one request made with the totals `ts`.
pub open spec fn totals_answer(before: Seq<StoreAnswer>, after: Seq<StoreAnswer>, ts: Seq<CategoryTotal>) -> bool {
    after == before.push(StoreAnswer::Totals(ts))
}

/// The store answered the one request made with the rows `rows`.
pub open spec fn rows_answer(before: Seq<StoreAnswer>, after: Seq<StoreAnswer>, rows: Seq<ExpenseRow>) -> bool {
    after == before.push(StoreAnswer::Rows(rows))
}

/// The store answered the one deletion made with `d`.
pub open spec fn deleted_answer(before: Seq<StoreAnswer>, after: Seq<StoreAnswer>, d: Option<ExpenseRow>) -> bool {
    after == before.push(StoreAnswer::Deleted(d))
}

/// `rep` is the report titled `title` of exactly the totals `ts`.
pub open spec fn shows_report(rep: ReplyView, title: Seq<char>, ts: Seq<CategoryTotal>, with_limits: bool) -> bool {
    rep is Text && report_text(title, ts, with_limits) == Some(text_of(rep))
}

/// `rep` confirms the expense stored with exactly the outcome `o`.
pub open spec fn confirmed_outcome(
    rep: ReplyView,
    now_ms: i64,
    amount: int,
    category: Category,
    description: Seq<char>,
    o: AddOutcome,
) -> bool {
    exists|today: Date, week: Date|
        rep is Text && #[trigger] confirms(text_of(rep), now_ms, amount, category, description, o, today, week)
}

/// The `/borrar` reply for what the store deleted: the row, or the note
/// that there was none (`id` names the row asked for, if any).
pub open spec fn deletion_text(d: Option<ExpenseRow>, id: Option<int>) -> Seq<char> {
    match d {
        Some(row) => "Borrado "@ + row_text(row),
        None => match id {
            None => "No hay gastos para borrar."@,
            Some(i) => "No existe el gasto #"@ + int_text(i) + "."@,
        },
    }
}

/// Any failure comes from the store or from a sum that does not fit an
/// `i64`: never from the clock or a stored row.
pub open spec fn sum_failure(r: Result<Reply, BotError>) -> bool {
    r is Err ==> (r matches Err(BotError::Sqlite(_)) || r matches Err(BotError::Overflow))
}

/// Any failure comes from the store or from a stored row that does not read.
pub open spec fn row_failure(r: Result<Reply, BotError>) -> bool {
    r is Err ==> (r matches Err(BotError::Sqlite(_)) || r matches Err(BotError::BadStoredDate(_)))
}

/// Any failure comes from the store, from a stored row that does not read,
/// or from a sum that does not fit an `i64`: never from the clock.
pub open spec fn store_failure(r: Result<Reply, BotError>) -> bool {
    r is Err ==> (r matches Err(BotError::Sqlite(_)) || r matches Err(BotError::BadStoredDate(_)) || r matches Err(
        BotError::Overflow,
    ))
}

fn text_reply(out: &Vec<char>) -> (r: Reply)
    ensures
        r@ == ReplyView::Text(out@),
{
    Reply::Text(string_of(out))
}

/// The confirmation of a stored expense.
pub fn confirmation(
    amount: i64,
    category: Category,
    description: &str,
    outcome: AddOutcome,
    today: Date,
    week: Date,
) -> (s: String)
    requires
        today.is_calendar(),
        week.is_calendar(),
    ensures
        s@ == confirmation_text(amount as int, category, description@, outcome, today, week),
{
    let mut out: Vec<char> = Vec::new();
    push_str(&mut out, "Anotado #");
    push_int(outcome.id, &mut out);
    push_str(&mut out, ": ");
    push_amount(amount, &mut out);
    push_str(&mut out, " ");
    push_str(&mut out, category.as_str());
    if description.unicode_len() > 0 {
        push_str(&mut out, " - ");
        push_str(&mut out, description);
    }
    push_str(&mut out, "\nMes ");
    push_str(&mut out, crate::dates::month_key(today).as_str());
    push_str(&mut out, ": ");
    push_amount(outcome.month_total, &mut out);
    if let Some(alert) = limit_alert(category, week, outcome.week_before, outcome.week_after) {
        push_str(&mut out, "\n\n");
        push_str(&mut out, alert.as_str());
    }
    assert(out@ =~= confirmation_text(amount as int, category, description@, outcome, today, week));
    string_of(&out)
}

fn unknown_category_reply(word: &str) -> (r: Reply)
    ensures
        r@ == ReplyView::Text(unknown_category_text(word@)),
{
    let mut out: Vec<char> = Vec::new();
    push_str(&mut out, "No conozco la categoria \"");
    push_str(&mut out, word);
    push_str(&mut out, "\".\nValidas: ");
    push_category_list(&mut out);
    assert(out@ =~= unknown_category_text(word@));
    text_reply(&out)
}

fn hint_reply(lead: &str) -> (r: Reply)
    ensures
        r@ == ReplyView::Text(lead@ + hint_text()),
{
    let mut out: Vec<char> = Vec::new();
    push_str(&mut out, lead);
    push_hint(&mut out);
    assert(out@ =~= lead@ + hint_text());
    text_reply(&out)
}

/// The Buenos Aires day of the instant `now_ms`, and the Monday of its week,
/// are both days chrono can represent.
pub open spec fn week_known(now_ms: i64) -> bool {
    local_date_spec(now_ms) matches Some(today) && today.is_representable() && today.has_monday()
}

/// The request to store an expense typed as `raw` at `now_ms`, in the week
/// starting on `week`.
pub open spec fn expense_request(
    amount: int,
    category: Category,
    description: Seq<char>,
    raw: Seq<char>,
    now_ms: i64,
    week: Date,
) -> StoreRequest {
    StoreRequest::Add {
        amount,
        category,
        description,
        raw,
        local_date: local_date_spec(now_ms)->0,
        week_start: week,
        created_at_ms: now_ms as int,
    }
}

fn store_expense(
    db: &mut Db,
    raw: &str,
    amount: i64,
    category: Category,
    description: &str,
    now_ms: i64,
) -> (r: Result<Reply, BotError>)
    ensures
        r matches Ok(rep) ==> confirmed(rep@, now_ms, amount as int, category, description@),
        !week_known(now_ms) ==> r matches Err(BotError::ClockOutOfRange),
        week_known(now_ms) ==> (r is Err ==> (r matches Err(BotError::Sqlite(_)) || r matches Err(
            BotError::Overflow,
        ))),
        !week_known(now_ms) ==> final(db).requests() == old(db).requests(),
        week_known(now_ms) ==> exists|week: Date| #[trigger] week_of(now_ms, week) && final(db).requests()
            == old(db).requests().push(expense_request(amount as int, category, description@, raw@, now_ms, week)),
        r matches Ok(rep) ==> exists|o: AddOutcome| #[trigger] added_answer(old(db).answers(), final(db).answers(), o)
            && confirmed_outcome(rep@, now_ms, amount as int, category, description@, o),
        r is Err ==> final(db).answers() == old(db).answers(),
{
    let today = match local_date(now_ms) {
        Some(d) => d,
        None => return Err(BotError::ClockOutOfRange),
    };
    let week = match crate::dates::week_start(now_ms) {
        Some(d) => d,
        None => return Err(BotError::ClockOutOfRange),
    };
    assert(week_of(now_ms, week));
    assert(request_of(NewExpense {
        amount,
        category,
        description,
        raw,
        local_date: today,
        week_start: week,
        created_at_ms: now_ms,
    }) == expense_request(amount as int, category, description@, raw@, now_ms, week));
    let outcome = db.add_expense(
        &NewExpense {
            amount,
            category,
            description,
            raw,
            local_date: today,
            week_start: week,
            created_at_ms: now_ms,
        },
    )?;
    let reply = Reply::Text(confirmation(amount, category, description, outcome, today, week));
    assert(confirms(text_of(reply@), now_ms, amount as int, category, description@, outcome, today, week));
    assert(added_answer(old(db).answers(), db.answers(), outcome));
    Ok(reply)
}

fn handle_expense(db: &mut Db, text: &Vec<char>, now_ms: i64) -> (r: Result<Reply, BotError>)
    ensures
        expense_reply_ok(
            text@,
            now_ms,
            r,
            old(db).requests(),
            final(db).requests(),
            old(db).answers(),
            final(db).answers(),
        ),
{
    let raw = string_of(text);
    let parsed_message = parse_message(raw.as_str());
    let ghost p = parsed(text@);
    assert(parsed_message@ == p);
    match parsed_message {
        ParseResult::Expense { amount, category, description } => {
            let r = store_expense(db, raw.as_str(), amount, category, description.as_str(), now_ms);
            assert(parsed(text@) == ParsedMessage::Expense { amount: amount as int, category, description: description@ });
            r
        },
        ParseResult::UnknownCategory(word) => Ok(unknown_category_reply(word.as_str())),
        ParseResult::MissingCategory => {
            let r = hint_reply("Falta la categoria.\n");
            assert(r@ == ReplyView::Text(missing_category_text()));
            Ok(r)
        },
        ParseResult::NoAmount => {
            let r = hint_reply("No encontre el monto.\n");
            assert(r@ == ReplyView::Text(no_amount_text()));
            Ok(r)
        },
        ParseResult::Empty => {
            let r = hint_reply("");
            assert(""@ + hint_text() =~= hint_text()) by {
                reveal_strlit("");
            }
            Ok(r)
        },
    }
}


/// `rep` is a text reply holding the report titled `title` of some totals.
pub open spec fn reported(rep: ReplyView, title: Seq<char>, with_limits: bool) -> bool {
    exists|ts: Seq<CategoryTotal>| rep is Text && #[trigger] report_text(title, ts, with_limits) == Some(text_of(rep))
}

/// `week` is the Monday of the Buenos Aires week of the instant `now_ms`.
pub open spec fn week_of(now_ms: i64, week: Date) -> bool {
    &&& local_date_spec(now_ms) is Some
    &&& week.is_representable()
    &&& week.number() == local_date_spec(now_ms)->0.number() - weekday_index(local_date_spec(now_ms)->0.number())
}

/// The position of the first whitespace character of `t`.
pub open spec fn first_white(t: Seq<char>) -> Option<int> {
    if exists|i: int| 0 <= i < t.len() && is_white(t[i]) {
        Some(choose|i: int| 0 <= i < t.len() && is_white(t[i]) && forall|j: int| 0 <= j < i ==> !is_white(#[trigger] t[j]))
    } else {
        None
    }
}

/// A command's first word.
pub open spec fn command_head(t: Seq<char>) -> Seq<char> {
    match first_white(t) {
        Some(p) => t.take(p),
        None => t,
    }
}

/// What follows a command's first word, trimmed.
pub open spec fn command_rest(t: Seq<char>) -> Seq<char> {
    match first_white(t) {
        Some(p) => trim(t.skip(p + 1)),
        None => seq![],
    }
}

/// The command a message names: its first word up to any `@BotName`, lowercased.
/// Group chats deliver commands as `/hoy@MiBot`.
pub open spec fn command_name(t: Seq<char>) -> Seq<char> {
    let h = command_head(t);
    lowercase(
        match first_index_of(h, '@') {
            Some(p) => h.take(p),
            None => h,
        },
    )
}

pub open spec fn is_help_command(n: Seq<char>) -> bool {
    n == "/ayuda"@ || n == "/help"@ || n == "/start"@
}

pub open spec fn is_known_command(n: Seq<char>) -> bool {
    ||| is_help_command(n)
    ||| n == "/hoy"@
    ||| n == "/semana"@
    ||| n == "/mes"@
    ||| n == "/ultimos"@
    ||| n == "/borrar"@
    ||| n == "/export"@
}

pub open spec fn unknown_command_text() -> Seq<char> {
    "No conozco ese comando.\n\n"@ + help_text_of()
}

/// How many rows `/ultimos` lists: 10 by default, at most 100, and nothing
/// for an argument that is not a positive `u32`.
pub open spec fn count_arg(rest: Seq<char>) -> Option<int> {
    if rest.len() == 0 {
        Some(10)
    } else {
        match unsigned_value(rest) {
            Some(v) => if 0 < v <= u32::MAX {
                Some(if v < 100 { v } else { 100 })
            } else {
                None
            },
            None => None,
        }
    }
}

/// What `str::parse::<i64>` gives: an optional sign, then digits, in range.
pub open spec fn signed_value(s: Seq<char>) -> Option<int> {
    if s.len() > 0 && s[0] == '-' {
        let ds = s.skip(1);
        if ds.len() > 0 && all_digits(ds) && digit_value(ds) <= 0x8000_0000_0000_0000 {
            Some(-digit_value(ds))
        } else {
            None
        }
    } else {
        match unsigned_value(s) {
            Some(v) => if v <= i64::MAX { Some(v) } else { None },
            None => None,
        }
    }
}

/// The listing of `/ultimos`.
pub open spec fn listing_text(rows: Seq<ExpenseRow>) -> Seq<char> {
    if rows.len() == 0 {
        "Todavia no hay gastos registrados."@
    } else {
        "Ultimos "@ + int_text(rows.len() as int) + ":"@ + row_lines(rows)
    }
}

pub open spec fn row_lines(rows: Seq<ExpenseRow>) -> Seq<char>
    decreases rows.len(),
{
    if rows.len() == 0 {
        seq![]
    } else {
        row_lines(rows.drop_last()) + "\n"@ + row_text(rows.last())
    }
}

pub open spec fn listed(rep: ReplyView) -> bool {
    exists|rows: Seq<ExpenseRow>| rep is Text && #[trigger] listing_text(rows) == text_of(rep)
}

pub open spec fn removed(rep: ReplyView) -> bool {
    exists|row: ExpenseRow| rep is Text && #[trigger] row_text(row) == text_of(rep).skip(8)
        && text_of(rep) == "Borrado "@ + row_text(row)
}

/// The sum of the rows' amounts.
pub open spec fn amounts_sum(rows: Seq<ExpenseRow>) -> int
    decreases rows.len(),
{
    if rows.len() == 0 {
        0
    } else {
        amounts_sum(rows.drop_last()) + rows.last().amount
    }
}

/// The export of the month `key` with these rows.
pub open spec fn export_view(key: Seq<char>, rows: Seq<ExpenseRow>) -> ReplyView {
    ReplyView::Csv {
        filename: "gastos-"@ + key + ".csv"@,
        content: csv_text(rows),
        caption: "Gastos de "@ + key + ": "@ + amount_text(amounts_sum(rows)) + " en "@ + int_text(rows.len() as int) + " registros"@,
    }
}

pub open spec fn exported(rep: ReplyView, key: Seq<char>) -> bool {
    ||| rep == ReplyView::Text("No hay gastos en "@ + key + "."@)
    ||| exists|rows: Seq<ExpenseRow>| rows.len() > 0 && #[trigger] export_view(key, rows) == rep
}

/// The month a `/mes` or `/export` argument names: the current one when there
/// is no argument.
pub open spec fn month_arg(rest: Seq<char>, now_ms: i64) -> Option<Seq<char>> {
    if rest.len() == 0 {
        match local_date_spec(now_ms) {
            Some(d) => Some(month_key_text(d)),
            None => None,
        }
    } else {
        month_key_parsed(rest)
    }
}

/// What answering a command may give.
pub open spec fn command_reply_ok(
    t: Seq<char>,
    now_ms: i64,
    r: Result<Reply, BotError>,
    before: Seq<StoreRequest>,
    after: Seq<StoreRequest>,
    answers_before: Seq<StoreAnswer>,
    answers_after: Seq<StoreAnswer>,
) -> bool {
    let name = command_name(t);
    let rest = command_rest(t);
    &&& (is_help_command(name) || !is_known_command(name)) ==> answers_after == answers_before
    &&& name == "/hoy"@ ==> (r matches Ok(rep) ==> local_date_spec(now_ms) matches Some(d) && exists|
        ts: Seq<CategoryTotal>,
    | #[trigger] totals_answer(answers_before, answers_after, ts) && shows_report(rep@, "Hoy "@ + day_month_text(d), ts, false))
    &&& name == "/semana"@ ==> (r matches Ok(rep) ==> exists|week: Date, ts: Seq<CategoryTotal>|
        #![trigger week_of(now_ms, week), totals_answer(answers_before, answers_after, ts)]
        week_of(now_ms, week) && totals_answer(answers_before, answers_after, ts) && shows_report(
            rep@,
            "Semana del "@ + day_month_text(week),
            ts,
            true,
        ))
    &&& name == "/mes"@ ==> match month_arg(rest, now_ms) {
        None => answers_after == answers_before,
        Some(key) => r matches Ok(rep) ==> exists|ts: Seq<CategoryTotal>|
            #[trigger] totals_answer(answers_before, answers_after, ts) && shows_report(rep@, "Mes "@ + key, ts, false),
    }
    &&& name == "/export"@ ==> match month_arg(rest, now_ms) {
        None => answers_after == answers_before,
        Some(key) => r matches Ok(rep) ==> exists|rows: Seq<ExpenseRow>|
            #[trigger] rows_answer(answers_before, answers_after, rows) && export_result(key, rows) == Some(rep@),
    }
    &&& name == "/ultimos"@ ==> match count_arg(rest) {
        None => answers_after == answers_before,
        Some(_) => r matches Ok(rep) ==> exists|rows: Seq<ExpenseRow>|
            #[trigger] rows_answer(answers_before, answers_after, rows) && rep@ == ReplyView::Text(listing_text(rows)),
    }
    &&& name == "/borrar"@ ==> (if rest.len() > 0 && signed_value(rest) is None {
        answers_after == answers_before
    } else {
        r matches Ok(rep) ==> exists|d: Option<ExpenseRow>|
            #[trigger] deleted_answer(answers_before, answers_after, d) && rep@ == ReplyView::Text(
                deletion_text(d, if rest.len() == 0 { None } else { signed_value(rest) }),
            )
    })
    &&& is_help_command(name) ==> (r matches Ok(rep) && rep@ == ReplyView::Text(help_text_of()) && after == before)
    &&& !is_known_command(name) ==> (r matches Ok(rep) && rep@ == ReplyView::Text(unknown_command_text())
        && after == before)
    &&& name == "/hoy"@ ==> after == match local_date_spec(now_ms) {
        Some(d) => before.push(StoreRequest::TotalsForDay(d)),
        None => before,
    }
    &&& name == "/semana"@ && !week_known(now_ms) ==> after == before
    &&& name == "/semana"@ && week_known(now_ms) ==> exists|week: Date| #[trigger] week_of(now_ms, week)
        && after == before.push(StoreRequest::TotalsForWeek(week))
    &&& name == "/mes"@ ==> after == match month_arg(rest, now_ms) {
        Some(key) => before.push(StoreRequest::TotalsForMonth(key)),
        None => before,
    }
    &&& name == "/export"@ ==> after == match month_arg(rest, now_ms) {
        Some(key) => before.push(StoreRequest::RowsForMonth(key)),
        None => before,
    }
    &&& name == "/ultimos"@ ==> after == match count_arg(rest) {
        Some(n) => before.push(StoreRequest::Recent(n)),
        None => before,
    }
    &&& name == "/borrar"@ ==> after == if rest.len() == 0 {
        before.push(StoreRequest::DeleteLast)
    } else {
        match signed_value(rest) {
            Some(id) => before.push(StoreRequest::Delete(id)),
            None => before,
        }
    }
    &&& name == "/hoy"@ ==> (r matches Ok(rep) ==> local_date_spec(now_ms) matches Some(d) && reported(
        rep@,
        "Hoy "@ + day_month_text(d),
        false,
    ))
    &&& name == "/hoy"@ ==> (local_date_spec(now_ms) is None <==> (r matches Err(BotError::ClockOutOfRange)))
    &&& name == "/hoy"@ && local_date_spec(now_ms) is Some ==> sum_failure(r)
    &&& name == "/semana"@ ==> (!week_known(now_ms) <==> (r matches Err(BotError::ClockOutOfRange)))
    &&& name == "/semana"@ && week_known(now_ms) ==> sum_failure(r)
    &&& (name == "/mes"@ || name == "/export"@) ==> ((rest.len() == 0 && local_date_spec(now_ms) is None)
        <==> (r matches Err(BotError::ClockOutOfRange)))
    &&& name == "/mes"@ && !(rest.len() == 0 && local_date_spec(now_ms) is None) ==> sum_failure(r)
    &&& name == "/export"@ && !(rest.len() == 0 && local_date_spec(now_ms) is None) ==> store_failure(r)
    &&& (name == "/ultimos"@ || name == "/borrar"@) ==> row_failure(r)
    &&& name == "/semana"@ ==> (r matches Ok(rep) ==> exists|week: Date|
        #[trigger] reported(rep@, "Semana del "@ + day_month_text(week), true)
        && week_of(now_ms, week))
    &&& name == "/mes"@ ==> (if rest.len() > 0 && month_key_parsed(rest) is None {
        r matches Ok(rep) && rep@ == ReplyView::Text("Mes invalido. Usa /mes o /mes YYYY-MM (por ejemplo /mes 2026-07)."@)
    } else {
        r matches Ok(rep) ==> month_arg(rest, now_ms) matches Some(key) && reported(rep@, "Mes "@ + key, false)
    })
    &&& name == "/ultimos"@ ==> (if count_arg(rest) is None {
        r matches Ok(rep) && rep@ == ReplyView::Text("Cantidad invalida. Usa /ultimos o /ultimos <n>."@)
    } else {
        r matches Ok(rep) ==> listed(rep@)
    })
    &&& name == "/borrar"@ ==> (if rest.len() == 0 {
        r matches Ok(rep) ==> rep@ == ReplyView::Text("No hay gastos para borrar."@) || removed(rep@)
    } else {
        match signed_value(rest) {
            None => r matches Ok(rep) && rep@ == ReplyView::Text("Id invalido. Usa /borrar o /borrar <id>."@),
            Some(id) => r matches Ok(rep) ==> rep@ == ReplyView::Text(
                "No existe el gasto #"@ + int_text(id) + "."@,
            ) || removed(rep@),
        }
    })
    &&& name == "/export"@ ==> (if rest.len() > 0 && month_key_parsed(rest) is None {
        r matches Ok(rep) && rep@ == ReplyView::Text(
            "Mes invalido. Usa /export o /export YYYY-MM (por ejemplo /export 2026-07)."@,
        )
    } else {
        r matches Ok(rep) ==> month_arg(rest, now_ms) matches Some(key) && exported(rep@, key)
    })
}

fn str_reply(text: &str) -> (r: Reply)
    ensures
        r@ == ReplyView::Text(text@),
{
    Reply::Text(crate::text::string_of(&chars_of(text)))
}

fn report_reply(title: &Vec<char>, totals: &Vec<CategoryTotal>, with_limits: bool) -> (r: Result<Reply, BotError>)
    ensures
        match report_text(title@, totals@, with_limits) {
            Some(t) => r matches Ok(rep) && rep@ == ReplyView::Text(t),
            None => r matches Err(BotError::Overflow),
        },
        r matches Ok(rep) ==> reported(rep@, title@, with_limits),
{
    match report(title, totals, with_limits) {
        Some(text) => {
            let rep = Reply::Text(text);
            assert(report_text(title@, totals@, with_limits) == Some(text_of(rep@)));
            Ok(rep)
        },
        None => Err(BotError::Overflow),
    }
}

fn today(db: &mut Db, now_ms: i64) -> (r: Result<Reply, BotError>)
    ensures
        r matches Ok(rep) ==> local_date_spec(now_ms) matches Some(d) && reported(rep@, "Hoy "@ + day_month_text(d), false),
        local_date_spec(now_ms) is None ==> r matches Err(BotError::ClockOutOfRange),
        local_date_spec(now_ms) is Some ==> (r is Err ==> (r matches Err(BotError::Sqlite(_)) || r matches Err(
            BotError::Overflow,
        ))),
        final(db).requests() == match local_date_spec(now_ms) {
            Some(d) => old(db).requests().push(StoreRequest::TotalsForDay(d)),
            None => old(db).requests(),
        },
        r matches Ok(rep) ==> local_date_spec(now_ms) matches Some(d) && exists|ts: Seq<CategoryTotal>|
            #[trigger] totals_answer(old(db).answers(), final(db).answers(), ts) && shows_report(
                rep@,
                "Hoy "@ + day_month_text(d),
                ts,
                false,
            ),
{
    let date = match local_date(now_ms) {
        Some(d) => d,
        None => return Err(BotError::ClockOutOfRange),
    };
    let totals = db.totals_for_day(date)?;
    let mut title: Vec<char> = Vec::new();
    push_str(&mut title, "Hoy ");
    push_str(&mut title, crate::dates::day_month(date).as_str());
    assert(totals_answer(old(db).answers(), db.answers(), totals@));
    report_reply(&title, &totals, false)
}

fn this_week(db: &mut Db, now_ms: i64) -> (r: Result<Reply, BotError>)
    ensures
        r matches Ok(rep) ==> exists|week: Date|
            #[trigger] reported(rep@, "Semana del "@ + day_month_text(week), true)
            && week_of(now_ms, week),
        !week_known(now_ms) ==> r matches Err(BotError::ClockOutOfRange),
        week_known(now_ms) ==> (r is Err ==> (r matches Err(BotError::Sqlite(_)) || r matches Err(
            BotError::Overflow,
        ))),
        !week_known(now_ms) ==> final(db).requests() == old(db).requests(),
        week_known(now_ms) ==> exists|week: Date| #[trigger] week_of(now_ms, week) && final(db).requests()
            == old(db).requests().push(StoreRequest::TotalsForWeek(week)),
        r matches Ok(rep) ==> exists|week: Date, ts: Seq<CategoryTotal>|
            #![trigger week_of(now_ms, week), totals_answer(old(db).answers(), final(db).answers(), ts)]
            week_of(now_ms, week) && totals_answer(old(db).answers(), final(db).answers(), ts) && shows_report(
                rep@,
                "Semana del "@ + day_month_text(week),
                ts,
                true,
            ),
{
    let start = match crate::dates::week_start(now_ms) {
        Some(d) => d,
        None => return Err(BotError::ClockOutOfRange),
    };
    assert(week_of(now_ms, start));
    let totals = db.totals_for_week(start)?;
    let mut title: Vec<char> = Vec::new();
    push_str(&mut title, "Semana del ");
    push_str(&mut title, crate::dates::day_month(start).as_str());
    let r = report_reply(&title, &totals, true);
    proof {
        assert(totals_answer(old(db).answers(), db.answers(), totals@));
        if r is Ok {
            assert(reported(r->Ok_0@, "Semana del "@ + day_month_text(start), true));
        }
    }
    r
}

fn month_argument(argument: &Vec<char>, now_ms: i64) -> (r: Result<Option<String>, BotError>)
    ensures
        match r {
            Ok(Some(k)) => month_arg(argument@, now_ms) == Some(k@),
            Ok(None) => argument@.len() > 0 && month_key_parsed(argument@) is None,
            Err(e) => e is ClockOutOfRange && argument@.len() == 0 && local_date_spec(now_ms) is None,
        },
{
    if argument.len() == 0 {
        match local_date(now_ms) {
            Some(d) => Ok(Some(crate::dates::month_key(d))),
            None => Err(BotError::ClockOutOfRange),
        }
    } else {
        Ok(crate::dates::parse_month_key(string_of(argument).as_str()))
    }
}

fn month(db: &mut Db, argument: &Vec<char>, now_ms: i64) -> (r: Result<Reply, BotError>)
    ensures
        if argument@.len() > 0 && month_key_parsed(argument@) is None {
            r matches Ok(rep) && rep@ == ReplyView::Text("Mes invalido. Usa /mes o /mes YYYY-MM (por ejemplo /mes 2026-07)."@)
        } else {
            r matches Ok(rep) ==> month_arg(argument@, now_ms) matches Some(key) && reported(rep@, "Mes "@ + key, false)
        },
        (argument@.len() == 0 && local_date_spec(now_ms) is None) <==> (r matches Err(BotError::ClockOutOfRange)),
        !(argument@.len() == 0 && local_date_spec(now_ms) is None) ==> sum_failure(r),
        final(db).requests() == match month_arg(argument@, now_ms) {
            Some(key) => old(db).requests().push(StoreRequest::TotalsForMonth(key)),
            None => old(db).requests(),
        },
        month_arg(argument@, now_ms) is None ==> final(db).answers() == old(db).answers(),
        month_arg(argument@, now_ms) matches Some(key) ==> (r matches Ok(rep) ==> exists|ts: Seq<CategoryTotal>|
            #[trigger] totals_answer(old(db).answers(), final(db).answers(), ts) && shows_report(
                rep@,
                "Mes "@ + key,
                ts,
                false,
            )),
{
    let key = match month_argument(argument, now_ms)? {
        Some(key) => key,
        None => return Ok(str_reply("Mes invalido. Usa /mes o /mes YYYY-MM (por ejemplo /mes 2026-07).")),
    };
    let totals = db.totals_for_month(key.as_str())?;
    let mut title: Vec<char> = Vec::new();
    push_str(&mut title, "Mes ");
    push_str(&mut title, key.as_str());
    assert(totals_answer(old(db).answers(), db.answers(), totals@));
    report_reply(&title, &totals, false)
}

fn read_count(argument: &Vec<char>) -> (r: Option<u32>)
    ensures
        match count_arg(argument@) {
            Some(n) => r matches Some(v) && v as int == n,
            None => r is None,
        },
{
    if argument.len() == 0 {
        return Some(10);
    }
    let start: usize = if argument[0] == '+' { 1 } else { 0 };
    let digits = copy_range(argument, start, argument.len());
    assert(digits@ =~= (if argument@.len() > 0 && argument@[0] == '+' { argument@.skip(1) } else { argument@ }));
    match crate::parse::read_u64_digits(&digits) {
        Some(v) => {
            if v > 0 && v <= u32::MAX as u64 {
                Some(if v < 100 { v as u32 } else { 100 })
            } else {
                None
            }
        },
        None => None,
    }
}

fn push_rows(out: &mut Vec<char>, rows: &Vec<ExpenseRow>)
    requires
        forall|i: int| 0 <= i < rows@.len() ==> (#[trigger] rows@[i]).local_date.is_calendar(),
    ensures
        final(out)@ == old(out)@ + row_lines(rows@),
{
    let ghost before = out@;
    let mut i: usize = 0;
    while i < rows.len()
        invariant
            i <= rows@.len(),
            forall|k: int| 0 <= k < rows@.len() ==> (#[trigger] rows@[k]).local_date.is_calendar(),
            out@ == before + row_lines(rows@.take(i as int)),
        decreases rows.len() - i,
    {
        let ghost mid = out@;
        push_str(out, "\n");
        push_row(out, &rows[i]);
        proof {
            assert(rows@.take(i + 1).drop_last() =~= rows@.take(i as int));
            assert(out@ =~= before + row_lines(rows@.take(i + 1)));
        }
        i += 1;
    }
    assert(rows@.take(rows.len() as int) =~= rows@);
}

fn latest(db: &mut Db, argument: &Vec<char>) -> (r: Result<Reply, BotError>)
    ensures
        if count_arg(argument@) is None {
            r matches Ok(rep) && rep@ == ReplyView::Text("Cantidad invalida. Usa /ultimos o /ultimos <n>."@)
        } else {
            r matches Ok(rep) ==> listed(rep@)
        },
        row_failure(r),
        final(db).requests() == match count_arg(argument@) {
            Some(n) => old(db).requests().push(StoreRequest::Recent(n)),
            None => old(db).requests(),
        },
        count_arg(argument@) is None ==> final(db).answers() == old(db).answers(),
        count_arg(argument@) is Some ==> (r matches Ok(rep) ==> exists|rows: Seq<ExpenseRow>|
            #[trigger] rows_answer(old(db).answers(), final(db).answers(), rows) && rep@ == ReplyView::Text(
                listing_text(rows),
            )),
{
    let limit = match read_count(argument) {
        Some(limit) => limit,
        None => return Ok(str_reply("Cantidad invalida. Usa /ultimos o /ultimos <n>.")),
    };
    let rows = db.recent(limit)?;
    assert(rows_answer(old(db).answers(), db.answers(), rows@));
    Ok(listing_reply(&rows))
}

/// The `/ultimos` reply listing these rows, in the order given.
pub fn listing_reply(rows: &Vec<ExpenseRow>) -> (r: Reply)
    requires
        forall|i: int| 0 <= i < rows@.len() ==> (#[trigger] rows@[i]).local_date.is_calendar(),
    ensures
        r@ == ReplyView::Text(listing_text(rows@)),
{
    let mut out: Vec<char> = Vec::new();
    if rows.len() == 0 {
        push_str(&mut out, "Todavia no hay gastos registrados.");
    } else {
        push_str(&mut out, "Ultimos ");
        crate::money::push_decimal(rows.len() as u64, &mut out);
        push_str(&mut out, ":");
        push_rows(&mut out, &rows);
    }
    assert(out@ =~= listing_text(rows@));
    text_reply(&out)
}

/// The `/borrar` reply naming the row that was deleted.
pub fn removed_reply(row: &ExpenseRow) -> (r: Reply)
    requires
        row.local_date.is_calendar(),
    ensures
        r@ == ReplyView::Text("Borrado "@ + row_text(*row)),
        removed(r@),
{
    let mut out: Vec<char> = Vec::new();
    push_str(&mut out, "Borrado ");
    push_row(&mut out, row);
    let rep = text_reply(&out);
    proof {
        reveal_strlit("Borrado ");
        assert(text_of(rep@).skip(8) =~= row_text(*row));
    }
    rep
}

pub(crate) fn read_id(argument: &Vec<char>) -> (r: Option<i64>)
    ensures
        match signed_value(argument@) {
            Some(v) => r matches Some(id) && id as int == v,
            None => r is None,
        },
{
    if argument.len() > 0 && argument[0] == '-' {
        let digits = copy_range(argument, 1, argument.len());
        assert(digits@ =~= argument@.skip(1));
        match crate::parse::read_u64_digits(&digits) {
            Some(v) => {
                if v <= 0x8000_0000_0000_0000u64 {
                    if v == 0x8000_0000_0000_0000u64 {
                        Some(i64::MIN)
                    } else {
                        Some(-(v as i64))
                    }
                } else {
                    None
                }
            },
            None => None,
        }
    } else {
        let start: usize = if argument.len() > 0 && argument[0] == '+' { 1 } else { 0 };
        let digits = copy_range(argument, start, argument.len());
        assert(digits@ =~= (if argument@.len() > 0 && argument@[0] == '+' { argument@.skip(1) } else { argument@ }));
        match crate::parse::read_u64_digits(&digits) {
            Some(v) => if v <= i64::MAX as u64 { Some(v as i64) } else { None },
            None => None,
        }
    }
}

fn remove(db: &mut Db, argument: &Vec<char>) -> (r: Result<Reply, BotError>)
    ensures
        if argument@.len() == 0 {
            r matches Ok(rep) ==> rep@ == ReplyView::Text("No hay gastos para borrar."@) || removed(rep@)
        } else {
            match signed_value(argument@) {
                None => r matches Ok(rep) && rep@ == ReplyView::Text("Id invalido. Usa /borrar o /borrar <id>."@),
                Some(id) => r matches Ok(rep) ==> rep@ == ReplyView::Text("No existe el gasto #"@ + int_text(id) + "."@)
                    || removed(rep@),
            }
        },
        row_failure(r),
        final(db).requests() == if argument@.len() == 0 {
            old(db).requests().push(StoreRequest::DeleteLast)
        } else {
            match signed_value(argument@) {
                Some(id) => old(db).requests().push(StoreRequest::Delete(id)),
                None => old(db).requests(),
            }
        },
        argument@.len() > 0 && signed_value(argument@) is None ==> final(db).answers() == old(db).answers(),
        (argument@.len() == 0 || signed_value(argument@) is Some) ==> (r matches Ok(rep) ==> exists|
            d: Option<ExpenseRow>,
        |
            #[trigger] deleted_answer(old(db).answers(), final(db).answers(), d) && rep@ == ReplyView::Text(
                deletion_text(d, if argument@.len() == 0 { None } else { signed_value(argument@) }),
            )),
{
    if argument.len() == 0 {
        let d = db.delete_last()?;
        assert(deleted_answer(old(db).answers(), db.answers(), d));
        return match d {
            Some(row) => Ok(removed_reply(&row)),
            None => Ok(str_reply("No hay gastos para borrar.")),
        };
    }
    let id = match read_id(argument) {
        Some(id) => id,
        None => return Ok(str_reply("Id invalido. Usa /borrar o /borrar <id>.")),
    };
    let d = db.delete(id)?;
    assert(deleted_answer(old(db).answers(), db.answers(), d));
    match d {
        Some(row) => Ok(removed_reply(&row)),
        None => {
            let mut out: Vec<char> = Vec::new();
            push_str(&mut out, "No existe el gasto #");
            push_int(id, &mut out);
            push_str(&mut out, ".");
            Ok(text_reply(&out))
        },
    }
}

proof fn lemma_amounts_sum_bound(rows: Seq<ExpenseRow>)
    ensures
        -(rows.len() as int) * 0x8000_0000_0000_0000 <= amounts_sum(rows) <= (rows.len() as int) * 0x8000_0000_0000_0000,
    decreases rows.len(),
{
    if rows.len() > 0 {
        lemma_amounts_sum_bound(rows.drop_last());
    }
}

fn export(db: &mut Db, argument: &Vec<char>, now_ms: i64) -> (r: Result<Reply, BotError>)
    ensures
        if argument@.len() > 0 && month_key_parsed(argument@) is None {
            r matches Ok(rep) && rep@ == ReplyView::Text(
                "Mes invalido. Usa /export o /export YYYY-MM (por ejemplo /export 2026-07)."@,
            )
        } else {
            r matches Ok(rep) ==> month_arg(argument@, now_ms) matches Some(key) && exported(rep@, key)
        },
        (argument@.len() == 0 && local_date_spec(now_ms) is None) <==> (r matches Err(BotError::ClockOutOfRange)),
        !(argument@.len() == 0 && local_date_spec(now_ms) is None) ==> store_failure(r),
        final(db).requests() == match month_arg(argument@, now_ms) {
            Some(key) => old(db).requests().push(StoreRequest::RowsForMonth(key)),
            None => old(db).requests(),
        },
        month_arg(argument@, now_ms) is None ==> final(db).answers() == old(db).answers(),
        month_arg(argument@, now_ms) matches Some(key) ==> (r matches Ok(rep) ==> exists|rows: Seq<ExpenseRow>|
            #[trigger] rows_answer(old(db).answers(), final(db).answers(), rows) && export_result(key, rows) == Some(
                rep@,
            )),
{
    let key = match month_argument(argument, now_ms)? {
        Some(key) => key,
        None => return Ok(str_reply("Mes invalido. Usa /export o /export YYYY-MM (por ejemplo /export 2026-07).")),
    };
    let rows = db.rows_for_month(key.as_str())?;
    assert(rows_answer(old(db).answers(), db.answers(), rows@));
    let r = export_reply(&key, &rows);
    proof {
        if r is Ok && rows@.len() > 0 {
            assert(export_view(key@, rows@) == r->Ok_0@);
        }
    }
    r
}

/// The `/export` reply of the month `key` with these rows: a note when there
/// are none, else the CSV with a caption giving the total and the count;
/// nothing when the total does not fit an `i64`.
pub open spec fn export_result(key: Seq<char>, rows: Seq<ExpenseRow>) -> Option<ReplyView> {
    if rows.len() == 0 {
        Some(ReplyView::Text("No hay gastos en "@ + key + "."@))
    } else if i64::MIN <= amounts_sum(rows) <= i64::MAX {
        Some(export_view(key, rows))
    } else {
        None
    }
}

/// The `/export` reply for the month `key` and the rows stored in it.
pub fn export_reply(key: &String, rows: &Vec<ExpenseRow>) -> (r: Result<Reply, BotError>)
    requires
        forall|i: int| 0 <= i < rows@.len() ==> (#[trigger] rows@[i]).local_date.is_calendar(),
    ensures
        match export_result(key@, rows@) {
            Some(v) => r matches Ok(rep) && rep@ == v,
            None => r matches Err(BotError::Overflow),
        },
{
    if rows.len() == 0 {
        let mut out: Vec<char> = Vec::new();
        push_str(&mut out, "No hay gastos en ");
        push_str(&mut out, key.as_str());
        push_str(&mut out, ".");
        return Ok(text_reply(&out));
    }
    let mut total: i128 = 0;
    let mut i: usize = 0;
    while i < rows.len()
        invariant
            i <= rows@.len() <= usize::MAX,
            total as int == amounts_sum(rows@.take(i as int)),
        decreases rows.len() - i,
    {
        proof {
            assert(rows@.take(i + 1).drop_last() =~= rows@.take(i as int));
            lemma_amounts_sum_bound(rows@.take(i as int));
        }
        total = total + rows[i].amount as i128;
        i += 1;
    }
    assert(rows@.take(rows.len() as int) =~= rows@);
    if total < i64::MIN as i128 || total > i64::MAX as i128 {
        return Err(BotError::Overflow);
    }
    let mut filename: Vec<char> = Vec::new();
    push_str(&mut filename, "gastos-");
    push_str(&mut filename, key.as_str());
    push_str(&mut filename, ".csv");
    let mut caption: Vec<char> = Vec::new();
    push_str(&mut caption, "Gastos de ");
    push_str(&mut caption, key.as_str());
    push_str(&mut caption, ": ");
    push_amount(total as i64, &mut caption);
    push_str(&mut caption, " en ");
    crate::money::push_decimal(rows.len() as u64, &mut caption);
    push_str(&mut caption, " registros");
    let rep = Reply::Csv { filename: string_of(&filename), content: to_csv(&rows), caption: string_of(&caption) };
    assert(filename@ =~= "gastos-"@ + key@ + ".csv"@);
    assert(caption@ =~= "Gastos de "@ + key@ + ": "@ + amount_text(amounts_sum(rows@)) + " en "@ + int_text(rows@.len() as int) + " registros"@);
    assert(export_view(key@, rows@) == rep@);
    Ok(rep)
}


proof fn lemma_command_literals()
    ensures
        "/hoy"@ != "/semana"@ && "/hoy"@ != "/mes"@ && "/hoy"@ != "/ultimos"@ && "/hoy"@ != "/borrar"@
            && "/hoy"@ != "/export"@ && "/hoy"@ != "/ayuda"@ && "/hoy"@ != "/help"@ && "/hoy"@ != "/start"@,
        "/semana"@ != "/mes"@ && "/semana"@ != "/ultimos"@ && "/semana"@ != "/borrar"@ && "/semana"@ != "/export"@
            && "/semana"@ != "/ayuda"@ && "/semana"@ != "/help"@ && "/semana"@ != "/start"@,
        "/mes"@ != "/ultimos"@ && "/mes"@ != "/borrar"@ && "/mes"@ != "/export"@ && "/mes"@ != "/ayuda"@
            && "/mes"@ != "/help"@ && "/mes"@ != "/start"@,
        "/ultimos"@ != "/borrar"@ && "/ultimos"@ != "/export"@ && "/ultimos"@ != "/ayuda"@
            && "/ultimos"@ != "/help"@ && "/ultimos"@ != "/start"@,
        "/borrar"@ != "/export"@ && "/borrar"@ != "/ayuda"@ && "/borrar"@ != "/help"@ && "/borrar"@ != "/start"@,
        "/export"@ != "/ayuda"@ && "/export"@ != "/help"@ && "/export"@ != "/start"@,
{
    reveal_strlit("/hoy");
    reveal_strlit("/semana");
    reveal_strlit("/mes");
    reveal_strlit("/ultimos");
    reveal_strlit("/borrar");
    reveal_strlit("/export");
    reveal_strlit("/ayuda");
    reveal_strlit("/help");
    reveal_strlit("/start");
    assert("/hoy"@[1] != "/mes"@[1]);
    assert("/semana"@[1] != "/borrar"@[1]);
    assert("/semana"@[1] != "/export"@[1]);
    assert("/borrar"@[1] != "/export"@[1]);
    assert("/ayuda"@[1] != "/start"@[1]);
    assert("/hoy"@.len() == 4 && "/mes"@.len() == 4 && "/semana"@.len() == 7 && "/ultimos"@.len() == 8);
    assert("/borrar"@.len() == 7 && "/export"@.len() == 7 && "/ayuda"@.len() == 6 && "/help"@.len() == 5);
    assert("/start"@.len() == 6);
}

fn command_parts(t: &Vec<char>) -> (r: (Vec<char>, Vec<char>))
    ensures
        r.1@ == command_rest(t@),
        lowercase(r.0@) == command_name(t@),
{
    let mut p: usize = 0;
    while p < t.len() && !is_whitespace(t[p])
        invariant
            p <= t.len(),
            forall|j: int| 0 <= j < p ==> !is_white(#[trigger] t@[j]),
        decreases t.len() - p,
    {
        p += 1;
    }
    let head: Vec<char>;
    let rest: Vec<char>;
    if p < t.len() {
        proof {
            let w = choose|i: int| 0 <= i < t@.len() && is_white(t@[i]) && forall|j: int| 0 <= j < i ==> !is_white(#[trigger] t@[j]);
            assert(is_white(t@[p as int]));
            assert(w == p);
            assert(first_white(t@) == Some(p as int));
        }
        head = copy_range(t, 0, p);
        let tail = copy_range(t, p + 1, t.len());
        assert(tail@ =~= t@.skip(p + 1));
        rest = trimmed(&tail);
        assert(head@ =~= t@.take(p as int));
    } else {
        assert(first_white(t@) is None);
        head = copy_range(t, 0, t.len());
        assert(head@ =~= t@);
        rest = Vec::new();
    }
    let mut q: usize = 0;
    while q < head.len() && head[q] != '@'
        invariant
            q <= head.len(),
            forall|j: int| 0 <= j < q ==> #[trigger] head@[j] != '@',
        decreases head.len() - q,
    {
        q += 1;
    }
    let name_part = copy_range(&head, 0, q);
    proof {
        if q < head.len() {
            assert(head@[q as int] == '@');
            let w = choose|i: int| 0 <= i < head@.len() && head@[i] == '@' && forall|j: int| 0 <= j < i ==> #[trigger] head@[j] != '@';
            assert(w == q);
            assert(first_index_of(head@, '@') == Some(q as int));
            assert(name_part@ =~= head@.take(q as int));
        } else {
            assert(first_index_of(head@, '@') is None);
            assert(name_part@ =~= head@);
        }
    }
    (name_part, rest)
}

fn handle_command(db: &mut Db, t: &Vec<char>, now_ms: i64) -> (r: Result<Reply, BotError>)
    ensures
        command_reply_ok(
            t@,
            now_ms,
            r,
            old(db).requests(),
            final(db).requests(),
            old(db).answers(),
            final(db).answers(),
        ),
{
    let (name_part, rest) = command_parts(t);
    let command = chars_of(crate::config::to_lowercase(string_of(&name_part).as_str()).as_str());
    proof {
        lemma_command_literals();
    }
    assert(command@ == command_name(t@));
    if same_text(&command, "/hoy") {
        today(db, now_ms)
    } else if same_text(&command, "/semana") {
        this_week(db, now_ms)
    } else if same_text(&command, "/mes") {
        month(db, &rest, now_ms)
    } else if same_text(&command, "/ultimos") {
        latest(db, &rest)
    } else if same_text(&command, "/borrar") {
        remove(db, &rest)
    } else if same_text(&command, "/export") {
        export(db, &rest, now_ms)
    } else if same_text(&command, "/ayuda") || same_text(&command, "/help") || same_text(&command, "/start") {
        Ok(text_reply(&chars_of(help_text().as_str())))
    } else {
        let mut out: Vec<char> = Vec::new();
        push_str(&mut out, "No conozco ese comando.\n\n");
        push_help(&mut out);
        assert(out@ =~= unknown_command_text());
        Ok(text_reply(&out))
    }
}

/// Answers one incoming text: a command when it starts with `/`, an expense
/// otherwise. Errors come only from the store or from a clock reading that
/// chrono cannot place in Buenos Aires.
pub fn handle_text(db: &mut Db, text: &str, now_ms: i64) -> (r: Result<Reply, BotError>)
    ensures
        ({
            let t = trim(text@);
            if t.len() > 0 && t[0] == '/' {
                command_reply_ok(
                    t,
                    now_ms,
                    r,
                    old(db).requests(),
                    final(db).requests(),
                    old(db).answers(),
                    final(db).answers(),
                )
            } else {
                expense_reply_ok(
                    t,
                    now_ms,
                    r,
                    old(db).requests(),
                    final(db).requests(),
                    old(db).answers(),
                    final(db).answers(),
                )
            }
        }),
{
    let t = trimmed(&chars_of(text));
    if t.len() > 0 && t[0] == '/' {
        handle_command(db, &t, now_ms)
    } else {
        handle_expense(db, &t, now_ms)
    }
}


/// The sum of a sequence of amounts.
pub open spec fn amounts_total(amounts: Seq<int>) -> int
    decreases amounts.len(),
{
    if amounts.len() == 0 {
        0
    } else {
        amounts[0] + amounts_total(amounts.drop_first())
    }
}

/// How many of the expenses `amounts`, added one after another to a week
/// total that starts at `before`, get a limit warning.
pub open spec fn alert_count(c: Category, week: Date, before: int, amounts: Seq<int>) -> nat
    decreases amounts.len(),
{
    if amounts.len() == 0 {
        0
    } else {
        let after = before + amounts[0];
        (if alert_text(c, week, before, after) is Some { 1nat } else { 0nat }) + alert_count(
            c,
            week,
            after,
            amounts.drop_first(),
        )
    }
}

/// The limit warning fires exactly once per crossing: of a run of
/// non-negative expenses in one category and week, exactly one is warned
/// about when the week's total goes from below the limit to at least the
/// limit, and none otherwise.
pub proof fn law_alert_fires_once_per_crossing(c: Category, week: Date, before: int, amounts: Seq<int>)
    requires
        forall|i: int| 0 <= i < amounts.len() ==> amounts[i] >= 0,
    ensures
        alert_count(c, week, before, amounts) == (if limit_of(c) is Some && before < limit_of(c)->0
            <= before + amounts_total(amounts) {
            1nat
        } else {
            0nat
        }),
    decreases amounts.len(),
{
    if amounts.len() > 0 {
        let rest = amounts.drop_first();
        assert forall|i: int| 0 <= i < rest.len() implies rest[i] >= 0 by {
            assert(rest[i] == amounts[i + 1]);
        }
        assert(amounts[0] >= 0);
        law_alert_fires_once_per_crossing(c, week, before + amounts[0], rest);
        lemma_amounts_total_nonnegative(rest);
        assert(amounts_total(amounts) == amounts[0] + amounts_total(rest));
    }
}

proof fn lemma_amounts_total_nonnegative(amounts: Seq<int>)
    requires
        forall|i: int| 0 <= i < amounts.len() ==> amounts[i] >= 0,
    ensures
        amounts_total(amounts) >= 0,
    decreases amounts.len(),
{
    if amounts.len() > 0 {
        let rest = amounts.drop_first();
        assert forall|i: int| 0 <= i < rest.len() implies rest[i] >= 0 by {
            assert(rest[i] == amounts[i + 1]);
        }
        assert(amounts[0] >= 0);
        lemma_amounts_total_nonnegative(rest);
    }
}

/// Pieces that each fit stay in messages that each fit.
proof fn lemma_pack_fits(ps: Seq<Seq<char>>)
    requires
        forall|k: int| 0 <= k < ps.len() ==> #[trigger] ps[k].len() <= TELEGRAM_MAX_CHARS,
    ensures
        pack(ps).1.len() <= TELEGRAM_MAX_CHARS,
        forall|k: int| 0 <= k < pack(ps).0.len() ==> #[trigger] pack(ps).0[k].len() <= TELEGRAM_MAX_CHARS,
    decreases ps.len(),
{
    if ps.len() > 0 {
        let init = ps.drop_last();
        assert forall|k: int| 0 <= k < init.len() implies #[trigger] init[k].len() <= TELEGRAM_MAX_CHARS by {
            assert(init[k] == ps[k]);
        }
        lemma_pack_fits(init);
        assert(ps.last().len() <= TELEGRAM_MAX_CHARS);
        let (cs, cur) = pack(init);
        let p = ps.last();
        if cur.len() > 0 && cur.len() + 1 + p.len() > TELEGRAM_MAX_CHARS {
            let cs2 = cs.push(cur);
            assert forall|k: int| 0 <= k < cs2.len() implies #[trigger] cs2[k].len() <= TELEGRAM_MAX_CHARS by {
                if k < cs.len() {
                    assert(cs2[k] == cs[k]);
                }
            }
            assert(pack(ps).0 == cs2);
        }
    }
}

/// Every message of a split reply fits in one Telegram message, and there is
/// always at least one message.
pub proof fn law_chunks_fit(s: Seq<char>)
    ensures
        message_chunks(s).len() >= 1,
        forall|k: int| 0 <= k < message_chunks(s).len() ==> #[trigger] message_chunks(s)[k].len() <= TELEGRAM_MAX_CHARS,
{
    lemma_pieces_fit(lines(s));
    lemma_pack_fits(pieces(lines(s)));
    let (cs, cur) = pack(pieces(lines(s)));
    if cur.len() > 0 || cs.len() == 0 {
        let m = cs.push(cur);
        assert forall|k: int| 0 <= k < m.len() implies #[trigger] m[k].len() <= TELEGRAM_MAX_CHARS by {
            if k < cs.len() {
                assert(m[k] == cs[k]);
            }
        }
    }
}

proof fn lemma_join_push(ws: Seq<Seq<char>>, x: Seq<char>, sep: Seq<char>)
    requires
        ws.len() > 0,
    ensures
        join(ws.push(x), sep) == join(ws, sep) + sep + x,
{
    assert(ws.push(x).drop_last() =~= ws);
}

/// Packing non-empty pieces loses nothing: the messages joined by newlines
/// are the pieces joined by newlines.
proof fn lemma_pack_joins(ps: Seq<Seq<char>>)
    requires
        ps.len() > 0,
        forall|k: int| 0 <= k < ps.len() ==> #[trigger] ps[k].len() > 0,
    ensures
        pack(ps).1.len() > 0,
        join(pack(ps).0.push(pack(ps).1), seq!['\n']) == join(ps, seq!['\n']),
    decreases ps.len(),
{
    let nl = seq!['\n'];
    let init = ps.drop_last();
    let p = ps.last();
    assert(p.len() > 0);
    if init.len() == 0 {
        assert(pack(init).1 =~= seq![]);
        assert(pack(ps).1 =~= p);
        assert(pack(ps).0.push(pack(ps).1) =~= seq![p]);
        assert(ps =~= seq![p]);
    } else {
        assert forall|k: int| 0 <= k < init.len() implies #[trigger] init[k].len() > 0 by {
            assert(init[k] == ps[k]);
        }
        lemma_pack_joins(init);
        let (cs, cur) = pack(init);
        lemma_join_push(init, p, nl);
        assert(init.push(p) =~= ps);
        if cur.len() + 1 + p.len() > TELEGRAM_MAX_CHARS {
            let cs2 = cs.push(cur);
            assert(pack(ps) == (cs2, p));
            lemma_join_push(cs2, p, nl);
        } else {
            let cur2 = cur + nl + p;
            assert(pack(ps) == (cs, cur2));
            if cs.len() == 0 {
                assert(cs.push(cur2) =~= seq![cur2]);
                assert(cs.push(cur) =~= seq![cur]);
            } else {
                lemma_join_push(cs, cur2, nl);
                lemma_join_push(cs, cur, nl);
            }
        }
    }
}

proof fn lemma_pieces_of_short_lines(ls: Seq<Seq<char>>)
    requires
        forall|k: int| 0 <= k < ls.len() ==> #[trigger] ls[k].len() <= TELEGRAM_MAX_CHARS,
    ensures
        pieces(ls) == ls,
    decreases ls.len(),
{
    if ls.len() > 0 {
        let init = ls.drop_last();
        assert forall|k: int| 0 <= k < init.len() implies #[trigger] init[k].len() <= TELEGRAM_MAX_CHARS by {
            assert(init[k] == ls[k]);
        }
        lemma_pieces_of_short_lines(init);
        assert(ls.last().len() <= TELEGRAM_MAX_CHARS);
        assert(line_pieces(ls.last()) == seq![ls.last()]);
        assert(init + seq![ls.last()] =~= ls);
    }
}

/// Without carriage returns, the scan of a text joined back by newlines is
/// the text, and a line in progress ends with the text's last character.
proof fn lemma_line_scan_joins(t: Seq<char>)
    requires
        forall|i: int| 0 <= i < t.len() ==> t[i] != '\r',
    ensures
        join(line_scan(t).0.push(line_scan(t).1), seq!['\n']) == t,
        line_scan(t).1.len() > 0 ==> t.len() > 0 && line_scan(t).1.last() == t.last() && t.last() != '\n',
    decreases t.len(),
{
    let nl = seq!['\n'];
    if t.len() == 0 {
        assert(line_scan(t).0.push(line_scan(t).1) =~= seq![seq![]]);
        assert(t =~= seq![]);
    } else {
        let u = t.drop_last();
        assert forall|i: int| 0 <= i < u.len() implies u[i] != '\r' by {
            assert(u[i] == t[i]);
        }
        lemma_line_scan_joins(u);
        let (done, cur) = line_scan(u);
        let c = t.last();
        assert(c == t[t.len() - 1]);
        assert(u.push(c) =~= t);
        if c == '\n' {
            assert(strip_cr(cur) == cur);
            let full_u = done.push(cur);
            assert(line_scan(t) == (full_u, Seq::<char>::empty()));
            lemma_join_push(full_u, seq![], nl);
            assert(u + nl + Seq::<char>::empty() =~= t);
        } else {
            let cur2 = cur.push(c);
            assert(line_scan(t) == (done, cur2));
            if done.len() == 0 {
                assert(done.push(cur) =~= seq![cur]);
                assert(done.push(cur2) =~= seq![cur2]);
            } else {
                lemma_join_push(done, cur, nl);
                lemma_join_push(done, cur2, nl);
                assert(join(done, nl) + nl + cur2 =~= (join(done, nl) + nl + cur).push(c));
            }
        }
    }
}

/// A reply whose lines are all non-empty and fit in one message, with no
/// carriage returns and no final line ending, is split only at line breaks:
/// the messages joined by newlines give back the reply exactly.
pub proof fn law_split_message_rejoins(s: Seq<char>)
    requires
        forall|i: int| 0 <= i < s.len() ==> s[i] != '\r',
        s.len() == 0 || s.last() != '\n',
        forall|k: int| 0 <= k < lines(s).len() ==> 0 < #[trigger] lines(s)[k].len() <= TELEGRAM_MAX_CHARS,
    ensures
        join(message_chunks(s), seq!['\n']) == s,
{
    lemma_line_scan_joins(s);
    let (done, cur) = line_scan(s);
    if s.len() == 0 {
        assert(lines(s) =~= seq![]);
        assert(pieces(lines(s)) =~= seq![]);
        assert(message_chunks(s) =~= seq![seq![]]);
        assert(s =~= seq![]);
    } else {
        assert(cur.len() > 0) by {
            let u = s.drop_last();
            assert(u.push(s.last()) =~= s);
        }
        assert(lines(s) == done.push(cur));
        lemma_pieces_of_short_lines(lines(s));
        lemma_pack_joins(lines(s));
    }
}


/// `x` holds no line break.
pub open spec fn no_newline(x: Seq<char>) -> bool {
    forall|i: int| 0 <= i < x.len() ==> x[i] != '\n'
}

/// The line of `m` that starts it: everything before its first line break.
pub open spec fn starts_with_line(m: Seq<char>, line: Seq<char>) -> bool {
    &&& no_newline(line)
    &&& line.len() <= m.len()
    &&& m.take(line.len() as int) == line
    &&& (m.len() == line.len() || m[line.len() as int] == '\n')
}

proof fn lemma_line_scan_no_newline(t: Seq<char>)
    ensures
        forall|k: int| 0 <= k < line_scan(t).0.len() ==> no_newline(#[trigger] line_scan(t).0[k]),
        no_newline(line_scan(t).1),
    decreases t.len(),
{
    if t.len() > 0 {
        let u = t.drop_last();
        lemma_line_scan_no_newline(u);
        let (done, cur) = line_scan(u);
        let c = t.last();
        if c == '\n' {
            let l = strip_cr(cur);
            assert(no_newline(l)) by {
                assert forall|i: int| 0 <= i < l.len() implies l[i] != '\n' by {
                    assert(l[i] == cur[i]);
                }
            }
            let d2 = done.push(l);
            assert forall|k: int| 0 <= k < d2.len() implies no_newline(#[trigger] d2[k]) by {
                if k < done.len() {
                    assert(d2[k] == done[k]);
                }
            }
        } else {
            let c2 = cur.push(c);
            assert forall|i: int| 0 <= i < c2.len() implies c2[i] != '\n' by {
                if i < cur.len() {
                    assert(c2[i] == cur[i]);
                }
            }
        }
    }
}

proof fn lemma_pieces_no_newline(s: Seq<char>)
    ensures
        forall|k: int| 0 <= k < pieces(lines(s)).len() ==> no_newline(#[trigger] pieces(lines(s))[k]),
{
    lemma_line_scan_no_newline(s);
    let ls = lines(s);
    let (done, cur) = line_scan(s);
    assert forall|k: int| 0 <= k < ls.len() implies no_newline(#[trigger] ls[k]) by {
        if k < done.len() {
            assert(ls[k] == done[k]);
        }
    }
    lemma_pieces_of_no_newline(ls);
}

proof fn lemma_pieces_of_no_newline(ls: Seq<Seq<char>>)
    requires
        forall|k: int| 0 <= k < ls.len() ==> no_newline(#[trigger] ls[k]),
    ensures
        forall|k: int| 0 <= k < pieces(ls).len() ==> no_newline(#[trigger] pieces(ls)[k]),
    decreases ls.len(),
{
    if ls.len() > 0 {
        let init = ls.drop_last();
        assert forall|k: int| 0 <= k < init.len() implies no_newline(#[trigger] init[k]) by {
            assert(init[k] == ls[k]);
        }
        lemma_pieces_of_no_newline(init);
        assert(no_newline(ls[ls.len() - 1]));
        lemma_line_pieces_no_newline(ls.last());
        let a = pieces(init);
        let b = line_pieces(ls.last());
        assert forall|k: int| 0 <= k < pieces(ls).len() implies no_newline(#[trigger] pieces(ls)[k]) by {
            if k < a.len() {
                assert(pieces(ls)[k] == a[k]);
            } else {
                assert(pieces(ls)[k] == b[k - a.len()]);
            }
        }
    }
}

proof fn lemma_line_pieces_no_newline(l: Seq<char>)
    requires
        no_newline(l),
    ensures
        forall|k: int| 0 <= k < line_pieces(l).len() ==> no_newline(#[trigger] line_pieces(l)[k]),
    decreases l.len(),
{
    if l.len() > TELEGRAM_MAX_CHARS {
        let h = l.take(TELEGRAM_MAX_CHARS as int);
        let rest = l.skip(TELEGRAM_MAX_CHARS as int);
        assert(no_newline(h)) by {
            assert forall|i: int| 0 <= i < h.len() implies h[i] != '\n' by {
                assert(h[i] == l[i]);
            }
        }
        assert(no_newline(rest)) by {
            assert forall|i: int| 0 <= i < rest.len() implies rest[i] != '\n' by {
                assert(rest[i] == l[i + TELEGRAM_MAX_CHARS]);
            }
        }
        lemma_line_pieces_no_newline(rest);
        let r = line_pieces(rest);
        assert forall|k: int| 0 <= k < line_pieces(l).len() implies no_newline(#[trigger] line_pieces(l)[k]) by {
            if k > 0 {
                assert(line_pieces(l)[k] == r[k - 1]);
            }
        }
    } else {
        assert(line_pieces(l)[0] == l);
    }
}

/// The piece that opened each message of `pack(ps)`, in order: the closed
/// messages first, then the one in progress.
pub open spec fn pack_firsts(ps: Seq<Seq<char>>) -> Seq<Seq<char>>
    decreases ps.len(),
{
    if ps.len() == 0 {
        seq![]
    } else {
        let (cs, cur) = pack(ps.drop_last());
        let fs = pack_firsts(ps.drop_last());
        let p = ps.last();
        if cur.len() == 0 || cur.len() + 1 + p.len() > TELEGRAM_MAX_CHARS {
            fs.push(p)
        } else {
            fs
        }
    }
}

proof fn lemma_pack_greedy(ps: Seq<Seq<char>>)
    requires
        ps.len() > 0,
        forall|k: int| 0 <= k < ps.len() ==> (#[trigger] ps[k]).len() > 0,
    ensures
        pack(ps).1.len() > 0,
        pack_firsts(ps).len() == pack(ps).0.len() + 1,
        forall|k: int| 0 <= k < pack_firsts(ps).len() ==> (#[trigger] pack_firsts(ps)[k]).len() > 0,
        forall|k: int| 0 <= k < pack(ps).0.len() ==> (#[trigger] pack(ps).0[k]).take(pack_firsts(ps)[k].len() as int)
            == pack_firsts(ps)[k] && pack_firsts(ps)[k].len() <= pack(ps).0[k].len(),
        pack(ps).1.take(pack_firsts(ps).last().len() as int) == pack_firsts(ps).last(),
        pack_firsts(ps).last().len() <= pack(ps).1.len(),
        forall|k: int| 0 <= k < pack(ps).0.len() ==> (#[trigger] pack(ps).0[k]).len() + 1 + pack_firsts(ps)[k + 1].len()
            > TELEGRAM_MAX_CHARS,
        forall|k: int| 0 <= k < pack(ps).0.len() ==> (#[trigger] pack(ps).0[k]).len() == pack_firsts(ps)[k].len()
            || pack(ps).0[k][pack_firsts(ps)[k].len() as int] == '\n',
        pack(ps).1.len() == pack_firsts(ps).last().len() || pack(ps).1[pack_firsts(ps).last().len() as int] == '\n',
        (forall|k: int| 0 <= k < ps.len() ==> no_newline(#[trigger] ps[k])) ==> (forall|k: int|
            0 <= k < pack_firsts(ps).len() ==> no_newline(#[trigger] pack_firsts(ps)[k])),
    decreases ps.len(),
{
    let init = ps.drop_last();
    let p = ps.last();
    assert(p.len() > 0);
    if init.len() == 0 {
        assert(pack(init).1 =~= Seq::<char>::empty());
        assert(pack(init).0 =~= Seq::<Seq<char>>::empty());
        assert(pack_firsts(init) =~= Seq::<Seq<char>>::empty());
        assert(pack(ps).1 =~= p);
        assert(p.take(p.len() as int) =~= p);
    } else {
        assert forall|k: int| 0 <= k < init.len() implies (#[trigger] init[k]).len() > 0 by {
            assert(init[k] == ps[k]);
        }
        lemma_pack_greedy(init);
        let (cs, cur) = pack(init);
        let fs = pack_firsts(init);
        let f = fs.last();
        if forall|k: int| 0 <= k < ps.len() ==> no_newline(#[trigger] ps[k]) {
            assert forall|k: int| 0 <= k < init.len() implies no_newline(#[trigger] init[k]) by {
                assert(init[k] == ps[k]);
            }
            assert(no_newline(ps[ps.len() - 1]));
        }
        if cur.len() + 1 + p.len() > TELEGRAM_MAX_CHARS {
            let cs2 = cs.push(cur);
            let fs2 = fs.push(p);
            assert(pack(ps) == (cs2, p));
            assert(pack_firsts(ps) == fs2);
            assert(p.take(p.len() as int) =~= p);
            assert forall|k: int| 0 <= k < fs2.len() implies (#[trigger] fs2[k]).len() > 0 by {
                if k < fs.len() {
                    assert(fs2[k] == fs[k]);
                }
            }
            assert forall|k: int| 0 <= k < cs2.len() implies (#[trigger] cs2[k]).take(fs2[k].len() as int) == fs2[k]
                && fs2[k].len() <= cs2[k].len() by {
                if k < cs.len() {
                    assert(cs2[k] == cs[k]);
                    assert(fs2[k] == fs[k]);
                } else {
                    assert(cs2[k] == cur);
                    assert(fs2[k] == f);
                }
            }
            assert forall|k: int| 0 <= k < cs2.len() implies (#[trigger] cs2[k]).len() + 1 + fs2[k + 1].len()
                > TELEGRAM_MAX_CHARS by {
                if k < cs.len() {
                    assert(cs2[k] == cs[k]);
                    assert(fs2[k + 1] == fs[k + 1]);
                } else {
                    assert(cs2[k] == cur);
                    assert(fs2[k + 1] == p);
                }
            }
            assert forall|k: int| 0 <= k < cs2.len() implies (#[trigger] cs2[k]).len() == fs2[k].len()
                || cs2[k][fs2[k].len() as int] == '\n' by {
                if k < cs.len() {
                    assert(cs2[k] == cs[k]);
                    assert(fs2[k] == fs[k]);
                } else {
                    assert(cs2[k] == cur);
                    assert(fs2[k] == f);
                }
            }
            if forall|k: int| 0 <= k < ps.len() ==> no_newline(#[trigger] ps[k]) {
                assert forall|k: int| 0 <= k < fs2.len() implies no_newline(#[trigger] fs2[k]) by {
                    if k < fs.len() {
                        assert(fs2[k] == fs[k]);
                    }
                }
            }
        } else {
            let cur2 = cur + seq!['\n'] + p;
            assert(pack(ps) == (cs, cur2));
            assert(pack_firsts(ps) == fs);
            assert(cur2.take(f.len() as int) =~= cur.take(f.len() as int));
            if cur.len() == f.len() {
                assert(cur2[f.len() as int] == '\n');
            } else {
                assert(cur2[f.len() as int] == cur[f.len() as int]);
            }
        }
    }
}

proof fn lemma_line_pieces_nonempty(l: Seq<char>)
    requires
        l.len() > 0,
    ensures
        line_pieces(l).len() > 0,
        forall|k: int| 0 <= k < line_pieces(l).len() ==> (#[trigger] line_pieces(l)[k]).len() > 0,
    decreases l.len(),
{
    if l.len() > TELEGRAM_MAX_CHARS {
        let rest = l.skip(TELEGRAM_MAX_CHARS as int);
        lemma_line_pieces_nonempty(rest);
        let r = line_pieces(rest);
        assert forall|k: int| 0 <= k < line_pieces(l).len() implies (#[trigger] line_pieces(l)[k]).len() > 0 by {
            if k > 0 {
                assert(line_pieces(l)[k] == r[k - 1]);
            }
        }
    }
}

proof fn lemma_pieces_nonempty(ls: Seq<Seq<char>>)
    requires
        forall|k: int| 0 <= k < ls.len() ==> (#[trigger] ls[k]).len() > 0,
    ensures
        ls.len() > 0 ==> pieces(ls).len() > 0,
        forall|k: int| 0 <= k < pieces(ls).len() ==> (#[trigger] pieces(ls)[k]).len() > 0,
    decreases ls.len(),
{
    if ls.len() > 0 {
        let init = ls.drop_last();
        assert forall|k: int| 0 <= k < init.len() implies (#[trigger] init[k]).len() > 0 by {
            assert(init[k] == ls[k]);
        }
        lemma_pieces_nonempty(init);
        assert(ls.last().len() > 0);
        lemma_line_pieces_nonempty(ls.last());
        let a = pieces(init);
        let b = line_pieces(ls.last());
        assert forall|k: int| 0 <= k < pieces(ls).len() implies (#[trigger] pieces(ls)[k]).len() > 0 by {
            if k < a.len() {
                assert(pieces(ls)[k] == a[k]);
            } else {
                assert(pieces(ls)[k] == b[k - a.len()]);
            }
        }
    }
}

/// Splitting is greedy: for a reply with at least one line and no empty line,
/// every message is non-empty, its first line is the piece that opened it,
/// and no message could have taken the first line of the next one without
/// going over the limit.
pub proof fn law_split_is_greedy(s: Seq<char>)
    requires
        lines(s).len() > 0,
        forall|k: int| 0 <= k < lines(s).len() ==> (#[trigger] lines(s)[k]).len() > 0,
    ensures
        pack_firsts(pieces(lines(s))).len() == message_chunks(s).len(),
        forall|k: int| 0 <= k < message_chunks(s).len() ==> (#[trigger] message_chunks(s)[k]).take(
            pack_firsts(pieces(lines(s)))[k].len() as int,
        ) == pack_firsts(pieces(lines(s)))[k] && pack_firsts(pieces(lines(s)))[k].len() > 0,
        forall|k: int| 0 <= k < message_chunks(s).len() - 1 ==> (#[trigger] message_chunks(s)[k]).len() + 1
            + pack_firsts(pieces(lines(s)))[k + 1].len() > TELEGRAM_MAX_CHARS,
        forall|k: int| 0 <= k < message_chunks(s).len() ==> starts_with_line(
            #[trigger] message_chunks(s)[k],
            pack_firsts(pieces(lines(s)))[k],
        ),
        forall|k: int| 0 <= k < message_chunks(s).len() ==> (#[trigger] message_chunks(s)[k]).len() > 0,
        forall|k: int| 0 <= k < message_chunks(s).len() - 1 ==> {
            let next = #[trigger] message_chunks(s)[k + 1];
            message_chunks(s)[k].len() + 1 + first_line_len(next) > TELEGRAM_MAX_CHARS
        },
{
    let ps = pieces(lines(s));
    lemma_pieces_nonempty(lines(s));
    lemma_pack_greedy(ps);
    let (cs, cur) = pack(ps);
    let fs = pack_firsts(ps);
    let ms = message_chunks(s);
    assert(ms == cs.push(cur));
    assert forall|k: int| 0 <= k < ms.len() implies (#[trigger] ms[k]).take(fs[k].len() as int) == fs[k]
        && fs[k].len() > 0 by {
        if k < cs.len() {
            assert(ms[k] == cs[k]);
        } else {
            assert(ms[k] == cur);
            assert(fs[k] == fs.last());
        }
    }
    assert forall|k: int| 0 <= k < ms.len() - 1 implies (#[trigger] ms[k]).len() + 1 + fs[k + 1].len()
        > TELEGRAM_MAX_CHARS by {
        assert(ms[k] == cs[k]);
    }
    lemma_pieces_no_newline(s);
    assert forall|k: int| 0 <= k < ms.len() implies starts_with_line(#[trigger] ms[k], fs[k]) by {
        if k < cs.len() {
            assert(ms[k] == cs[k]);
        } else {
            assert(ms[k] == cur);
            assert(fs[k] == fs.last());
        }
    }
    assert forall|k: int| 0 <= k < ms.len() implies (#[trigger] ms[k]).len() > 0 by {
        assert(starts_with_line(ms[k], fs[k]));
    }
    assert forall|k: int| 0 <= k < ms.len() - 1 implies ({
        let next = #[trigger] ms[k + 1];
        ms[k].len() + 1 + first_line_len(next) > TELEGRAM_MAX_CHARS
    }) by {
        assert(ms[k] == cs[k]);
        lemma_first_line_len(ms[k + 1], fs[k + 1]);
    }
}

/// The length of the first line of `m`: the characters before its first line
/// break, or all of them.
pub open spec fn first_line_len(m: Seq<char>) -> int {
    match first_index_of(m, '\n') {
        Some(i) => i,
        None => m.len() as int,
    }
}

proof fn lemma_first_line_len(m: Seq<char>, line: Seq<char>)
    requires
        starts_with_line(m, line),
    ensures
        first_line_len(m) == line.len(),
{
    let n = line.len() as int;
    assert forall|j: int| 0 <= j < n implies m[j] != '\n' by {
        assert(m.take(n)[j] == m[j]);
        assert(line[j] != '\n');
    }
    if n < m.len() {
        assert(m[n] == '\n');
        let i = choose|i: int| 0 <= i < m.len() && m[i] == '\n' && forall|j: int| 0 <= j < i ==> #[trigger] m[j] != '\n';
        if i < n {
            assert(m[i] != '\n');
        }
        if i > n {
            assert(m[n] != '\n');
        }
    } else {
        assert(!(exists|i: int| 0 <= i < m.len() && m[i] == '\n'));
    }
}

} // verus!
