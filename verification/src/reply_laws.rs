use vstd::prelude::*;
use crate::config::{category_name, lemma_category_literals, Category};
use crate::dates::{day_month_text, law_day_number_identifies_the_day, month_key_text, two_digits, Date};
use crate::db::{StoreAnswer, StoreRequest};
use crate::parse::{parsed, ParsedMessage};
use crate::db::{AddOutcome, CategoryTotal, ExpenseRow};
use crate::handlers::{
    added_answer, confirmed_outcome, confirms, expense_reply_ok, text_of,
    alert_text, amounts_sum, confirmation_text, entries_text, entry_text, export_view, limit_of, listing_text,
    report_text, row_lines, row_text, totals_sum, ReplyView,
};
use crate::money::{amount_text, decimal, grouped, int_text, magnitude};
use crate::parse::{all_digits, digit_value, is_ascii_digit, law_amount_groups, lemma_decimal, lemma_digit_char, without_dots};

verus! {

/// How many times `c` occurs in `s`.
pub open spec fn occurrences(s: Seq<char>, c: char) -> nat
    decreases s.len(),
{
    if s.len() == 0 {
        0
    } else {
        occurrences(s.drop_last(), c) + if s.last() == c { 1nat } else { 0nat }
    }
}

/// `c` does not occur in `s`.
pub open spec fn free_of(s: Seq<char>, c: char) -> bool {
    forall|i: int| 0 <= i < s.len() ==> s[i] != c
}

proof fn lemma_occurrences_append(a: Seq<char>, b: Seq<char>, c: char)
    ensures
        occurrences(a + b, c) == occurrences(a, c) + occurrences(b, c),
    decreases b.len(),
{
    if b.len() == 0 {
        assert(a + b =~= a);
    } else {
        lemma_occurrences_append(a, b.drop_last(), c);
        assert((a + b).drop_last() =~= a + b.drop_last());
        assert((a + b).last() == b.last());
    }
}

proof fn lemma_occurrences_free(s: Seq<char>, c: char)
    requires
        free_of(s, c),
    ensures
        occurrences(s, c) == 0,
    decreases s.len(),
{
    if s.len() > 0 {
        assert(s.last() == s[s.len() - 1]);
        let t = s.drop_last();
        assert forall|i: int| 0 <= i < t.len() implies t[i] != c by {
            assert(t[i] == s[i]);
        }
        lemma_occurrences_free(t, c);
    }
}

proof fn lemma_free_append(a: Seq<char>, b: Seq<char>, c: char)
    requires
        free_of(a, c),
        free_of(b, c),
    ensures
        free_of(a + b, c),
{
    assert forall|i: int| 0 <= i < (a + b).len() implies (a + b)[i] != c by {
        if i < a.len() {
            assert((a + b)[i] == a[i]);
        } else {
            assert((a + b)[i] == b[i - a.len()]);
        }
    }
}

proof fn lemma_digits_free(s: Seq<char>, c: char)
    requires
        all_digits(s),
        !is_ascii_digit(c),
    ensures
        free_of(s, c),
{
    assert forall|i: int| 0 <= i < s.len() implies s[i] != c by {
        assert(is_ascii_digit(s[i]));
    }
}

/// An amount as printed holds only `-`, `$`, digits and dots.
proof fn lemma_amount_text_chars(a: int)
    ensures
        forall|i: int| 0 <= i < amount_text(a).len() ==> {
            let ch = #[trigger] amount_text(a)[i];
            is_ascii_digit(ch) || ch == '.' || ch == '$' || ch == '-'
        },
{
    law_amount_groups(magnitude(a));
    let g = grouped(magnitude(a));
    let p = if a < 0 { seq!['-', '$'] } else { seq!['$'] };
    assert(amount_text(a) == p + g);
    assert forall|i: int| 0 <= i < amount_text(a).len() implies {
        let ch = #[trigger] amount_text(a)[i];
        is_ascii_digit(ch) || ch == '.' || ch == '$' || ch == '-'
    } by {
        if i >= p.len() {
            assert(amount_text(a)[i] == g[i - p.len()]);
        }
    }
}

proof fn lemma_amount_text_free(a: int)
    ensures
        free_of(amount_text(a), '\n'),
        free_of(amount_text(a), ' '),
{
    lemma_amount_text_chars(a);
}

proof fn lemma_int_text_free(n: int)
    ensures
        free_of(int_text(n), '\n'),
        free_of(int_text(n), ' '),
{
    let m: nat = if n < 0 { (-n) as nat } else { n as nat };
    lemma_decimal(m);
    lemma_digits_free(decimal(m), '\n');
    lemma_digits_free(decimal(m), ' ');
    if n < 0 {
        lemma_free_append(seq!['-'], decimal(m), '\n');
        lemma_free_append(seq!['-'], decimal(m), ' ');
    }
}

proof fn lemma_category_name_free(c: Category)
    ensures
        free_of(category_name(c), '\n'),
{
    lemma_category_literals();
}

proof fn lemma_day_month_free(d: Date)
    requires
        d.is_calendar(),
    ensures
        free_of(day_month_text(d), '\n'),
{
    lemma_digit_char(d.day as int / 10);
    lemma_digit_char(d.day as int % 10);
    lemma_digit_char(d.month as int / 10);
    lemma_digit_char(d.month as int % 10);
}

/// `occurrences` of a line break in a text built of pieces without one.
proof fn lemma_entry_has_one_line_break(e: CategoryTotal, with_limits: bool)
    ensures
        occurrences(entry_text(e, with_limits), '\n') == 1,
        entry_text(e, with_limits)[0] == '\n',
{
    reveal_strlit("\n- ");
    reveal_strlit(": ");
    reveal_strlit(" / ");
    let a = "\n- "@;
    let n = category_name(e.category);
    let b = ": "@;
    let t = amount_text(e.total as int);
    let tail = if with_limits && limit_of(e.category) is Some {
        " / "@ + amount_text(limit_of(e.category)->0)
    } else {
        seq![]
    };
    lemma_category_name_free(e.category);
    lemma_amount_text_free(e.total as int);
    if with_limits && limit_of(e.category) is Some {
        lemma_amount_text_free(limit_of(e.category)->0);
        lemma_free_append(" / "@, amount_text(limit_of(e.category)->0), '\n');
    }
    assert(free_of(tail, '\n'));
    lemma_free_append(n, b, '\n');
    lemma_free_append(n + b, t, '\n');
    lemma_free_append(n + b + t, tail, '\n');
    let rest = n + b + t + tail;
    lemma_occurrences_free(rest, '\n');
    assert(entry_text(e, with_limits) =~= a + rest);
    lemma_occurrences_append(a, rest, '\n');
    let a1 = a.drop_last();
    let a2 = a1.drop_last();
    assert(a2 =~= seq!['\n']);
    assert(a2.drop_last() =~= Seq::<char>::empty());
    assert(occurrences(Seq::<char>::empty(), '\n') == 0);
    assert(occurrences(a2, '\n') == occurrences(a2.drop_last(), '\n') + 1);
    assert(a1.last() == '-');
    assert(occurrences(a1, '\n') == occurrences(a2, '\n'));
    assert(a.last() == ' ');
    assert(occurrences(a, '\n') == occurrences(a1, '\n'));
}

proof fn lemma_entries_line_breaks(ts: Seq<CategoryTotal>, with_limits: bool)
    ensures
        occurrences(entries_text(ts, with_limits), '\n') == ts.len(),
        ts.len() > 0 ==> entries_text(ts, with_limits)[0] == '\n',
    decreases ts.len(),
{
    if ts.len() > 0 {
        lemma_entries_line_breaks(ts.drop_last(), with_limits);
        lemma_entry_has_one_line_break(ts.last(), with_limits);
        lemma_occurrences_append(entries_text(ts.drop_last(), with_limits), entry_text(ts.last(), with_limits), '\n');
        if ts.len() == 1 {
            assert(entries_text(ts.drop_last(), with_limits) =~= Seq::<char>::empty());
        }
    }
}

/// A report has one line per category total, after a first line that shows
/// the sum of all of them: dropping or adding a total changes both.
pub proof fn law_report_has_a_line_per_total(title: Seq<char>, ts: Seq<CategoryTotal>, with_limits: bool)
    requires
        free_of(title, '\n'),
        ts.len() > 0,
        report_text(title, ts, with_limits) is Some,
    ensures
        ({
            let x = report_text(title, ts, with_limits)->0;
            let head = title + ": "@ + amount_text(totals_sum(ts));
            &&& occurrences(x, '\n') == ts.len()
            &&& x.len() > head.len()
            &&& x.take(head.len() as int) == head
            &&& x[head.len() as int] == '\n'
        }),
{
    reveal_strlit(": ");
    let x = report_text(title, ts, with_limits)->0;
    let head = title + ": "@ + amount_text(totals_sum(ts));
    let body = entries_text(ts, with_limits);
    assert(x == head + body);
    lemma_amount_text_free(totals_sum(ts));
    lemma_free_append(title, ": "@, '\n');
    lemma_free_append(title + ": "@, amount_text(totals_sum(ts)), '\n');
    lemma_occurrences_free(head, '\n');
    lemma_entries_line_breaks(ts, with_limits);
    lemma_occurrences_append(head, body, '\n');
    assert(x.take(head.len() as int) =~= head);
    assert(x[head.len() as int] == body[0]);
}

proof fn lemma_row_text_free(row: ExpenseRow)
    requires
        row.local_date.is_calendar(),
        free_of(row.description@, '\n'),
    ensures
        free_of(row_text(row), '\n'),
{
    reveal_strlit("#");
    reveal_strlit(" ");
    reveal_strlit(" - ");
    lemma_int_text_free(row.id as int);
    lemma_day_month_free(row.local_date);
    lemma_amount_text_free(row.amount as int);
    lemma_category_name_free(row.category);
    let sp = " "@;
    let p1 = "#"@ + int_text(row.id as int);
    lemma_free_append("#"@, int_text(row.id as int), '\n');
    lemma_free_append(p1, sp, '\n');
    lemma_free_append(p1 + sp, day_month_text(row.local_date), '\n');
    let p2 = p1 + sp + day_month_text(row.local_date);
    lemma_free_append(p2, sp, '\n');
    lemma_free_append(p2 + sp, amount_text(row.amount as int), '\n');
    let p3 = p2 + sp + amount_text(row.amount as int);
    lemma_free_append(p3, sp, '\n');
    lemma_free_append(p3 + sp, category_name(row.category), '\n');
    let p4 = p3 + sp + category_name(row.category);
    let tail = if row.description@.len() > 0 { " - "@ + row.description@ } else { seq![] };
    lemma_free_append(" - "@, row.description@, '\n');
    assert(free_of(tail, '\n'));
    lemma_free_append(p4, tail, '\n');
    assert(row_text(row) == p4 + tail);
}

proof fn lemma_row_lines_line_breaks(rows: Seq<ExpenseRow>)
    requires
        forall|i: int| 0 <= i < rows.len() ==> (#[trigger] rows[i]).local_date.is_calendar(),
        forall|i: int| 0 <= i < rows.len() ==> free_of((#[trigger] rows[i]).description@, '\n'),
    ensures
        occurrences(row_lines(rows), '\n') == rows.len(),
        rows.len() > 0 ==> row_lines(rows)[0] == '\n',
    decreases rows.len(),
{
    if rows.len() > 0 {
        let init = rows.drop_last();
        assert forall|i: int| 0 <= i < init.len() implies (#[trigger] init[i]).local_date.is_calendar() by {
            assert(init[i] == rows[i]);
        }
        assert forall|i: int| 0 <= i < init.len() implies free_of((#[trigger] init[i]).description@, '\n') by {
            assert(init[i] == rows[i]);
        }
        lemma_row_lines_line_breaks(init);
        let last = rows.last();
        assert(last == rows[rows.len() - 1]);
        lemma_row_text_free(last);
        lemma_occurrences_free(row_text(last), '\n');
        reveal_strlit("\n");
        let nl = "\n"@;
        assert(nl =~= seq!['\n']);
        assert(nl.drop_last() =~= Seq::<char>::empty());
        assert(occurrences(Seq::<char>::empty(), '\n') == 0);
        assert(nl.last() == '\n');
        assert(occurrences(nl, '\n') == occurrences(nl.drop_last(), '\n') + 1);
        lemma_occurrences_append(row_lines(init), nl, '\n');
        lemma_occurrences_append(row_lines(init) + nl, row_text(last), '\n');
        if rows.len() == 1 {
            assert(row_lines(init) =~= Seq::<char>::empty());
        }
    }
}

/// The `/ultimos` listing has one line per row given, after a first line
/// that counts them: a row left out changes both.
pub proof fn law_listing_has_a_line_per_row(rows: Seq<ExpenseRow>)
    requires
        rows.len() > 0,
        forall|i: int| 0 <= i < rows.len() ==> (#[trigger] rows[i]).local_date.is_calendar(),
        forall|i: int| 0 <= i < rows.len() ==> free_of((#[trigger] rows[i]).description@, '\n'),
    ensures
        ({
            let x = listing_text(rows);
            let head = "Ultimos "@ + int_text(rows.len() as int) + ":"@;
            &&& occurrences(x, '\n') == rows.len()
            &&& x.take(head.len() as int) == head
            &&& x[head.len() as int] == '\n'
        }),
{
    reveal_strlit("Ultimos ");
    reveal_strlit(":");
    let head = "Ultimos "@ + int_text(rows.len() as int) + ":"@;
    let x = listing_text(rows);
    assert(x == head + row_lines(rows));
    lemma_int_text_free(rows.len() as int);
    lemma_free_append("Ultimos "@, int_text(rows.len() as int), '\n');
    lemma_free_append("Ultimos "@ + int_text(rows.len() as int), ":"@, '\n');
    lemma_occurrences_free(head, '\n');
    lemma_row_lines_line_breaks(rows);
    lemma_occurrences_append(head, row_lines(rows), '\n');
    assert(x.take(head.len() as int) =~= head);
    assert(x[head.len() as int] == row_lines(rows)[0]);
}


/// Two amounts print alike only when they are the same amount.
proof fn lemma_amount_text_injective(a: int, b: int)
    requires
        amount_text(a) == amount_text(b),
    ensures
        a == b,
{
    law_amount_groups(magnitude(a));
    law_amount_groups(magnitude(b));
    let ga = grouped(magnitude(a));
    let gb = grouped(magnitude(b));
    let pa = if a < 0 { seq!['-', '$'] } else { seq!['$'] };
    let pb = if b < 0 { seq!['-', '$'] } else { seq!['$'] };
    assert(amount_text(a) == pa + ga);
    assert(amount_text(b) == pb + gb);
    assert(is_ascii_digit(ga[0]) || ga[0] == '.');
    assert(is_ascii_digit(gb[0]) || gb[0] == '.');
    if (a < 0) != (b < 0) {
        if a < 0 {
            assert(amount_text(a)[1] == '$');
            assert(amount_text(b)[1] == gb[0]);
        } else {
            assert(amount_text(b)[1] == '$');
            assert(amount_text(a)[1] == ga[0]);
        }
        assert(false);
    }
    assert(ga =~= amount_text(a).skip(pa.len() as int));
    assert(gb =~= amount_text(b).skip(pb.len() as int));
    assert(ga == gb);
    lemma_decimal(magnitude(a));
    lemma_decimal(magnitude(b));
    assert(decimal(magnitude(a)) == decimal(magnitude(b)));
}

/// Two non-negative counts print alike only when they are the same count.
proof fn lemma_count_text_injective(m: int, n: int)
    requires
        m >= 0,
        n >= 0,
        int_text(m) == int_text(n),
    ensures
        m == n,
{
    lemma_decimal(m as nat);
    lemma_decimal(n as nat);
}

/// The confirmation of a stored expense names the month total that the store
/// returned: two outcomes that differ only in their month total give
/// different confirmations.
pub proof fn law_confirmation_names_the_month_total(
    amount: int,
    category: Category,
    description: Seq<char>,
    o1: AddOutcome,
    o2: AddOutcome,
    today: Date,
    week: Date,
)
    requires
        o1.id == o2.id,
        o1.week_before == o2.week_before,
        o1.week_after == o2.week_after,
        o1.month_total != o2.month_total,
    ensures
        confirmation_text(amount, category, description, o1, today, week) != confirmation_text(
            amount,
            category,
            description,
            o2,
            today,
            week,
        ),
{
    let pre = "Anotado #"@ + int_text(o1.id as int) + ": "@ + amount_text(amount) + " "@ + category_name(category)
        + (if description.len() > 0 { " - "@ + description } else { seq![] }) + "\nMes "@ + month_key_text(today)
        + ": "@;
    let alert = match alert_text(category, week, o1.week_before as int, o1.week_after as int) {
        Some(t) => "\n\n"@ + t,
        None => seq![],
    };
    let x1 = amount_text(o1.month_total as int);
    let x2 = amount_text(o2.month_total as int);
    let t1 = confirmation_text(amount, category, description, o1, today, week);
    let t2 = confirmation_text(amount, category, description, o2, today, week);
    assert(t1 =~= pre + x1 + alert);
    assert(t2 =~= pre + x2 + alert);
    if t1 == t2 {
        assert(x1.len() == x2.len());
        assert(x1 =~= t1.subrange(pre.len() as int, (pre.len() + x1.len()) as int));
        assert(x2 =~= t2.subrange(pre.len() as int, (pre.len() + x2.len()) as int));
        lemma_amount_text_injective(o1.month_total as int, o2.month_total as int);
    }
}

/// A text of the shape `x + sep + y`, with `x` free of `sep`, splits only one way.
proof fn lemma_split_at_first(x1: Seq<char>, y1: Seq<char>, x2: Seq<char>, y2: Seq<char>, sep: char)
    requires
        free_of(x1, sep),
        free_of(x2, sep),
        x1 + seq![sep] + y1 == x2 + seq![sep] + y2,
    ensures
        x1 == x2,
        y1 == y2,
{
    let t = x1 + seq![sep] + y1;
    if x1.len() < x2.len() {
        assert(t[x1.len() as int] == sep);
        assert((x2 + seq![sep] + y2)[x1.len() as int] == x2[x1.len() as int]);
        assert(false);
    }
    if x2.len() < x1.len() {
        assert((x2 + seq![sep] + y2)[x2.len() as int] == sep);
        assert(t[x2.len() as int] == x1[x2.len() as int]);
        assert(false);
    }
    assert(x1 =~= t.take(x1.len() as int));
    assert(x2 =~= (x2 + seq![sep] + y2).take(x2.len() as int));
    assert(y1 =~= t.skip(x1.len() + 1int));
    assert(y2 =~= (x2 + seq![sep] + y2).skip(x2.len() + 1int));
}

/// The caption of an export tells apart any two sets of rows that differ in
/// how many rows they hold or in their total: leaving a row out of the file
/// changes its caption.
pub proof fn law_export_caption_counts_rows(key: Seq<char>, rows1: Seq<ExpenseRow>, rows2: Seq<ExpenseRow>)
    requires
        export_view(key, rows1) matches ReplyView::Csv { caption: c1, .. } && export_view(key, rows2) matches ReplyView::Csv {
            caption: c2,
            ..
        } && c1 == c2,
    ensures
        rows1.len() == rows2.len(),
        amounts_sum(rows1) == amounts_sum(rows2),
{
    reveal_strlit("Gastos de ");
    reveal_strlit(": ");
    reveal_strlit(" en ");
    reveal_strlit(" registros");
    let p = "Gastos de "@ + key + ": "@;
    let a1 = amount_text(amounts_sum(rows1));
    let a2 = amount_text(amounts_sum(rows2));
    let i1 = int_text(rows1.len() as int);
    let i2 = int_text(rows2.len() as int);
    let c1 = p + a1 + " en "@ + i1 + " registros"@;
    let c2 = p + a2 + " en "@ + i2 + " registros"@;
    assert(c1 == c2);
    let en = seq!['e', 'n', ' '];
    assert(" en "@ =~= seq![' '] + en);
    assert(" registros"@.len() == 10);
    let m1 = c1.subrange(p.len() as int, c1.len() - 10);
    let m2 = c2.subrange(p.len() as int, c2.len() - 10);
    assert(m1 =~= a1 + seq![' '] + (en + i1));
    assert(m2 =~= a2 + seq![' '] + (en + i2));
    lemma_amount_text_free(amounts_sum(rows1));
    lemma_amount_text_free(amounts_sum(rows2));
    lemma_split_at_first(a1, en + i1, a2, en + i2, ' ');
    lemma_amount_text_injective(amounts_sum(rows1), amounts_sum(rows2));
    assert(i1 =~= (en + i1).skip(3));
    assert(i2 =~= (en + i2).skip(3));
    lemma_count_text_injective(rows1.len() as int, rows2.len() as int);
}


/// A reply confirms one month total only: if it confirms an expense stored
/// with outcome `o1`, it confirms no outcome that differs from `o1` in the
/// month total alone.
pub proof fn law_reply_confirms_one_month_total(
    rep: ReplyView,
    now_ms: i64,
    amount: int,
    category: Category,
    description: Seq<char>,
    o1: AddOutcome,
    o2: AddOutcome,
)
    requires
        confirmed_outcome(rep, now_ms, amount, category, description, o1),
        o1.id == o2.id,
        o1.week_before == o2.week_before,
        o1.week_after == o2.week_after,
        o1.month_total != o2.month_total,
    ensures
        !confirmed_outcome(rep, now_ms, amount, category, description, o2),
{
    let (today1, week1) = choose|today: Date, week: Date|
        rep is Text && #[trigger] confirms(text_of(rep), now_ms, amount, category, description, o1, today, week);
    if confirmed_outcome(rep, now_ms, amount, category, description, o2) {
        let (today2, week2) = choose|today: Date, week: Date|
            rep is Text && #[trigger] confirms(text_of(rep), now_ms, amount, category, description, o2, today, week);
        assert(today1 == today2);
        law_day_number_identifies_the_day(week1, week2);
        law_confirmation_names_the_month_total(amount, category, description, o1, o2, today1, week1);
        assert(false);
    }
}

/// The reply to an expense names the month total that the store returned for
/// that very insert: the store answered with an outcome `o`, and the reply
/// confirms no outcome that differs from `o` in the month total alone.
pub proof fn law_expense_reply_names_the_stored_month_total(
    t: Seq<char>,
    now_ms: i64,
    rep: ReplyView,
    r: Result<crate::handlers::Reply, crate::db::BotError>,
    before: Seq<StoreRequest>,
    after: Seq<StoreRequest>,
    answers_before: Seq<StoreAnswer>,
    answers_after: Seq<StoreAnswer>,
)
    requires
        expense_reply_ok(t, now_ms, r, before, after, answers_before, answers_after),
        parsed(t) is Expense,
        r matches Ok(reply) && reply@ == rep,
    ensures
        parsed(t) matches ParsedMessage::Expense { amount, category, description } && exists|o: AddOutcome|
            #[trigger] added_answer(answers_before, answers_after, o) && forall|o2: AddOutcome|
                o2.id == o.id && o2.week_before == o.week_before && o2.week_after == o.week_after && o2.month_total
                    != o.month_total ==> !#[trigger] confirmed_outcome(rep, now_ms, amount, category, description, o2),
{
    if let ParsedMessage::Expense { amount, category, description } = parsed(t) {
        let o = choose|o: AddOutcome| #[trigger] added_answer(answers_before, answers_after, o)
            && confirmed_outcome(rep, now_ms, amount, category, description, o);
        assert forall|o2: AddOutcome|
            o2.id == o.id && o2.week_before == o.week_before && o2.week_after == o.week_after && o2.month_total
                != o.month_total implies !#[trigger] confirmed_outcome(rep, now_ms, amount, category, description, o2) by {
            law_reply_confirms_one_month_total(rep, now_ms, amount, category, description, o, o2);
        }
        assert(added_answer(answers_before, answers_after, o));
    }
}

} // verus!
