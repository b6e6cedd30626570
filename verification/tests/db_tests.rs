use expense_bot::config::Category;
use expense_bot::dates::Date;
use expense_bot::db::{
    add_outcome, category_totals, is_expected_journal_mode, stored_category, AddOutcome, BotError, CategoryTotal, Db,
    NewExpense,
};

fn date(text: &str) -> Date {
    Date::parse_iso(text).unwrap()
}

fn add(db: &mut Db, amount: i64, category: Category, day: &str, week: &str) -> AddOutcome {
    db.add_expense(&NewExpense {
        amount,
        category,
        description: "algo",
        raw: "raw",
        local_date: date(day),
        week_start: date(week),
        created_at_ms: 1_700_000_000_000,
    })
    .unwrap()
}

#[test]
fn insert_reports_ids_and_running_totals() {
    let mut db = Db::open_in_memory().unwrap();

    let first = add(&mut db, 4_500, Category::Cafe, "2026-07-20", "2026-07-20");
    assert_eq!(first.id, 1);
    assert_eq!(first.week_before, 0);
    assert_eq!(first.week_after, 4_500);
    assert_eq!(first.month_total, 4_500);

    let second = add(&mut db, 500, Category::Cafe, "2026-07-21", "2026-07-20");
    assert_eq!(second.id, 2);
    assert_eq!(second.week_before, 4_500);
    assert_eq!(second.week_after, 5_000);
    assert_eq!(second.month_total, 5_000);
}

#[test]
fn week_totals_are_scoped_to_one_category_and_one_week() {
    let mut db = Db::open_in_memory().unwrap();
    add(&mut db, 60_000, Category::Comida, "2026-07-20", "2026-07-20");
    // Same week, different category.
    add(&mut db, 90_000, Category::Super, "2026-07-21", "2026-07-20");
    // Same category, previous week.
    add(&mut db, 80_000, Category::Comida, "2026-07-15", "2026-07-13");

    let outcome = add(&mut db, 1_000, Category::Comida, "2026-07-22", "2026-07-20");
    assert_eq!(outcome.week_before, 60_000);
    assert_eq!(outcome.week_after, 61_000);
}

#[test]
fn month_total_spans_categories_but_not_months() {
    let mut db = Db::open_in_memory().unwrap();
    add(&mut db, 1_000, Category::Cafe, "2026-06-30", "2026-06-29");
    add(&mut db, 2_000, Category::Super, "2026-07-01", "2026-06-29");
    let outcome = add(&mut db, 3_000, Category::Salud, "2026-07-31", "2026-07-27");
    assert_eq!(outcome.month_total, 5_000);
}

#[test]
fn totals_group_by_category_largest_first() {
    let mut db = Db::open_in_memory().unwrap();
    add(&mut db, 1_000, Category::Cafe, "2026-07-20", "2026-07-20");
    add(&mut db, 9_000, Category::Super, "2026-07-20", "2026-07-20");
    add(&mut db, 500, Category::Cafe, "2026-07-20", "2026-07-20");

    let day = db.totals_for_day(date("2026-07-20")).unwrap();
    assert_eq!(
        day,
        vec![
            CategoryTotal { category: Category::Super, total: 9_000 },
            CategoryTotal { category: Category::Cafe, total: 1_500 },
        ]
    );
    assert_eq!(db.totals_for_week(date("2026-07-20")).unwrap().len(), 2);
    assert_eq!(db.totals_for_month("2026-07").unwrap().len(), 2);
    assert!(db.totals_for_day(date("2026-07-21")).unwrap().is_empty());
}

#[test]
fn recent_returns_newest_first_and_respects_the_limit() {
    let mut db = Db::open_in_memory().unwrap();
    for amount in 1..=5 {
        add(&mut db, amount * 100, Category::Otros, "2026-07-20", "2026-07-20");
    }
    let rows = db.recent(3).unwrap();
    assert_eq!(rows.iter().map(|row| row.id).collect::<Vec<_>>(), vec![5, 4, 3]);
    assert_eq!(rows[0].amount, 500);
    assert_eq!(rows[0].category, Category::Otros);
    assert_eq!(rows[0].description, "algo");
    assert_eq!(rows[0].local_date, date("2026-07-20"));
}

#[test]
fn delete_last_removes_the_newest_row() {
    let mut db = Db::open_in_memory().unwrap();
    add(&mut db, 100, Category::Cafe, "2026-07-20", "2026-07-20");
    add(&mut db, 200, Category::Cafe, "2026-07-20", "2026-07-20");

    let removed = db.delete_last().unwrap().expect("a row to delete");
    assert_eq!(removed.id, 2);
    assert_eq!(removed.amount, 200);
    assert_eq!(db.recent(10).unwrap().len(), 1);
}

#[test]
fn delete_by_id_and_the_empty_cases() {
    let mut db = Db::open_in_memory().unwrap();
    assert_eq!(db.delete_last().unwrap(), None);
    assert_eq!(db.delete(42).unwrap(), None);

    add(&mut db, 100, Category::Cafe, "2026-07-20", "2026-07-20");
    add(&mut db, 200, Category::Super, "2026-07-20", "2026-07-20");
    let removed = db.delete(1).unwrap().expect("a row to delete");
    assert_eq!(removed.amount, 100);
    assert_eq!(db.recent(10).unwrap().len(), 1);
    assert_eq!(db.delete(1).unwrap(), None);
}

#[test]
fn deleting_back_under_the_limit_lets_the_next_crossing_warn_again() {
    let mut db = Db::open_in_memory().unwrap();
    add(&mut db, 99_000, Category::Comida, "2026-07-20", "2026-07-20");
    let crossing = add(&mut db, 2_000, Category::Comida, "2026-07-21", "2026-07-20");
    assert_eq!((crossing.week_before, crossing.week_after), (99_000, 101_000));

    db.delete(crossing.id).unwrap();
    let again = add(&mut db, 2_000, Category::Comida, "2026-07-22", "2026-07-20");
    assert_eq!((again.week_before, again.week_after), (99_000, 101_000));
}

#[test]
fn export_rows_are_chronological_and_month_scoped() {
    let mut db = Db::open_in_memory().unwrap();
    add(&mut db, 100, Category::Cafe, "2026-07-01", "2026-06-29");
    add(&mut db, 200, Category::Cafe, "2026-08-01", "2026-07-27");
    let rows = db.rows_for_month("2026-07").unwrap();
    assert_eq!(rows.len(), 1);
    assert_eq!(rows[0].amount, 100);
}

#[test]
fn stored_categories_fall_back_to_otros() {
    assert_eq!(stored_category("comida"), Category::Comida);
    assert_eq!(stored_category("nafta"), Category::Otros);
    assert_eq!(
        category_totals(vec![("super".to_string(), 3), ("???".to_string(), 4)]),
        vec![
            CategoryTotal { category: Category::Super, total: 3 },
            CategoryTotal { category: Category::Otros, total: 4 },
        ]
    );
}

#[test]
fn every_stored_name_reads_back() {
    for category in expense_bot::config::ALL_CATEGORIES {
        assert_eq!(stored_category(category.as_str()), category);
    }
}

#[test]
fn add_outcome_adds_to_the_week_total_or_overflows() {
    assert_eq!(
        add_outcome(7, 104_500, 96_000, 8_500).ok(),
        Some(AddOutcome { id: 7, month_total: 104_500, week_before: 96_000, week_after: 104_500 })
    );
    assert!(matches!(add_outcome(1, 0, i64::MAX, 1), Err(BotError::Overflow)));
    assert!(matches!(add_outcome(1, 0, i64::MIN, -1), Err(BotError::Overflow)));
}

#[test]
fn journal_modes_are_checked_ignoring_ascii_case() {
    assert!(is_expected_journal_mode("wal"));
    assert!(is_expected_journal_mode("WAL"));
    assert!(is_expected_journal_mode("Memory"));
    assert!(!is_expected_journal_mode("delete"));
    assert!(!is_expected_journal_mode("wal "));
    let db = Db::open_in_memory().unwrap();
    assert!(is_expected_journal_mode(db.journal_mode()));
    assert_eq!(db.journal_mode(), "memory");
}
