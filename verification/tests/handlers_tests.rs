use chrono::{DateTime, Utc};
use expense_bot::config::{Category, ALL_CATEGORIES};
use expense_bot::dates::{day_month, monday_of, week_start, Date};
use expense_bot::db::{AddOutcome, BotError, Db, ExpenseRow};
use expense_bot::handlers::{
    csv_field, export_reply, handle_text, limit_alert, listing_reply, removed_reply, split_message, Reply, TELEGRAM_MAX_CHARS,
};

const LIMIT: i64 = 100_000;

fn monday() -> Date {
    Date::from_ymd_opt(2026, 7, 20).unwrap()
}

#[test]
fn alert_fires_on_the_expense_that_crosses_the_limit() {
    let alert = limit_alert(Category::Comida, monday(), 96_000, 104_500).expect("the crossing expense must warn");
    assert_eq!(
        alert,
        "Limite semanal de COMIDA superado\n\
         Semana del 20/07: $104.500 de $100.000 (+$4.500)"
    );
}

#[test]
fn alert_fires_when_the_total_lands_exactly_on_the_limit() {
    assert!(limit_alert(Category::Comida, monday(), 99_000, LIMIT).is_some());
}

#[test]
fn alert_stays_quiet_below_the_limit() {
    assert_eq!(limit_alert(Category::Comida, monday(), 0, 99_999), None);
}

#[test]
fn alert_does_not_repeat_once_already_over() {
    // The crossing already happened on an earlier expense.
    assert_eq!(limit_alert(Category::Comida, monday(), LIMIT, 104_500), None);
    assert_eq!(limit_alert(Category::Comida, monday(), 150_000, 160_000), None);
}

#[test]
fn categories_without_a_limit_never_alert() {
    for category in ALL_CATEGORIES {
        if category != Category::Comida {
            assert_eq!(limit_alert(category, monday(), 0, 500_000), None);
        }
    }
}

// --- end-to-end through the handler, still with no network ---

fn db() -> Db {
    Db::open_in_memory().unwrap()
}

fn utc(text: &str) -> i64 {
    DateTime::parse_from_rfc3339(text).unwrap().with_timezone(&Utc).timestamp_millis()
}

fn text_of(reply: Reply) -> String {
    match reply {
        Reply::Text(text) => text,
        Reply::Csv { .. } => panic!("expected a text reply"),
    }
}

fn say(db: &mut Db, text: &str, at: &str) -> String {
    text_of(handle_text(db, text, utc(at)).unwrap())
}

#[test]
fn logging_an_expense_confirms_with_id_and_month_total() {
    let mut db = db();
    let reply = say(&mut db, "4500 cafe con Juan", "2026-07-20T15:00:00Z");
    assert_eq!(reply, "Anotado #1: $4.500 cafe - con Juan\nMes 2026-07: $4.500");
}

#[test]
fn an_expense_with_no_description_omits_the_dash() {
    let mut db = db();
    assert_eq!(
        say(&mut db, "12000 super", "2026-07-20T15:00:00Z"),
        "Anotado #1: $12.000 super\nMes 2026-07: $12.000"
    );
}

#[test]
fn the_limit_warning_is_appended_to_the_confirmation_once() {
    let mut db = db();
    say(&mut db, "96000 comida", "2026-07-20T15:00:00Z");

    let crossing = say(&mut db, "8500 comida asado", "2026-07-21T15:00:00Z");
    assert!(
        crossing.ends_with(
            "Limite semanal de COMIDA superado\n\
             Semana del 20/07: $104.500 de $100.000 (+$4.500)"
        ),
        "unexpected reply: {crossing}"
    );

    let after = say(&mut db, "1000 comida", "2026-07-22T15:00:00Z");
    assert!(!after.contains("Limite semanal"), "warned twice: {after}");
}

#[test]
fn the_monday_boundary_resets_the_weekly_total() {
    let mut db = db();
    // Sunday 23:00 in Buenos Aires, still the week of the 13th.
    say(&mut db, "99000 comida", "2026-07-20T02:00:00Z");
    // Monday 00:00 local: new week, so this does not cross anything.
    let reply = say(&mut db, "5000 comida", "2026-07-20T03:00:00Z");
    assert!(!reply.contains("Limite semanal"), "unexpected: {reply}");

    assert_eq!(
        say(&mut db, "/semana", "2026-07-20T03:00:00Z"),
        "Semana del 20/07: $5.000\n- comida: $5.000 / $100.000"
    );
}

#[test]
fn parse_failures_produce_specific_help() {
    let mut db = db();
    let at = "2026-07-20T15:00:00Z";
    assert!(say(&mut db, "4500 nafta", at).starts_with("No conozco la categoria \"nafta\"."));
    assert!(say(&mut db, "4500", at).starts_with("Falta la categoria."));
    assert!(say(&mut db, "cafe con Juan", at).starts_with("No encontre el monto."));
    assert!(say(&mut db, "   ", at).starts_with("Formato:"));
}

#[test]
fn day_and_month_reports() {
    let mut db = db();
    let at = "2026-07-20T15:00:00Z";
    assert_eq!(say(&mut db, "/hoy", at), "Hoy 20/07: sin gastos");

    say(&mut db, "4500 cafe", at);
    say(&mut db, "12000 super", at);
    assert_eq!(say(&mut db, "/hoy", at), "Hoy 20/07: $16.500\n- super: $12.000\n- cafe: $4.500");
    assert_eq!(say(&mut db, "/mes", at), "Mes 2026-07: $16.500\n- super: $12.000\n- cafe: $4.500");
    assert_eq!(say(&mut db, "/mes 2026-06", at), "Mes 2026-06: sin gastos");
    assert!(say(&mut db, "/mes julio", at).starts_with("Mes invalido."));
}

#[test]
fn only_the_weekly_report_shows_limit_progress() {
    let mut db = db();
    let at = "2026-07-20T15:00:00Z";
    say(&mut db, "64000 comida", at);
    assert_eq!(say(&mut db, "/semana", at), "Semana del 20/07: $64.000\n- comida: $64.000 / $100.000");
    assert_eq!(say(&mut db, "/hoy", at), "Hoy 20/07: $64.000\n- comida: $64.000");
}

#[test]
fn listing_and_deleting() {
    let mut db = db();
    let at = "2026-07-20T15:00:00Z";
    assert_eq!(say(&mut db, "/ultimos", at), "Todavia no hay gastos registrados.");
    assert_eq!(say(&mut db, "/borrar", at), "No hay gastos para borrar.");

    say(&mut db, "4500 cafe con Juan", at);
    say(&mut db, "12000 super", at);
    assert_eq!(
        say(&mut db, "/ultimos", at),
        "Ultimos 2:\n#2 20/07 $12.000 super\n#1 20/07 $4.500 cafe - con Juan"
    );
    assert_eq!(say(&mut db, "/ultimos 1", at), "Ultimos 1:\n#2 20/07 $12.000 super");
    assert!(say(&mut db, "/ultimos cero", at).starts_with("Cantidad invalida."));

    assert_eq!(say(&mut db, "/borrar 1", at), "Borrado #1 20/07 $4.500 cafe - con Juan");
    assert_eq!(say(&mut db, "/borrar 1", at), "No existe el gasto #1.");
    assert_eq!(say(&mut db, "/borrar", at), "Borrado #2 20/07 $12.000 super");
}

#[test]
fn export_produces_a_csv_attachment() {
    let mut db = db();
    let at = "2026-07-20T15:00:00Z";
    assert_eq!(say(&mut db, "/export", at), "No hay gastos en 2026-07.");

    say(&mut db, "4500 cafe con Juan, y Ana", at);
    say(&mut db, "12000 super", at);
    match handle_text(&mut db, "/export 2026-07", utc(at)).unwrap() {
        Reply::Csv { filename, content, caption } => {
            assert_eq!(filename, "gastos-2026-07.csv");
            assert_eq!(caption, "Gastos de 2026-07: $16.500 en 2 registros");
            assert_eq!(
                content,
                "id,fecha,categoria,descripcion,monto\n\
                 1,2026-07-20,cafe,\"con Juan, y Ana\",4500\n\
                 2,2026-07-20,super,,12000\n"
            );
        }
        Reply::Text(text) => panic!("expected a csv reply, got {text}"),
    }
}

#[test]
fn commands_tolerate_the_bot_suffix_and_unknown_verbs() {
    let mut db = db();
    let at = "2026-07-20T15:00:00Z";
    assert_eq!(say(&mut db, "/hoy@MiGastoBot", at), "Hoy 20/07: sin gastos");
    assert!(say(&mut db, "/ayuda", at).starts_with("Formato:"));
    assert!(say(&mut db, "/pizza", at).starts_with("No conozco ese comando."));
}

#[test]
fn week_start_helper_agrees_with_the_report_header() {
    // Guards the report title against a stray off-by-one day.
    let start = week_start(utc("2026-07-26T20:00:00Z")).unwrap();
    assert_eq!(start, monday_of(Date::from_ymd_opt(2026, 7, 26).unwrap()));
    assert_eq!(day_month(start), "20/07");
}

#[test]
fn short_replies_are_sent_as_one_message() {
    assert_eq!(split_message("hola"), vec!["hola".to_string()]);
    assert_eq!(split_message(""), vec![String::new()]);
}

#[test]
fn long_replies_split_on_line_boundaries() {
    let line = "#1 20/07 $4.500 cafe con Juan";
    let text = vec![line; 300].join("\n");
    assert!(text.chars().count() > TELEGRAM_MAX_CHARS);

    let chunks = split_message(&text);
    assert!(chunks.len() > 1);
    for chunk in &chunks {
        assert!(chunk.chars().count() <= TELEGRAM_MAX_CHARS);
        // No line was cut in half.
        for chunk_line in chunk.lines() {
            assert_eq!(chunk_line, line);
        }
    }
    assert_eq!(chunks.join("\n"), text);
}

#[test]
fn a_single_oversized_line_is_hard_split() {
    let text = "a".repeat(TELEGRAM_MAX_CHARS + 10);
    let chunks = split_message(&text);
    assert_eq!(chunks.len(), 2);
    assert_eq!(chunks[0].chars().count(), TELEGRAM_MAX_CHARS);
    assert_eq!(chunks[1].chars().count(), 10);
}

#[test]
fn splitting_counts_characters_not_bytes() {
    // Multi-byte characters must not be counted twice or the chunks come
    // out well under the limit for no reason.
    let text = "ñ".repeat(TELEGRAM_MAX_CHARS);
    assert_eq!(split_message(&text).len(), 1);
}

#[test]
fn add_outcome_totals_drive_the_alert_decision() {
    let outcome = AddOutcome { id: 1, month_total: 104_500, week_before: 96_000, week_after: 104_500 };
    assert!(limit_alert(Category::Comida, monday(), outcome.week_before, outcome.week_after).is_some());
}

#[test]
fn crlf_lines_and_blank_lines_split_like_str_lines() {
    assert_eq!(split_message("a\r\nb"), vec!["a\nb".to_string()]);
    assert_eq!(split_message("a\n\nb\n"), vec!["a\n\nb".to_string()]);
    // A leading blank line is dropped: an empty first piece adds nothing to an empty message.
    assert_eq!(split_message("\nabc"), vec!["abc".to_string()]);
}

#[test]
fn csv_fields_are_quoted_only_when_needed() {
    assert_eq!(csv_field("plain"), "plain");
    assert_eq!(csv_field("a,b"), "\"a,b\"");
    assert_eq!(csv_field("say \"hi\""), "\"say \"\"hi\"\"\"");
    assert_eq!(csv_field("two\nlines"), "\"two\nlines\"");
}

#[test]
fn command_arguments_edge_cases() {
    let mut db = db();
    let at = "2026-07-20T15:00:00Z";
    assert!(say(&mut db, "/ultimos 0", at).starts_with("Cantidad invalida."));
    assert!(say(&mut db, "/ultimos 4294967296", at).starts_with("Cantidad invalida."));
    assert_eq!(say(&mut db, "/ultimos +5", at), "Todavia no hay gastos registrados.");
    assert!(say(&mut db, "/borrar uno", at).starts_with("Id invalido."));
    assert_eq!(say(&mut db, "/borrar -9223372036854775808", at), "No existe el gasto #-9223372036854775808.");
    assert!(say(&mut db, "/export 2026-13", at).starts_with("Mes invalido. Usa /export"));
    assert!(say(&mut db, "/HOY", at).starts_with("Hoy 20/07"));
    assert!(say(&mut db, "/start", at).starts_with("Formato:"));
    assert!(say(&mut db, "/help extra words", at).starts_with("Formato:"));
    say(&mut db, "100 super", at);
    assert_eq!(say(&mut db, "/ultimos\u{a0}1", at), "Ultimos 1:\n#1 20/07 $100 super");
}

#[test]
fn help_lists_every_command() {
    let mut db = db();
    let help = say(&mut db, "/ayuda", "2026-07-20T15:00:00Z");
    assert_eq!(
        help,
        "Formato: <monto> <categoria> [descripcion]\n\
         Ejemplos: 4500 cafe con Juan | 1.500 transporte subte | 1,5k super\n\
         Categorias: cafe, comida, transporte, salud, super, otros\n\n\
         Comandos:\n\
         /hoy - total de hoy por categoria\n\
         /semana - total de la semana (lunes a domingo)\n\
         /mes [YYYY-MM] - total del mes\n\
         /ultimos [n] - ultimos gastos con su id\n\
         /borrar [id] - borra el ultimo gasto, o el que indiques\n\
         /export [YYYY-MM] - descarga el mes en CSV\n\
         /ayuda - este mensaje"
    );
}

#[test]
fn a_run_of_expenses_warns_exactly_once() {
    let mut total = 0;
    let mut warnings = 0;
    for amount in [30_000, 30_000, 30_000, 9_999, 1, 50_000, 20_000] {
        let after = total + amount;
        if limit_alert(Category::Comida, monday(), total, after).is_some() {
            warnings += 1;
            assert_eq!(after, 100_000);
        }
        total = after;
    }
    assert_eq!(warnings, 1);
}

fn row(id: i64, amount: i64, category: Category, description: &str) -> ExpenseRow {
    ExpenseRow { id, amount, category, description: description.to_string(), local_date: monday() }
}

#[test]
fn the_listing_shows_exactly_the_rows_given() {
    let rows = vec![row(2, 12_000, Category::Super, ""), row(1, 4_500, Category::Cafe, "con Juan")];
    assert_eq!(
        listing_reply(&rows),
        Reply::Text("Ultimos 2:\n#2 20/07 $12.000 super\n#1 20/07 $4.500 cafe - con Juan".to_string())
    );
    assert_eq!(listing_reply(&Vec::new()), Reply::Text("Todavia no hay gastos registrados.".to_string()));
}

#[test]
fn the_removal_reply_names_the_deleted_row() {
    assert_eq!(
        removed_reply(&row(1, 4_500, Category::Cafe, "con Juan")),
        Reply::Text("Borrado #1 20/07 $4.500 cafe - con Juan".to_string())
    );
}

#[test]
fn the_export_reply_is_the_csv_of_the_rows_given() {
    let key = "2026-07".to_string();
    assert_eq!(export_reply(&key, &Vec::new()).ok(), Some(Reply::Text("No hay gastos en 2026-07.".to_string())));
    let rows = vec![row(1, 4_500, Category::Cafe, "con Juan, y Ana"), row(2, 12_000, Category::Super, "")];
    assert_eq!(
        export_reply(&key, &rows).ok(),
        Some(Reply::Csv {
            filename: "gastos-2026-07.csv".to_string(),
            content: "id,fecha,categoria,descripcion,monto\n1,2026-07-20,cafe,\"con Juan, y Ana\",4500\n2,2026-07-20,super,,12000\n".to_string(),
            caption: "Gastos de 2026-07: $16.500 en 2 registros".to_string(),
        })
    );
    let huge = vec![row(1, i64::MAX, Category::Otros, ""), row(2, 1, Category::Otros, "")];
    assert!(matches!(export_reply(&key, &huge), Err(BotError::Overflow)));
}

#[test]
fn splitting_is_greedy() {
    let lines: Vec<String> = (0..400).map(|i| format!("#{i} 20/07 $4.500 cafe con Juan {}", "x".repeat(i % 17))).collect();
    let text = lines.join("\n");
    let chunks = split_message(&text);
    for pair in chunks.windows(2) {
        let first_next = pair[1].lines().next().unwrap();
        assert!(pair[0].chars().count() + 1 + first_next.chars().count() > TELEGRAM_MAX_CHARS);
    }
}
