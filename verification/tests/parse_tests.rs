use expense_bot::config::Category;
use expense_bot::money::format_amount;
use expense_bot::parse::{parse_message, ParseResult};

fn expense(input: &str) -> (i64, Category, String) {
    match parse_message(input) {
        ParseResult::Expense { amount, category, description } => (amount, category, description),
        other => panic!("expected an expense from {input:?}, got {other:?}"),
    }
}

#[test]
fn plain_amount_with_description() {
    assert_eq!(expense("4500 cafe con Juan"), (4500, Category::Cafe, "con Juan".to_string()));
}

#[test]
fn no_description_yields_an_empty_string() {
    assert_eq!(expense("12000 super"), (12_000, Category::Super, String::new()));
}

#[test]
fn dot_is_a_thousand_separator() {
    assert_eq!(expense("1.500 transporte subte"), (1500, Category::Transporte, "subte".to_string()));
}

#[test]
fn comma_is_a_thousand_separator() {
    assert_eq!(expense("1,500 salud").0, 1500);
    assert_eq!(expense("1.234.567 otros").0, 1_234_567);
    assert_eq!(expense("2,500,000 otros").0, 2_500_000);
}

#[test]
fn space_is_a_thousand_separator() {
    assert_eq!(expense("1 500 comida").0, 1500);
    assert_eq!(expense("12 000 comida milanesa").0, 12_000);
}

#[test]
fn k_suffix_multiplies_by_a_thousand() {
    assert_eq!(expense("12k comida").0, 12_000);
    assert_eq!(expense("1,5k cafe").0, 1500);
    assert_eq!(expense("1.5k cafe").0, 1500);
    assert_eq!(expense("1,25k cafe").0, 1250);
    assert_eq!(expense("1,125k cafe").0, 1125);
    assert_eq!(expense("2K super").0, 2000);
}

#[test]
fn k_fraction_truncates_below_the_peso() {
    assert_eq!(expense("1,1259k cafe").0, 1125);
}

#[test]
fn k_suffix_ends_the_amount_even_if_more_digits_follow() {
    // `2` is the description here, not more of the amount.
    assert_eq!(expense("3k comida 2 empanadas"), (3000, Category::Comida, "2 empanadas".to_string()));
}

#[test]
fn accented_and_plural_categories_are_accepted() {
    assert_eq!(expense("800 café").1, Category::Cafe);
    assert_eq!(expense("800 cafés").1, Category::Cafe);
    assert_eq!(expense("800 Cafes medialunas").1, Category::Cafe);
    assert_eq!(expense("9000 comidas").1, Category::Comida);
}

#[test]
fn unknown_category_is_reported_verbatim() {
    assert_eq!(parse_message("4500 nafta"), ParseResult::UnknownCategory("nafta".to_string()));
    assert_eq!(parse_message("4500 Nafta ypf"), ParseResult::UnknownCategory("Nafta".to_string()));
}

#[test]
fn amount_without_a_category() {
    assert_eq!(parse_message("4500"), ParseResult::MissingCategory);
    assert_eq!(parse_message("  1.500   "), ParseResult::MissingCategory);
    assert_eq!(parse_message("3k"), ParseResult::MissingCategory);
}

#[test]
fn missing_or_unusable_amount() {
    assert_eq!(parse_message("cafe con Juan"), ParseResult::NoAmount);
    assert_eq!(parse_message("k comida"), ParseResult::NoAmount);
    assert_eq!(parse_message("0 cafe"), ParseResult::NoAmount);
    assert_eq!(parse_message("-500 cafe"), ParseResult::NoAmount);
    // Overflows i64 rather than wrapping into a bogus expense.
    assert_eq!(parse_message("99999999999999999999 cafe"), ParseResult::NoAmount);
}

#[test]
fn empty_input() {
    assert_eq!(parse_message(""), ParseResult::Empty);
    assert_eq!(parse_message("   \n  "), ParseResult::Empty);
}

#[test]
fn extra_whitespace_is_collapsed_in_the_description() {
    assert_eq!(expense("  4500   cafe    con   Juan  "), (4500, Category::Cafe, "con Juan".to_string()));
}

#[test]
fn k_form_edge_cases() {
    // Two separators in the k form are refused.
    assert_eq!(parse_message("1.2.3k cafe"), ParseResult::NoAmount);
    // A separator with nothing after it reads as no fraction.
    assert_eq!(expense("2.k cafe").0, 2000);
    // No whole part.
    assert_eq!(parse_message(".5k cafe"), ParseResult::NoAmount);
    // Grouped tokens before a k token join it.
    assert_eq!(expense("1 5k cafe").0, 15_000);
    // The largest k amount that fits, and one past it.
    assert_eq!(expense("9223372036854775,807k cafe").0, i64::MAX);
    assert_eq!(parse_message("9223372036854775,808k cafe"), ParseResult::NoAmount);
}

#[test]
fn largest_plain_amount_fits() {
    assert_eq!(expense("9223372036854775807 cafe").0, i64::MAX);
    assert_eq!(parse_message("9223372036854775808 cafe"), ParseResult::NoAmount);
    assert_eq!(expense("0001 cafe").0, 1);
}

#[test]
fn unicode_whitespace_separates_words() {
    assert_eq!(expense("4500\u{a0}cafe\u{3000}con\tJuan"), (4500, Category::Cafe, "con Juan".to_string()));
}

#[test]
fn printed_amounts_read_back() {
    for amount in [1_i64, 7, 999, 1_000, 4_500, 104_500, 1_000_001, 1_234_567, i64::MAX] {
        let shown = format_amount(amount);
        let digits = shown.strip_prefix('$').unwrap();
        assert_eq!(expense(&format!("{digits} cafe")), (amount, Category::Cafe, String::new()));
    }
}

#[test]
fn parsing_reads_only_the_words() {
    for input in ["  4500   cafe    con   Juan  ", "1 500\tsuper", " x ", "", "12k  comida\n la  cena"] {
        let collapsed = input.split_whitespace().collect::<Vec<_>>().join(" ");
        assert_eq!(parse_message(input), parse_message(&collapsed));
    }
}
