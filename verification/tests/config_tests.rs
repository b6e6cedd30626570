use expense_bot::config::{category_of_lowered, weekly_limit, Category, UnknownCategoryError, ALL_CATEGORIES};

#[test]
fn canonical_names_parse() {
    for category in ALL_CATEGORIES {
        assert_eq!(Category::from_str(category.as_str()), Ok(category));
    }
}

#[test]
fn accents_are_folded() {
    assert_eq!(Category::from_str("café"), Ok(Category::Cafe));
    assert_eq!(Category::from_str("CAFÉ"), Ok(Category::Cafe));
    assert_eq!(Category::from_str("Café"), Ok(Category::Cafe));
}

#[test]
fn plurals_are_folded() {
    assert_eq!(Category::from_str("cafes"), Ok(Category::Cafe));
    assert_eq!(Category::from_str("cafés"), Ok(Category::Cafe));
    assert_eq!(Category::from_str("comidas"), Ok(Category::Comida));
    assert_eq!(Category::from_str("transportes"), Ok(Category::Transporte));
    assert_eq!(Category::from_str("supers"), Ok(Category::Super));
}

#[test]
fn otros_survives_the_plural_rule() {
    assert_eq!(Category::from_str("otros"), Ok(Category::Otros));
    assert_eq!(Category::from_str("otro"), Ok(Category::Otros));
}

#[test]
fn surrounding_whitespace_and_case_are_ignored() {
    assert_eq!(Category::from_str("  SUPER  "), Ok(Category::Super));
}

#[test]
fn unknown_names_are_rejected() {
    assert_eq!(Category::from_str("nafta"), Err(UnknownCategoryError));
    assert_eq!(Category::from_str(""), Err(UnknownCategoryError));
    // Not a real plural of anything we know.
    assert_eq!(Category::from_str("s"), Err(UnknownCategoryError));
}

#[test]
fn only_comida_has_a_limit() {
    assert_eq!(weekly_limit(Category::Comida), Some(100_000));
    for category in ALL_CATEGORIES {
        if category != Category::Comida {
            assert_eq!(weekly_limit(category), None);
        }
    }
}

#[test]
fn every_accent_and_enye_folds() {
    assert_eq!(Category::from_str("cÀfè"), Ok(Category::Cafe));
    assert_eq!(Category::from_str("SALÜD"), Ok(Category::Salud));
    assert_eq!(Category::from_str("súper"), Ok(Category::Super));
    assert_eq!(Category::from_str("ótros"), Ok(Category::Otros));
    // Only one trailing `s` is a plural.
    assert_eq!(Category::from_str("cafess"), Err(UnknownCategoryError));
    // Inner whitespace is not ignored.
    assert_eq!(Category::from_str("ca fe"), Err(UnknownCategoryError));
}

#[test]
fn the_parse_trait_agrees_with_from_str() {
    assert_eq!("Comidas".parse::<Category>(), Ok(Category::Comida));
    assert_eq!("nada".parse::<Category>(), Err(UnknownCategoryError));
}

#[test]
fn unknown_category_error_message() {
    assert_eq!(UnknownCategoryError.message(), "categoria desconocida");
}

#[test]
fn every_name_and_its_plural_read_back_in_any_case() {
    for category in ALL_CATEGORIES {
        let name = category.as_str();
        assert_eq!(Category::from_str(&format!("{name}s")), Ok(category));
        assert_eq!(Category::from_str(&name.to_uppercase()), Ok(category));
        assert_eq!(Category::from_str(&format!("  {name}\t")), Ok(category));
    }
}

#[test]
fn lowered_words_are_folded_and_looked_up() {
    let lowered = |text: &str| text.chars().collect::<Vec<char>>();
    for category in ALL_CATEGORIES {
        assert_eq!(category_of_lowered(&lowered(category.as_str())), Ok(category));
        assert_eq!(category_of_lowered(&lowered(&format!("{}s", category.as_str()))), Ok(category));
    }
    assert_eq!(category_of_lowered(&lowered("café")), Ok(Category::Cafe));
    assert_eq!(category_of_lowered(&lowered("otro")), Ok(Category::Otros));
    assert_eq!(category_of_lowered(&lowered("Cafe")), Err(UnknownCategoryError));
    assert_eq!(category_of_lowered(&lowered(" cafe")), Err(UnknownCategoryError));
    assert_eq!(category_of_lowered(&lowered("nafta")), Err(UnknownCategoryError));
}
