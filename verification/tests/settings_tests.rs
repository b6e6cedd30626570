use expense_bot::settings::{optional, required, settings, RequiredVar, SettingsError, DEFAULT_DB_PATH};

fn some(text: &str) -> Option<String> {
    Some(text.to_string())
}

#[test]
fn values_are_trimmed_and_blank_counts_as_unset() {
    assert_eq!(optional(some("  abc \n")), some("abc"));
    assert_eq!(optional(some(" \t ")), None);
    assert_eq!(optional(None), None);
    assert_eq!(required(RequiredVar::BotToken, some(" x ")), Ok("x".to_string()));
    assert_eq!(
        required(RequiredVar::AllowedUserId, some("   ")),
        Err(SettingsError::Missing(RequiredVar::AllowedUserId))
    );
}

#[test]
fn settings_are_checked_in_order() {
    assert_eq!(
        settings(None, None, None).err(),
        Some(SettingsError::Missing(RequiredVar::BotToken))
    );
    assert_eq!(
        settings(some("123:abc"), some(""), None).err(),
        Some(SettingsError::Missing(RequiredVar::AllowedUserId))
    );
    assert_eq!(
        settings(some("123:abc"), some(" 12a "), None).err(),
        Some(SettingsError::NotANumber("12a".to_string()))
    );
}

#[test]
fn a_complete_environment_gives_the_settings() {
    let s = settings(some(" 123:abc "), some(" 987654321 "), None).ok().unwrap();
    assert_eq!(s.token, "123:abc");
    assert_eq!(s.allowed_user_id, 987654321);
    assert_eq!(s.db_path, DEFAULT_DB_PATH);
    assert_eq!(s.db_path, "expenses.db");

    let s = settings(some("t"), some("-5"), some(" /var/lib/expense-bot/x.db ")).ok().unwrap();
    assert_eq!(s.allowed_user_id, -5);
    assert_eq!(s.db_path, "/var/lib/expense-bot/x.db");

    let s = settings(some("t"), some("+7"), some("  ")).ok().unwrap();
    assert_eq!(s.allowed_user_id, 7);
    assert_eq!(s.db_path, "expenses.db");
}

#[test]
fn user_ids_read_like_str_parse() {
    for raw in ["0", "-0", "+12", "9223372036854775807", "-9223372036854775808", "1 2", "", "-", "+", "--1", "99999999999999999999"] {
        let expected = raw.trim().parse::<i64>().ok();
        let got = settings(some("t"), some(raw), None).ok().map(|s| s.allowed_user_id);
        if raw.trim().is_empty() {
            assert_eq!(got, None);
        } else {
            assert_eq!(got, expected, "for {raw:?}");
        }
    }
}

#[test]
fn variable_names_and_descriptions() {
    assert_eq!(RequiredVar::BotToken.name(), "BOT_TOKEN");
    assert_eq!(RequiredVar::AllowedUserId.name(), "ALLOWED_USER_ID");
    assert_eq!(RequiredVar::BotToken.description(), "the token @BotFather gave you for this bot");
}
