use vstd::prelude::*;
use crate::handlers::{read_id, signed_value};
use crate::text::{chars_of, string_of, trim, trimmed};

verus! {

/// Where the database lives when `DB_PATH` is not set, relative to the
/// working directory.
pub const DEFAULT_DB_PATH: &'static str = "expenses.db";

/// The environment variables the bot cannot start without.
#[derive(Debug, Clone, Copy, PartialEq, Eq, Structural)]
pub enum RequiredVar {
    BotToken,
    AllowedUserId,
}

pub open spec fn required_var_name(v: RequiredVar) -> Seq<char> {
    match v {
        RequiredVar::BotToken => "BOT_TOKEN"@,
        RequiredVar::AllowedUserId => "ALLOWED_USER_ID"@,
    }
}

pub open spec fn required_var_description(v: RequiredVar) -> Seq<char> {
    match v {
        RequiredVar::BotToken => "the token @BotFather gave you for this bot"@,
        RequiredVar::AllowedUserId => "your numeric Telegram user id, which @userinfobot will tell you"@,
    }
}

impl RequiredVar {
    /// The variable's name in the environment.
    pub fn name(self) -> (s: &'static str)
        ensures
            s@ == required_var_name(self),
    {
        match self {
            RequiredVar::BotToken => "BOT_TOKEN",
            RequiredVar::AllowedUserId => "ALLOWED_USER_ID",
        }
    }

    /// What the variable must hold, for the error shown when it is missing.
    pub fn description(self) -> (s: &'static str)
        ensures
            s@ == required_var_description(self),
    {
        match self {
            RequiredVar::BotToken => "the token @BotFather gave you for this bot",
            RequiredVar::AllowedUserId => "your numeric Telegram user id, which @userinfobot will tell you",
        }
    }
}

/// What the bot runs with.
pub struct Settings {
    pub token: String,
    pub allowed_user_id: i64,
    pub db_path: String,
}

/// Why the settings cannot be read.
#[derive(Debug, Clone, PartialEq, Eq)]
pub enum SettingsError {
    /// A required variable is unset, or holds only whitespace.
    Missing(RequiredVar),
    /// `ALLOWED_USER_ID` holds this text, which is not a whole number.
    NotANumber(String),
}

/// An environment value as text, if it was set.
pub open spec fn raw_text(raw: Option<String>) -> Option<Seq<char>> {
    match raw {
        Some(s) => Some(s@),
        None => None,
    }
}

/// A setting's value: the variable's text trimmed, or nothing when it is
/// unset or blank.
pub open spec fn setting_value(raw: Option<Seq<char>>) -> Option<Seq<char>> {
    match raw {
        Some(v) => if trim(v).len() > 0 { Some(trim(v)) } else { None },
        None => None,
    }
}

/// The trimmed value of a variable, or `None` when it is unset or blank.
pub fn optional(raw: Option<String>) -> (r: Option<String>)
    ensures
        match setting_value(raw_text(raw)) {
            Some(v) => r matches Some(s) && s@ == v,
            None => r is None,
        },
{
    match raw {
        Some(value) => {
            let t = trimmed(&chars_of(value.as_str()));
            if t.len() == 0 {
                None
            } else {
                Some(string_of(&t))
            }
        },
        None => None,
    }
}

/// The trimmed value of a variable the bot needs, or the error naming it.
pub fn required(var: RequiredVar, raw: Option<String>) -> (r: Result<String, SettingsError>)
    ensures
        match setting_value(raw_text(raw)) {
            Some(v) => r matches Ok(s) && s@ == v,
            None => r == Err::<String, SettingsError>(SettingsError::Missing(var)),
        },
{
    match optional(raw) {
        Some(v) => Ok(v),
        None => Err(SettingsError::Missing(var)),
    }
}

/// The settings from the raw values of `BOT_TOKEN`, `ALLOWED_USER_ID` and
/// `DB_PATH`, checked in that order.
pub fn settings(
    token: Option<String>,
    allowed_user_id: Option<String>,
    db_path: Option<String>,
) -> (r: Result<Settings, SettingsError>)
    ensures
        match setting_value(raw_text(token)) {
            None => r == Err::<Settings, SettingsError>(SettingsError::Missing(RequiredVar::BotToken)),
            Some(t) => match setting_value(raw_text(allowed_user_id)) {
                None => r == Err::<Settings, SettingsError>(SettingsError::Missing(RequiredVar::AllowedUserId)),
                Some(u) => match signed_value(u) {
                    None => r matches Err(SettingsError::NotANumber(text)) && text@ == u,
                    Some(id) => r matches Ok(s) && s.token@ == t && s.allowed_user_id == id
                        && s.db_path@ == (match setting_value(raw_text(db_path)) {
                        Some(p) => p,
                        None => DEFAULT_DB_PATH@,
                    }),
                },
            },
        },
{
    let token = required(RequiredVar::BotToken, token)?;
    let raw_id = required(RequiredVar::AllowedUserId, allowed_user_id)?;
    let id = match read_id(&chars_of(raw_id.as_str())) {
        Some(id) => id,
        None => return Err(SettingsError::NotANumber(raw_id)),
    };
    let db_path = match optional(db_path) {
        Some(p) => p,
        None => string_of(&chars_of(DEFAULT_DB_PATH)),
    };
    Ok(Settings { token, allowed_user_id: id, db_path })
}

} // verus!
