# expense_bot

A single-user Telegram bot that keeps a log of expenses in SQLite: you send
`4500 cafe con Juan`, it stores the row and answers with a confirmation and the
month's running total. Commands report by day, week and month, list and delete
entries, and export a month as CSV.

The logic is a Verus library under `src/`, proved against its contracts:

- `text`: characters, trimming, splitting into words, joining.
- `money`: `$1.234.567` rendering of peso amounts.
- `config`: the categories, how a user's word names one, the weekly limit.
- `parse`: reading `<monto> <categoria> [descripcion]`, thousands separators
  and the `k` form included.
- `dates`: Buenos Aires dates, the Monday of a week, the date formats and the
  `YYYY-MM` month key; chrono and chrono-tz do the calendar work behind small
  trusted wrappers.
- `db`: the SQLite store, through rusqlite; what SQL returns is trusted, what
  the library does with it is proved.
- `handlers`: every reply the bot gives, the weekly-limit warning, and the
  splitting of long replies into Telegram-sized messages.
- `settings`: reading the bot's environment variables.

`app/main.rs` is the program around it: the environment, long polling with
frankenstein, and sending messages and files.
