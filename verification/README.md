# fotd_bot

A bot that mails a "fact of the day" to its subscribers, posts it to chat
webhooks and serves a small web site with a fact API and subscription forms.

- `src/` is the library, written in Verus: URL and form decoding, number
  parsing, the configuration, webhooks, mail messages and the progress of a
  mailing, the send schedule, subscriber list edits and the decisions of the
  web routes. Each function
  states its behaviour in `requires`/`ensures`, and the `law_*` proof
  functions state properties that hold across calls.
- `app/` is the program around it: configuration file, database, SMTP,
  HTTP, the web server and the daily loop.
- `tests/` exercises the library on concrete values.
