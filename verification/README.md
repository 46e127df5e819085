# diary_app_lib

A personal diary kept in PostgreSQL, in plain text files, in an S3 bucket
and in a note cache on a remote host, kept in step by a synchronisation
command.

- `src/` is the verified library (Verus): dates and instants, text
  handling, search, conflicts of rewritten days, the decisions of the local,
  S3 and SSH synchronisation, the chat bot's command reading and paging, the
  retry budget, the settings and the answers to requests. Each public
  function states its result in its contract; the `law_*` proof functions
  state what holds across calls.
- `tests/` runs the library on concrete values.
- `app/` is the `diary-app-rust` command line program: settings from the
  environment, the database, the bucket, the files and `ssh`, each step
  decided by the library.
