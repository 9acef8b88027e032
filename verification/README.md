# shell

A small interactive shell. The library (`src/`) holds its logic, verified with
Verus: splitting command lines into arguments (quotes, backslash escapes,
backslash-single-quote regions), output redirects, pipeline plans (stages,
redirects, background `&`, how each stage's streams are wired), the builtins'
output (`echo`, `type`, `complete`, unknown commands), the completion-program
table, background job numbering and the job list, history bookkeeping, `PATH`
handling and tab-completion candidates.

`app/` is the program around it: the rustyline editor loop, processes, pipes,
threads, files and the environment.

Modules:

- `text` — character-level string helpers (trim, split, decimal numbers).
- `commands` — the command-line lexer and the stand-alone command runner's decisions.
- `command` — the pipeline-stage tokenizer, pipeline building and stream wiring.
- `redirect` — redirect operators.
- `builtin` — builtin names, the completion table, builtin outputs.
- `jobs` — background jobs.
- `history` — history-file bookkeeping over rustyline's `FileHistory`.
- `processor` — what an input line asks the shell to do.
- `autocomplete` — completion candidates.
- `utils` — `PATH` splitting and program lookup.
