# aicommit (verified core)

The logic of the `aicommit` commit-message assistant, written in Verus and
proved against its contracts.

- `src/` is the verified library: token counting and diff splitting
  (`token`), the commit-generation state machine and its prompts
  (`generator`), provider-error classification (`errors`), the local CLI
  engine's prompt and outcome handling (`ai`), push planning and remote
  labels (`push`), the `pr` and `log` command decisions (`commands`), and
  everything the terminal shows, as text (`ui`, `paths`, `text`). Calls into
  `tiktoken-rs`, `textwrap`, `console` and `termimad` sit behind small
  trusted wrappers whose contracts are documented where they are declared.
- `app/` is the unverified front end: printing and prompts, the status
  spinner's ticker thread, provider subprocesses, and the loops that drive a
  generation and a pull-request review.
- `tests/` exercises the library with the real outside crates linked.
