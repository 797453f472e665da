# adaptalk

A small terminal client for Adapt, read-only by default. Its decisions are a library verified with
Verus; the program around it does the input and output.

## Layout

- `src/` is the library. Nothing in it reads a file, a clock, a socket or a key: it is told what was
  found and says what to do.
  - `adapt_client`, `auth`: which requests may go out, and what replies and failures mean.
  - `config`: the configuration file, its defaults and its errors.
  - `redaction`: the boundary that keeps credentials out of transcripts and off the screen.
  - `transcript`, `json`: what a response is, for display and for storage.
  - `session_history`: local sessions, their lineage, and their stored form.
  - `conversation_controller`: the states of a conversation, from connecting to finishing.
  - `file_references`, `path`: `@path` references in prompts and the policy that guards them.
  - `commands`, `chat_terminal`, `message_writer`, `terminal`: the prompt, its commands and what the
    terminal shows.
  - `update_checker`: whether a published release is newer than the installed one.
  - `text`: texts as sequences of characters.
- `app/` is the program: command line, network, files and the real terminal.
- `tests/` runs the library on concrete values.

## What is proved

Every function of the library has a contract over mathematical views of its data. Public `proof`
functions state what holds of the library as a whole, among them:

- no capability is exposed or called unless its name is verified and the server marks it read-only;
- what is redacted no longer holds the token, and sensitive JSON members lose their values;
- a session that was saved is loaded back as it was, and saving only ever appends;
- a session continues the remote conversation of the first response in its lineage, and a cyclic
  lineage is rejected;
- a file is expanded into a prompt only if the policy allows it, and its contents cannot forge
  markup;
- a response that is revealed in chunks prints what the whole response prints.

Calls into other crates (`toml`, `semver`, `serde_json`) and into parts of the standard library stand
behind small wrappers whose contracts are trusted; each says above it what it claims.
