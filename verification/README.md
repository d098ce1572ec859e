# fast-resume

Finds the sessions of coding agents on disk and prepares them for resuming.

- `src/` is the library, verified with Verus: the formats of the session stores, the
  rules by which changes are found, and what is done to hand over to an agent.
  - `adapters/antigravity`: transcripts in lines of JSON, databases of protobuf steps,
    and the history that maps conversations to workspaces.
  - `adapters/copilot_vscode`: Copilot chats of VS Code.
  - `adapters/cursor`: key-value databases of the Cursor CLI.
  - `adapters/proto`, `adapters/shared`: the protobuf wire format; known sessions and
    incremental scans.
  - `model`, `json`, `text`, `time`, `paths`, `urls`, `percent`, `numbers`,
    `string_map`: what the adapters are built from.
  - `resume`, `windows`, `cli`, `config`: resuming a session, command lines on Windows,
    arguments, and where the index is kept.
- `app/` is the program around it: arguments, files, databases and processes.
- `tests/` runs the library on concrete values.

Modification times count nanoseconds since the start of 1970. What depends on the
system, such as which paths are absolute, comes from outside calls; the contracts say
what holds whatever they answer. A plain file URL stands for the path that it spells,
in the form that the system gives to paths: `urls` states the forms that there are, and
which URLs name a path in every system.
