# tabula

Verified rules of the Tabularium document store: repository paths and entity
names, the `tb` shell's directory handling and completion, wildcard selection,
listing orders, terminal output layout, chat-window behaviour, JSON-RPC
parameter handling, request previews for the log, and the document WebSocket
protocol. Every executable function in `src/` is proved by Verus against its
`requires`/`ensures`; the public ones state their results over spec
functions, and the private helpers state what their callers rely on.
`cargo`-style tests under `tests/` run the same functions on concrete
values.

Layout:

- `src/` — the library, one module per concern (`paths`, `shell_path`,
  `shell`, `completion`, `wildcard`, `ls`, `find`, `grep`, `highlight`,
  `table`, `chat`, `chat_session`, `rpc`, `web`, `mcp`, `claims`, `wsdoc`,
  `transfer`, `moves`, `output`, ...). Calls into globset, regex, shell-words
  and std text functions sit behind small trusted wrappers whose contracts
  are documented where they are declared.
- `tests/` — tests on concrete values.
- `app/` — the `tb` command-line program: argument parsing (clap), a blocking
  JSON-RPC client over plain HTTP, and the interactive shell (rustyline, with
  history and Tab completion), all deciding through the library.

Not in this build: the server itself and its document store (the library
holds the server's request handling, the store is not part of it), the chat
window, `edit` and `ec` (they need a terminal UI and an editor session),
`tail -f` (it needs a WebSocket client), and `touch -t` (it needs a date
parser). `tb` answers these commands with an error that says so.
