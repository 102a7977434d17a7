# synapse

An AI agent for the terminal and for Telegram: one-shot prompts, an interactive
REPL, stored conversation sessions, tools served over MCP, and several LLM
providers (DeepSeek, OpenAI, Anthropic).

## Layout

- `src/` — the library, verified with Verus. It holds the logic: configuration
  defaults and search order, messages and roles, provider selection and the wire
  format of requests and responses, the tool-calling loop as a state machine,
  MCP tool routing, session and storage rules, text utilities, the REPL's editing
  and display state, and the Telegram formatting (Markdown to HTML, chunking of
  long replies, per-chat session lists, command parsing and replies).
- `tests/` — tests of the library.
- `app/` — the program around it: argument parsing, HTTP, SQLite, MCP server
  processes, the terminal UI and the Telegram bot. It calls the library for every
  decision and performs the I/O.

Run `synapse "question"` for a one-shot answer, `synapse --repl` for the REPL,
`synapse sessions list|show|delete` to manage sessions, and `synapse telegram` to
run the bot.
