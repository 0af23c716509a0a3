# typhon

The verified core of Typhon, a terminal assistant that chats with a language
model (Gemini, DeepSeek, OpenAI or a ChatGPT subscription) and lets it use
three file tools.

- `src/` is the library, written and proved with Verus: the command parser,
  the editable input line, the streaming Markdown renderer, token usage
  accounting, the agent's stream state machine, the normalisation of each
  provider's model listing, the answers of the file tools, and the decisions
  of the interactive session and of the configuration editor. Each public
  function states its result exactly; the `law_*` proof functions state what
  holds across calls (for instance, that splitting a stream into chunks does
  not change what is rendered).
- `app/` is the program around it: the terminal, the configuration files and
  prompts, the HTTP calls and the `rig` agents. It hands the library plain
  values and acts on what comes back.
- `tests/` runs the library on concrete cases.
