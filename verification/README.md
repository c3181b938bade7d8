# OxideSSH

The core of a cross-platform SSH client: saved connection profiles whose
secrets live in the operating system's credential store, a trusted host key
store, and tabs that each run an interactive terminal session. The library
is written in Verus; its behaviour is stated in `requires`/`ensures`
contracts and proved.

## Layout

- `src/` — the verified library.
  - `model` — profiles, endpoints, credential references and their validation.
  - `storage` — the configuration and trusted-host documents, their validation,
    endpoint canonicalization, and accepting, looking up and deleting host keys.
  - `credentials` — the credential store interface, the platform keyring store,
    and the save and delete transactions that keep profiles and secrets in step.
  - `session` — session events and errors, the decisions of a connection, and
    the table of host-key prompts shared by concurrent connections.
  - `tabs` — tabs, their state machine and the FIFO queue of modal requests.
  - `terminal`, `input` — terminal colors, cell styles, emulator events, and the
    encoding of keys and pastes.
  - `app_state`, `connection_form`, `dialog`, `messages`, `theme`,
    `widget_theme`, `i18n`, `text_field`, `text` — the application state, the
    profile editor, dialogs (focus identity, answers, saving editors), message
    selection, the application and widget themes with their terminal
    palettes, the message catalog, and the text field's editing model.
  - `render`, `session_flow` — what the terminal view paints (background
    segments, text runs, the cursor cell, host-card avatars and labels), and
    the session view's decisions (how a connection starts, which events a tab
    takes, what notifications do to the bell and the status line).
- `tests/` — tests of the library.
- `app/` — the program around it: the on-disk documents, SSH sessions over
  `russh`, the terminal emulator over `alacritty_terminal`, and the
  coordinator that runs the credential transactions.
