# iced_code_editor

The core of a canvas-based code editor and of the small IDE built around it,
written in Verus: every function under `src/` carries a contract that Verus
proves.

## Layout

- `src/` — the verified library.
  - `lines`, `buffer`: the document as a sequence of lines, and edits on it.
  - `edit`, `history`: reversible edits and the undo/redo history with
    typing groups and a saved position.
  - `editor`: the editor state machine — cursor, selection, wrapping,
    paging, mouse, clipboard and input-method messages.
  - `search`: finding a query in the document, with or without case,
    stepping through the places found, and replacing one or all of them
    as one undo step.
  - `paths`: file paths written with `/`, their last part, parent and parts.
  - `probe`: the order in which the programs of rust-analyzer and gopls are
    looked for, as a step function that the application drives.
  - `wrapping`, `width`, `keys`: screen rows, character widths, and the
    mapping from key presses to editor commands.
  - `text_model`, `protocol`, `lsp_config`: the client side of the
    language-server protocol — document mirrors with UTF-16 columns,
    message framing and dispatch, server configuration.
  - `tabs`, `completion`, `hover`, `workspace`, `focus`, `types`: the
    application's tabs, completion menu, hover tooltip, URIs and progress
    reports.
  - `laws`: properties that span several operations (undo restores, saved
    state, splicing).
- `tests/` — tests run against the compiled library.
- `app/` — the iced application: windows, canvas drawing, file dialogs and
  language-server processes.
