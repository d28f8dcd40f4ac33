# coox

`coox` is a coding agent for the terminal: a conversation with a model, shown on the whole screen,
and tools with which the model reads and searches a workspace and runs commands in it.

The library under `src/` is written in Verus. Everything that the program decides, computes or lays
out stands there, each function with a contract that Verus proves. What a contract says of another
crate is declared next to the call, on small functions marked `external_body` whose doc comments
name the function behind them. Laws that relate several functions are public proof functions whose
names begin with `law_`.

- `src/` is the library.
- `app/` is the program around it: the terminal, the clipboard, the file system, processes and
  the loop that drives turns. It calls a model through the traits in `app/engine.rs`.
- `tests/` runs the library together with the crates it calls.

## The library

| module | what it is about |
| --- | --- |
| `input` | the input box: editing, wrapping, moving the cursor, selecting |
| `scroll_view`, `selection` | what of a long content is on screen, and what is selected in it |
| `text`, `fold`, `images`, `markdown` | widths, folded text, prepared images, Markdown |
| `state`, `events` | the blocks of a conversation, and the events that change them |
| `blocks`, `conversation` | how blocks look, and where on the screen they are drawn |
| `pending_inputs`, `notifications`, `status`, `command_menu` | the other things on screen |
| `command` | slash commands, and the text that they are told apart from |
| `history`, `message`, `runtime`, `turn_driver` | turns: started, steered, queued, aborted |
| `app` | keys, mouse, frames and effects of the whole program |
| `harness` | requests, skills and tool calls |
| `workspace` | the tools: `read`, `grep`, `glob` and `bash`, and how they walk files |
| `startup`, `config` | what the program starts from |
