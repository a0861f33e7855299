# vici

A headless vi editing core, verified with Verus. Modes, motions, operators,
counts, text objects, visual mode, search, marks, undo, dot-repeat and macros,
with no view attached.

```rust
use vici::Editor;

let mut ed = Editor::from_text("select id, name\nfrom users");
ed.type_keys("cwSELECT<Esc>").unwrap();
assert_eq!(ed.buffer().to_string(), "SELECT id, name\nfrom users");
```

## Layout

| Module | What it holds |
| --- | --- |
| `text`, `edit`, `buffer` | UTF-8 text, rows and positions; edits and their inverses; the rope |
| `history`, `undo`, `document` | undo groups and steps; what undo and redo promise; text with its history |
| `key`, `keymap`, `command`, `pending` | key notation; layered bindings; the vocabulary; vi's command grammar |
| `unicode`, `grapheme`, `scan`, `search`, `motion`, `object` | character space: graphemes, words, searches, motions and text objects |
| `state`, `editor`, `effect` | the editor as a value, what each key does to it, and the executable editor |
| `promises`, `caret`, `record`, `repeat`, `dot`, `tame` | what holds across commands: undo, redo and the caret, recording, macros, dot-repeat |
| `fixtures`, `lenient`, `snapshot`, `written`, `oracle` | the fixture grammar and the snapshot blocks it pins |
| `screen`, `session`, `frame` | what a terminal host does with an editor |

`app/` holds the hosts themselves: a terminal harness, and the oracle's command line.

## Reading the contracts

Executable types have views: a `Buffer` is its bytes, an `Editor` is a
`state::EditorState`. What a key does is `state::handled`, a function from state and
key to state and effects, and `Editor::handle_key` is proved to compute it. Laws are
public proof functions over the same functions.

What is trusted are the items that call the rope, the Unicode tables and a few
functions of the standard library. Each says above it what is claimed.
