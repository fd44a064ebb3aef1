# kibi

A small text editor for the terminal. Its texts can be files, or documents that several people
share through replicas.

`src/` is the library, verified with Verus: the text and its rows, the keys, the prompts, the
search, the screen, the document that the replicas share, and the exchange with them. Each
function states what it returns and changes over `EditorView`, the mathematical state of an
editor; what holds of the editor as a whole is stated by the functions whose names begin with
`law_`.

- `keys`, `text`, `size`, `search`, `config`, `ansi_escape`: bytes, strings and constants
- `row`, `rows`, `syntax`, `cursor`: rows, their layout and their highlight states
- `state`: the editor; `motion`, `edit`, `find`, `draw`: what it does
- `prompt`, `command`, `step`, `session`: keys, and what they ask for
- `file`, `execute`: files and the output of commands
- `json`, `document`, `remote`, `exchange`: shared documents
- `laws`: what editing does to the contents, and what holds of all keys

`app/` is the program around it: the terminal, files, commands and the replicas.
