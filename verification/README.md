# tide

The logic of a small code editor and git client, verified with Verus.

`src/` is the library. Its functions have contracts that Verus proves: what the editor shows, what a
key or a click does, what is read from the output of `git`, `gh`, `ps` and `rg`, and what is sent to a
shell. It does no input or output of its own.

| | |
|---|---|
| text, paths, order | `text`, `path`, `order` |
| search and lists | `search`, `find`, `finder`, `outline`, `palette`, `prompts` |
| git and pull requests | `git`, `pr`, `repo`, `changes`, `commit`, `review`, `push`, `merge`, `gitlog` |
| diffs and colours | `diff`, `unified`, `diffwin`, `syntax`, `badge`, `theme` |
| terminal | `vt`, `term`, `frame`, `screen` |
| the window | `keys`, `tabs`, `filetree`, `project`, `docks`, `console`, `processes`, `agent`, `storm`, `chrome`, `workspace` |

A few outside functions are taken on trust: their contracts stand in `text` and `pr` (case mapping,
character classes, JSON), `syntax` (highlighting) and `screen` (the terminal emulator's grid). Which
syntaxes and which colours are embedded in the highlighting crates is not stated, nor how a given line
of code is coloured.

`app/` is the program round the library: files, processes, the pseudo terminal and the windows.
`tests/` runs the library on concrete values.
