# hop

The core of a fuzzy directory jumper, written in Verus: what a query means, how
directories are scored and ranked, where a jump leads, what is imported from
other tools, and what each command does and answers.

| Module | What it holds |
|--------|---------------|
| `text`, `render` | Strings and numbers: trimming, splitting, searching, writing out, reading back |
| `outside`, `pattern` | The calls into other crates, and what is taken on trust of each |
| `score` | Scores of history rows and bookmarks for a query |
| `rank` | Order of the candidates, each path once |
| `search` | The search for the directory to jump to, one question at a time |
| `shell`, `import` | Shell history, and files of fasd, autojump, zoxide and zsh |
| `init` | Shell integration |
| `args`, `cli` | What a command line asks for |
| `report`, `export`, `stats` | What is answered |
| `flow` | How a command is carried out, one action at a time |
| `store` | What runs do to a store of history and bookmarks |

Contracts are stated over sequences of characters. Functions named `law_…` state
what holds of several functions together.

The program itself is in `app/`: it performs the actions that `flow` names, on
disk and in a store.

Times are nanoseconds since the Unix epoch. Shares, sizes and ages that are
shown with fractions are written out by the program.
