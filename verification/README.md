# token-leaderboard

Tells which projects a coding agent spent its tokens on: for each project the
sessions, the tokens that went in and came out, and what they cost.

The agent keeps the log of each session below `~/.{agent}/projects`, in a
directory that is named after the project's path. Old sessions stand compressed
in `~/.{agent}/archive`. `~/.{agent}.json` lists the paths of projects.

## Layout

`src/` is a library that Verus verifies.

| Module | What it holds |
| --- | --- |
| `agent`, `period` | names of files and programs, the span of time of a report |
| `text`, `numbers` | searching text, numbers as text |
| `names`, `config` | from directories to names of projects |
| `usage`, `stats`, `content` | messages, their cost, and what a session adds up to |
| `archive` | names and content of archived sessions |
| `table`, `merge`, `rank` | what each project used, subdirectories, the order |
| `gather`, `report` | taking up files one by one, the report |

`app/` is the program: it walks directories, reads files, parses lines as JSON
and prints the table. Installed under the name `{agent}-tokens` it reports on
that agent, under another name on the first one that keeps sessions in the home
directory. It takes one argument, `week`, `month` or `total`.

## Amounts of money

Prices are whole cents per million tokens, so amounts are kept as whole numbers
of microcents (millionths of a cent) and no sum is rounded. A report rounds an
amount once, to cents, as the nearest double-precision number of dollars would
be rounded.
