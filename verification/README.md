# gloss

Out-of-tree git checkpoints for AI coding agents. Every snapshot of a workspace is a
commit in a repository of its own, outside the workspace; the `.git` of the workspace
is never touched. Checkpoints can be listed, compared, browsed and restored.

The logic is a library proved with Verus (`src/`). Git, the file system, the network,
the clock and the terminal belong to the program around it (`app/`), which hands plain
values in and carries out what the library decides.

| module | what it holds |
| --- | --- |
| `paths` | which files a checkpoint takes in; the sweep over a workspace; when two paths name the same file |
| `hash`, `ids` | where the checkpoints of a workspace are kept, and how they are named |
| `checkpoint` | what a snapshot records, the listing, finding one by a prefix, pruning |
| `restore` | what a restore brings back, removes, and sets aside first |
| `diff` | what a checkpoint changed, file by file |
| `timeline` | a model of workspaces and checkpoints: a snapshot comes back, a restore drops nothing |
| `web`, `style` | the page on which checkpoints are browsed, its address and port |
| `json`, `mcp` | the server for agents: requests, tools, replies |
| `hooks`, `install` | wiring the tool into an agent, and out again |
| `cli` | what the commands print |
| `text` | strings: trimming, lines, numerals, byte order |

The laws that relate several functions are the public proof functions named `law_...`.

Two things are taken from outside on trust, each behind one small function with its
contract: reading and writing JSON (`serde_json`, in `json`), and from the standard
library `str::from_utf8` (in `diff`) and `String::push` (in `text`).

Paths are texts with `/` between their parts, and are compared part by part.

The coding agent is known by the name of its command, which `gloss install` takes as
its argument, and every command from the variable `GLOSS_AGENT`; `GLOSS_AGENT_NAME`
says what the agent is called, where that differs. The settings of the agent are looked
for in the directory of the same name as its command, with a dot in front, under the
home directory.
