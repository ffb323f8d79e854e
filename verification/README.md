# filesystem_watcher

A debounced filesystem watcher for source trees. It watches a directory and the directories below
it one by one, leaves out dependency and build directories (`node_modules`, `target`, ...), honours
the `.gitignore` files of the tree, and passes on the change notifications that are left.

`src/` holds every decision of the watcher as verified code; it touches no disk.

| module | what it decides |
|---|---|
| `exclude` | which directory names are never watched |
| `path` | paths as they are spelled: components, prefixes, extensions, joining |
| `rules` | compiling ignore rules and asking them about a path |
| `filter` | which notifications are passed on |
| `scan` | which files ignore rules are collected from |
| `collection` | what a whole scan comes to |
| `watches` | which directory is watched or listed next, breadth-first |
| `coverage` | what a whole traversal comes to, and in which order |
| `startup` | the order in which a watcher is brought up |
| `error` | what can go wrong |

`app/` is the watcher itself: it reads the disk, places the watches, runs the channel, and asks
the library what to do at each step. `tests/` run the library, among other things on directory
trees in memory.

Paths are bytes, kept as they are spelled, and the library splits them as on Unix: at `/` alone,
with no notion of a drive letter or another prefix. On a system with other separators `app/`
spells paths with `/` before it hands them to the library, and a prefix such as `C:` is then a
component like any other. On Unix any file name will do; elsewhere names that are not Unicode are
approximated when they are handed to the ignore rules.
