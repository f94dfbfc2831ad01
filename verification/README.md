# diskr

A terminal file explorer and disk/storage manager for macOS, written as a
library that Verus verifies, with a thin program around it.

The library decides; the program acts. The logic is in `src/`: the decoding of directory listings, the totals of a walk, the rules for
what may be reclaimed, package listings and manifests, baselines and their
differences, the command line and its reports, what every key does in every
state, and what is drawn where. Each function says in its contract what it
returns, over mathematical models of the data, and Verus proves it. `app/` opens
files, starts threads and commands, talks to the terminal, and hands plain values
back and forth.

## Layout

| Modules | What they hold |
| --- | --- |
| `text`, `paths`, `sorting`, `sums`, `sizes`, `bytesize`, `labels` | Texts, paths, stable sorting, sums over lists, sizes and times in words |
| `bulkstat`, `walk`, `walkrun`, `descent`, `pool`, `scanner` | Reading directories, the walk through a tree and what a whole walk finds, searches that go down, sharing work out |
| `reclaim`, `packages`, `installed`, `manifests`, `space`, `fsevents` | What can be reclaimed, packages, projects, volumes, what changed on disk |
| `json`, `state`, `history`, `cache` | Saved sizes and baselines |
| `entries`, `browser`, `pkgpane`, `reclaimpane`, `modals`, `panes`, `outbox`, `app` | The state of the panes, and what is to be done outside |
| `keymap`, `keys`, `perform`, `actions`, `deletion`, `events` | From keys to commands to changes of state |
| `screen`, `layout`, `columns`, `fileinfo`, `filesview`, `sideview`, `statusview`, `modalview`, `listview`, `overlay` | What is drawn |
| `cli`, `reports`, `reportjson` | The command line and its reports |

The size cache and the baselines are kept as JSON through `serde_json`; property
lists of `diskutil` are read with `plist`, error numbers come from `libc`, and
areas of the screen are split by `ratatui-core`. What the library believes of
these crates stands at the functions that call them.

## Keys

The table mirrors the help (`?`) and `diskr --help`. Keys that remove something
(`d`, `E`, `x`) are shown in red.

| Key | Action |
| --- | --- |
| ? | Show keyboard help |
| q | Quit |
| Esc, Ctrl+C | Close a dialog, clear a search or filter, or go back to the files |
| Up/Down, j/k | Move the selection |
| PageUp/PageDown | Move by a page |
| Home/End | Jump to the first or last item |
| Enter | Open the selected directory, disk, package or finding |
| Backspace | Go to the parent directory |
| Left/Right, h/l | Switch pane or package view |
| Tab, Shift+Tab | Cycle panes |
| / | Search files or filter packages; Enter keeps, Esc clears |
| i | Show details |
| . | Toggle hidden files |
| o | Cycle the sort mode |
| r | Refresh the view and size all visible directories again |
| S | Size the visible directories whose size is missing or stale |
| B | Save a baseline of the directory |
| t | List the largest files |
| c | Rename the selected file |
| n | Create a directory |
| v | Toggle a mark |
| a | Mark all visible files |
| d | Move the selected item, or the marked ones, to the Trash |
| Space | Quick Look |
| f | Reveal in Finder |
| O | Open with the default app |
| y | Copy the path |
| s | Open a terminal there |
| p | Open the packages pane or switch its view |
| u | Show only packages that nothing depends on |
| x | Uninstall the selected package |
| R | Scan for reclaimable space again |
| E | Empty the Trash, where the report lists it |

## Reports

```sh
diskr --top 20 ~/Downloads         # largest files by allocated size
diskr --reclaim ~                  # reclaimable caches and build artifacts
diskr --save ~/Downloads           # save a baseline
diskr --diff ~/Downloads           # what changed since the baseline
diskr --space ~                    # free space, container and snapshots
diskr --packages ~                 # packages and project dependencies
diskr --thin-snapshots 10G ~       # show what thinning would do
diskr --thin-snapshots 10G --yes ~ # do it
```

All but the last two take `--json`.
