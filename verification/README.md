# nix-core

The rules of a disk-space and system monitor: what may be reclaimed and what
never may, how much of it can be promised, what a package, a kernel, a snap, a
flatpak runtime or a container image takes, and what the live figures of a
machine amount to.

`src/` is a verified library. It reads no file and runs no command: it is handed
the text of files and the output of commands, and hands back decisions. Every
function states what it returns, over mathematical models of texts, paths and
lists, and Verus proves it. The one exception is the cancellation flag: threads
share it, so nothing is said of what it holds. What relates several functions stands as a public
proof function whose name begins with `law_`.

| module | what it is about |
| --- | --- |
| `text`, `decimal`, `order` | texts, numbers in texts, stable sorting and ordered maps |
| `double`, `exact`, `percent` | floating-point figures on integers, where they are exact, and percentages |
| `error`, `settings`, `paths`, `caps`, `op` | errors, settings, paths and base directories, capabilities, cancellable operations |
| `protect`, `rules` | which paths may never be touched, and what the built-in rules promise |
| `space`, `helper` | kinds of space, ways of reclaiming it, what the privileged helper is asked |
| `reclaim` | categories of reclaimable space, preview, execution and report |
| `pkg` | dpkg, rpm, pacman, snap, flatpak, and the store of measured sizes |
| `metrics` | processor, memory, disk, network, power, sensors, alerts, and the history |
| `process` | the process table |

`tests/` runs the library on concrete values. `app/` is the machine around it:
files, commands, threads, and the forms in which values cross a process
boundary.
