# wpengine

Library and tools for running Steam Wallpaper Engine backgrounds on a Linux
Wayland desktop with `linux-wallpaperengine`: an index of the workshop
folder, playback settings, per-wallpaper properties, the engine's command
line, a local HTTP control API and Steam Workshop browsing.

The library under `src/` is written in Verus. The verifier proves its
functions free of panics and overflow and proves the contracts of its
public functions, which state their results. Seven small wrappers around
std, `dirs` and `nix` are the exception: string push and lowercasing, path
extension, prefix and equality, the home directory and the user id. Their
contracts restate what those functions document and are trusted, not
proved.

- `json` — the JSON value model (objects keep their keys in order) and its compact text
- `text`, `texts` — text helpers: trimming, comparison, decimals, sorting
- `paths` — where the workshop, caches and assets live
- `size` — human-readable file sizes
- `library` — index records, project summaries, the incremental rescan, removal
- `settings` — playback settings: defaults, loading, merging
- `props` — property definitions, saved overrides and `--set-property` flags
- `engine` — the engine's arguments, monitors, the Wayland display
- `daemon` — launch queries, requested ids, folders to open, seeding at start
- `steam` — workshop cards, type labels, query plans, download steps

`app/` holds the program around it: the HTTP daemon (axum), the index
command line, file and process I/O, and the Steam client calls.

```
lwe daemon                                   # HTTP API on 127.0.0.1:45127
lwe --rebuild | --rescan | --list | --json | --gallery
```
