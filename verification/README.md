# aerodl

The core of a desktop front end for yt-dlp, written in Verus: every rule the
application follows is a verified function with a contract.

## Layout

- `src/` — the verified library.
  - `text` — character-level string functions (trim, find, split, join,
    decimal digits) with their specifications and lemmas.
  - `subtitle` — SRT reading, ASS timestamps and escaping, and the merging
    of a main and a secondary subtitle track into one bilingual ASS script.
  - `codec` — codec families and labels, and the reference bitrate of a
    height (the bitrate ladder interpolated by height).
  - `options` — a download's options and the yt-dlp arguments they become.
  - `command` — the full argument lists for yt-dlp and ffmpeg.
  - `output` — reading yt-dlp's output lines (progress records, destination
    file, aria2c progress) and the result of a finished download.
  - `settings` — the settings, the cookie arguments, the concurrency limit and
    the daily update of the bundled yt-dlp.
  - `store` — the downloads table with unique ids, and its operations.
  - `queue` — the queue's transitions (queued, running, completed, failed,
    cancelled) over the table, with the laws that relate them.
  - `media` — what is taken from yt-dlp's JSON (subtitle languages, format
    fields); JSON parsing itself is serde_json's.
  - `tools` — helper program names, which archive entries to unpack, which
    release asset to fetch, fetch progress, and the window material.
  - `clock` — the current time.
- `tests/` — tests of the library on concrete values.
- `app/` — the Tauri application around the library: processes, files,
  SQLite, HTTP, events and commands.
