# junk

A multi-connection HTTP(S) downloader with a stream pipeline (yt-dlp → ranged
downloads → ffmpeg merge), a clipboard-first command line and an arcade TUI.

The decisions of the program are a library verified with Verus; the I/O around
them is an ordinary Rust front-end.

## Layout

| Path | Role |
|------|------|
| `src/text.rs` | character-level helpers (trim, split, search, decimal printing and parsing, UTF-8 widths), each tied to a spec function |
| `src/sys.rs` | the trusted contact points: `url::Url::parse`, lossy UTF-8 decoding, `Path` queries |
| `src/util.rs` | file-name sanitizing, names from URLs, human-readable sizes and times, path joining, default directories |
| `src/resume.rs` | byte-range segments and the resume state; the split of a file into segments |
| `src/download.rs` | probe reading, `Content-Disposition`, resume validation, `Range` headers, retries |
| `src/queue.rs` | the FIFO download queue with one active job |
| `src/media.rs` | stream-host detection, yt-dlp answers, part names, merge planning, tool lookup |
| `src/cli.rs` | pasted-link normalization, URL resolution, destination choice |
| `src/tui.rs` | the arcade TUI as a state machine over keys, reports and outcomes |
| `src/art.rs` | the arcade art as cells: the arm that writes itself glyph by glyph, its closing line, the syringe barrel |
| `app/` | `main`, HTTP transfers (reqwest/tokio), yt-dlp and ffmpeg processes, the terminal UI (ratatui/crossterm), clipboard, the JSON sidecar |
| `tests/` | tests of the library |

The laws the library proves include: a split covers every byte exactly once,
sanitized names are safe and stable, queued ids are fresh and removing a just
queued job restores the queue, starting the next job leaves one active
download, and resuming fetches only the missing bytes of each segment.
