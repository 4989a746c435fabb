# mp4box

A minimal MP4/ISOBMFF parser and editor whose library is verified with Verus.

The library works on a byte slice that holds the file: it parses the box tree
(64-bit and `uuid` boxes, full boxes, `meta`/`stsd` containers, sample entries
and their codec configuration children), decodes known boxes into typed data
and one-line summaries, extracts per-sample tables, reads iTunes tags, decodes
Widevine and PlayReady `pssh` payloads, and edits files non-destructively with
box sizes and `stco`/`co64` chunk offsets fixed up.

Layout:

- `src/` — the verified library. `parser` and `api` build the box tree;
  `registry` holds the box decoders, their structured data and summaries,
  and a `Registry` through which callers add decoders of their own;
  `samples` computes sample tables; `info` and `itunes` summarise a parsed
  file; `drm` decodes protection-system payloads; `edit` is the editor; `text`
  and `util` hold the character and byte helpers they share.
- `tests/` — scenario tests run against the compiled library.
- `app/` — the command-line front end (`info`, `samples`, `edit`): file
  access, argument handling, floating-point rendering and JSON output.
