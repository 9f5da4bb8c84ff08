# mp3_tag_editor

A browser-based ID3 tag editor for MP3 files, with its logic verified by Verus.

- `src/` is the verified library: reading a tag's fields, pictures, chapters and
  chapter art (`load`), the editing operations (`editor`), building the tag that is
  written back (`save`), decimal text and timestamps (`text`), the bounded queues of
  the wave animation (`wave`), and the properties that span them (`laws`). The
  `id3` and `base64` crates are reached through the trusted items of `id3_bridge`
  and `base64_bridge`; `frames` models a tag as the sequence of its frames.
- `app/` is the user interface (Dioxus), file and network I/O, and the
  floating-point input handling of the wave animation.
- `tests/` runs the library on concrete tags and forms.
