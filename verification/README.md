# fox_cull

The logic of fox-cull, a photo and video culler, as a library verified with
Verus: how files are classified and named, how EXIF and ffmpeg dates are
read, how embedded JPEG previews are found and ICC profiles spliced into
cached thumbnails, where each drive's library lives, how a folder is listed
with its ratings and tags, and how rejected files move through the in-app
Trash and back.

- `src/` is the verified library. Each module states its functions'
  behaviour in `requires`/`ensures` over spec functions, and the laws that
  span functions (an ICC profile reads back out of the JPEG it was spliced
  into, the day number of the next calendar day is one more, cached file
  names never collide, alternative names never repeat, a restored file goes
  back where it came from, a sort keeps every record in ascending order, …)
  are proof functions named `lemma_*`.
- `tests/` runs the library on concrete values.
- `app/` is the desktop side around it: the SQLite catalog, the file system
  (reading files for the library to parse), the bundled ffmpeg and the
  commands the UI calls.
