# Some Audiobook Player

An audiobook player whose logic is a verified Verus library.

- `src/` is the library. Its functions carry their contracts and are verified, and
  the laws that relate several of them are public proof functions beside them.
  What is trusted instead of verified is what the library has from outside: the
  machine's clock (`unix_clock` in `library::db`), the image decoders
  (`decode_image` and `image_pixels` in `library::cover`), and of the standard
  library `String::push` and `str::to_lowercase` (in `text`).
  - `text`, `dates`, `order`, `paths`, `time`: characters and numbers, calendar
    dates, sort orders, Unix paths, spans of time.
  - `library`: what is known of a book (`mod`), the contents of the database and
    what each operation makes of them (`tables`), the database itself (`db`), the
    record of what was written to it (`journal`), what holds from one operation to
    the next (`laws`), tags (`meta`), importing folders (`scan`) and doing so again
    (`rescan`), covers (`cover`) and which of them can be decoded (`picture`).
  - `audio`: the playback engine and the source's controls and files.
  - `browse`, `icons`, `mpris`, `toast`: what the windows and the desktop show.
  - `app`: the player, and what each action of the listener makes of it.
- `tests/` runs the library on concrete values.
- `app/` is the program around it: windows (egui), audio output (rodio), tempo
  (timestretch), tags (mp4ameta, lofty), walking folders (walkdir), SQLite rows
  (rusqlite) and the desktop (mpris-server). It holds what needs a device, a file,
  a thread or floating point.

The library keeps the database in memory. The program reads the stored rows once,
hands them to `Database::restore`, and after each frame stores the rows at the
places that `Database::take_changes` names; that no change goes untold is part of
every contract (`Database::records`).
