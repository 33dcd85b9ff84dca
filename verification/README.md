# konedrive_sync

What a OneDrive sync daemon decides, with contracts that Verus proves.

- `src/local` finds what a folder holds that the last known state of the drive
  does not: it surveys the disk step by step, tells which entry is which item,
  and says what to send.
- `src/listing` reads the drive's change feed and brings it into the folder: one
  cycle is a state machine that says what to ask or apply next.
- `src/disk` decides how a file on the disk is moved, rescued and locked.
- `src/hub`, `src/helper`, `src/helper_status` decide which folder an object
  belongs to, and how the privileged helper is spoken to.
- `src/activity`, `src/dbus`, `src/graph_source`, `src/baloo` hold the log, the
  signals, the fetches and the indexer's settings.
- `src/path`, `src/text`, `src/sorted`, `src/calendar`, `src/clock`, `src/os`
  and `src/tree` are what the others are made of.

Apart from the clock, no function of `src/` reads or writes anything but its
arguments. Where a decision needs to know more, the function says what it asks, and is handed
the answer. `app/` asks: it reads the disk and the network and performs what was
decided.

What is proved of the library as a whole stands in public proof functions whose
names begin with `law_`. What is believed without proof is what the functions
marked `external_body` say of the standard library, `libc` and `nix`.
