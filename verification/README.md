# Famulus Games

A unified game library for macOS: reads the libraries of **Steam** and
**GOG** (folders under `~/Games/GOG`, or Heroic's databases), joins them into
one alphabetical list, starts games, fetches covers, and drives headless
updates through **SteamCMD**.

The core (`src/`) is verified with Verus. It reads and decides on plain
values: manifest and VDF texts, folder listings, SteamCMD output lines,
the state of the one download slot. Its contracts state what each function
returns; the laws of the library stand as public proof functions, among them:

- the joined library is a stable, case-insensitive alphabetical permutation
  of what the sources delivered (`sammeln_ist_vollstaendig`,
  `sammeln_ist_alphabetisch`);
- a `LastPlayed` value that an update saves is what the manifest reads after
  cleanup (`last_played_rundlauf`, `gesicherter_wert_kommt_zurueck`), and
  rewriting it keeps every other line (`last_played_setzen_erhaelt_zeilen`);
- only one download runs at a time (`nur_ein_download`);
- a `file://` URL decodes back to its path's bytes and holds only safe
  characters (`datei_url_dekodierbar`, `datei_url_nur_sichere_zeichen`);
- every Steam library is looked at exactly once (`bibliotheken_einmalig`).

`app/` is the unverified shell around it: file system, processes (Steam,
SteamCMD, curl, the games), the process-wide download lock, JSON parsing, and
the two size computations done in floating point.

Modules: `text` and `pfad` (strings and paths as `std` reads them), `steam`,
`gog`, `heroic`, `steamcmd`, `bridge` (starting games, covers, sizes),
`oberflaeche` (covers as data URLs), `ordnung` (a verified stable sort).
