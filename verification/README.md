# rax_nmea

Parsers for NMEA 0183 sentences, the text lines that GNSS receivers send,
written in Verus: each parser states in its contract what it reads from a
sentence's bytes, and Verus proves it.

## Layout

- `src/` — the verified library.
  - `text`, `number`: byte views of strings, searches, and what `str::parse`
    accepts for integers, hexadecimal bytes and `f64` literals.
  - `str_parser`, `filters`: a cursor over a string moved by rules
    (`Until`, `Char`, `ByteCount`, …) and character-set filters.
  - `rules`: the NMEA rules — checksum validation, time, date, coordinates.
  - `data`: one parser per sentence type (DHV, GBS, GGA, GLL, GNS, GRS, GSA,
    GST, GSV, RMC, TXT, VTG, ZDA) with checksum validation;
    `nmea_data`: parsers of DHV, GGA, RMC and ZDA without it.
  - `generic`, `fields`: sentences read field by field from their
    comma-separated list, and the dispatch by sentence type.
  - `context`: a cache of the latest data of each sentence type, on
    `lru::LruCache`.
  - `time`, `error`: times and dates (checked and written by `chrono`), and
    the error kinds with their messages.
- `tests/` — tests of the library on concrete sentences.
- `app/` — a program that reads sentences from a serial port, the logging
  set-up, the `Debug` output of the data types, and a thread-safe cache with
  a log file around `context::NmeaCache`.

Numbers that NMEA fields hold as decimals are kept as their text
(`number::FloatLiteral`), checked against the grammar that `f64::from_str`
accepts; `app/` turns them into `f64`.
