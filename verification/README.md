# mahjong-analytics

Tenhou (Houou table) mjlog tools: a log in mjlog XML becomes a table of
decision snapshots (one row per decision of a player), stored as a 44-column
Parquet file, with hand evaluation (shanten, waits, winning shapes, a
simplified score) and a desktop viewer that replays a table.

The library under `src/` is written in Verus and verified:

| module | what it holds |
|--------|---------------|
| `mahjong::hand`, `mahjong::tiles` | count arrays, shanten, waits, winning shapes, fu and points; sorting hands |
| `parser` | the log state machine: every tag handler, the meld decoder, the rows it emits |
| `xml` | reading a log with `quick_xml` into plain events |
| `snapshot` | `Snapshot`, `MeldEntry`, `GameState` and their plain views |
| `json` | the meld lists as JSON text, written and read back |
| `columns` | the snapshot table as plain columns, written and read back |
| `frame` | the table as a Polars `DataFrame` |
| `table` | the named tables of one log |
| `viz::tiles`, `viz::board`, `viz::view` | labels, file names, colours, board layout decisions, the viewer's state |
| `cli` | the command-line values |
| `text` | character-level helpers (numbers, splitting) |

Laws proved in the library:

- `mahjong::hand::law_shanten_complete`, `law_waits_complete`, `law_waits_win`,
  `law_same_kinds`, `law_kind_id_round_trip`
- `parser::law_rows_numbered`, `law_round_end_rows`, `law_rows_well_formed`
- `json::law_json_round_trip`
- `columns::law_storage_round_trip`, `law_log_storage_round_trip`
- `frame::law_frame_round_trip`, `law_log_frame_round_trip`

`app/` holds the programs around the library: the `convert`, `batch` and
`par-batch` commands (files, SQLite, gzip, Parquet, threads) and the egui
viewer window.
