# dukememory

A local, project-scoped memory engine: memories, the entities and facts that they speak of, and an
index of the code of a project, shown as one map.

The library in `src/` holds what the engine decides. Its behaviour is stated in contracts and proved
by Verus:

- the map: `graph`, `aggregate`, `memory_graph`, `code_graph`, `bridge`, `overview`, `drilldown`
  build graphs of a project; `ranking`, `filter`, `paths`, `quality` and `layout_plan` choose what of
  them is shown, and how;
- the viewer: `viewer`, `viewer_refresh` and `viewer_events` are its state and what changes it;
- the code index: `lsif_graph` and `lsif_index` read the dump of rust-analyzer and turn it into
  references and calls; `uris`, `file_paths` and `json` are below them;
- upkeep: `maintenance`, `maintenance_steps`, `memory_writes`, `review`, `eval`, `eval_report`,
  `readiness`, `doctor`, `launchd_maintenance` and `commands`;
- what is printed, line by line: `listings`, `record_listings` and `report_listings`.

What holds of several functions together is proved in `filter_laws`, `path_laws`, `model_laws`,
`group_laws` and `overview_laws`, and beside the functions themselves.

Four outside functions are called through declarations whose contracts are believed:
`serde_json::from_str` (`json`), `blake3::hash` (`digest`), `String::from_utf8_lossy` (`uris`) and
`String::push` (`text`).

`app/` is the program around the library: the command line, the store in one JSON file, the window
and everything that computes with floating point numbers. `tests/` runs the library.
