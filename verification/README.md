# scada

A local SCADA runtime as a verified library, with the programs around it.

- `src/` is the library, verified with Verus. Tag values and their cache
  (`tag`, `tag_cache`), control commands and the write policy (`command`,
  `driver`, `driver_manager`, `mock_driver`), the tag server's HTTP API
  (`tag_server`, `tag_server_api`, `operation_log`, `minijson`, `tag_json`),
  the preview runtime's API and screen projections (`runtime_http`,
  `runtime_api`, `runtime_json`, `screen`, `runtime_cli`), the desktop shell's
  service plans, configuration file, supervise loop and log summary (`service`,
  `shell`, `shell_cli`, `service_config`, `supervisor`, `supervise_log`), the
  screen builder's API and window (`builder_api`, `builder_ui`), and the text,
  HTTP, JSON and MQTT helpers they share (`text`, `text_order`, `http`, `json`,
  `json_doc`, `mqtt`).
- The trusted items are few: those of `json_doc` read and write JSON through
  `serde_json` and say which named result each gives; `text` pushes a character
  onto a `String`; `runtime_http` makes a `Duration`.
- Where a step needs the network, the file system, a process or the broker, the
  library says what is needed (`TagServerStep`, `TagServerIo`, `RuntimeIo`,
  `BuilderIo`, `HealthProbe`, `Supervisor`) and takes what came back.
- `app/` is one binary holding the programs: `scada <program> [args...]` with
  `tag-server`, `preview-runtime`, `tauri-shell`, `builder-api`, `builder-ui`,
  `mock-driver` or `driver-manager`. It does the I/O, runs `rumqttc` on `tokio`, and keeps the
  `serde` copies of the library's types.
- `tests/` runs the library on concrete values.
