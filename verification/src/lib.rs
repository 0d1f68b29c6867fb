//! A local SCADA runtime: tag values and their cache, control commands and their write
//! policy, the tag server, driver and preview runtime APIs, screen projections, the desktop
//! shell's service plans and supervise loop, and the screen builder's API.
pub mod builder_api;
pub mod builder_ui;
pub mod command;
pub mod driver;
pub mod driver_manager;
pub mod http;
pub mod json;
pub mod json_doc;
pub mod minijson;
pub mod mock_driver;
pub mod mqtt;
pub mod operation_log;
pub mod runtime_api;
pub mod runtime_cli;
pub mod runtime_http;
pub mod runtime_json;
pub mod screen;
pub mod service;
pub mod service_config;
pub mod shell;
pub mod shell_cli;
pub mod supervise_log;
pub mod supervisor;
pub mod tag;
pub mod tag_cache;
pub mod tag_json;
pub mod tag_server;
pub mod tag_server_api;
pub mod text;
pub mod text_order;
