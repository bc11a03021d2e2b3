//! Transaction server core: write-ahead log, conflict detection, and the rules around them.
pub mod admission;
pub mod bytes;
pub mod decimal_laws;
pub mod engine;
pub mod engine_laws;
pub mod events;
pub mod expr;
pub mod float;
pub mod float_laws;
pub mod float_text;
pub mod http;
pub mod http_laws;
pub mod json;
pub mod laws;
pub mod mvcc;
pub mod mvcc_laws;
pub mod namespace_laws;
pub mod output;
pub mod output_laws;
pub mod parse_laws;
pub mod paths;
pub mod python;
pub mod read;
pub mod run_laws;
pub mod run_loop;
pub mod scheduler;
pub mod scheduler_config;
pub mod scheduler_laws;
pub mod steps;
pub mod steps_laws;
pub mod sweep;
pub mod table;
pub mod text;
pub mod text_laws;
pub mod transaction;
pub mod wal;
pub mod worker;
pub mod worker_laws;
pub mod wrap;
pub mod wrap_laws;
