//! A web application firewall: what it decides on requests, how it passes them
//! on, and what it reports.
//!
//! - `analyzer` decides on a request; `policy` holds it against the limits of
//!   its endpoint, and `normalize` and `decode` undo its encodings. `evasion`
//!   states what these encodings cannot hide.
//! - `exchange` turns requests into what the analyzer sees, and decisions into
//!   records and answers; `proxy` and `forward` treat the headers.
//! - `config` checks the configuration; `admin` has the rules of the admin
//!   interface; `report` and `pdf` make the daily report.
//! - `models` has the data, `text`, `words`, `number`, `text_map` and `moment`
//!   what everything is made of. `outside`, `headers` and `moment` hold the calls
//!   into other crates.
//! - The laws say what holds of all this, whatever it is made of: `text_laws` and
//!   `decode_laws` of texts and their encodings, `form_laws` of the forms in which
//!   a request is matched, `decision_laws` of decisions, `passage_laws` of what is
//!   passed on and recorded, `report_laws` and `page_laws` of the daily report,
//!   `setup_laws` of the configuration and the admin interface, and `value_laws` of
//!   how values are seen and faults are told.
pub mod admin;
pub mod analyzer;
pub mod config;
pub mod decision_laws;
pub mod decode;
pub mod decode_laws;
pub mod evasion;
pub mod exchange;
pub mod form_laws;
pub mod forward;
pub mod headers;
pub mod models;
pub mod moment;
pub mod normalize;
pub mod number;
pub mod outside;
pub mod page_laws;
pub mod passage_laws;
pub mod pdf;
pub mod policy;
pub mod proxy;
pub mod report;
pub mod report_laws;
pub mod setup_laws;
pub mod text;
pub mod text_laws;
pub mod text_map;
pub mod value_laws;
pub mod words;
