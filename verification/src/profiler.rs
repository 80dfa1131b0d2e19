//! Profiles of a run: the records of calls and returns, their text and the
//! reading of it.

pub mod error;
pub mod parse;
pub mod record;
pub mod record_type;
pub mod text;
pub mod trace;
pub mod writer;

pub use error::Error;
pub use parse::{parse_raw_records, parse_records};
pub use record::{ProcedureRecord, Record};
pub use record_type::RecordType;
pub use writer::WriteProfiler;
