//! Core logic of a log viewer: the Loguage query interpreter, the log line
//! indexer's field extraction, and the data shaping behind the result views.

pub mod text;
pub mod record;
pub mod syntax;
pub mod interpreter;
pub mod session;
pub mod playground;
pub mod numeric;
pub mod histogram;
pub mod highlight;
pub mod table;
pub mod indexing;
pub mod mailbox;
pub mod status;
