//! An agent session transcript, laid out as the lines the picker scrolls.

pub mod marks;
pub mod block;
pub mod markdown;
pub mod command;
pub mod line;
pub mod session;
pub mod entry;
pub mod history;

pub use self::history::Transcript;
pub use self::line::SourceLine;
pub use self::session::SessionId;
