//! Layout for the reading column: wrapping, the measure, cards, tables, and hit testing —
//! everything the paint layer decides before a colour is chosen.

pub mod width;
pub mod wrap;
pub mod column;
pub mod markdown;
pub mod card;
pub mod chrome;
pub mod table;
pub mod view;
pub mod style;
pub mod prose;
