//! Quote an agent's own answer back at it: the transcript model, the markdown reading, the
//! layout arithmetic, and the picker's selection and bank state.

pub mod text;
pub mod markup;
pub mod transcript;
pub mod ui;
pub mod export;
pub mod herdr;
pub mod bank;
pub mod config;
pub mod app;
pub mod keymap;
pub mod theme;
