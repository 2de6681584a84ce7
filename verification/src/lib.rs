//! A small credential store with a selectable list over it.
//!
//! The crate holds the state and the rules of a keyboard-driven password
//! manager and leaves the terminal and the backing file to its caller:
//!
//! * [`database`] keeps the records and hands out their ids;
//! * [`history`] states what holds of the store over any run of calls;
//! * [`widgets`] tracks which row of the list is highlighted;
//! * [`app`] turns one keyboard event into a change of both.
//!
//! Every function carries a contract that Verus checks.

pub mod app;
pub mod database;
pub mod history;
pub mod widgets;
