//! A small todo-list library: an ordered list of titled items, each with an
//! optional due date and a done flag.
//!
//! - `item`: the `Item` type, its mathematical view, and its display line.
//! - `select`: selector tokens (index or case-insensitive title prefix) and
//!   their resolution, last-match-wins for the toggles and first-match-wins
//!   for delete.
//! - `ops`: the mutation operations (add, edit, toggle, delete, bulk delete)
//!   with full contracts, and the toggle laws.
//! - `command`: classification of an argument vector and the dispatcher.
//! - `codec`: the persisted JSON form of the list, with a proved decode/encode
//!   round trip.

pub mod codec;
pub mod command;
pub mod item;
pub mod ops;
pub mod select;
pub mod strutil;
