//! In-memory model of a personal study tracker: logged study sessions,
//! a todo list, and due-date reminders, together with the text form in
//! which the whole store is persisted.

pub mod clock;
pub mod codec;
pub mod store;
