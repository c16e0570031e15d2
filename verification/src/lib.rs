//! A weekly task calendar: tasks are recorded against named days of a
//! seven-day week, shown as a formatted listing, cleared per day, and
//! archived with the recurring ones carried forward.

pub mod archive;
pub mod calendar;
pub mod cli;
pub mod codec;
pub mod render;
pub mod utils;
