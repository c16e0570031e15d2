//! The command surface: one invocation performs exactly one of these
//! operations. Argument parsing itself is left to the binary around the
//! library; these types carry the parsed command.

use vstd::prelude::*;

verus! {

/// One parsed invocation.
pub struct Cli {
    pub command: Commands,
}

/// The four operations of the calendar tool.
pub enum Commands {
    /// Add an item to a specific day.
    Add { day: String, item: String, location: Option<String>, recurring: bool },
    /// Show all items for the week.
    Show,
    /// Clear all items from a specific day.
    Clear { day: String },
    /// Archive the current week and clear all items, keeping recurring
    /// tasks.
    ArchiveWeek,
}

} // verus!
