//! Verified core of the imgui kitchen-sink plugin: the integer, text and
//! ordering logic behind its widgets, kept apart from the drawing itself.

pub mod order;
pub mod state;
pub mod table;
pub mod text;

pub use order::{compare_i32, compare_text, Comparison};
pub use state::{last_drop, selection_item, State, SELECTION_COUNT, SLOT_COUNT};
pub use table::{compare_rows, initial_rows, sort_rows, TableRow, INITIAL_ROW_COUNT};
pub use text::{decimal_string, label, push_decimal, signed_string};
