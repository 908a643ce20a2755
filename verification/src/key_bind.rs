//! The keys of the interactive session.

use vstd::prelude::*;

verus! {

/// Moves the selection up, or the selected document up in the ordering.
pub const UP: char = 'i';

/// Moves the selection down, or the selected document down in the ordering.
pub const DOWN: char = 'k';

/// Picks the selected document up for reordering, or puts it down again.
pub const PICK_TOGGLE: char = 'p';

/// Takes the selected document into the ordered subset, or out of it.
pub const INCLUDE_TOGGLE: char = 'x';

/// Asks to quit without saving.
pub const QUIT: char = 'q';

/// Asks to save and quit.
pub const SAVE: char = 's';

/// Confirms a question.
pub const CONFIRM: char = 'Y';

} // verus!
