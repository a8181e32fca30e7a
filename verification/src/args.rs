//! Command-line arguments of the engine.

use vstd::prelude::*;

verus! {

/// Command-line arguments of the engine.
pub struct Args {
    /// Window title.
    pub title: String,
    /// Window width in logical pixels.
    pub width: u32,
    /// Window height in logical pixels.
    pub height: u32,
    /// Disable vsync.
    pub no_vsync: bool,
}

impl Default for Args {
    /// The arguments when none are given: titled "Resident", 1280 by 720, with vsync.
    fn default() -> (args: Self)
        ensures
            args.title@ == "Resident"@,
            args.width == 1280,
            args.height == 720,
            !args.no_vsync,
    {
        Args { title: "Resident".to_owned(), width: 1280, height: 720, no_vsync: false }
    }
}

} // verus!
