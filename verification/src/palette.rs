//! Accent colors of the debug UI.

use vstd::prelude::*;

verus! {

/// An accent color of the debug UI.
#[derive(Clone, Copy, PartialEq, Eq, Debug)]
pub enum Accent {
    Coral,
    Teal,
    Blue,
    Purple,
    Green,
    Yellow,
    Red,
}

/// The accents that the rows of a frame breakdown cycle through, in order.
pub open spec fn section_accents() -> Seq<Accent> {
    seq![Accent::Coral, Accent::Teal, Accent::Blue, Accent::Purple]
}

/// The accent of row `row` of a frame breakdown: the rows cycle through coral,
/// teal, blue and purple.
pub fn section_accent(row: usize) -> (accent: Accent)
    ensures
        accent == section_accents()[(row % 4) as int],
{
    match row % 4 {
        0 => Accent::Coral,
        1 => Accent::Teal,
        2 => Accent::Blue,
        _ => Accent::Purple,
    }
}

/// Rows four apart share their accent.
pub proof fn lemma_accent_cycles(row: nat)
    ensures
        section_accents()[((row + 4) % 4) as int] == section_accents()[(row % 4) as int],
{
}

/// The cycle is exactly four rows long: any four consecutive rows get four
/// different accents, so no two neighbouring rows share one.
pub proof fn lemma_consecutive_rows_differ(row: nat, i: nat, j: nat)
    requires
        i < j < 4,
    ensures
        section_accents()[((row + i) % 4) as int] != section_accents()[((row + j) % 4) as int],
{
    assert(section_accents()[0] == Accent::Coral);
    assert(section_accents()[1] == Accent::Teal);
    assert(section_accents()[2] == Accent::Blue);
    assert(section_accents()[3] == Accent::Purple);
    assert((row + i) % 4 != (row + j) % 4);
}

} // verus!
