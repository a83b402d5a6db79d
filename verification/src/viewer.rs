use vstd::prelude::*;

verus! {

/// Whether a viewer search looks for lines that match or for lines that do not.
#[derive(Clone, Copy, Debug, Eq, PartialEq, Structural)]
pub enum SearchMode {
    Matching,
    NonMatching,
}

/// Which way a viewer search runs through the file.
#[derive(Clone, Copy, Debug, Eq, PartialEq, Structural)]
pub enum SearchDirection {
    Forward,
    Reverse,
}

/// How a repeated search runs relative to the search it repeats.
#[derive(Clone, Copy, Debug, Eq, PartialEq, Structural)]
pub enum RepeatDirection {
    Same,
    Opposite,
}

} // verus!
