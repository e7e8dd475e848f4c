use vstd::prelude::*;

verus! {

/// How the report is rendered.
#[derive(PartialEq, Eq, Structural, Clone, Copy, Debug)]
pub enum OutputMode {
    Table,
}

} // verus!
