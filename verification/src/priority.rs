use vstd::prelude::*;

verus! {

/// One of the three ordered task priorities. `Normal` is the lowest tier and
/// `Critical` the highest; rows are persisted with the integer tag that
/// [`Priority::tag`] gives.
#[derive(Clone, Copy, Debug, PartialEq, Eq, Structural)]
pub enum Priority {
    Normal,
    Important,
    Critical,
}

impl Priority {
    /// The integer tag under which this priority is persisted: 0, 1 or 2.
    pub open spec fn tag(self) -> int {
        match self {
            Priority::Normal => 0,
            Priority::Important => 1,
            Priority::Critical => 2,
        }
    }

    /// Position of this priority's bucket in a non-chronological listing:
    /// Critical entries come first, Normal entries last.
    pub open spec fn bucket(self) -> int {
        match self {
            Priority::Critical => 0,
            Priority::Important => 1,
            Priority::Normal => 2,
        }
    }

    /// The upper-case name under which this priority is displayed.
    pub open spec fn display_name(self) -> Seq<char> {
        match self {
            Priority::Normal => "NORMAL"@,
            Priority::Important => "IMPORTANT"@,
            Priority::Critical => "CRITICAL"@,
        }
    }

    /// The integer tag to store for this priority.
    pub fn to_i64(self) -> (r: i64)
        ensures
            r == self.tag(),
    {
        match self {
            Priority::Normal => 0,
            Priority::Important => 1,
            Priority::Critical => 2,
        }
    }

    /// Decodes a stored integer tag. Tags 0, 1 and 2 map to the three
    /// priorities; any other stored value is a data-corruption condition and
    /// is rejected.
    pub fn from_i64(i: i64) -> (r: Result<Self, ()>)
        ensures
            0 <= i <= 2 ==> (r matches Ok(p) && p.tag() == i),
            !(0 <= i <= 2) ==> r is Err,
    {
        match i {
            0 => Ok(Priority::Normal),
            1 => Ok(Priority::Important),
            2 => Ok(Priority::Critical),
            _ => Err(()),
        }
    }

    /// The upper-case display name of this priority.
    pub fn to_string(&self) -> (r: String)
        ensures
            r@ == self.display_name(),
    {
        match self {
            Priority::Normal => "NORMAL".to_owned(),
            Priority::Important => "IMPORTANT".to_owned(),
            Priority::Critical => "CRITICAL".to_owned(),
        }
    }
}

} // verus!
