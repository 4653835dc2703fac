//! How much of the data derived from an origin's sheets is still usable, and
//! how much work a single sheet needs when that data is rebuilt.

use core::cmp::Ordering;
use vstd::prelude::*;
use vstd::std_specs::cmp::PartialOrdSpecImpl;

verus! {

/// The validity of the data derived from the sheets of one origin.
///
/// The three levels are ordered: `Valid < CascadeInvalid < FullyInvalid`.
#[derive(Clone, Copy, Debug, PartialEq, Eq, Structural, Ord)]
pub enum DataValidity {
    /// All the data already there is valid, though there may be new sheets
    /// at the end.
    Valid,
    /// The cascade data is invalid, but the invalidation data, which does not
    /// depend on the order of the sheets, is not.
    CascadeInvalid,
    /// Everything needs to be rebuilt.
    FullyInvalid,
}

impl DataValidity {
    /// The rank of a level in the order of the three.
    pub open spec fn level(self) -> nat {
        match self {
            DataValidity::Valid => 0,
            DataValidity::CascadeInvalid => 1,
            DataValidity::FullyInvalid => 2,
        }
    }

    /// The higher of the two levels.
    pub open spec fn join(self, other: DataValidity) -> DataValidity {
        if self.level() >= other.level() {
            self
        } else {
            other
        }
    }

    /// How the two levels compare.
    pub open spec fn compare(self, other: DataValidity) -> Ordering {
        if self.level() < other.level() {
            Ordering::Less
        } else if self.level() == other.level() {
            Ordering::Equal
        } else {
            Ordering::Greater
        }
    }

    fn rank(self) -> (r: u8)
        ensures
            r == self.level(),
    {
        match self {
            DataValidity::Valid => 0u8,
            DataValidity::CascadeInvalid => 1u8,
            DataValidity::FullyInvalid => 2u8,
        }
    }

    /// Returns the higher of the two levels.
    pub fn max(self, other: DataValidity) -> (r: DataValidity)
        ensures
            r == self.join(other),
    {
        if self.rank() >= other.rank() {
            self
        } else {
            other
        }
    }
}

impl PartialOrd for DataValidity {
    fn partial_cmp(&self, other: &DataValidity) -> (r: Option<Ordering>) {
        let a: u8 = self.rank();
        let b: u8 = other.rank();
        if a < b {
            Some(Ordering::Less)
        } else if a == b {
            Some(Ordering::Equal)
        } else {
            Some(Ordering::Greater)
        }
    }
}

impl PartialOrdSpecImpl for DataValidity {
    open spec fn obeys_partial_cmp_spec() -> bool {
        true
    }

    open spec fn partial_cmp_spec(&self, other: &DataValidity) -> Option<Ordering> {
        Some(self.compare(*other))
    }
}

impl Default for DataValidity {
    fn default() -> (r: DataValidity)
        ensures
            r == DataValidity::Valid,
    {
        DataValidity::Valid
    }
}

/// The kind of rebuild that a given stylesheet needs.
#[derive(Clone, Copy, Debug, PartialEq, Eq, Structural)]
pub enum SheetRebuildKind {
    /// A full rebuild, of both cascade data and invalidation data.
    Full,
    /// A partial rebuild, of the cascade data only.
    CascadeOnly,
}

impl SheetRebuildKind {
    /// Whether the invalidation data of the stylesheet should be rebuilt.
    pub fn should_rebuild_invalidation(&self) -> (b: bool)
        ensures
            b == (*self == SheetRebuildKind::Full),
    {
        match *self {
            SheetRebuildKind::Full => true,
            SheetRebuildKind::CascadeOnly => false,
        }
    }
}

/// The rebuild that an entry needs at a flush, if any: `committed` says
/// whether the entry was part of an earlier flush, `validity` is the level
/// that its origin had when the flush began.
pub open spec fn rebuild_kind_for(committed: bool, validity: DataValidity) -> Option<
    SheetRebuildKind,
> {
    if !committed {
        Some(SheetRebuildKind::Full)
    } else {
        match validity {
            DataValidity::Valid => None,
            DataValidity::CascadeInvalid => Some(SheetRebuildKind::CascadeOnly),
            DataValidity::FullyInvalid => Some(SheetRebuildKind::Full),
        }
    }
}

} // verus!
