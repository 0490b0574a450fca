//! The internal constraint list: the user's own constraints, then the
//! synthetic non-negativity restrictions that are enabled.

use vstd::prelude::*;

verus! {

/// Where an entry of the internal constraint list comes from.
#[derive(Debug, Clone, Copy, PartialEq, Eq, Structural)]
pub enum ConstraintSource {
    /// The user's constraint at this index.
    User(usize),
    /// The synthetic restriction `x >= 0`.
    XNonneg,
    /// The synthetic restriction `y >= 0`.
    YNonneg,
}

/// The layout of the full constraint list: the user's constraints in their
/// order, then `x >= 0` if that restriction is enabled, then `y >= 0` if that
/// one is.
pub open spec fn constraint_layout(user_count: nat, restrict_x_nonneg: bool, restrict_y_nonneg: bool) -> Seq<ConstraintSource> {
    Seq::new(user_count, |k: int| ConstraintSource::User(k as usize))
        + (if restrict_x_nonneg { seq![ConstraintSource::XNonneg] } else { Seq::empty() })
        + (if restrict_y_nonneg { seq![ConstraintSource::YNonneg] } else { Seq::empty() })
}

/// Build the full constraint list used internally, as a list of sources: the
/// user's own constraints, plus synthetic `x >= 0` / `y >= 0` constraints if
/// those restrictions are enabled.  Every later index into the constraint list
/// (a violated constraint, an active constraint) refers to this list.
pub fn build_constraint_list(user_count: usize, restrict_x_nonneg: bool, restrict_y_nonneg: bool) -> (all: Vec<ConstraintSource>)
    ensures
        all@ == constraint_layout(user_count as nat, restrict_x_nonneg, restrict_y_nonneg),
{
    let mut all: Vec<ConstraintSource> = Vec::new();
    for i in 0..user_count
        invariant
            all@ == Seq::new(i as nat, |k: int| ConstraintSource::User(k as usize)),
    {
        all.push(ConstraintSource::User(i));
    }
    if restrict_x_nonneg {
        all.push(ConstraintSource::XNonneg);
    }
    if restrict_y_nonneg {
        all.push(ConstraintSource::YNonneg);
    }
    all
}

} // verus!
