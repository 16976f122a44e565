//! Laws relating successive gateway operations, stated over the abstract
//! minter set that the operations' own contracts speak of.

use vstd::prelude::*;
use crate::gateway::Contract;

verus! {

/// A grant is visible and idempotent. When an owner's `add_minter` of `x`
/// turns `before` into `after` — its contract says the minter set gained
/// exactly `x` — then `is_minter(x)` on `after` answers true, and granting
/// `x` again leaves the minter set, and so its size, unchanged.
pub proof fn lemma_add_minter_effective(before: Contract, after: Contract, x: Seq<char>)
    requires
        after.spec_minters() == before.spec_minters().insert(x),
    ensures
        after.spec_minters().contains(x),
        after.spec_minters().insert(x) == after.spec_minters(),
{
    assert(after.spec_minters().insert(x) =~= after.spec_minters());
}

/// A revocation is visible and harmless when vacuous. When an owner's
/// `remove_minter` of `x` turns `before` into `after` — its contract says
/// the minter set lost exactly `x` — then `is_minter(x)` on `after`
/// answers false, and if `x` was absent to begin with the minter set, and
/// so its size, is unchanged.
pub proof fn lemma_remove_minter_effective(before: Contract, after: Contract, x: Seq<char>)
    requires
        after.spec_minters() == before.spec_minters().remove(x),
    ensures
        !after.spec_minters().contains(x),
        !before.spec_minters().contains(x) ==> after.spec_minters() == before.spec_minters(),
{
    if !before.spec_minters().contains(x) {
        assert(before.spec_minters().remove(x) =~= before.spec_minters());
    }
}

} // verus!

