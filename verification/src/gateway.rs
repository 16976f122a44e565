//! The persisted gateway state and its caller-facing operations.

use vstd::prelude::*;

verus! {

/// Why an operation was refused. Authorization is binary: every failure
/// aborts the operation before any state change or outbound call.
#[derive(Clone, Copy, Debug, PartialEq, Eq, Structural)]
pub enum AuthError {
    /// The persistent slot already holds a gateway.
    AlreadyInitialized,
    /// An administrative operation was attempted by someone other than the owner.
    NotOwner,
    /// A mint request came from an account outside the minter set.
    NotMinter,
}

/// The membership of a list of account names: the set of their values,
/// order and multiplicity forgotten.
pub open spec fn list_members(l: Seq<String>) -> Set<Seq<char>> {
    Set::new(|a: Seq<char>| l.map_values(|s: String| s@).contains(a))
}

/// The one persisted record: the owner, the endpoint of the external
/// token-issuing contract, and the set of authorized minters.
///
/// The minter set is stored as a duplicate-free list; its abstract value is
/// the set of account names, so contracts never depend on storage order.
pub struct Contract {
    owner: String,
    nft_contract_id: String,
    minters: Vec<String>,
}

impl Contract {
    /// The owner's account name. Fixed at construction; no operation changes it.
    pub closed spec fn spec_owner(&self) -> Seq<char> {
        self.owner@
    }

    /// The account name of the external token-issuing contract.
    pub closed spec fn spec_nft_contract(&self) -> Seq<char> {
        self.nft_contract_id@
    }

    /// The stored minter list, element by element.
    pub closed spec fn minter_list(&self) -> Seq<Seq<char>> {
        self.minters@.map_values(|s: String| s@)
    }

    /// The minter set: the abstract, unordered value of the stored list.
    pub open spec fn spec_minters(&self) -> Set<Seq<char>> {
        Set::new(|a: Seq<char>| self.minter_list().contains(a))
    }

    /// The stored minter list holds no duplicates, so removing one entry
    /// removes an account entirely.
    pub open spec fn wf(&self) -> bool {
        forall|i: int, j: int|
            0 <= i < j < self.minter_list().len() ==> self.minter_list()[i] != self.minter_list()[j]
    }

    /// Constructs the gateway: the constructing caller becomes the owner and
    /// the sole initial minter.
    pub fn new(caller: String, nft_contract_id: String) -> (c: Contract)
        ensures
            c.wf(),
            c.spec_owner() == caller@,
            c.spec_nft_contract() == nft_contract_id@,
            c.spec_minters() == Set::empty().insert(caller@),
    {
        let ghost caller_view = caller@;
        let owner = caller.clone();
        let mut minters: Vec<String> = Vec::new();
        minters.push(caller);
        let c = Contract { owner, nft_contract_id, minters };
        proof {
            assert(c.minter_list() =~= seq![caller_view]);
            assert(c.minter_list().contains(caller_view)) by {
                assert(c.minter_list()[0] == caller_view);
            }
            assert(c.spec_minters() =~= Set::empty().insert(caller_view));
        }
        c
    }

    /// Where `candidate` sits in the stored minter list, if anywhere.
    fn find_minter(&self, candidate: &String) -> (r: Option<usize>)
        ensures
            match r {
                Some(i) => i < self.minter_list().len()
                    && self.minter_list()[i as int] == candidate@,
                None => !self.spec_minters().contains(candidate@),
            },
    {
        let mut i: usize = 0;
        while i < self.minters.len()
            invariant
                i <= self.minters.len(),
                forall|j: int| 0 <= j < i ==> self.minter_list()[j] != candidate@,
            decreases self.minters.len() - i,
        {
            if self.minters[i] == *candidate {
                assert(self.minter_list()[i as int] == candidate@);
                return Some(i);
            }
            i += 1;
        }
        None
    }

    /// Whether `candidate` is currently an authorized minter. A pure query:
    /// anyone may ask, nothing changes.
    pub fn is_minter(&self, candidate: &String) -> (r: bool)
        ensures
            r == self.spec_minters().contains(candidate@),
    {
        match self.find_minter(candidate) {
            Some(i) => {
                assert(self.minter_list().contains(candidate@)) by {
                    assert(self.minter_list()[i as int] == candidate@);
                }
                true
            },
            None => false,
        }
    }

    /// Puts `minter` into the set if it is absent; the well-formedness of
    /// the stored list survives either way.
    fn insert_minter(&mut self, minter: String)
        requires
            old(self).wf(),
        ensures
            final(self).wf(),
            final(self).spec_owner() == old(self).spec_owner(),
            final(self).spec_nft_contract() == old(self).spec_nft_contract(),
            final(self).spec_minters() == old(self).spec_minters().insert(minter@),
    {
        let ghost list_before = self.minter_list();
        match self.find_minter(&minter) {
            Some(i) => {
                proof {
                    assert(self.minter_list().contains(minter@)) by {
                        assert(self.minter_list()[i as int] == minter@);
                    }
                    assert(self.spec_minters().insert(minter@) =~= self.spec_minters());
                }
            },
            None => {
                let ghost minter_view = minter@;
                self.minters.push(minter);
                proof {
                    assert(self.minter_list() =~= list_before.push(minter_view));
                    lemma_push_contains(list_before, minter_view);
                    assert(self.spec_minters() =~= old(self).spec_minters().insert(minter_view));
                    assert forall|p: int, q: int|
                        0 <= p < q < self.minter_list().len() implies self.minter_list()[p]
                        != self.minter_list()[q] by {
                        if q == list_before.len() {
                            assert(!list_before.contains(minter_view));
                            assert(list_before[p] != minter_view);
                        }
                    }
                }
            },
        }
    }

    /// Adds `minter` to the minter set. Owner-gated: any other caller is
    /// refused with `NotOwner` and nothing changes. Adding a present member
    /// is a harmless no-op on the set.
    pub fn add_minter(&mut self, caller: &String, minter: String) -> (r: Result<(), AuthError>)
        requires
            old(self).wf(),
        ensures
            final(self).wf(),
            final(self).spec_owner() == old(self).spec_owner(),
            final(self).spec_nft_contract() == old(self).spec_nft_contract(),
            match r {
                Ok(()) => caller@ == old(self).spec_owner()
                    && final(self).spec_minters() == old(self).spec_minters().insert(minter@),
                Err(e) => e == AuthError::NotOwner
                    && caller@ != old(self).spec_owner()
                    && *final(self) == *old(self),
            },
    {
        if self.owner != *caller {
            return Err(AuthError::NotOwner);
        }
        self.insert_minter(minter);
        Ok(())
    }

    /// Removes `minter` from the minter set. Owner-gated: any other
    /// caller is refused with `NotOwner` and nothing changes. Removing an
    /// absent member is a harmless no-op; nothing stops the owner from
    /// removing the last minter, or itself.
    pub fn remove_minter(&mut self, caller: &String, minter: String) -> (r: Result<(), AuthError>)
        requires
            old(self).wf(),
        ensures
            final(self).wf(),
            final(self).spec_owner() == old(self).spec_owner(),
            final(self).spec_nft_contract() == old(self).spec_nft_contract(),
            match r {
                Ok(()) => caller@ == old(self).spec_owner()
                    && final(self).spec_minters() == old(self).spec_minters().remove(minter@),
                Err(e) => e == AuthError::NotOwner
                    && caller@ != old(self).spec_owner()
                    && *final(self) == *old(self),
            },
    {
        if self.owner != *caller {
            return Err(AuthError::NotOwner);
        }
        let ghost list_before = self.minter_list();
        match self.find_minter(&minter) {
            Some(i) => {
                self.minters.remove(i);
                proof {
                    assert(self.minter_list() =~= list_before.remove(i as int)) by {
                        list_before.remove_ensures(i as int);
                        old(self).minters@.remove_ensures(i as int);
                    }
                    lemma_remove_unique(list_before, i as int);
                    assert(self.spec_minters() =~= old(self).spec_minters().remove(minter@));
                }
            },
            None => {
                proof {
                    assert(self.spec_minters().remove(minter@) =~= self.spec_minters());
                }
            },
        }
        Ok(())
    }
}

impl Contract {
    /// Rebuilds the gateway from its persisted parts, as when the hosting
    /// runtime loads the record back from storage. Duplicates in the given
    /// list are dropped, so the result is well-formed whatever arrives; its
    /// minter set is exactly the membership of the list.
    pub fn from_parts(
        owner: String,
        nft_contract_id: String,
        minters: Vec<String>,
    ) -> (c: Contract)
        ensures
            c.wf(),
            c.spec_owner() == owner@,
            c.spec_nft_contract() == nft_contract_id@,
            c.spec_minters() == list_members(minters@),
    {
        let mut c = Contract { owner, nft_contract_id, minters: Vec::new() };
        proof {
            assert(c.minter_list() =~= Seq::<Seq<char>>::empty());
            assert(c.spec_minters() =~= list_members(minters@.take(0)));
        }
        let mut i: usize = 0;
        while i < minters.len()
            invariant
                c.wf(),
                c.spec_owner() == owner@,
                c.spec_nft_contract() == nft_contract_id@,
                i <= minters.len(),
                c.spec_minters() == list_members(minters@.take(i as int)),
            decreases minters.len() - i,
        {
            let ghost taken = minters@.take(i as int).map_values(|s: String| s@);
            let ghost v = minters@[i as int]@;
            c.insert_minter(minters[i].clone());
            proof {
                assert(minters@.take(i + 1).map_values(|s: String| s@) =~= taken.push(v));
                lemma_push_contains(taken, v);
                assert(c.spec_minters() =~= list_members(minters@.take(i + 1)));
            }
            i += 1;
        }
        proof {
            assert(minters@.take(minters@.len() as int) =~= minters@);
            assert(c.spec_minters() =~= list_members(minters@));
        }
        c
    }

    /// The owner's account name, for the runtime layer to persist.
    pub fn owner(&self) -> (r: &String)
        ensures
            r@ == self.spec_owner(),
    {
        &self.owner
    }

    /// The service endpoint's account name, for the runtime layer to persist.
    pub fn nft_contract_id(&self) -> (r: &String)
        ensures
            r@ == self.spec_nft_contract(),
    {
        &self.nft_contract_id
    }

    /// The stored minter list, duplicate-free, in storage order, for the
    /// runtime layer to persist.
    pub fn minters(&self) -> (r: &Vec<String>)
        ensures
            r@.map_values(|s: String| s@) == self.minter_list(),
            list_members(r@) == self.spec_minters(),
    {
        proof {
            assert(list_members(self.minters@) =~= self.spec_minters());
        }
        &self.minters
    }
}

/// One outbound mint call, ready for dispatch: the single decision
/// `nft_mint` hands back on success. The runtime layer that issues the call
/// owns its eventual outcome; the gateway never sees it.
///
/// The metadata travels through untouched, so its type is free.
pub struct MintCommand<M> {
    /// The account the call goes to: always the configured service endpoint.
    pub receiver_id: String,
    /// The identifier the new token is to carry.
    pub token_id: String,
    /// The account that is to own the new token.
    pub token_owner_id: String,
    /// The token's descriptive record, forwarded opaquely.
    pub token_metadata: M,
    /// The caller's attached value, forwarded in full: the gateway takes no cut.
    pub attached_deposit: u128,
    /// The compute budget granted to the call: half the caller's remaining
    /// budget, rounded down. The other half stays behind for the current
    /// execution to finish on; a rounding remainder is simply unused.
    pub gas_budget: u64,
}

impl Contract {
    /// Authorizes and assembles one mint call. Minter-gated: a caller
    /// outside the minter set is refused with `NotMinter` before anything
    /// is committed, and no command — so no outbound call — exists.
    ///
    /// On success the returned command carries the request unchanged to the
    /// configured endpoint, attributes the caller's whole attached value to
    /// it, and grants it exactly half the caller's remaining compute
    /// budget, rounded down.
    pub fn nft_mint<M>(
        &self,
        caller: &String,
        token_id: String,
        token_owner_id: String,
        token_metadata: M,
        attached_deposit: u128,
        prepaid_gas: u64,
    ) -> (r: Result<MintCommand<M>, AuthError>)
        ensures
            match r {
                Ok(cmd) => self.spec_minters().contains(caller@)
                    && cmd.receiver_id@ == self.spec_nft_contract()
                    && cmd.token_id@ == token_id@
                    && cmd.token_owner_id@ == token_owner_id@
                    && cmd.token_metadata == token_metadata
                    && cmd.attached_deposit == attached_deposit
                    && cmd.gas_budget == prepaid_gas / 2,
                Err(e) => e == AuthError::NotMinter && !self.spec_minters().contains(caller@),
            },
    {
        if !self.is_minter(caller) {
            return Err(AuthError::NotMinter);
        }
        Ok(MintCommand {
            receiver_id: self.nft_contract_id.clone(),
            token_id,
            token_owner_id,
            token_metadata,
            attached_deposit,
            gas_budget: prepaid_gas / 2,
        })
    }
}

/// Constructs the gateway in the persistent slot, exactly once: the first
/// caller becomes the owner and the sole initial minter. A second call
/// finds the slot occupied, is refused with `AlreadyInitialized`, and
/// changes nothing. No other operation exists before the slot is filled.
pub fn initialize(
    slot: &mut Option<Contract>,
    caller: String,
    nft_contract_id: String,
) -> (r: Result<(), AuthError>)
    ensures
        match r {
            Ok(()) => *old(slot) is None && match *final(slot) {
                Some(c) => c.wf() && c.spec_owner() == caller@ && c.spec_nft_contract()
                    == nft_contract_id@ && c.spec_minters() == Set::empty().insert(caller@),
                None => false,
            },
            Err(e) => e == AuthError::AlreadyInitialized && *old(slot) is Some && *final(slot)
                == *old(slot),
        },
{
    if slot.is_some() {
        return Err(AuthError::AlreadyInitialized);
    }
    *slot = Some(Contract::new(caller, nft_contract_id));
    Ok(())
}

/// Pushing an element onto a list makes its membership the old membership
/// plus that element.
proof fn lemma_push_contains(l: Seq<Seq<char>>, x: Seq<char>)
    ensures
        forall|a: Seq<char>| #[trigger] l.push(x).contains(a) <==> (l.contains(a) || a == x),
{
    assert forall|a: Seq<char>| #[trigger] l.push(x).contains(a) implies (l.contains(a) || a
        == x) by {
        let j = choose|j: int| 0 <= j < l.push(x).len() && l.push(x)[j] == a;
        if j < l.len() {
            assert(l[j] == a);
        }
    }
    assert forall|a: Seq<char>| (l.contains(a) || a == x) implies #[trigger] l.push(
        x,
    ).contains(a) by {
        if l.contains(a) {
            let j = choose|j: int| 0 <= j < l.len() && l[j] == a;
            assert(l.push(x)[j] == a);
        } else {
            assert(l.push(x)[l.len() as int] == a);
        }
    }
}

/// Removing position `i` from a duplicate-free list removes exactly the
/// element stored there, and keeps the list duplicate-free.
proof fn lemma_remove_unique(l: Seq<Seq<char>>, i: int)
    requires
        0 <= i < l.len(),
        forall|p: int, q: int| 0 <= p < q < l.len() ==> l[p] != l[q],
    ensures
        forall|a: Seq<char>| #[trigger] l.remove(i).contains(a) <==> (l.contains(a) && a != l[i]),
        forall|p: int, q: int|
            0 <= p < q < l.remove(i).len() ==> l.remove(i)[p] != l.remove(i)[q],
{
    l.remove_ensures(i);
    let r = l.remove(i);
    assert forall|a: Seq<char>| #[trigger] r.contains(a) implies (l.contains(a) && a != l[i]) by {
        let j = choose|j: int| 0 <= j < r.len() && r[j] == a;
        if j < i {
            assert(l[j] == a);
        } else {
            assert(l[j + 1] == a);
        }
    }
    assert forall|a: Seq<char>| (l.contains(a) && a != l[i]) implies #[trigger] r.contains(a) by {
        let j = choose|j: int| 0 <= j < l.len() && l[j] == a;
        if j < i {
            assert(r[j] == a);
        } else {
            assert(r[j - 1] == a);
        }
    }
    assert forall|p: int, q: int| 0 <= p < q < r.len() implies r[p] != r[q] by {
        let p_src: int = if p < i { p } else { p + 1 };
        let q_src: int = if q < i { q } else { q + 1 };
        assert(r[p] == l[p_src]);
        assert(r[q] == l[q_src]);
        assert(l[p_src] != l[q_src]);
    }
}

} // verus!
