//! The counter service: it owns the counters, links each to a whitelist whose
//! controller capability it takes for itself, and gates every increment on a
//! live membership check against the linked list.

use vstd::prelude::*;
use vstd::pervasive::unreached;

use crate::addr::{address_eq, pda_of, try_find_pda, Address, COUNTER_NAMESPACE};
use crate::errors::CounterError;
use crate::table::{
    assoc_find, assoc_map, assoc_set, keys_distinct, lemma_assoc_absent, lemma_assoc_at,
    lemma_assoc_push, lemma_assoc_update,
};
use crate::whitelist::{
    add_wallet_t, check_wallet_t, create_whitelist_t, remove_wallet_t, set_authority_t,
    WhitelistService, WhitelistV,
};

verus! {

/// A counter record: its owner, the whitelist it is linked to (none until a
/// link succeeds), its count, and the bump byte its own address was derived
/// with, kept so the derivation can be recomputed without search.
#[derive(Clone, Copy, Debug)]
pub struct Counter {
    pub authority: Address,
    pub whitelist: Option<Address>,
    pub count: u64,
    pub bump: u8,
}

/// Mathematical image of a `Counter`.
#[verifier::ext_equal]
pub struct CounterV {
    pub authority: Seq<u8>,
    pub whitelist: Option<Seq<u8>>,
    pub count: u64,
    pub bump: u8,
}

impl View for Counter {
    type V = CounterV;

    open spec fn view(&self) -> CounterV {
        CounterV {
            authority: self.authority@,
            whitelist: match self.whitelist {
                Some(w) => Some(w@),
                None => None,
            },
            count: self.count,
            bump: self.bump,
        }
    }
}

/// Mathematical image of the whole service: every counter by its derived id.
#[verifier::ext_equal]
pub struct CounterStateV {
    pub program_id: Seq<u8>,
    pub counters: Map<Seq<u8>, CounterV>,
}

/// A counter's `Ok` payload is its derived address; the transition functions
/// speak of its view.
pub open spec fn result_view(r: Result<Address, CounterError>) -> Result<Seq<u8>, CounterError> {
    match r {
        Ok(a) => Ok(a@),
        Err(e) => Err(e),
    }
}

/// What `create_counter` does to the state, and what it returns: the new
/// counter lives at the address derived from the owner under the `counter`
/// namespace, and the supplied bump must match that derivation.
pub open spec fn create_counter_t(s: CounterStateV, owner: Seq<u8>, bump: u8) -> (
    CounterStateV,
    Result<Seq<u8>, CounterError>,
) {
    match pda_of(COUNTER_NAMESPACE@, owner, s.program_id) {
        None => (s, Err(CounterError::AddressDerivationMismatch)),
        Some(p) => {
            if bump != p.1 {
                (s, Err(CounterError::AddressDerivationMismatch))
            } else if s.counters.dom().contains(p.0) {
                (s, Err(CounterError::RecordExists))
            } else {
                (
                    CounterStateV {
                        counters: s.counters.insert(
                            p.0,
                            CounterV { authority: owner, whitelist: None, count: 0, bump },
                        ),
                        ..s
                    },
                    Ok(p.0),
                )
            }
        },
    }
}

/// What `create_counter_whitelist` does: as one atomic unit it creates a fresh
/// whitelist owned by the caller, hands its controller capability to the
/// counter itself, and records the link. On any failure nothing changes.
pub open spec fn create_counter_whitelist_t(
    cs: CounterStateV,
    wl: WhitelistV,
    counter_id: Seq<u8>,
    authority: Seq<u8>,
    whitelist_account: Seq<u8>,
) -> (CounterStateV, WhitelistV, Result<(), CounterError>) {
    let c = cs.counters[counter_id];
    if authority != c.authority {
        (cs, wl, Err(CounterError::AuthorityMismatch))
    } else if c.whitelist is Some {
        (cs, wl, Err(CounterError::AlreadyLinked))
    } else {
        let (wl1, r1) = create_whitelist_t(wl, whitelist_account, authority);
        match r1 {
            Err(e) => (cs, wl, Err(e)),
            Ok(()) => {
                let (wl2, _) = set_authority_t(wl1, whitelist_account, authority, counter_id);
                (
                    CounterStateV {
                        counters: cs.counters.insert(
                            counter_id,
                            CounterV { whitelist: Some(whitelist_account), ..c },
                        ),
                        ..cs
                    },
                    wl2,
                    Ok(()),
                )
            },
        }
    }
}

/// What `reset_whitelist` does: clear the link. The orphaned whitelist itself
/// is not touched; it stays live under the capability it was delegated to.
pub open spec fn reset_whitelist_t(cs: CounterStateV, counter_id: Seq<u8>, authority: Seq<u8>) -> (
    CounterStateV,
    Result<(), CounterError>,
) {
    let c = cs.counters[counter_id];
    if authority != c.authority {
        (cs, Err(CounterError::AuthorityMismatch))
    } else if c.whitelist is None {
        (cs, Err(CounterError::NotInitialized))
    } else {
        (
            CounterStateV {
                counters: cs.counters.insert(counter_id, CounterV { whitelist: None, ..c }),
                ..cs
            },
            Ok(()),
        )
    }
}

/// What `update_counter` does: a gated increment. The count grows by one
/// exactly when the counter is linked and the calling wallet is a member of
/// the linked list; otherwise nothing changes.
pub open spec fn update_counter_t(
    cs: CounterStateV,
    wl: WhitelistV,
    counter_id: Seq<u8>,
    user_wallet: Seq<u8>,
    authority: Seq<u8>,
) -> (CounterStateV, Result<(), CounterError>) {
    let c = cs.counters[counter_id];
    if authority != c.authority {
        (cs, Err(CounterError::AuthorityMismatch))
    } else {
        match c.whitelist {
            None => (cs, Err(CounterError::NotInitialized)),
            Some(w) => {
                if check_wallet_t(wl, w, user_wallet) is Err {
                    (cs, Err(CounterError::NotAMember))
                } else if c.count == u64::MAX {
                    (cs, Err(CounterError::CounterOverflow))
                } else {
                    (
                        CounterStateV {
                            counters: cs.counters.insert(
                                counter_id,
                                CounterV { count: (c.count + 1) as u64, ..c },
                            ),
                            ..cs
                        },
                        Ok(()),
                    )
                }
            },
        }
    }
}

/// What `grant_access` does to the whitelist state: the counter forwards an
/// add, signing as its own derived capability. The counter state never moves.
pub open spec fn grant_access_t(
    cs: CounterStateV,
    wl: WhitelistV,
    counter_id: Seq<u8>,
    authority: Seq<u8>,
    wallet_address: Seq<u8>,
) -> (WhitelistV, Result<(), CounterError>) {
    let c = cs.counters[counter_id];
    if authority != c.authority {
        (wl, Err(CounterError::AuthorityMismatch))
    } else {
        match c.whitelist {
            None => (wl, Err(CounterError::NotInitialized)),
            Some(w) => add_wallet_t(wl, w, counter_id, wallet_address),
        }
    }
}

/// What `retract_access` does to the whitelist state: the forwarded removal,
/// signed by the counter's own derived capability.
pub open spec fn retract_access_t(
    cs: CounterStateV,
    wl: WhitelistV,
    counter_id: Seq<u8>,
    authority: Seq<u8>,
    wallet_address: Seq<u8>,
) -> (WhitelistV, Result<(), CounterError>) {
    let c = cs.counters[counter_id];
    if authority != c.authority {
        (wl, Err(CounterError::AuthorityMismatch))
    } else {
        match c.whitelist {
            None => (wl, Err(CounterError::NotInitialized)),
            Some(w) => remove_wallet_t(wl, w, counter_id, wallet_address),
        }
    }
}

/// The counter service's state: every counter record it owns.
pub struct CounterService {
    program_id: Address,
    counters: Vec<(Address, Counter)>,
}

impl View for CounterService {
    type V = CounterStateV;

    closed spec fn view(&self) -> CounterStateV {
        CounterStateV { program_id: self.program_id@, counters: assoc_map(self.counters@) }
    }
}

impl CounterService {
    /// Counter ids never collide.
    pub closed spec fn wf(self) -> bool {
        keys_distinct(self.counters@)
    }

    /// An empty service for the program deployed at `program_id`.
    pub fn new(program_id: Address) -> (s: CounterService)
        ensures
            s.wf(),
            s@.program_id == program_id@,
            s@.counters == Map::<Seq<u8>, CounterV>::empty(),
    {
        let s = CounterService { program_id, counters: Vec::new() };
        proof {
            assert(assoc_map(s.counters@) =~= Map::<Seq<u8>, CounterV>::empty());
        }
        s
    }

    /// The deterministic ledger address and bump of the counter owned by
    /// `owner`, namespaced by the `counter` tag.
    pub fn derive_counter_address(&self, owner: &Address) -> (r: Option<(Address, u8)>)
        ensures
            (r is Some <==> pda_of(COUNTER_NAMESPACE@, owner@, self@.program_id) is Some),
            (r matches Some(p) ==> {
                let q = pda_of(COUNTER_NAMESPACE@, owner@, self@.program_id)->Some_0;
                p.0@ == q.0 && p.1 == q.1
            }),
    {
        let tag = COUNTER_NAMESPACE;
        try_find_pda(tag.as_slice(), owner.as_bytes(), &self.program_id)
    }

    /// The counter stored under `counter_id`, if any.
    pub fn counter_record(&self, counter_id: &Address) -> (r: Option<Counter>)
        requires
            self.wf(),
        ensures
            (r matches Some(c) ==> self@.counters.dom().contains(counter_id@) && c@
                == self@.counters[counter_id@]),
            (r is None ==> !self@.counters.dom().contains(counter_id@)),
    {
        match assoc_find(&self.counters, counter_id) {
            Some(i) => {
                proof {
                    lemma_assoc_at(self.counters@, i as int);
                }
                Some(self.counters[i].1)
            },
            None => {
                proof {
                    lemma_assoc_absent(self.counters@, counter_id@);
                }
                None
            },
        }
    }

    /// Create the counter owned by `owner` at its derived address, count zero
    /// and no whitelist. The supplied bump must match the derivation, and at
    /// most one counter exists per owner.
    pub fn create_counter(&mut self, owner: &Address, bump: u8) -> (r: Result<
        Address,
        CounterError,
    >)
        requires
            old(self).wf(),
        ensures
            final(self).wf(),
            final(self)@ == create_counter_t(old(self)@, owner@, bump).0,
            result_view(r) == create_counter_t(old(self)@, owner@, bump).1,
    {
        let tag = COUNTER_NAMESPACE;
        match try_find_pda(tag.as_slice(), owner.as_bytes(), &self.program_id) {
            None => Err(CounterError::AddressDerivationMismatch),
            Some((addr, derived)) => {
                if bump != derived {
                    return Err(CounterError::AddressDerivationMismatch);
                }
                match assoc_find(&self.counters, &addr) {
                    Some(i) => {
                        proof {
                            lemma_assoc_at(self.counters@, i as int);
                        }
                        Err(CounterError::RecordExists)
                    },
                    None => {
                        let rec = Counter { authority: *owner, whitelist: None, count: 0, bump };
                        self.counters.push((addr, rec));
                        proof {
                            lemma_assoc_absent(old(self).counters@, addr@);
                            lemma_assoc_push(old(self).counters@, addr, rec);
                            assert(self@ =~= create_counter_t(old(self)@, owner@, bump).0);
                        }
                        Ok(addr)
                    },
                }
            },
        }
    }

    /// Link a fresh whitelist to the counter, as one atomic unit: create the
    /// list with the owner as its creator, immediately delegate its controller
    /// capability to the counter's own address, and record the link. Fails
    /// with `AlreadyLinked` while a link is live; on any failure neither
    /// service changes.
    pub fn create_counter_whitelist(
        &mut self,
        whitelist: &mut WhitelistService,
        counter_id: &Address,
        authority: &Address,
        whitelist_account: &Address,
    ) -> (r: Result<(), CounterError>)
        requires
            old(self).wf(),
            old(whitelist).wf(),
            old(self)@.counters.dom().contains(counter_id@),
        ensures
            final(self).wf(),
            final(whitelist).wf(),
            final(self)@ == create_counter_whitelist_t(
                old(self)@,
                old(whitelist)@,
                counter_id@,
                authority@,
                whitelist_account@,
            ).0,
            final(whitelist)@ == create_counter_whitelist_t(
                old(self)@,
                old(whitelist)@,
                counter_id@,
                authority@,
                whitelist_account@,
            ).1,
            r == create_counter_whitelist_t(
                old(self)@,
                old(whitelist)@,
                counter_id@,
                authority@,
                whitelist_account@,
            ).2,
    {
        let i = match assoc_find(&self.counters, counter_id) {
            Some(i) => i,
            None => {
                proof {
                    lemma_assoc_absent(self.counters@, counter_id@);
                }
                unreached()
            },
        };
        proof {
            lemma_assoc_at(self.counters@, i as int);
        }
        let key = self.counters[i].0;
        let c = self.counters[i].1;
        if !address_eq(authority, &c.authority) {
            return Err(CounterError::AuthorityMismatch);
        }
        if c.whitelist.is_some() {
            return Err(CounterError::AlreadyLinked);
        }
        match whitelist.create_whitelist(whitelist_account, authority) {
            Err(e) => Err(e),
            Ok(()) => {
                match whitelist.set_authority(whitelist_account, authority, counter_id) {
                    Err(_) => unreached(),
                    Ok(()) => {
                        let updated = Counter {
                            authority: c.authority,
                            whitelist: Some(*whitelist_account),
                            count: c.count,
                            bump: c.bump,
                        };
                        assoc_set(&mut self.counters, i, (key, updated));
                        proof {
                            lemma_assoc_update(old(self).counters@, i as int, updated);
                            assert(self@ =~= create_counter_whitelist_t(
                                old(self)@,
                                old(whitelist)@,
                                counter_id@,
                                authority@,
                                whitelist_account@,
                            ).0);
                        }
                        Ok(())
                    },
                }
            },
        }
    }

    /// Clear the counter's link. The orphaned whitelist and its memberships
    /// stay live under the capability they were delegated to.
    pub fn reset_whitelist(&mut self, counter_id: &Address, authority: &Address) -> (r: Result<
        (),
        CounterError,
    >)
        requires
            old(self).wf(),
            old(self)@.counters.dom().contains(counter_id@),
        ensures
            final(self).wf(),
            final(self)@ == reset_whitelist_t(old(self)@, counter_id@, authority@).0,
            r == reset_whitelist_t(old(self)@, counter_id@, authority@).1,
    {
        let i = match assoc_find(&self.counters, counter_id) {
            Some(i) => i,
            None => {
                proof {
                    lemma_assoc_absent(self.counters@, counter_id@);
                }
                unreached()
            },
        };
        proof {
            lemma_assoc_at(self.counters@, i as int);
        }
        let key = self.counters[i].0;
        let c = self.counters[i].1;
        if !address_eq(authority, &c.authority) {
            return Err(CounterError::AuthorityMismatch);
        }
        if c.whitelist.is_none() {
            return Err(CounterError::NotInitialized);
        }
        let updated = Counter { authority: c.authority, whitelist: None, count: c.count, bump: c.bump };
        assoc_set(&mut self.counters, i, (key, updated));
        proof {
            lemma_assoc_update(old(self).counters@, i as int, updated);
            assert(self@ =~= reset_whitelist_t(old(self)@, counter_id@, authority@).0);
        }
        Ok(())
    }

    /// The gated increment: succeeds, adding exactly one, iff the caller's
    /// wallet is a member of the linked whitelist; fails `NotInitialized`
    /// while no whitelist is linked, and never moves the count on failure.
    pub fn update_counter(
        &mut self,
        whitelist: &WhitelistService,
        counter_id: &Address,
        user_wallet: &Address,
        authority: &Address,
    ) -> (r: Result<(), CounterError>)
        requires
            old(self).wf(),
            old(self)@.counters.dom().contains(counter_id@),
        ensures
            final(self).wf(),
            final(self)@ == update_counter_t(
                old(self)@,
                whitelist@,
                counter_id@,
                user_wallet@,
                authority@,
            ).0,
            r == update_counter_t(old(self)@, whitelist@, counter_id@, user_wallet@, authority@).1,
    {
        let i = match assoc_find(&self.counters, counter_id) {
            Some(i) => i,
            None => {
                proof {
                    lemma_assoc_absent(self.counters@, counter_id@);
                }
                unreached()
            },
        };
        proof {
            lemma_assoc_at(self.counters@, i as int);
        }
        let key = self.counters[i].0;
        let c = self.counters[i].1;
        if !address_eq(authority, &c.authority) {
            return Err(CounterError::AuthorityMismatch);
        }
        let linked = match &c.whitelist {
            Some(w) => *w,
            None => {
                return Err(CounterError::NotInitialized);
            },
        };
        match whitelist.check_wallet(&linked, user_wallet) {
            Err(_) => Err(CounterError::NotAMember),
            Ok(()) => {
                if c.count == u64::MAX {
                    return Err(CounterError::CounterOverflow);
                }
                let updated = Counter {
                    authority: c.authority,
                    whitelist: c.whitelist,
                    count: c.count + 1,
                    bump: c.bump,
                };
                assoc_set(&mut self.counters, i, (key, updated));
                proof {
                    lemma_assoc_update(old(self).counters@, i as int, updated);
                    assert(self@ =~= update_counter_t(
                        old(self)@,
                        whitelist@,
                        counter_id@,
                        user_wallet@,
                        authority@,
                    ).0);
                }
                Ok(())
            },
        }
    }

    /// Forward an add-member to the linked whitelist, the counter signing as
    /// its own derived capability. Valid only while linked.
    pub fn grant_access(
        &self,
        whitelist: &mut WhitelistService,
        counter_id: &Address,
        authority: &Address,
        wallet_address: &Address,
    ) -> (r: Result<(), CounterError>)
        requires
            self.wf(),
            old(whitelist).wf(),
            self@.counters.dom().contains(counter_id@),
            (self@.counters[counter_id@].whitelist matches Some(w) ==> old(
                whitelist,
            )@.configs.dom().contains(w)),
        ensures
            final(whitelist).wf(),
            final(whitelist)@ == grant_access_t(
                self@,
                old(whitelist)@,
                counter_id@,
                authority@,
                wallet_address@,
            ).0,
            r == grant_access_t(self@, old(whitelist)@, counter_id@, authority@, wallet_address@).1,
    {
        let i = match assoc_find(&self.counters, counter_id) {
            Some(i) => i,
            None => {
                proof {
                    lemma_assoc_absent(self.counters@, counter_id@);
                }
                unreached()
            },
        };
        proof {
            lemma_assoc_at(self.counters@, i as int);
        }
        let c = self.counters[i].1;
        if !address_eq(authority, &c.authority) {
            return Err(CounterError::AuthorityMismatch);
        }
        let linked = match &c.whitelist {
            Some(w) => *w,
            None => {
                return Err(CounterError::NotInitialized);
            },
        };
        whitelist.add_wallet(&linked, counter_id, wallet_address)
    }

    /// Forward a remove-member to the linked whitelist, the counter signing as
    /// its own derived capability. Valid only while linked; the destroyed
    /// record's resources go to `refund_wallet`, a host-ledger concern.
    pub fn retract_access(
        &self,
        whitelist: &mut WhitelistService,
        counter_id: &Address,
        authority: &Address,
        wallet_address: &Address,
        refund_wallet: &Address,
    ) -> (r: Result<(), CounterError>)
        requires
            self.wf(),
            old(whitelist).wf(),
            self@.counters.dom().contains(counter_id@),
            (self@.counters[counter_id@].whitelist matches Some(w) ==> old(
                whitelist,
            )@.configs.dom().contains(w)),
        ensures
            final(whitelist).wf(),
            final(whitelist)@ == retract_access_t(
                self@,
                old(whitelist)@,
                counter_id@,
                authority@,
                wallet_address@,
            ).0,
            r == retract_access_t(
                self@,
                old(whitelist)@,
                counter_id@,
                authority@,
                wallet_address@,
            ).1,
    {
        let i = match assoc_find(&self.counters, counter_id) {
            Some(i) => i,
            None => {
                proof {
                    lemma_assoc_absent(self.counters@, counter_id@);
                }
                unreached()
            },
        };
        proof {
            lemma_assoc_at(self.counters@, i as int);
        }
        let c = self.counters[i].1;
        if !address_eq(authority, &c.authority) {
            return Err(CounterError::AuthorityMismatch);
        }
        let linked = match &c.whitelist {
            Some(w) => *w,
            None => {
                return Err(CounterError::NotInitialized);
            },
        };
        whitelist.remove_wallet(&linked, counter_id, wallet_address, refund_wallet)
    }
}

} // verus!
