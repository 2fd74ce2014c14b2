//! The whitelist service: it owns the membership lists. Each `WhitelistConfig`
//! holds the controlling capability and a live member count; membership itself
//! is an existence-only `Wallet` record keyed by the pair of whitelist id and
//! wallet address.

use vstd::prelude::*;

use crate::addr::{address_eq, pda_of, try_find_pda, Address};
use crate::errors::CounterError;
use crate::table::{
    assoc_find, assoc_map, assoc_set, keys_distinct, lemma_assoc_absent, lemma_assoc_at,
    lemma_assoc_push, lemma_assoc_update,
};

verus! {

/// A membership list's root record: the capability currently authorized to
/// mutate the list, and the number of live membership records.
#[derive(Clone, Copy, Debug)]
pub struct WhitelistConfig {
    pub authority: Address,
    pub counter: u64,
}

/// An existence-only membership record: its presence is the membership fact.
/// The two fields are the logical key it is addressed by.
#[derive(Clone, Copy, Debug)]
pub struct Wallet {
    pub whitelist: Address,
    pub wallet_address: Address,
}

/// Mathematical image of a `WhitelistConfig`.
#[verifier::ext_equal]
pub struct ConfigV {
    pub authority: Seq<u8>,
    pub counter: u64,
}

impl View for WhitelistConfig {
    type V = ConfigV;

    open spec fn view(&self) -> ConfigV {
        ConfigV { authority: self.authority@, counter: self.counter }
    }
}

/// Mathematical image of the whole service: the configs by their id, and the
/// set of live membership keys.
#[verifier::ext_equal]
pub struct WhitelistV {
    pub program_id: Seq<u8>,
    pub configs: Map<Seq<u8>, ConfigV>,
    pub wallets: Set<(Seq<u8>, Seq<u8>)>,
}

/// The key a membership record is addressed by.
pub open spec fn wallet_key(w: Wallet) -> (Seq<u8>, Seq<u8>) {
    (w.whitelist@, w.wallet_address@)
}

/// No two membership records share a key.
pub open spec fn wallets_distinct(s: Seq<Wallet>) -> bool {
    forall|i: int, j: int| 0 <= i < j < s.len() ==> wallet_key(s[i]) != wallet_key(s[j])
}

/// The set of live membership keys.
pub open spec fn wallet_set(s: Seq<Wallet>) -> Set<(Seq<u8>, Seq<u8>)> {
    Set::new(
        |p: (Seq<u8>, Seq<u8>)| exists|i: int| 0 <= i < s.len() && (#[trigger] wallet_key(s[i]))
            == p,
    )
}

/// How many records belong to one whitelist.
pub open spec fn count_for(s: Seq<Wallet>, config_id: Seq<u8>) -> nat
    decreases s.len(),
{
    if s.len() == 0 {
        0
    } else {
        count_for(s.drop_last(), config_id) + if s.last().whitelist@ == config_id {
            1nat
        } else {
            0nat
        }
    }
}

proof fn lemma_count_push(s: Seq<Wallet>, w: Wallet, config_id: Seq<u8>)
    ensures
        count_for(s.push(w), config_id) == count_for(s, config_id) + if w.whitelist@ == config_id {
            1nat
        } else {
            0nat
        },
{
    assert(s.push(w).drop_last() =~= s);
    assert(s.push(w).last() == w);
}

proof fn lemma_count_remove(s: Seq<Wallet>, i: int, config_id: Seq<u8>)
    requires
        0 <= i < s.len(),
    ensures
        count_for(s.remove(i), config_id) + if s[i].whitelist@ == config_id {
            1nat
        } else {
            0nat
        } == count_for(s, config_id),
    decreases s.len(),
{
    if i == s.len() - 1 {
        assert(s.remove(i) =~= s.drop_last());
        assert(s.last() == s[i]);
    } else {
        let s1 = s.drop_last();
        lemma_count_remove(s1, i, config_id);
        assert(s.remove(i).drop_last() =~= s1.remove(i));
        assert(s.remove(i).last() == s.last());
        assert(s1[i] == s[i]);
    }
}

/// The membership keys that reference one whitelist.
pub open spec fn members_of(wallets: Set<(Seq<u8>, Seq<u8>)>, config_id: Seq<u8>) -> Set<
    (Seq<u8>, Seq<u8>),
> {
    wallets.filter(|p: (Seq<u8>, Seq<u8>)| p.0 == config_id)
}

proof fn lemma_members_card(s: Seq<Wallet>, config_id: Seq<u8>)
    requires
        wallets_distinct(s),
    ensures
        members_of(wallet_set(s), config_id).finite(),
        members_of(wallet_set(s), config_id).len() == count_for(s, config_id),
    decreases s.len(),
{
    if s.len() == 0 {
        assert(wallet_set(s) =~= Set::<(Seq<u8>, Seq<u8>)>::empty());
        assert(members_of(wallet_set(s), config_id) =~= Set::<(Seq<u8>, Seq<u8>)>::empty());
    } else {
        let s0 = s.drop_last();
        let w = s.last();
        assert(forall|i: int| 0 <= i < s0.len() ==> s0[i] == s[i]);
        lemma_members_card(s0, config_id);
        assert forall|i: int| 0 <= i < s0.len() implies (#[trigger] wallet_key(s0[i]))
            != wallet_key(w) by {
            assert(wallet_key(s[i]) != wallet_key(s[s.len() - 1]));
        }
        lemma_wallet_push(s0, w);
        assert(s0.push(w) =~= s);
        assert(!wallet_set(s0).contains(wallet_key(w)));
        if w.whitelist@ == config_id {
            assert(members_of(wallet_set(s), config_id) =~= members_of(
                wallet_set(s0),
                config_id,
            ).insert(wallet_key(w)));
            assert(!members_of(wallet_set(s0), config_id).contains(wallet_key(w)));
        } else {
            assert(members_of(wallet_set(s), config_id) =~= members_of(wallet_set(s0), config_id));
        }
    }
}

proof fn lemma_count_zero(s: Seq<Wallet>, config_id: Seq<u8>)
    requires
        forall|i: int| 0 <= i < s.len() ==> (#[trigger] s[i]).whitelist@ != config_id,
    ensures
        count_for(s, config_id) == 0,
    decreases s.len(),
{
    if s.len() > 0 {
        assert(forall|i: int|
            0 <= i < s.drop_last().len() ==> (#[trigger] s.drop_last()[i]) == s[i]);
        lemma_count_zero(s.drop_last(), config_id);
        assert(s.last() == s[s.len() - 1]);
    }
}

proof fn lemma_wallet_push(s: Seq<Wallet>, w: Wallet)
    requires
        wallets_distinct(s),
        forall|i: int| 0 <= i < s.len() ==> (#[trigger] wallet_key(s[i])) != wallet_key(w),
    ensures
        wallets_distinct(s.push(w)),
        wallet_set(s.push(w)) =~= wallet_set(s).insert(wallet_key(w)),
{
    let s2 = s.push(w);
    assert forall|i: int, j: int| 0 <= i < j < s2.len() implies wallet_key(s2[i]) != wallet_key(
        s2[j],
    ) by {
        if j < s.len() {
            assert(wallet_key(s[i]) != wallet_key(s[j]));
        } else {
            assert(wallet_key(s[i]) != wallet_key(w));
        }
    }
    assert forall|p: (Seq<u8>, Seq<u8>)| wallet_set(s2).contains(p) implies wallet_set(s).insert(
        wallet_key(w),
    ).contains(p) by {
        let i = choose|i: int| 0 <= i < s2.len() && (#[trigger] wallet_key(s2[i])) == p;
        if i < s.len() {
            assert(wallet_key(s[i]) == p);
        } else {
            assert(p == wallet_key(w));
        }
    }
    assert forall|p: (Seq<u8>, Seq<u8>)| wallet_set(s).insert(wallet_key(w)).contains(
        p,
    ) implies wallet_set(s2).contains(p) by {
        if p == wallet_key(w) {
            assert(wallet_key(s2[s.len() as int]) == p);
        } else {
            let i = choose|i: int| 0 <= i < s.len() && (#[trigger] wallet_key(s[i])) == p;
            assert(wallet_key(s2[i]) == p);
        }
    }
}

proof fn lemma_wallet_remove(s: Seq<Wallet>, i: int)
    requires
        wallets_distinct(s),
        0 <= i < s.len(),
    ensures
        wallets_distinct(s.remove(i)),
        wallet_set(s.remove(i)) =~= wallet_set(s).remove(wallet_key(s[i])),
{
    let s2 = s.remove(i);
    assert(forall|j: int| 0 <= j < i ==> s2[j] == s[j]);
    assert(forall|j: int| i <= j < s2.len() ==> s2[j] == s[j + 1]);
    assert forall|a: int, b: int| 0 <= a < b < s2.len() implies wallet_key(s2[a]) != wallet_key(
        s2[b],
    ) by {
        let oa: int = if a < i { a } else { a + 1 };
        let ob: int = if b < i { b } else { b + 1 };
        assert(wallet_key(s[oa]) != wallet_key(s[ob]));
    }
    assert forall|p: (Seq<u8>, Seq<u8>)| wallet_set(s2).contains(p) implies wallet_set(s).remove(
        wallet_key(s[i]),
    ).contains(p) by {
        let j = choose|j: int| 0 <= j < s2.len() && (#[trigger] wallet_key(s2[j])) == p;
        let oj: int = if j < i { j } else { j + 1 };
        assert(wallet_key(s[oj]) == p);
        if oj < i {
            assert(wallet_key(s[oj]) != wallet_key(s[i]));
        } else {
            assert(wallet_key(s[i]) != wallet_key(s[oj]));
        }
    }
    assert forall|p: (Seq<u8>, Seq<u8>)| wallet_set(s).remove(wallet_key(s[i])).contains(
        p,
    ) implies wallet_set(s2).contains(p) by {
        let j = choose|j: int| 0 <= j < s.len() && (#[trigger] wallet_key(s[j])) == p;
        if j < i {
            assert(wallet_key(s2[j]) == p);
        } else {
            assert(j != i);
            assert(wallet_key(s2[j - 1]) == p);
        }
    }
}

/// What `create_whitelist` does to the state, and what it returns.
pub open spec fn create_whitelist_t(s: WhitelistV, config_id: Seq<u8>, creator: Seq<u8>) -> (
    WhitelistV,
    Result<(), CounterError>,
) {
    if s.configs.dom().contains(config_id) {
        (s, Err(CounterError::RecordExists))
    } else {
        (
            WhitelistV {
                configs: s.configs.insert(config_id, ConfigV { authority: creator, counter: 0 }),
                ..s
            },
            Ok(()),
        )
    }
}

/// What `set_authority` does to the state, and what it returns.
pub open spec fn set_authority_t(
    s: WhitelistV,
    config_id: Seq<u8>,
    caller: Seq<u8>,
    new_authority: Seq<u8>,
) -> (WhitelistV, Result<(), CounterError>) {
    let c = s.configs[config_id];
    if caller != c.authority {
        (s, Err(CounterError::AuthorityMismatch))
    } else {
        (
            WhitelistV {
                configs: s.configs.insert(config_id, ConfigV { authority: new_authority, ..c }),
                ..s
            },
            Ok(()),
        )
    }
}

/// What `add_wallet` does to the state, and what it returns.
pub open spec fn add_wallet_t(
    s: WhitelistV,
    config_id: Seq<u8>,
    caller: Seq<u8>,
    wallet_address: Seq<u8>,
) -> (WhitelistV, Result<(), CounterError>) {
    let c = s.configs[config_id];
    if caller != c.authority {
        (s, Err(CounterError::AuthorityMismatch))
    } else if s.wallets.contains((config_id, wallet_address)) {
        (s, Err(CounterError::DuplicateMember))
    } else if c.counter == u64::MAX {
        (s, Err(CounterError::CounterOverflow))
    } else {
        (
            WhitelistV {
                configs: s.configs.insert(
                    config_id,
                    ConfigV { counter: (c.counter + 1) as u64, ..c },
                ),
                wallets: s.wallets.insert((config_id, wallet_address)),
                ..s
            },
            Ok(()),
        )
    }
}

/// What `check_wallet` returns; it never changes the state.
pub open spec fn check_wallet_t(s: WhitelistV, config_id: Seq<u8>, wallet_address: Seq<u8>) -> Result<
    (),
    CounterError,
> {
    if s.wallets.contains((config_id, wallet_address)) {
        Ok(())
    } else {
        Err(CounterError::NotAMember)
    }
}

/// What `remove_wallet` does to the state, and what it returns.
pub open spec fn remove_wallet_t(
    s: WhitelistV,
    config_id: Seq<u8>,
    caller: Seq<u8>,
    wallet_address: Seq<u8>,
) -> (WhitelistV, Result<(), CounterError>) {
    let c = s.configs[config_id];
    if caller != c.authority {
        (s, Err(CounterError::AuthorityMismatch))
    } else if !s.wallets.contains((config_id, wallet_address)) {
        (s, Err(CounterError::NotAMember))
    } else if c.counter == 0 {
        (s, Err(CounterError::CounterUnderflow))
    } else {
        (
            WhitelistV {
                configs: s.configs.insert(
                    config_id,
                    ConfigV { counter: (c.counter - 1) as u64, ..c },
                ),
                wallets: s.wallets.remove((config_id, wallet_address)),
                ..s
            },
            Ok(()),
        )
    }
}

/// The whitelist service's state: every `WhitelistConfig` and every live
/// membership record it owns.
pub struct WhitelistService {
    program_id: Address,
    configs: Vec<(Address, WhitelistConfig)>,
    wallets: Vec<Wallet>,
}

impl View for WhitelistService {
    type V = WhitelistV;

    closed spec fn view(&self) -> WhitelistV {
        WhitelistV {
            program_id: self.program_id@,
            configs: assoc_map(self.configs@),
            wallets: wallet_set(self.wallets@),
        }
    }
}

impl WhitelistService {
    /// Well-formedness: config ids and membership keys are unique, every
    /// membership record points at an existing config, and each config's
    /// member count equals the number of live records that reference it.
    pub closed spec fn wf(self) -> bool {
        &&& keys_distinct(self.configs@)
        &&& wallets_distinct(self.wallets@)
        &&& forall|i: int|
            0 <= i < self.wallets@.len() ==> assoc_map(self.configs@).dom().contains(
                (#[trigger] self.wallets@[i]).whitelist@,
            )
        &&& forall|i: int|
            0 <= i < self.configs@.len() ==> (#[trigger] self.configs@[i]).1.counter == count_for(
                self.wallets@,
                self.configs@[i].0@,
            )
    }

    /// In every well-formed state, a config's member count equals the number
    /// of live membership records that reference it: each mutation of
    /// membership is paired with the matching increment or decrement, so the
    /// count can never drift and never underflows.
    pub proof fn member_count_is_live_records(self, config_id: Seq<u8>)
        requires
            self.wf(),
            self@.configs.dom().contains(config_id),
        ensures
            members_of(self@.wallets, config_id).finite(),
            self@.configs[config_id].counter == members_of(self@.wallets, config_id).len(),
    {
        let i = choose|i: int|
            0 <= i < self.configs@.len() && (#[trigger] self.configs@[i].0@) == config_id;
        lemma_assoc_at(self.configs@, i);
        lemma_members_card(self.wallets@, config_id);
    }

    /// An empty service for the program deployed at `program_id`.
    pub fn new(program_id: Address) -> (s: WhitelistService)
        ensures
            s.wf(),
            s@.program_id == program_id@,
            s@.configs == Map::<Seq<u8>, ConfigV>::empty(),
            s@.wallets == Set::<(Seq<u8>, Seq<u8>)>::empty(),
    {
        let s = WhitelistService { program_id, configs: Vec::new(), wallets: Vec::new() };
        proof {
            assert(assoc_map(s.configs@) =~= Map::<Seq<u8>, ConfigV>::empty());
            assert(wallet_set(s.wallets@) =~= Set::<(Seq<u8>, Seq<u8>)>::empty());
        }
        s
    }

    /// The deterministic ledger address and bump of the membership record for
    /// `(config_id, wallet_address)`, namespaced by the whitelist's id.
    pub fn derive_wallet_address(&self, config_id: &Address, wallet_address: &Address) -> (r:
        Option<(Address, u8)>)
        ensures
            (r is Some <==> pda_of(config_id@, wallet_address@, self@.program_id) is Some),
            (r matches Some(p) ==> {
                let q = pda_of(config_id@, wallet_address@, self@.program_id)->Some_0;
                p.0@ == q.0 && p.1 == q.1
            }),
    {
        try_find_pda(config_id.as_bytes(), wallet_address.as_bytes(), &self.program_id)
    }

    /// The config stored under `config_id`, if any.
    pub fn config_record(&self, config_id: &Address) -> (r: Option<WhitelistConfig>)
        requires
            self.wf(),
        ensures
            (r matches Some(c) ==> self@.configs.dom().contains(config_id@) && c@
                == self@.configs[config_id@]),
            (r is None ==> !self@.configs.dom().contains(config_id@)),
    {
        match assoc_find(&self.configs, config_id) {
            Some(i) => {
                proof {
                    lemma_assoc_at(self.configs@, i as int);
                }
                Some(self.configs[i].1)
            },
            None => {
                proof {
                    lemma_assoc_absent(self.configs@, config_id@);
                }
                None
            },
        }
    }

    fn find_wallet(&self, config_id: &Address, wallet_address: &Address) -> (r: Option<usize>)
        ensures
            (r matches Some(i) ==> i < self.wallets@.len() && wallet_key(self.wallets@[i as int])
                == (config_id@, wallet_address@)),
            (r is None ==> forall|i: int|
                0 <= i < self.wallets@.len() ==> (#[trigger] wallet_key(self.wallets@[i])) != (
                config_id@,
                wallet_address@,
                )),
    {
        let n = self.wallets.len();
        let mut i: usize = 0;
        while i < n
            invariant
                n == self.wallets@.len(),
                i <= n,
                forall|j: int|
                    0 <= j < i ==> (#[trigger] wallet_key(self.wallets@[j])) != (
                    config_id@,
                    wallet_address@,
                    ),
            decreases n - i,
        {
            let w = &self.wallets[i];
            if address_eq(&w.whitelist, config_id) && address_eq(&w.wallet_address, wallet_address)
            {
                return Some(i);
            }
            i += 1;
        }
        None
    }

    /// Allocate a fresh membership list under `config_id`: the creator holds
    /// the controller capability and the member count starts at zero.
    pub fn create_whitelist(&mut self, config_id: &Address, creator: &Address) -> (r: Result<
        (),
        CounterError,
    >)
        requires
            old(self).wf(),
        ensures
            final(self).wf(),
            final(self)@ == create_whitelist_t(old(self)@, config_id@, creator@).0,
            r == create_whitelist_t(old(self)@, config_id@, creator@).1,
    {
        match assoc_find(&self.configs, config_id) {
            Some(i) => {
                proof {
                    lemma_assoc_at(self.configs@, i as int);
                }
                Err(CounterError::RecordExists)
            },
            None => {
                let cfg = WhitelistConfig { authority: *creator, counter: 0 };
                self.configs.push((*config_id, cfg));
                proof {
                    lemma_assoc_absent(old(self).configs@, config_id@);
                    lemma_assoc_push(old(self).configs@, *config_id, cfg);
                    assert forall|i: int| 0 <= i < self.wallets@.len() implies (
                    #[trigger] self.wallets@[i]).whitelist@ != config_id@ by {
                        assert(assoc_map(old(self).configs@).dom().contains(
                            self.wallets@[i].whitelist@,
                        ));
                    }
                    lemma_count_zero(self.wallets@, config_id@);
                    assert(self@ =~= create_whitelist_t(old(self)@, config_id@, creator@).0);
                }
                Ok(())
            },
        }
    }

    /// Hand the controller capability of `config_id` to `new_authority`;
    /// only the current controller may do so.
    pub fn set_authority(&mut self, config_id: &Address, caller: &Address, new_authority: &Address)
        -> (r: Result<(), CounterError>)
        requires
            old(self).wf(),
            old(self)@.configs.dom().contains(config_id@),
        ensures
            final(self).wf(),
            final(self)@ == set_authority_t(old(self)@, config_id@, caller@, new_authority@).0,
            r == set_authority_t(old(self)@, config_id@, caller@, new_authority@).1,
    {
        let i = match assoc_find(&self.configs, config_id) {
            Some(i) => i,
            None => {
                proof {
                    lemma_assoc_absent(self.configs@, config_id@);
                }
                return Err(CounterError::AuthorityMismatch);
            },
        };
        proof {
            lemma_assoc_at(self.configs@, i as int);
        }
        let key = self.configs[i].0;
        let c = self.configs[i].1;
        if !address_eq(caller, &c.authority) {
            return Err(CounterError::AuthorityMismatch);
        }
        let updated = WhitelistConfig { authority: *new_authority, counter: c.counter };
        assoc_set(&mut self.configs, i, (key, updated));
        proof {
            lemma_assoc_update(old(self).configs@, i as int, updated);
            assert(self@ =~= set_authority_t(old(self)@, config_id@, caller@, new_authority@).0);
        }
        Ok(())
    }

    /// Add `wallet_address` to the list `config_id`. Only the controller may;
    /// a present member is refused, and the member count grows by one.
    pub fn add_wallet(&mut self, config_id: &Address, caller: &Address, wallet_address: &Address)
        -> (r: Result<(), CounterError>)
        requires
            old(self).wf(),
            old(self)@.configs.dom().contains(config_id@),
        ensures
            final(self).wf(),
            final(self)@ == add_wallet_t(old(self)@, config_id@, caller@, wallet_address@).0,
            r == add_wallet_t(old(self)@, config_id@, caller@, wallet_address@).1,
    {
        let i = match assoc_find(&self.configs, config_id) {
            Some(i) => i,
            None => {
                proof {
                    lemma_assoc_absent(self.configs@, config_id@);
                }
                return Err(CounterError::AuthorityMismatch);
            },
        };
        proof {
            lemma_assoc_at(self.configs@, i as int);
        }
        let key = self.configs[i].0;
        let c = self.configs[i].1;
        if !address_eq(caller, &c.authority) {
            return Err(CounterError::AuthorityMismatch);
        }
        match self.find_wallet(config_id, wallet_address) {
            Some(_) => {
                proof {
                    assert(self@.wallets.contains((config_id@, wallet_address@)));
                }
                Err(CounterError::DuplicateMember)
            },
            None => {
                proof {
                    assert(!self@.wallets.contains((config_id@, wallet_address@)));
                }
                if c.counter == u64::MAX {
                    return Err(CounterError::CounterOverflow);
                }
                let w = Wallet { whitelist: *config_id, wallet_address: *wallet_address };
                self.wallets.push(w);
                let updated = WhitelistConfig { authority: c.authority, counter: c.counter + 1 };
                assoc_set(&mut self.configs, i, (key, updated));
                proof {
                    lemma_wallet_push(old(self).wallets@, w);
                    lemma_assoc_update(old(self).configs@, i as int, updated);
                    assert forall|j: int| 0 <= j < self.configs@.len() implies (
                    #[trigger] self.configs@[j]).1.counter == count_for(
                        self.wallets@,
                        self.configs@[j].0@,
                    ) by {
                        lemma_count_push(old(self).wallets@, w, self.configs@[j].0@);
                        if j != i {
                            assert(self.configs@[j] == old(self).configs@[j]);
                            if j < i {
                                assert(old(self).configs@[j].0@ != old(self).configs@[i as int].0@);
                            } else {
                                assert(old(self).configs@[i as int].0@ != old(self).configs@[j].0@);
                            }
                        }
                    }
                    assert(self@ =~= add_wallet_t(
                        old(self)@,
                        config_id@,
                        caller@,
                        wallet_address@,
                    ).0);
                }
                Ok(())
            },
        }
    }

    /// Is `wallet_address` a member of the list `config_id`? Read-only: no
    /// controller authentication, no state change.
    pub fn check_wallet(&self, config_id: &Address, wallet_address: &Address) -> (r: Result<
        (),
        CounterError,
    >)
        ensures
            r == check_wallet_t(self@, config_id@, wallet_address@),
    {
        match self.find_wallet(config_id, wallet_address) {
            Some(_) => {
                proof {
                    assert(self@.wallets.contains((config_id@, wallet_address@)));
                }
                Ok(())
            },
            None => {
                proof {
                    assert(!self@.wallets.contains((config_id@, wallet_address@)));
                }
                Err(CounterError::NotAMember)
            },
        }
    }

    /// Remove `wallet_address` from the list `config_id`. Only the controller
    /// may; an absent member is refused, and the member count shrinks by one.
    /// Reclaiming the destroyed record's resources for `refund_wallet` is the
    /// host ledger's concern, outside this model.
    #[allow(unused_variables)]
    pub fn remove_wallet(
        &mut self,
        config_id: &Address,
        caller: &Address,
        wallet_address: &Address,
        refund_wallet: &Address,
    ) -> (r: Result<(), CounterError>)
        requires
            old(self).wf(),
            old(self)@.configs.dom().contains(config_id@),
        ensures
            final(self).wf(),
            final(self)@ == remove_wallet_t(old(self)@, config_id@, caller@, wallet_address@).0,
            r == remove_wallet_t(old(self)@, config_id@, caller@, wallet_address@).1,
    {
        let i = match assoc_find(&self.configs, config_id) {
            Some(i) => i,
            None => {
                proof {
                    lemma_assoc_absent(self.configs@, config_id@);
                }
                return Err(CounterError::AuthorityMismatch);
            },
        };
        proof {
            lemma_assoc_at(self.configs@, i as int);
        }
        let key = self.configs[i].0;
        let c = self.configs[i].1;
        if !address_eq(caller, &c.authority) {
            return Err(CounterError::AuthorityMismatch);
        }
        match self.find_wallet(config_id, wallet_address) {
            None => {
                proof {
                    assert(!self@.wallets.contains((config_id@, wallet_address@)));
                }
                Err(CounterError::NotAMember)
            },
            Some(j) => {
                proof {
                    assert(self@.wallets.contains((config_id@, wallet_address@)));
                }
                if c.counter == 0 {
                    return Err(CounterError::CounterUnderflow);
                }
                self.wallets.remove(j);
                let updated = WhitelistConfig { authority: c.authority, counter: c.counter - 1 };
                assoc_set(&mut self.configs, i, (key, updated));
                proof {
                    lemma_wallet_remove(old(self).wallets@, j as int);
                    lemma_assoc_update(old(self).configs@, i as int, updated);
                    assert forall|k: int| 0 <= k < self.wallets@.len() implies assoc_map(
                        self.configs@,
                    ).dom().contains((#[trigger] self.wallets@[k]).whitelist@) by {
                        let ok: int = if k < j { k } else { k + 1 };
                        assert(self.wallets@[k] == old(self).wallets@[ok]);
                        assert(assoc_map(old(self).configs@).dom().contains(
                            old(self).wallets@[ok].whitelist@,
                        ));
                    }
                    assert forall|k: int| 0 <= k < self.configs@.len() implies (
                    #[trigger] self.configs@[k]).1.counter == count_for(
                        self.wallets@,
                        self.configs@[k].0@,
                    ) by {
                        lemma_count_remove(old(self).wallets@, j as int, self.configs@[k].0@);
                        if k != i {
                            assert(self.configs@[k] == old(self).configs@[k]);
                            if k < i {
                                assert(old(self).configs@[k].0@ != old(self).configs@[i as int].0@);
                            } else {
                                assert(old(self).configs@[i as int].0@ != old(self).configs@[k].0@);
                            }
                        }
                    }
                    assert(self@ =~= remove_wallet_t(
                        old(self)@,
                        config_id@,
                        caller@,
                        wallet_address@,
                    ).0);
                }
                Ok(())
            },
        }
    }
}

} // verus!
