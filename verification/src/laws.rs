//! The protocol's laws, proved once and for all over the transition functions
//! that the executable services are verified against.

use vstd::prelude::*;

use crate::counter::{
    create_counter_t, create_counter_whitelist_t, reset_whitelist_t, update_counter_t,
    CounterStateV,
};
use crate::errors::CounterError;
use crate::whitelist::{add_wallet_t, check_wallet_t, remove_wallet_t, WhitelistV};

verus! {

/// A freshly created counter is unlinked: a gated increment straight after a
/// successful `create_counter` fails with `NotInitialized`, whatever whitelist
/// state it is checked against, and moves nothing.
pub proof fn law_create_then_update_not_initialized(
    cs: CounterStateV,
    wl: WhitelistV,
    owner: Seq<u8>,
    bump: u8,
    user_wallet: Seq<u8>,
)
    requires
        create_counter_t(cs, owner, bump).1 is Ok,
    ensures
        ({
            let (cs1, r) = create_counter_t(cs, owner, bump);
            update_counter_t(cs1, wl, r->Ok_0, user_wallet, owner) == (
                cs1,
                Err::<(), CounterError>(CounterError::NotInitialized),
            )
        }),
{
}

/// A successful link hands the new whitelist's controller capability to the
/// counter's own address — never back to the owner who asked for the link.
pub proof fn law_link_delegates_to_counter(
    cs: CounterStateV,
    wl: WhitelistV,
    counter_id: Seq<u8>,
    authority: Seq<u8>,
    whitelist_account: Seq<u8>,
)
    requires
        create_counter_whitelist_t(cs, wl, counter_id, authority, whitelist_account).2 is Ok,
    ensures
        ({
            let (cs1, wl1, _) = create_counter_whitelist_t(
                cs,
                wl,
                counter_id,
                authority,
                whitelist_account,
            );
            &&& wl1.configs.dom().contains(whitelist_account)
            &&& wl1.configs[whitelist_account].authority == counter_id
            &&& cs1.counters[counter_id].whitelist == Some(whitelist_account)
            &&& (counter_id != authority ==> wl1.configs[whitelist_account].authority != authority)
        }),
{
}

/// The link is all-or-nothing: whenever `create_counter_whitelist` fails, no
/// partial state survives — neither service has moved, so no window exists
/// with a whitelist created but not yet delegated.
pub proof fn law_link_is_atomic(
    cs: CounterStateV,
    wl: WhitelistV,
    counter_id: Seq<u8>,
    authority: Seq<u8>,
    whitelist_account: Seq<u8>,
)
    requires
        create_counter_whitelist_t(cs, wl, counter_id, authority, whitelist_account).2 is Err,
    ensures
        create_counter_whitelist_t(cs, wl, counter_id, authority, whitelist_account).0 == cs,
        create_counter_whitelist_t(cs, wl, counter_id, authority, whitelist_account).1 == wl,
{
}

/// Adding the same wallet twice fails the second time with `DuplicateMember`,
/// changes nothing the second time, and leaves the member count exactly one
/// above where it started.
pub proof fn law_add_wallet_twice_duplicate(
    wl: WhitelistV,
    config_id: Seq<u8>,
    caller: Seq<u8>,
    wallet_address: Seq<u8>,
)
    requires
        add_wallet_t(wl, config_id, caller, wallet_address).1 is Ok,
    ensures
        ({
            let (wl1, _) = add_wallet_t(wl, config_id, caller, wallet_address);
            &&& add_wallet_t(wl1, config_id, caller, wallet_address) == (
                wl1,
                Err::<(), CounterError>(CounterError::DuplicateMember),
            )
            &&& wl1.configs[config_id].counter == wl.configs[config_id].counter + 1
            &&& wl1.wallets.contains((config_id, wallet_address))
        }),
{
}

/// Removing a wallet that was never added fails with `NotAMember` and leaves
/// the state — the member count included — untouched.
pub proof fn law_remove_without_add_not_a_member(
    wl: WhitelistV,
    config_id: Seq<u8>,
    caller: Seq<u8>,
    wallet_address: Seq<u8>,
)
    requires
        !wl.wallets.contains((config_id, wallet_address)),
        caller == wl.configs[config_id].authority,
    ensures
        remove_wallet_t(wl, config_id, caller, wallet_address) == (
            wl,
            Err::<(), CounterError>(CounterError::NotAMember),
        ),
{
}

/// The membership check is effect-free: it yields no successor state at all,
/// its answer is a function of the state alone — so repeated calls agree — and
/// it is `Ok` exactly on live members.
pub proof fn law_check_wallet_no_side_effects(
    wl: WhitelistV,
    config_id: Seq<u8>,
    wallet_address: Seq<u8>,
)
    ensures
        check_wallet_t(wl, config_id, wallet_address) == check_wallet_t(
            wl,
            config_id,
            wallet_address,
        ),
        check_wallet_t(wl, config_id, wallet_address) is Ok <==> wl.wallets.contains(
            (config_id, wallet_address),
        ),
{
}

/// After an unlink the gated increment refuses with `NotInitialized`, even
/// though the whitelist record, its memberships and its delegated controller
/// all survive untouched: `reset_whitelist_t` never touches whitelist state.
pub proof fn law_reset_then_update_not_initialized(
    cs: CounterStateV,
    wl: WhitelistV,
    counter_id: Seq<u8>,
    authority: Seq<u8>,
    user_wallet: Seq<u8>,
)
    requires
        reset_whitelist_t(cs, counter_id, authority).1 is Ok,
    ensures
        ({
            let (cs1, _) = reset_whitelist_t(cs, counter_id, authority);
            update_counter_t(cs1, wl, counter_id, user_wallet, authority) == (
                cs1,
                Err::<(), CounterError>(CounterError::NotInitialized),
            )
        }),
{
}

} // verus!
