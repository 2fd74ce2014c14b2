//! The addressing scheme: 32-byte ledger identities and deterministic
//! derivation of a record's address from a namespace tag and a key.

use vstd::prelude::*;

verus! {

/// The namespace tag under which counter records are addressed: the ASCII
/// bytes of `counter`.
pub const COUNTER_NAMESPACE: [u8; 7] = [99, 111, 117, 110, 116, 101, 114];

/// A 32-byte ledger identity. Wallets, records, program ids and derived
/// capabilities all live in this one address space.
#[derive(Clone, Copy, Debug, PartialEq, Eq)]
pub struct Address {
    bytes: [u8; 32],
}

impl View for Address {
    type V = Seq<u8>;

    closed spec fn view(&self) -> Seq<u8> {
        self.bytes@
    }
}

impl Address {
    pub fn new(bytes: [u8; 32]) -> (r: Address)
        ensures
            r@ == bytes@,
    {
        Address { bytes }
    }

    pub fn to_bytes(&self) -> (r: [u8; 32])
        ensures
            r@ == self@,
    {
        self.bytes
    }

    pub fn as_bytes(&self) -> (r: &[u8])
        ensures
            r@ == self@,
    {
        self.bytes.as_slice()
    }
}

/// Byte-for-byte equality of two addresses.
pub fn address_eq(a: &Address, b: &Address) -> (r: bool)
    ensures
        r == (a@ == b@),
{
    let mut i: usize = 0;
    while i < 32
        invariant
            i <= 32,
            forall|j: int| 0 <= j < i ==> a.bytes@[j] == b.bytes@[j],
        decreases 32 - i,
    {
        if a.bytes[i] != b.bytes[i] {
            assert(a@[i as int] != b@[i as int]);
            return false;
        }
        i += 1;
    }
    proof {
        assert(a@ =~= b@);
    }
    true
}

/// What the ledger's derivation returns for a pair of seeds and a program id:
/// the derived address and its disambiguation bump, or nothing when the bump
/// search space is exhausted. The result depends on the arguments alone.
pub uninterp spec fn pda_of(seed_a: Seq<u8>, seed_b: Seq<u8>, program_id: Seq<u8>) -> Option<
    (Seq<u8>, u8),
>;

/// Relies on `Pubkey::try_find_program_address` (anchor_lang's prelude): for a
/// given seed list and program id it deterministically returns the derived
/// 32-byte address together with the largest bump seed that takes the hash off
/// the signing curve, and `None` exactly when no bump works.
#[verifier::external_body]
pub(crate) fn try_find_pda(seed_a: &[u8], seed_b: &[u8], program_id: &Address) -> (r: Option<
    (Address, u8),
>)
    ensures
        r is Some <==> pda_of(seed_a@, seed_b@, program_id@) is Some,
        (r matches Some(p) ==> {
            let q = pda_of(seed_a@, seed_b@, program_id@)->Some_0;
            p.0@ == q.0 && p.1 == q.1
        }),
{
    let pid = anchor_lang::prelude::Pubkey::new_from_array(program_id.bytes);
    anchor_lang::prelude::Pubkey::try_find_program_address(&[seed_a, seed_b], &pid).map(
        |p: (anchor_lang::prelude::Pubkey, u8)| (Address { bytes: p.0.to_bytes() }, p.1),
    )
}

} // verus!
