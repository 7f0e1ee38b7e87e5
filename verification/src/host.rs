//! The values that the Soroban host hands to a contract, as far as the ledger
//! reads them: names are host strings, identities are host addresses. Verus
//! cannot look inside either, so this module declares the types, names what
//! they hold, and states what the few host calls that the ledger makes return.
//! Nothing in this module is proved; everything else in the crate is.
//!
//! The contracts say what a call returns when the host answers it. A host
//! that has used up the budget of the invocation answers no call at all: it
//! ends the invocation, and with it whatever the ledger was doing.

use vstd::prelude::*;
use vstd::string::StringSliceAdditionalSpecFns;

verus! {

/// `soroban_sdk::Env`, the handle to the host. The ledger only passes it on.
#[verifier::external_type_specification]
#[verifier::external_body]
pub struct ExEnv(soroban_sdk::Env);

/// `soroban_sdk::String`, a string of bytes kept by the host.
#[verifier::external_type_specification]
#[verifier::external_body]
pub struct ExHostString(soroban_sdk::String);

/// `soroban_sdk::Address`, the identity of an account or a contract.
#[verifier::external_type_specification]
#[verifier::external_body]
pub struct ExAddress(soroban_sdk::Address);

/// `soroban_sdk::Map`, a map kept by the host.
#[verifier::external_type_specification]
#[verifier::external_body]
#[verifier::reject_recursive_types(K)]
#[verifier::reject_recursive_types(V)]
pub struct ExHostMap<K, V>(soroban_sdk::Map<K, V>);

/// The bytes that a host string holds. The host never changes the bytes
/// behind a handle, so they are a function of the value.
pub uninterp spec fn name_bytes(s: soroban_sdk::String) -> Seq<u8>;

/// The account or contract that an address holds, as the bytes of its XDR
/// encoding. Two handles stand for the same identity exactly when these
/// agree.
pub uninterp spec fn address_id(a: soroban_sdk::Address) -> Seq<u8>;

/// The entries of a host map from names to counts, keyed by the bytes of each
/// name.
pub uninterp spec fn stats_entries(m: soroban_sdk::Map<soroban_sdk::String, u64>) -> Map<
    Seq<u8>,
    u64,
>;

/// `soroban_sdk::String::len`: the number of bytes in the string.
#[verifier::external_body]
pub(crate) fn name_len(s: &soroban_sdk::String) -> (n: u32)
    ensures
        n == name_bytes(*s).len(),
{
    s.len()
}

/// `==` on `soroban_sdk::String`: true exactly when both hold the same bytes.
/// The host compares the two strings byte by byte, also where the handles
/// come from different environments.
#[verifier::external_body]
pub(crate) fn same_name(a: &soroban_sdk::String, b: &soroban_sdk::String) -> (same: bool)
    ensures
        same == (name_bytes(*a) == name_bytes(*b)),
{
    a == b
}

/// `Clone` for `soroban_sdk::String`: a second handle to the same bytes.
#[verifier::external_body]
pub(crate) fn clone_name(s: &soroban_sdk::String) -> (copy: soroban_sdk::String)
    ensures
        name_bytes(copy) == name_bytes(*s),
{
    s.clone()
}

/// `==` on `soroban_sdk::Address`: true exactly when both stand for the same
/// account or contract. The host compares the two addresses as values, also
/// where the handles come from different environments.
#[verifier::external_body]
pub(crate) fn same_address(a: &soroban_sdk::Address, b: &soroban_sdk::Address) -> (same: bool)
    ensures
        same == (address_id(*a) == address_id(*b)),
{
    a == b
}

/// `Clone` for `soroban_sdk::Address`: a second handle to the same identity.
#[verifier::external_body]
pub(crate) fn clone_address(a: &soroban_sdk::Address) -> (copy: soroban_sdk::Address)
    ensures
        address_id(copy) == address_id(*a),
{
    a.clone()
}

/// `soroban_sdk::Map::new`: a host map with no entries.
#[verifier::external_body]
pub(crate) fn stats_new(env: &soroban_sdk::Env) -> (m: soroban_sdk::Map<soroban_sdk::String, u64>)
    ensures
        stats_entries(m).dom() == Set::<Seq<u8>>::empty(),
{
    soroban_sdk::Map::new(env)
}

/// `soroban_sdk::Map::set`, with the key made by `soroban_sdk::String::from_str`
/// in the map's own environment: the entry under the UTF-8 bytes of `key`
/// becomes `value`, and no other entry changes. The host refuses a string of
/// more than `u32::MAX` bytes and a map of more than `u32::MAX` entries, so
/// both are left out.
#[verifier::external_body]
pub(crate) fn stats_set(m: &mut soroban_sdk::Map<soroban_sdk::String, u64>, key: &str, value: u64)
    requires
        key.spec_bytes().len() <= u32::MAX,
        stats_entries(*old(m)).dom().finite(),
        stats_entries(*old(m)).dom().len() < u32::MAX,
    ensures
        stats_entries(*final(m)) == stats_entries(*old(m)).insert(key.spec_bytes(), value),
{
    let k = soroban_sdk::String::from_str(m.env(), key);
    m.set(k, value);
}

} // verus!
