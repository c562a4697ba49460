//! The access control gate and the validation of inputs.

use vstd::prelude::*;
use crate::error::Error;
use crate::state::authorized;
use crate::types::{AccountId, Principal, ROYALTY_BOUND};

verus! {

/// Whether `principal` may act where the asset ledger names `required` as
/// the issuer or owner.
pub fn is_authorized(principal: Principal, required: Option<AccountId>) -> (b: bool)
    ensures
        b == authorized(principal, required),
{
    match principal {
        Principal::Protocol => true,
        Principal::Account(caller) => match required {
            Some(account) => account == caller,
            None => false,
        },
    }
}

/// Accepts a byte string of at most `max` bytes.
pub fn validate_length(bytes: &Vec<u8>, max: u32) -> (r: Result<(), Error>)
    ensures
        r is Ok <==> bytes@.len() <= max,
        r is Err ==> r == Err::<(), Error>(Error::MetadataTooLong),
{
    if bytes.len() <= max as usize {
        Ok(())
    } else {
        Err(Error::MetadataTooLong)
    }
}

/// Accepts a royalty below one hundred percent.
pub fn validate_royalty(royalty: u8) -> (r: Result<(), Error>)
    ensures
        r is Ok <==> royalty < ROYALTY_BOUND,
        r is Err ==> r == Err::<(), Error>(Error::RoyaltyOutOfRange),
{
    if royalty < ROYALTY_BOUND {
        Ok(())
    } else {
        Err(Error::RoyaltyOutOfRange)
    }
}

/// A copy of a byte string.
pub fn copy_bytes(bytes: &Vec<u8>) -> (copy: Vec<u8>)
    ensures
        copy@ == bytes@,
{
    let mut copy: Vec<u8> = Vec::new();
    let mut i: usize = 0;
    while i < bytes.len()
        invariant
            i <= bytes@.len(),
            copy@ == bytes@.take(i as int),
        decreases bytes@.len() - i,
    {
        copy.push(bytes[i]);
        assert(bytes@.take(i + 1) =~= bytes@.take(i as int).push(bytes@[i as int]));
        i += 1;
    }
    assert(bytes@.take(bytes@.len() as int) =~= bytes@);
    copy
}

} // verus!
