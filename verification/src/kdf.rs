//! Password-based key derivation, treated as an opaque memory-hard function
//! from (password, salt) to a 64-byte key, or failure.

use vstd::prelude::*;

verus! {

/// The 64-byte key that the key-derivation function computes from a
/// password and a salt (Argon2id, version 0x13, with this crate's fixed
/// cost parameters). The key is a pure function of password and salt;
/// nothing further is assumed about it.
pub uninterp spec fn derived_key_of(password: Seq<u8>, salt: Seq<u8>) -> [u8; 64];

#[verifier::external_type_specification]
#[verifier::external_body]
pub struct ExArgon2Error(argon2::Error);

/// Relies on argon2::Argon2::hash_password_into with Algorithm::Argon2id,
/// Version::V0x13 and Params::new(Params::DEFAULT_M_COST,
/// Params::DEFAULT_T_COST * 10, Params::DEFAULT_P_COST, None): with those
/// fixed parameters and a 64-byte output the call succeeds exactly when the
/// password is at most 0xFFFFFFFF bytes and the salt between 8 and
/// 0xFFFFFFFF bytes long, and its output is a function of password and salt
/// alone.
#[verifier::external_body]
pub(crate) fn argon2id_derive(password: &[u8], salt: &[u8]) -> (r: Result<
    Vec<u8>,
    argon2::Error,
>)
    ensures
        (r is Ok) <==> (password@.len() <= 0xFFFFFFFF && 8 <= salt@.len() <= 0xFFFFFFFF),
        r matches Ok(key) ==> key@ == derived_key_of(password@, salt@)@,
{
    let params = match argon2::Params::new(
        argon2::Params::DEFAULT_M_COST,
        argon2::Params::DEFAULT_T_COST * 10,
        argon2::Params::DEFAULT_P_COST,
        None,
    ) {
        Ok(p) => p,
        Err(e) => return Err(e),
    };
    let ctx = argon2::Argon2::new(argon2::Algorithm::Argon2id, argon2::Version::V0x13, params);
    let mut out = [0u8; 64];
    match ctx.hash_password_into(password, salt, &mut out) {
        Ok(()) => Ok(out.to_vec()),
        Err(e) => Err(e),
    }
}

} // verus!
