//! Master key derivation from a password with Argon2id.

use vstd::prelude::*;
use crate::config::EncryptionConfig;
use crate::error::Error;

verus! {

/// Bytes of a derived key.
pub const KEY_SIZE: usize = 32;

/// Bytes of a key-derivation salt.
pub const SALT_SIZE: usize = 32;

/// What Argon2id (version 0x13, 32-byte output) derives from a password and a
/// salt with memory cost `m` KiB, `t` iterations and parallelism `p`.
pub uninterp spec fn argon2id_key(password: Seq<u8>, salt: Seq<u8>, m: u32, t: u32, p: u32) -> Seq<u8>;

/// Relies on argon2::Params::new and argon2::Argon2::hash_password_into with
/// Algorithm::Argon2id and Version::V0x13: the key depends on the inputs
/// alone and has the requested 32 bytes. Params::new computes `8 * p` first,
/// so `p` is kept within the crate's own bound to rule out its overflow.
/// Params::new accepts m >= 8, m >= 8 * p, t >= 1 and 1 <= p <= 2^24 - 1
/// (params.rs, `new`), and hash_password_into then fails only on a password
/// over u32::MAX bytes or a salt outside 8 ..= u32::MAX bytes (lib.rs,
/// `hash_password_into_with_memory` and `verify_inputs`).
#[verifier::external_body]
fn argon2id(password: &[u8], salt: &[u8], m: u32, t: u32, p: u32) -> (r: Option<Vec<u8>>)
    requires
        1 <= p <= 0xFFFFFF,
    ensures
        r.is_some() ==> r.unwrap()@ == argon2id_key(password@, salt@, m, t, p) && r.unwrap()@.len() == KEY_SIZE,
        params_ok(m, t, p) && 8 <= salt@.len() <= u32::MAX && password@.len() <= u32::MAX ==> r.is_some(),
{
    let params = match argon2::Params::new(m, t, p, Some(KEY_SIZE)) {
        Ok(params) => params,
        Err(_) => return None,
    };
    let mut out = vec![0u8; KEY_SIZE];
    match argon2::Argon2::new(argon2::Algorithm::Argon2id, argon2::Version::V0x13, params).hash_password_into(password, salt, &mut out) {
        Ok(()) => Some(out),
        Err(_) => None,
    }
}

/// Relies on rand::thread_rng and RngCore::fill_bytes: `n` bytes from the
/// operating system's seeded generator. Nothing is promised of their values.
#[verifier::external_body]
pub(crate) fn random_bytes(n: usize) -> (r: Vec<u8>)
    ensures
        r@.len() == n,
{
    let mut v = vec![0u8; n];
    rand::RngCore::fill_bytes(&mut rand::thread_rng(), &mut v);
    v
}

/// Argon2 parameters this library accepts: at least 8 KiB per lane, one
/// iteration, and between 1 and 2^24 - 1 lanes.
pub open spec fn params_ok(m: u32, t: u32, p: u32) -> bool {
    &&& 1 <= p <= 0xFFFFFF
    &&& t >= 1
    &&& m >= 8
    &&& m >= 8 * p
}

/// A derived key and the salt it was derived with.
pub struct DerivedKey {
    key: Vec<u8>,
    salt: Vec<u8>,
}

impl DerivedKey {
    pub closed spec fn key_view(&self) -> Seq<u8> {
        self.key@
    }

    pub closed spec fn salt_view(&self) -> Seq<u8> {
        self.salt@
    }

    /// The key bytes.
    pub fn key(&self) -> (r: &[u8])
        ensures
            r@ == self.key_view(),
    {
        self.key.as_slice()
    }

    /// The salt.
    pub fn salt(&self) -> (r: &[u8])
        ensures
            r@ == self.salt_view(),
    {
        self.salt.as_slice()
    }
}

/// A fresh random salt.
pub fn generate_salt() -> (r: Vec<u8>)
    ensures
        r@.len() == SALT_SIZE,
{
    random_bytes(SALT_SIZE)
}

/// Derives the master key from `password` with the Argon2 parameters of
/// `config`, using the first `SALT_SIZE` bytes of `salt`, or a fresh random
/// salt when none is given.
pub fn derive_key(password: &[u8], salt: Option<&[u8]>, config: &EncryptionConfig) -> (r: Result<DerivedKey, Error>)
    ensures
        salt.is_some() && salt.unwrap()@.len() < SALT_SIZE ==> r == Err::<DerivedKey, Error>(
            Error::SaltTooShort { len: salt.unwrap()@.len() as usize, needed: SALT_SIZE }),
        !(salt.is_some() && salt.unwrap()@.len() < SALT_SIZE)
            && !params_ok(config.argon2_memory_kib, config.argon2_iterations, config.argon2_parallelism)
            ==> r == Err::<DerivedKey, Error>(Error::KeyDerivation),
        r.is_err() ==> r == Err::<DerivedKey, Error>(Error::KeyDerivation) || r matches Err(Error::SaltTooShort { .. }),
        !(salt.is_some() && salt.unwrap()@.len() < SALT_SIZE)
            && params_ok(config.argon2_memory_kib, config.argon2_iterations, config.argon2_parallelism)
            && password@.len() <= u32::MAX ==> r.is_ok(),
        r.is_ok() ==> {
            let k = r.unwrap();
            &&& k.salt_view().len() == SALT_SIZE
            &&& salt.is_some() ==> k.salt_view() == salt.unwrap()@.subrange(0, SALT_SIZE as int)
            &&& k.key_view() == argon2id_key(password@, k.salt_view(), config.argon2_memory_kib,
                config.argon2_iterations, config.argon2_parallelism)
            &&& k.key_view().len() == KEY_SIZE
        },
{
    let salt_bytes = match salt {
        Some(s) => {
            if s.len() < SALT_SIZE {
                return Err(Error::SaltTooShort { len: s.len(), needed: SALT_SIZE });
            }
            crate::bytes::copy_range(s, 0, SALT_SIZE)
        },
        None => generate_salt(),
    };
    let m = config.argon2_memory_kib;
    let t = config.argon2_iterations;
    let p = config.argon2_parallelism;
    if p < 1 || p > 0xFFFFFF || t < 1 || m < 8 || (m as u64) < 8 * (p as u64) {
        return Err(Error::KeyDerivation);
    }
    match argon2id(password, salt_bytes.as_slice(), m, t, p) {
        Some(key) => Ok(DerivedKey { key, salt: salt_bytes }),
        None => Err(Error::KeyDerivation),
    }
}

} // verus!
