//! Wallets: an address, which is a public key, and the seed that signs for it.
use crate::crypto;
use crate::hex;
use crate::text;
use vstd::prelude::*;
use vstd::string::*;
use vstd::utf8::*;

verus! {

/// The number of bytes of a public key.
pub const PUBLIC_KEY_BYTES: usize = 32;

pub const HASH_BYTES: usize = 32;

pub const SIGNATURE_BYTES: usize = 64;

/// A signing identity. The address is the public key of the secret seed, both in hexadecimal.
#[derive(Debug, PartialEq, Eq)]
pub struct Wallet {
    address: String,
    secret: String,
}

/// The signing seed that a textual seed stands for.
pub open spec fn signing_seed(seed: Seq<char>) -> Seq<u8> {
    crypto::sha256(encode_utf8("iuna-wallet-seed:"@ + seed))
}

/// The address of a signing seed.
pub open spec fn address_of(seed: Seq<u8>) -> Seq<char> {
    hex::text_of(crypto::ed25519_public_key(seed))
}

/// The signature of a text, in hexadecimal.
pub open spec fn signature_of(seed: Seq<u8>, payload: Seq<char>) -> Seq<char> {
    hex::text_of(crypto::ed25519_signature(seed, encode_utf8(payload)))
}

impl Clone for Wallet {
    fn clone(&self) -> (r: Self)
        ensures
            r.seed() == self.seed(),
    {
        proof {
            use_type_invariant(self);
        }
        Wallet { address: self.address.clone(), secret: self.secret.clone() }
    }
}

impl Wallet {
    /// The signing seed.
    pub closed spec fn seed(&self) -> Seq<u8> {
        hex::exact_bytes_of(self.secret@, 32)->Ok_0
    }

    #[verifier::type_invariant]
    closed spec fn valid(&self) -> bool {
        &&& hex::exact_bytes_of(self.secret@, 32) is Ok
        &&& self.address@ == address_of(self.seed())
        &&& crypto::ed25519_public_key(self.seed()).len() == 32
        &&& crypto::ed25519_is_key(crypto::ed25519_public_key(self.seed()))
    }

    /// The wallet of a textual seed.
    pub fn from_seed(seed: &str) -> (w: Self)
        ensures
            w.seed() == signing_seed(seed@),
    {
        let mut t = text::text("iuna-wallet-seed:");
        t.append(seed);
        let signing = crypto::sha256_digest(t.as_str().as_bytes());
        let secret = hex::hex_encode(signing.as_slice());
        let key = crypto::public_key_of(signing.as_slice());
        let address = hex::hex_encode(key.as_slice());
        proof {
            hex::decode_encode(signing@);
        }
        Wallet { address, secret }
    }

    /// The public key, in hexadecimal: 32 bytes that decode as an Ed25519 key.
    pub fn address(&self) -> (a: &str)
        ensures
            a@ == address_of(self.seed()),
            crypto::ed25519_public_key(self.seed()).len() == 32,
            crypto::ed25519_is_key(crypto::ed25519_public_key(self.seed())),
            hex::exact_bytes_of(a@, 32) == Ok::<Seq<u8>, Seq<char>>(crypto::ed25519_public_key(self.seed())),
    {
        proof {
            use_type_invariant(self);
            hex::decode_encode(crypto::ed25519_public_key(self.seed()));
        }
        self.address.as_str()
    }

    /// The signature of a text, in hexadecimal. It has 64 bytes and verifies under the address.
    pub fn sign_payload(&self, payload: &str) -> (s: String)
        ensures
            s@ == signature_of(self.seed(), payload@),
            crypto::ed25519_signature(self.seed(), encode_utf8(payload@)).len() == 64,
            crypto::ed25519_verifies(
                crypto::ed25519_public_key(self.seed()),
                encode_utf8(payload@),
                crypto::ed25519_signature(self.seed(), encode_utf8(payload@)),
            ),
    {
        proof {
            use_type_invariant(self);
        }
        let seed = match hex::decode_hex_array(self.secret.as_str(), PUBLIC_KEY_BYTES) {
            Ok(seed) => seed,
            Err(_) => {
                assert(false);
                Vec::new()
            },
        };
        let signature = crypto::sign_with(seed.as_slice(), payload.as_bytes());
        hex::hex_encode(signature.as_slice())
    }
}

} // verus!
