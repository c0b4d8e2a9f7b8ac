//! Wallets: ephemeral Ed25519 key holders. The address is the `0x` prefix
//! followed by the first forty hex characters of the public key's SHA-256.

use vstd::prelude::*;
use vstd::string::StrSliceExecFns;
use vstd::string::StringExecFns;

use crate::crypto::{ed25519_generate, ed25519_public_key, ed25519_pubkey_of, sha256, sha256_of};
use crate::text::{hex_encode, hex_of, lemma_hex_of_ascii, lemma_hex_of_len};

verus! {

/// The address derived from a public key.
pub open spec fn address_of(pubkey: Seq<u8>) -> Seq<char> {
    "0x"@ + hex_of(sha256_of(pubkey)).take(40)
}

/// What a wallet shows of itself: its address and public key in hex.
#[derive(Debug)]
pub struct WalletInfo {
    pub address: String,
    pub public_key: String,
}

/// A keypair holder. The secret key never leaves except to sign.
#[derive(Debug)]
pub struct Wallet {
    secret: Vec<u8>,
    pub address: String,
}

impl Wallet {
    /// The secret key bytes.
    pub closed spec fn secret_s(&self) -> Seq<u8> {
        self.secret@
    }

    /// The address characters.
    pub closed spec fn address_s(&self) -> Seq<char> {
        self.address@
    }

    /// The secret key is 32 bytes and the address is derived from it.
    pub open spec fn wf(&self) -> bool {
        self.secret_s().len() == 32 && self.address_s() == address_of(
            ed25519_pubkey_of(self.secret_s()),
        )
    }

    /// Generates a fresh keypair and derives its address.
    pub fn new() -> (w: Wallet)
        ensures
            w.wf(),
            w.address_s().len() == 42,
    {
        let secret = ed25519_generate();
        let address = Self::derive_address(&secret);
        Wallet { secret, address }
    }

    fn derive_address(secret: &Vec<u8>) -> (r: String)
        requires
            secret@.len() == 32,
        ensures
            r@ == address_of(ed25519_pubkey_of(secret@)),
            r@.len() == 42,
    {
        let public_key = ed25519_public_key(secret.as_slice());
        let digest = sha256(public_key.as_slice());
        let hex = hex_encode(digest.as_slice());
        proof {
            lemma_hex_of_len(digest@);
            lemma_hex_of_ascii(digest@);
        }
        let head = hex.as_str().substring_ascii(0, 40);
        let mut s = String::from_str("0x");
        s.append(head);
        proof {
            reveal_strlit("0x");
        }
        s
    }

    /// The secret key, for signing.
    pub fn signing_key(&self) -> (r: &Vec<u8>)
        ensures
            r@ == self.secret_s(),
    {
        &self.secret
    }

    /// The public key in hex.
    pub fn public_key_hex(&self) -> (r: String)
        requires
            self.wf(),
        ensures
            r@ == hex_of(ed25519_pubkey_of(self.secret_s())),
    {
        let public_key = ed25519_public_key(self.secret.as_slice());
        hex_encode(public_key.as_slice())
    }

    /// The wallet's public face: address and public key.
    pub fn info(&self) -> (r: WalletInfo)
        requires
            self.wf(),
        ensures
            r.address@ == self.address_s(),
            r.public_key@ == hex_of(ed25519_pubkey_of(self.secret_s())),
    {
        WalletInfo { address: self.address.clone(), public_key: self.public_key_hex() }
    }
}

impl Default for Wallet {
    fn default() -> (w: Wallet)
        ensures
            w.wf(),
            w.address_s().len() == 42,
    {
        Wallet::new()
    }
}

} // verus!
