//! Transactions: typed transfer and contract records with a canonical
//! content hash and Ed25519 signing over a fixed digest of their identifying
//! fields.

use vstd::prelude::*;
use vstd::string::StringExecFns;
use vstd::utf8::encode_utf8;

use crate::ambient::{new_id, now_string};
use crate::crypto::{
    ed25519_pubkey_of, ed25519_sign, ed25519_sign_of, ed25519_verifies, ed25519_verify, sha256,
    sha256_of,
};
use crate::errors::{CoreError, CoreResult};
use crate::text::{bytes_debug, bytes_debug_of, hex_encode, hex_of, str_eq, u64_dec_of,
    u64_to_string};

verus! {

/// What a transaction does.
#[derive(Debug, Clone, Copy, PartialEq, Eq, Structural)]
pub enum TransactionType {
    Transfer,
    ContractDeploy,
    ContractCall,
}

/// The debug tag of a transaction type, as the canonical serialization
/// renders it.
pub open spec fn type_tag_of(t: TransactionType) -> Seq<char> {
    match t {
        TransactionType::Transfer => "Transfer"@,
        TransactionType::ContractDeploy => "ContractDeploy"@,
        TransactionType::ContractCall => "ContractCall"@,
    }
}

/// The mathematical image of a transaction.
pub struct TxView {
    pub id: Seq<char>,
    pub sender: Seq<char>,
    pub recipient: Seq<char>,
    pub amount: u64,
    pub data: Seq<u8>,
    pub tx_type: TransactionType,
    pub timestamp: Seq<char>,
    pub signature: Option<Seq<u8>>,
    pub public_key: Option<Seq<u8>>,
}

/// A transfer or contract record. The sender `"system"` is the coinbase
/// sentinel: it alone needs no signature and no balance.
#[derive(Debug)]
pub struct Transaction {
    pub id: String,
    pub sender: String,
    pub recipient: String,
    pub amount: u64,
    pub data: Vec<u8>,
    pub tx_type: TransactionType,
    pub timestamp: String,
    pub signature: Option<Vec<u8>>,
    pub public_key: Option<Vec<u8>>,
}

impl View for Transaction {
    type V = TxView;

    open spec fn view(&self) -> TxView {
        TxView {
            id: self.id@,
            sender: self.sender@,
            recipient: self.recipient@,
            amount: self.amount,
            data: self.data@,
            tx_type: self.tx_type,
            timestamp: self.timestamp@,
            signature: match self.signature {
                Some(ref v) => Some(v@),
                None => None,
            },
            public_key: match self.public_key {
                Some(ref v) => Some(v@),
                None => None,
            },
        }
    }
}

/// The canonical serialization hashed into the content hash: every field
/// but the signature ones, in order.
pub open spec fn content_of(tx: TxView) -> Seq<char> {
    tx.id + tx.sender + tx.recipient + u64_dec_of(tx.amount as nat) + tx.timestamp
        + bytes_debug_of(tx.data) + type_tag_of(tx.tx_type)
}

/// The content hash of a transaction: hex of SHA-256 of the canonical
/// serialization.
pub open spec fn tx_hash_of(tx: TxView) -> Seq<char> {
    hex_of(sha256_of(encode_utf8(content_of(tx))))
}

/// The serialization signed by the sender: the identifying fields alone;
/// the payload and type are deliberately left out.
pub open spec fn signable_of(tx: TxView) -> Seq<char> {
    tx.id + tx.sender + tx.recipient + u64_dec_of(tx.amount as nat) + tx.timestamp
}

/// The digest the signature covers.
pub open spec fn sig_digest_of(tx: TxView) -> Seq<u8> {
    sha256_of(encode_utf8(signable_of(tx)))
}

/// Whether verification accepts the transaction: it is a system
/// transaction, or it carries a well-formed signature and public key that
/// check out over the signable digest.
pub open spec fn verify_ok(tx: TxView) -> bool {
    if tx.sender == "system"@ {
        true
    } else {
        match tx.signature {
            Some(sig) => match tx.public_key {
                Some(pk) => sig.len() == 64 && pk.len() == 32 && ed25519_verifies(
                    pk,
                    sig_digest_of(tx),
                    sig,
                ),
                None => false,
            },
            None => false,
        }
    }
}

impl Transaction {
    /// Builds a transaction with a fresh identifier and timestamp, unsigned.
    pub fn new(
        sender: String,
        recipient: String,
        amount: u64,
        data: Vec<u8>,
        tx_type: TransactionType,
    ) -> (tx: Transaction)
        ensures
            tx@.sender == sender@,
            tx@.recipient == recipient@,
            tx@.amount == amount,
            tx@.data == data@,
            tx@.tx_type == tx_type,
            tx@.signature == None::<Seq<u8>>,
            tx@.public_key == None::<Seq<u8>>,
    {
        Transaction {
            id: new_id(),
            sender,
            recipient,
            amount,
            data,
            tx_type,
            timestamp: now_string(),
            signature: None,
            public_key: None,
        }
    }

    /// Builds an unsigned transfer.
    pub fn new_transfer(sender: String, recipient: String, amount: u64) -> (tx: Transaction)
        ensures
            tx@.sender == sender@,
            tx@.recipient == recipient@,
            tx@.amount == amount,
            tx@.data == Seq::<u8>::empty(),
            tx@.tx_type == TransactionType::Transfer,
            tx@.signature == None::<Seq<u8>>,
            tx@.public_key == None::<Seq<u8>>,
    {
        let tx = Self::new(sender, recipient, amount, Vec::new(), TransactionType::Transfer);
        proof {
            assert(tx@.data =~= Seq::<u8>::empty());
        }
        tx
    }

    /// Builds an unsigned contract deployment carrying the bytecode.
    pub fn new_contract_deploy(sender: String, bytecode: Vec<u8>) -> (tx: Transaction)
        ensures
            tx@.sender == sender@,
            tx@.recipient == Seq::<char>::empty(),
            tx@.amount == 0,
            tx@.data == bytecode@,
            tx@.tx_type == TransactionType::ContractDeploy,
            tx@.signature == None::<Seq<u8>>,
            tx@.public_key == None::<Seq<u8>>,
    {
        Self::new(sender, String::new(), 0, bytecode, TransactionType::ContractDeploy)
    }

    /// Builds an unsigned contract call carrying the call data.
    pub fn new_contract_call(sender: String, contract_address: String, call_data: Vec<u8>) -> (tx:
        Transaction)
        ensures
            tx@.sender == sender@,
            tx@.recipient == contract_address@,
            tx@.amount == 0,
            tx@.data == call_data@,
            tx@.tx_type == TransactionType::ContractCall,
            tx@.signature == None::<Seq<u8>>,
            tx@.public_key == None::<Seq<u8>>,
    {
        Self::new(sender, contract_address, 0, call_data, TransactionType::ContractCall)
    }

    /// Renders the canonical serialization of the content fields.
    fn content_string(&self) -> (s: String)
        ensures
            s@ == content_of(self@),
    {
        let mut s = String::from_str(self.id.as_str());
        s.append(self.sender.as_str());
        s.append(self.recipient.as_str());
        let amount_s = u64_to_string(self.amount);
        s.append(amount_s.as_str());
        s.append(self.timestamp.as_str());
        let data_s = bytes_debug(self.data.as_slice());
        s.append(data_s.as_str());
        let tag = match self.tx_type {
            TransactionType::Transfer => String::from_str("Transfer"),
            TransactionType::ContractDeploy => String::from_str("ContractDeploy"),
            TransactionType::ContractCall => String::from_str("ContractCall"),
        };
        s.append(tag.as_str());
        proof {
            assert(s@ =~= content_of(self@));
        }
        s
    }

    /// The content hash over all fields but the signature ones.
    pub fn hash(&self) -> (r: String)
        ensures
            r@ == tx_hash_of(self@),
    {
        let content = self.content_string();
        let digest = sha256(content.as_str().as_bytes());
        hex_encode(digest.as_slice())
    }

    /// The digest that signing covers.
    fn signable_bytes(&self) -> (r: Vec<u8>)
        ensures
            r@ == sig_digest_of(self@),
    {
        let mut s = String::from_str(self.id.as_str());
        s.append(self.sender.as_str());
        s.append(self.recipient.as_str());
        let amount_s = u64_to_string(self.amount);
        s.append(amount_s.as_str());
        s.append(self.timestamp.as_str());
        proof {
            assert(s@ =~= signable_of(self@));
        }
        sha256(s.as_str().as_bytes())
    }

    /// Signs the transaction: stores the signature over the signable digest
    /// and the public key matching the secret key.
    pub fn sign(&mut self, secret: &Vec<u8>)
        requires
            secret@.len() == 32,
        ensures
            final(self)@ == (TxView {
                signature: Some(ed25519_sign_of(secret@, sig_digest_of(old(self)@))),
                public_key: Some(ed25519_pubkey_of(secret@)),
                ..old(self)@
            }),
            verify_ok(final(self)@),
    {
        let message = self.signable_bytes();
        let signature = ed25519_sign(secret.as_slice(), message.as_slice());
        let public_key = crate::crypto::ed25519_public_key(secret.as_slice());
        self.signature = Some(signature);
        self.public_key = Some(public_key);
        proof {
            assert(sig_digest_of(self@) == sig_digest_of(old(self)@));
        }
    }

    /// Checks the signature. A system transaction passes outright; any
    /// other passes exactly when signature and public key are present,
    /// well-formed, and the signature verifies over the signable digest.
    pub fn verify(&self) -> (r: CoreResult<bool>)
        ensures
            match r {
                Ok(b) => b == true && verify_ok(self@),
                Err(e) => !verify_ok(self@) && e matches CoreError::InvalidSignature(_),
            },
    {
        if str_eq(self.sender.as_str(), "system") {
            return Ok(true);
        }
        let signature = match &self.signature {
            Some(s) => s,
            None => {
                return Err(CoreError::InvalidSignature(String::from_str("missing signature")));
            },
        };
        let public_key = match &self.public_key {
            Some(p) => p,
            None => {
                return Err(CoreError::InvalidSignature(String::from_str("missing public key")));
            },
        };
        if signature.len() != 64 {
            return Err(CoreError::InvalidSignature(String::from_str("bad signature length")));
        }
        if public_key.len() != 32 {
            return Err(CoreError::InvalidSignature(String::from_str("bad public key length")));
        }
        let message = self.signable_bytes();
        if ed25519_verify(public_key.as_slice(), message.as_slice(), signature.as_slice()) {
            Ok(true)
        } else {
            Err(CoreError::InvalidSignature(String::from_str("signature rejected")))
        }
    }
}

/// Copies a byte vector.
pub fn copy_bytes(v: &Vec<u8>) -> (r: Vec<u8>)
    ensures
        r@ == v@,
{
    let n = v.len();
    let mut r: Vec<u8> = Vec::new();
    let mut i: usize = 0;
    while i < n
        invariant
            n == v@.len(),
            i <= n,
            r@ =~= v@.take(i as int),
        decreases n - i,
    {
        r.push(v[i]);
        i += 1;
    }
    proof {
        assert(r@ =~= v@);
    }
    r
}

impl Clone for Transaction {
    /// A clone carries the same view.
    fn clone(&self) -> (res: Self)
        ensures
            res@ == self@,
    {
        Transaction {
            id: self.id.clone(),
            sender: self.sender.clone(),
            recipient: self.recipient.clone(),
            amount: self.amount,
            data: copy_bytes(&self.data),
            tx_type: self.tx_type,
            timestamp: self.timestamp.clone(),
            signature: match &self.signature {
                Some(v) => Some(copy_bytes(v)),
                None => None,
            },
            public_key: match &self.public_key {
                Some(v) => Some(copy_bytes(v)),
                None => None,
            },
        }
    }
}


/// The views of a sequence of transactions, in order.
pub open spec fn tx_views(s: Seq<Transaction>) -> Seq<TxView> {
    Seq::new(s.len(), |i: int| s[i]@)
}

} // verus!
