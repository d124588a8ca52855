//! Transactions: the signed envelope a driver submits, hashed over its
//! canonical bytes, and the block header fields a builder draws on.

use crate::codec::{enc_bytes, enc_str, enc_u64, fits_u32, write_bytes, write_digest, write_str, write_u64};
use crate::hashing::{is_digest, sha256, sha256_of, Digest};
use crate::primitives::AccountId;
use vstd::prelude::*;
use vstd::utf8::encode_utf8;

verus! {

/// The body of a transaction: the top-level call it requests and the
/// block context it was built against.
pub struct TransactionBody {
    pub contract: AccountId,
    pub method: String,
    pub args: Vec<u8>,
    pub attached_gas: u64,
    pub signer: AccountId,
    pub origin_block_height: u64,
    pub origin_block_hash: Digest,
    pub deadline: u64,
    pub nonce: u64,
}

/// Whether a body is small enough for its encoding and its block hash
/// has the shape of a digest.
pub open spec fn wf_transaction_body(b: TransactionBody) -> bool {
    &&& fits_u32(encode_utf8(b.contract@).len())
    &&& fits_u32(encode_utf8(b.method@).len())
    &&& fits_u32(b.args@.len())
    &&& fits_u32(encode_utf8(b.signer@).len())
    &&& is_digest(b.origin_block_hash@)
}

/// The canonical encoding of a body: its fields in order.
pub open spec fn enc_transaction_body(b: TransactionBody) -> Seq<u8> {
    enc_str(b.contract@) + enc_str(b.method@) + enc_bytes(b.args@) + enc_u64(b.attached_gas)
        + enc_str(b.signer@) + enc_u64(b.origin_block_height) + b.origin_block_hash@ + enc_u64(
        b.deadline,
    ) + enc_u64(b.nonce)
}

impl TransactionBody {
    /// The canonical bytes of the body.
    pub fn into_bytes(&self) -> (r: Vec<u8>)
        requires
            wf_transaction_body(*self),
        ensures
            r@ == enc_transaction_body(*self),
    {
        let mut out: Vec<u8> = Vec::new();
        write_str(&mut out, self.contract.id.as_str());
        write_str(&mut out, self.method.as_str());
        write_bytes(&mut out, self.args.as_slice());
        write_u64(&mut out, self.attached_gas);
        write_str(&mut out, self.signer.id.as_str());
        write_u64(&mut out, self.origin_block_height);
        write_digest(&mut out, &self.origin_block_hash);
        write_u64(&mut out, self.deadline);
        write_u64(&mut out, self.nonce);
        proof {
            assert(out@ =~= enc_transaction_body(*self));
        }
        out
    }

    /// The SHA-256 digest of the canonical bytes of the body.
    pub fn hash(&self) -> (r: Digest)
        requires
            wf_transaction_body(*self),
        ensures
            r@ == sha256_of(enc_transaction_body(*self)),
            is_digest(r@),
    {
        let bytes = self.into_bytes();
        sha256(bytes.as_slice())
    }
}

/// A transaction: a body and the digest of its canonical bytes.
pub struct Transaction {
    pub hash: Digest,
    pub body: TransactionBody,
}

impl Transaction {
    /// Seals a body under its digest.
    pub fn new(body: TransactionBody) -> (r: Self)
        requires
            wf_transaction_body(body),
        ensures
            r.body == body,
            r.hash@ == sha256_of(enc_transaction_body(body)),
    {
        let hash = body.hash();
        Transaction { hash, body }
    }
}

/// A transaction together with its signature bytes.
pub struct SignedTransaction {
    pub tx: Transaction,
    pub signature: Vec<u8>,
}

/// A block header with its transactions.
pub struct Block {
    pub height: u64,
    pub hash: Digest,
    pub parent_hash: Digest,
    pub timestamp: u64,
    pub txs: Vec<Transaction>,
}

/// The deadline a built transaction gets when none was set.
pub const DEFAULT_DEADLINE: u64 = 10;

/// Builds a transaction stepwise against an origin block. The nonce
/// starts at zero; a driver that draws one from a clock sets it with
/// [`TransactionBuilder::set_nonce`].
pub struct TransactionBuilder {
    pub contract: AccountId,
    pub method: String,
    pub args: Vec<u8>,
    pub attached_gas: u64,
    pub signer: AccountId,
    pub origin_block_height: u64,
    pub origin_block_hash: Digest,
    pub deadline: Option<u64>,
    pub nonce: u64,
}

impl TransactionBuilder {
    /// Starts a builder for a call against the given origin block.
    pub fn new(
        contract: AccountId,
        method: String,
        args: Vec<u8>,
        attached_gas: u64,
        signer: AccountId,
        origin_block: &Block,
    ) -> (r: Self)
        ensures
            r.contract@ == contract@,
            r.method@ == method@,
            r.args@ == args@,
            r.attached_gas == attached_gas,
            r.signer@ == signer@,
            r.origin_block_height == origin_block.height,
            r.origin_block_hash@ == origin_block.hash@,
            r.deadline is None,
            r.nonce == 0,
    {
        TransactionBuilder {
            contract,
            method,
            args,
            attached_gas,
            signer,
            origin_block_height: origin_block.height,
            origin_block_hash: origin_block.hash.clone(),
            deadline: None,
            nonce: 0,
        }
    }

    /// Sets the nonce.
    pub fn set_nonce(self, nonce: u64) -> (r: Self)
        ensures
            r == (TransactionBuilder { nonce, ..self }),
    {
        TransactionBuilder { nonce, ..self }
    }

    /// Sets the deadline.
    pub fn set_deadline(self, deadline: u64) -> (r: Self)
        ensures
            r == (TransactionBuilder { deadline: Option::Some(deadline), ..self }),
    {
        TransactionBuilder { deadline: Some(deadline), ..self }
    }

    /// Seals the builder into a transaction; an unset deadline becomes
    /// [`DEFAULT_DEADLINE`].
    pub fn build(self) -> (r: Transaction)
        requires
            fits_u32(encode_utf8(self.contract@).len()),
            fits_u32(encode_utf8(self.method@).len()),
            fits_u32(self.args@.len()),
            fits_u32(encode_utf8(self.signer@).len()),
            is_digest(self.origin_block_hash@),
        ensures
            r.body.contract@ == self.contract@,
            r.body.method@ == self.method@,
            r.body.args@ == self.args@,
            r.body.attached_gas == self.attached_gas,
            r.body.signer@ == self.signer@,
            r.body.origin_block_height == self.origin_block_height,
            r.body.origin_block_hash@ == self.origin_block_hash@,
            r.body.deadline == match self.deadline {
                Option::Some(d) => d,
                Option::None => DEFAULT_DEADLINE,
            },
            r.body.nonce == self.nonce,
            r.hash@ == sha256_of(enc_transaction_body(r.body)),
    {
        let deadline = match self.deadline {
            Some(d) => d,
            None => DEFAULT_DEADLINE,
        };
        let body = TransactionBody {
            contract: self.contract,
            method: self.method,
            args: self.args,
            attached_gas: self.attached_gas,
            signer: self.signer,
            origin_block_height: self.origin_block_height,
            origin_block_hash: self.origin_block_hash,
            deadline,
            nonce: self.nonce,
        };
        Transaction::new(body)
    }
}

} // verus!
