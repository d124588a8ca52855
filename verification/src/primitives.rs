//! Wire primitives: account identifiers, the universal call envelope, the
//! syscall request and response envelopes, and the errors of the runtime.
//! Every wire type carries its canonical encoding and a decoder proved to
//! invert it.

use crate::codec::{
    dec_bytes, dec_digest, dec_opt_bytes, dec_str, dec_u64, enc_bytes, enc_opt_bytes, enc_str,
    enc_u64, fits_u32, lemma_dec_enc_bytes, lemma_dec_enc_digest, lemma_dec_enc_opt_bytes,
    lemma_dec_enc_str, lemma_dec_enc_u64, read_bytes, read_digest, read_opt_bytes, read_str,
    read_u64, write_bytes, write_digest, write_opt_bytes, write_str, write_u64,
};
use crate::hashing::{hex_of_bytes, is_digest, Digest};
use vstd::prelude::*;
use vstd::utf8::{decode_utf8, encode_utf8, valid_utf8};

verus! {

/// The errors of the runtime. Every failure aborts the invocation it
/// occurs in and propagates to the enclosing call.
#[derive(Clone, Copy, Debug, PartialEq, Eq, Structural)]
pub enum Error {
    /// A requested gas attachment exceeds the available pool, or a guest
    /// ran past its session limit.
    InsufficientGas,
    /// No program is registered under the called account.
    ContractNotFound,
    /// A syscall region failed to decode as its expected type.
    MalformedRequest,
    /// A supplied hash disagrees with the recomputed one.
    HashMismatch,
    /// A guest was called with a method name it does not dispatch.
    UnknownMethod,
    /// An account has no address mapping.
    UnknownAccount,
    /// A guest aborted of its own accord.
    GuestPanic,
}

/// An opaque string identifier of an account.
pub struct AccountId {
    pub id: String,
}

impl View for AccountId {
    type V = Seq<char>;

    open spec fn view(&self) -> Seq<char> {
        self.id@
    }
}

impl Clone for AccountId {
    fn clone(&self) -> (r: Self)
        ensures
            r@ == self@,
    {
        AccountId { id: self.id.clone() }
    }
}

impl AccountId {
    /// Wraps a free-form name.
    pub fn new(id: String) -> (r: Self)
        ensures
            r@ == id@,
    {
        AccountId { id }
    }

    /// The identifier as a string.
    pub fn to_string(&self) -> (r: String)
        ensures
            r@ == self@,
    {
        self.id.clone()
    }

    /// The account derived from a 20-byte address: `0x`, the address in
    /// lower-case hex, then `.evm`.
    pub fn new_evm(address: &[u8; 20]) -> (r: Self)
        ensures
            r@ == "0x"@ + hex_of_bytes(address@) + ".evm"@,
    {
        let mut id = String::new();
        id.append("0x");
        let hex = crate::hashing::bytes_to_hex_string(address.as_slice());
        id.append(hex.as_str());
        id.append(".evm");
        AccountId { id }
    }

    /// Whether two accounts have the same identifier.
    pub fn is(&self, other: &AccountId) -> (r: bool)
        ensures
            r == (self@ == other@),
    {
        crate::sorted_map::str_eq(self.id.as_str(), other.id.as_str())
    }
}

/// The portion of a call a guest sees once identity is stripped out.
pub struct FunctionCall {
    pub method: String,
    pub args: Vec<u8>,
}

/// The view of a [`FunctionCall`].
#[verifier::ext_equal]
pub struct FunctionCallView {
    pub method: Seq<char>,
    pub args: Seq<u8>,
}

impl View for FunctionCall {
    type V = FunctionCallView;

    open spec fn view(&self) -> FunctionCallView {
        FunctionCallView { method: self.method@, args: self.args@ }
    }
}

impl FunctionCall {
    /// Packs a method name and its raw argument bytes.
    pub fn new(method: String, args: Vec<u8>) -> (r: Self)
        ensures
            r@.method == method@,
            r@.args == args@,
    {
        FunctionCall { method, args }
    }
}

/// The universal envelope of an invocation: the call target and the
/// identity context in which it runs.
pub struct ContractCall {
    pub account: AccountId,
    pub method: String,
    pub args: Vec<u8>,
    pub attached_gas: u64,
    pub sender: AccountId,
    pub signer: AccountId,
}

/// The view of a [`ContractCall`].
#[verifier::ext_equal]
pub struct ContractCallView {
    pub account: Seq<char>,
    pub method: Seq<char>,
    pub args: Seq<u8>,
    pub attached_gas: u64,
    pub sender: Seq<char>,
    pub signer: Seq<char>,
}

impl View for ContractCall {
    type V = ContractCallView;

    open spec fn view(&self) -> ContractCallView {
        ContractCallView {
            account: self.account@,
            method: self.method@,
            args: self.args@,
            attached_gas: self.attached_gas,
            sender: self.sender@,
            signer: self.signer@,
        }
    }
}

/// Whether a call is small enough for the length prefixes of its encoding.
pub open spec fn wf_contract_call(v: ContractCallView) -> bool {
    &&& fits_u32(encode_utf8(v.account).len())
    &&& fits_u32(encode_utf8(v.method).len())
    &&& fits_u32(v.args.len())
    &&& fits_u32(encode_utf8(v.sender).len())
    &&& fits_u32(encode_utf8(v.signer).len())
}

/// The canonical encoding of a call: its fields in order.
pub open spec fn enc_contract_call(v: ContractCallView) -> Seq<u8> {
    enc_str(v.account) + enc_str(v.method) + enc_bytes(v.args) + enc_u64(v.attached_gas) + enc_str(
        v.sender,
    ) + enc_str(v.signer)
}

/// Decodes a call from the front of the input.
pub open spec fn dec_contract_call(s: Seq<u8>) -> Option<(ContractCallView, int)> {
    match dec_str(s) {
        Option::Some((account, p1)) => match dec_str(s.skip(p1)) {
            Option::Some((method, p2)) => match dec_bytes(s.skip(p1 + p2)) {
                Option::Some((args, p3)) => match dec_u64(s.skip(p1 + p2 + p3)) {
                    Option::Some((attached_gas, p4)) => match dec_str(s.skip(p1 + p2 + p3 + p4)) {
                        Option::Some((sender, p5)) => match dec_str(
                            s.skip(p1 + p2 + p3 + p4 + p5),
                        ) {
                            Option::Some((signer, p6)) => Option::Some(
                                (
                                    ContractCallView {
                                        account,
                                        method,
                                        args,
                                        attached_gas,
                                        sender,
                                        signer,
                                    },
                                    p1 + p2 + p3 + p4 + p5 + p6,
                                ),
                            ),
                            Option::None => Option::None,
                        },
                        Option::None => Option::None,
                    },
                    Option::None => Option::None,
                },
                Option::None => Option::None,
            },
            Option::None => Option::None,
        },
        Option::None => Option::None,
    }
}

/// Decoding inverts the call encoder, whatever follows it.
#[verifier::rlimit(100)]
#[verifier::spinoff_prover]
pub proof fn lemma_dec_enc_contract_call(v: ContractCallView, rest: Seq<u8>)
    requires
        wf_contract_call(v),
    ensures
        dec_contract_call(enc_contract_call(v) + rest) == Option::Some(
            (v, enc_contract_call(v).len() as int),
        ),
{
    let e1 = enc_str(v.account);
    let e2 = enc_str(v.method);
    let e3 = enc_bytes(v.args);
    let e4 = enc_u64(v.attached_gas);
    let e5 = enc_str(v.sender);
    let e6 = enc_str(v.signer);
    let s = enc_contract_call(v) + rest;
    assert(s =~= e1 + (e2 + e3 + e4 + e5 + e6 + rest));
    lemma_dec_enc_str(v.account, e2 + e3 + e4 + e5 + e6 + rest);
    assert(s.skip(e1.len() as int) =~= e2 + (e3 + e4 + e5 + e6 + rest));
    lemma_dec_enc_str(v.method, e3 + e4 + e5 + e6 + rest);
    assert(s.skip((e1.len() + e2.len()) as int) =~= e3 + (e4 + e5 + e6 + rest));
    lemma_dec_enc_bytes(v.args, e4 + e5 + e6 + rest);
    assert(s.skip((e1.len() + e2.len() + e3.len()) as int) =~= e4 + (e5 + e6 + rest));
    lemma_dec_enc_u64(v.attached_gas, e5 + e6 + rest);
    assert(s.skip((e1.len() + e2.len() + e3.len() + e4.len()) as int) =~= e5 + (e6 + rest));
    lemma_dec_enc_str(v.sender, e6 + rest);
    assert(s.skip((e1.len() + e2.len() + e3.len() + e4.len() + e5.len()) as int) =~= e6 + rest);
    lemma_dec_enc_str(v.signer, rest);
    assert(dec_contract_call(s) matches Option::Some((v2, used)) && v2 =~= v && used
        == enc_contract_call(v).len() as int);
}

impl ContractCall {
    /// Packs a call envelope from its fields.
    pub fn new(
        account: AccountId,
        method: String,
        args: Vec<u8>,
        attached_gas: u64,
        sender: AccountId,
        signer: AccountId,
    ) -> (r: Self)
        ensures
            r@ == (ContractCallView {
                account: account@,
                method: method@,
                args: args@,
                attached_gas,
                sender: sender@,
                signer: signer@,
            }),
    {
        ContractCall { account, method, args, attached_gas, sender, signer }
    }

    /// The portion of the call a guest dispatches on.
    pub fn function_call(&self) -> (r: FunctionCall)
        ensures
            r@.method == self@.method,
            r@.args == self@.args,
    {
        FunctionCall { method: self.method.clone(), args: self.args.clone() }
    }

    /// The canonical bytes of the call.
    pub fn into_bytes(&self) -> (r: Vec<u8>)
        requires
            wf_contract_call(self@),
        ensures
            r@ == enc_contract_call(self@),
    {
        let mut out: Vec<u8> = Vec::new();
        write_str(&mut out, self.account.id.as_str());
        write_str(&mut out, self.method.as_str());
        write_bytes(&mut out, self.args.as_slice());
        write_u64(&mut out, self.attached_gas);
        write_str(&mut out, self.sender.id.as_str());
        write_str(&mut out, self.signer.id.as_str());
        proof {
            assert(out@ =~= enc_contract_call(self@));
        }
        out
    }

    /// Decodes a call from its canonical bytes. The format is not
    /// self-delimiting at the top level, so trailing bytes are tolerated.
    pub fn try_from_bytes(bytes: Vec<u8>) -> (r: Result<Self, Error>)
        ensures
            match r {
                Result::Ok(c) => {
                    &&& dec_contract_call(bytes@) matches Option::Some((v, _))
                    &&& dec_contract_call(bytes@).unwrap().0 == c@
                },
                Result::Err(e) => e == Error::MalformedRequest && dec_contract_call(
                    bytes@,
                ) is None,
            },
    {
        proof {
            assert(bytes@.skip(0) =~= bytes@);
        }
        match read_contract_call(bytes.as_slice(), 0) {
            Option::Some((c, _)) => Result::Ok(c),
            Option::None => Result::Err(Error::MalformedRequest),
        }
    }
}

/// Reads a call envelope at `pos`.
pub fn read_contract_call(input: &[u8], pos: usize) -> (r: Option<(ContractCall, usize)>)
    requires
        pos <= input@.len(),
    ensures
        match r {
            Option::Some((c, newpos)) => {
                &&& dec_contract_call(input@.skip(pos as int)) == Option::Some(
                    (c@, (newpos - pos) as int),
                )
                &&& pos <= newpos <= input@.len()
            },
            Option::None => dec_contract_call(input@.skip(pos as int)) is None,
        },
{
    let s0 = pos;
    let (account, p1) = match read_str(input, pos) {
        Option::Some(x) => x,
        Option::None => {
            return Option::None;
        },
    };
    proof {
        assert(input@.skip(s0 as int).skip(p1 - s0) =~= input@.skip(p1 as int));
    }
    let (method, p2) = match read_str(input, p1) {
        Option::Some(x) => x,
        Option::None => {
            return Option::None;
        },
    };
    proof {
        assert(input@.skip(s0 as int).skip(p2 - s0) =~= input@.skip(p2 as int));
    }
    let (args, p3) = match read_bytes(input, p2) {
        Option::Some(x) => x,
        Option::None => {
            return Option::None;
        },
    };
    proof {
        assert(input@.skip(s0 as int).skip(p3 - s0) =~= input@.skip(p3 as int));
    }
    let (attached_gas, p4) = match read_u64(input, p3) {
        Option::Some(x) => x,
        Option::None => {
            return Option::None;
        },
    };
    proof {
        assert(input@.skip(s0 as int).skip(p4 - s0) =~= input@.skip(p4 as int));
    }
    let (sender, p5) = match read_str(input, p4) {
        Option::Some(x) => x,
        Option::None => {
            return Option::None;
        },
    };
    proof {
        assert(input@.skip(s0 as int).skip(p5 - s0) =~= input@.skip(p5 as int));
    }
    let (signer, p6) = match read_str(input, p5) {
        Option::Some(x) => x,
        Option::None => {
            return Option::None;
        },
    };
    let c = ContractCall {
        account: AccountId { id: account },
        method,
        args,
        attached_gas,
        sender: AccountId { id: sender },
        signer: AccountId { id: signer },
    };
    Option::Some((c, p6))
}

/// The call environment a guest learns from the host: the identity triple
/// and the gas attached to the running invocation.
pub struct CallEnv {
    pub signer: AccountId,
    pub caller: AccountId,
    pub contract: AccountId,
    pub attached_gas: u64,
}

/// The view of a [`CallEnv`].
#[verifier::ext_equal]
pub struct CallEnvView {
    pub signer: Seq<char>,
    pub caller: Seq<char>,
    pub contract: Seq<char>,
    pub attached_gas: u64,
}

impl View for CallEnv {
    type V = CallEnvView;

    open spec fn view(&self) -> CallEnvView {
        CallEnvView {
            signer: self.signer@,
            caller: self.caller@,
            contract: self.contract@,
            attached_gas: self.attached_gas,
        }
    }
}

/// Whether an environment is small enough for its encoding.
pub open spec fn wf_call_env(v: CallEnvView) -> bool {
    &&& fits_u32(encode_utf8(v.signer).len())
    &&& fits_u32(encode_utf8(v.caller).len())
    &&& fits_u32(encode_utf8(v.contract).len())
}

/// The canonical encoding of a call environment.
pub open spec fn enc_call_env(v: CallEnvView) -> Seq<u8> {
    enc_str(v.signer) + enc_str(v.caller) + enc_str(v.contract) + enc_u64(v.attached_gas)
}

/// Decodes a call environment from the front of the input.
pub open spec fn dec_call_env(s: Seq<u8>) -> Option<(CallEnvView, int)> {
    match dec_str(s) {
        Option::Some((signer, p1)) => match dec_str(s.skip(p1)) {
            Option::Some((caller, p2)) => match dec_str(s.skip(p1 + p2)) {
                Option::Some((contract, p3)) => match dec_u64(s.skip(p1 + p2 + p3)) {
                    Option::Some((attached_gas, p4)) => Option::Some(
                        (CallEnvView { signer, caller, contract, attached_gas }, p1 + p2 + p3 + p4),
                    ),
                    Option::None => Option::None,
                },
                Option::None => Option::None,
            },
            Option::None => Option::None,
        },
        Option::None => Option::None,
    }
}

/// Decoding inverts the call-environment encoder, whatever follows it.
#[verifier::rlimit(100)]
#[verifier::spinoff_prover]
pub proof fn lemma_dec_enc_call_env(v: CallEnvView, rest: Seq<u8>)
    requires
        wf_call_env(v),
    ensures
        dec_call_env(enc_call_env(v) + rest) == Option::Some(
            (v, enc_call_env(v).len() as int),
        ),
{
    let e1 = enc_str(v.signer);
    let e2 = enc_str(v.caller);
    let e3 = enc_str(v.contract);
    let e4 = enc_u64(v.attached_gas);
    let s = enc_call_env(v) + rest;
    assert(s =~= e1 + (e2 + e3 + e4 + rest));
    lemma_dec_enc_str(v.signer, e2 + e3 + e4 + rest);
    assert(s.skip(e1.len() as int) =~= e2 + (e3 + e4 + rest));
    lemma_dec_enc_str(v.caller, e3 + e4 + rest);
    assert(s.skip((e1.len() + e2.len()) as int) =~= e3 + (e4 + rest));
    lemma_dec_enc_str(v.contract, e4 + rest);
    assert(s.skip((e1.len() + e2.len() + e3.len()) as int) =~= e4 + rest);
    lemma_dec_enc_u64(v.attached_gas, rest);
    assert(dec_call_env(s) matches Option::Some((v2, used)) && v2 =~= v && used == enc_call_env(
        v,
    ).len() as int);
}

impl CallEnv {
    /// The canonical bytes of the environment.
    pub fn into_bytes(&self) -> (r: Vec<u8>)
        requires
            wf_call_env(self@),
        ensures
            r@ == enc_call_env(self@),
    {
        let mut out: Vec<u8> = Vec::new();
        write_str(&mut out, self.signer.id.as_str());
        write_str(&mut out, self.caller.id.as_str());
        write_str(&mut out, self.contract.id.as_str());
        write_u64(&mut out, self.attached_gas);
        proof {
            assert(out@ =~= enc_call_env(self@));
        }
        out
    }

    /// Decodes an environment from its canonical bytes.
    pub fn try_from_bytes(bytes: Vec<u8>) -> (r: Result<Self, Error>)
        ensures
            match r {
                Result::Ok(c) => {
                    &&& dec_call_env(bytes@) matches Option::Some((v, _))
                    &&& dec_call_env(bytes@).unwrap().0 == c@
                },
                Result::Err(e) => e == Error::MalformedRequest && dec_call_env(bytes@) is None,
            },
    {
        let input = bytes.as_slice();
        proof {
            assert(input@.skip(0) =~= input@);
        }
        let (signer, p1) = match read_str(input, 0) {
            Option::Some(x) => x,
            Option::None => {
                return Result::Err(Error::MalformedRequest);
            },
        };
        proof {
            assert(input@.skip(0).skip(p1 as int) =~= input@.skip(p1 as int));
        }
        let (caller, p2) = match read_str(input, p1) {
            Option::Some(x) => x,
            Option::None => {
                return Result::Err(Error::MalformedRequest);
            },
        };
        proof {
            assert(input@.skip(0).skip(p2 as int) =~= input@.skip(p2 as int));
        }
        let (contract, p3) = match read_str(input, p2) {
            Option::Some(x) => x,
            Option::None => {
                return Result::Err(Error::MalformedRequest);
            },
        };
        proof {
            assert(input@.skip(0).skip(p3 as int) =~= input@.skip(p3 as int));
        }
        let (attached_gas, _p4) = match read_u64(input, p3) {
            Option::Some(x) => x,
            Option::None => {
                return Result::Err(Error::MalformedRequest);
            },
        };
        Result::Ok(
            CallEnv {
                signer: AccountId { id: signer },
                caller: AccountId { id: caller },
                contract: AccountId { id: contract },
                attached_gas,
            },
        )
    }
}

/// A storage read request: on the wire it is the raw UTF-8 key.
pub struct GetStorageRequest {
    pub key: String,
}

impl GetStorageRequest {
    /// The wire bytes: the UTF-8 bytes of the key, unadorned.
    pub fn into_bytes(&self) -> (r: Vec<u8>)
        ensures
            r@ == encode_utf8(self.key@),
    {
        self.key.as_str().as_bytes_vec()
    }

    /// Decodes a request from wire bytes: the whole region is the key.
    pub fn try_from_bytes(bytes: Vec<u8>) -> (r: Result<Self, Error>)
        ensures
            match r {
                Result::Ok(q) => valid_utf8(bytes@) && q.key@ == decode_utf8(bytes@)
                    && encode_utf8(q.key@) == bytes@,
                Result::Err(e) => e == Error::MalformedRequest && !valid_utf8(bytes@),
            },
    {
        match crate::codec::bytes_to_string(bytes.as_slice()) {
            Option::Some(key) => Result::Ok(GetStorageRequest { key }),
            Option::None => Result::Err(Error::MalformedRequest),
        }
    }
}

/// A storage read response: the value if the key is present, and the
/// SHA-256 digest of the value (of the empty byte string if absent).
pub struct GetStorageResponse {
    pub storage: Option<Vec<u8>>,
    pub hash: Digest,
}

/// The view of a [`GetStorageResponse`].
#[verifier::ext_equal]
pub struct GetStorageResponseView {
    pub storage: Option<Seq<u8>>,
    pub hash: Seq<u8>,
}

impl View for GetStorageResponse {
    type V = GetStorageResponseView;

    open spec fn view(&self) -> GetStorageResponseView {
        GetStorageResponseView {
            storage: match self.storage {
                Option::Some(v) => Option::Some(v@),
                Option::None => Option::None,
            },
            hash: self.hash@,
        }
    }
}

/// Whether a storage response is small enough for its encoding and its
/// hash has the shape of a digest.
pub open spec fn wf_get_storage_response(v: GetStorageResponseView) -> bool {
    &&& v.storage matches Option::Some(b) ==> fits_u32(b.len())
    &&& is_digest(v.hash)
}

/// The canonical encoding of a storage response.
pub open spec fn enc_get_storage_response(v: GetStorageResponseView) -> Seq<u8> {
    enc_opt_bytes(v.storage) + v.hash
}

/// Decodes a storage response from the front of the input.
pub open spec fn dec_get_storage_response(s: Seq<u8>) -> Option<(GetStorageResponseView, int)> {
    match dec_opt_bytes(s) {
        Option::Some((storage, p1)) => match dec_digest(s.skip(p1)) {
            Option::Some((hash, p2)) => Option::Some(
                (GetStorageResponseView { storage, hash }, p1 + p2),
            ),
            Option::None => Option::None,
        },
        Option::None => Option::None,
    }
}

/// Decoding inverts the storage-response encoder, whatever follows it.
#[verifier::rlimit(100)]
#[verifier::spinoff_prover]
pub proof fn lemma_dec_enc_get_storage_response(v: GetStorageResponseView, rest: Seq<u8>)
    requires
        wf_get_storage_response(v),
    ensures
        dec_get_storage_response(enc_get_storage_response(v) + rest) == Option::Some(
            (v, enc_get_storage_response(v).len() as int),
        ),
{
    let e1 = enc_opt_bytes(v.storage);
    let s = enc_get_storage_response(v) + rest;
    assert(s =~= e1 + (v.hash + rest));
    lemma_dec_enc_opt_bytes(v.storage, v.hash + rest);
    assert(s.skip(e1.len() as int) =~= v.hash + rest);
    lemma_dec_enc_digest(v.hash, rest);
    assert(dec_get_storage_response(s) matches Option::Some((v2, used)) && v2 =~= v && used
        == enc_get_storage_response(v).len() as int);
}

impl GetStorageResponse {
    /// The canonical bytes of the response.
    pub fn into_bytes(&self) -> (r: Vec<u8>)
        requires
            wf_get_storage_response(self@),
        ensures
            r@ == enc_get_storage_response(self@),
    {
        let mut out: Vec<u8> = Vec::new();
        write_opt_bytes(&mut out, &self.storage);
        write_digest(&mut out, &self.hash);
        proof {
            assert(out@ =~= enc_get_storage_response(self@));
        }
        out
    }

    /// Decodes a response from its canonical bytes.
    pub fn try_from_bytes(bytes: Vec<u8>) -> (r: Result<Self, Error>)
        ensures
            match r {
                Result::Ok(c) => {
                    &&& dec_get_storage_response(bytes@) matches Option::Some((v, _))
                    &&& dec_get_storage_response(bytes@).unwrap().0 == c@
                },
                Result::Err(e) => e == Error::MalformedRequest && dec_get_storage_response(
                    bytes@,
                ) is None,
            },
    {
        let input = bytes.as_slice();
        proof {
            assert(input@.skip(0) =~= input@);
        }
        let (storage, p1) = match read_opt_bytes(input, 0) {
            Option::Some(x) => x,
            Option::None => {
                return Result::Err(Error::MalformedRequest);
            },
        };
        proof {
            assert(input@.skip(0).skip(p1 as int) =~= input@.skip(p1 as int));
        }
        let (hash, _p2) = match read_digest(input, p1) {
            Option::Some(x) => x,
            Option::None => {
                return Result::Err(Error::MalformedRequest);
            },
        };
        Result::Ok(GetStorageResponse { storage, hash })
    }
}

/// A storage write request: the key, the digest the guest claims for the
/// value, and the value itself.
pub struct SetStorageRequest {
    pub key: String,
    pub hash: Digest,
    pub storage: Vec<u8>,
}

/// The view of a [`SetStorageRequest`].
#[verifier::ext_equal]
pub struct SetStorageRequestView {
    pub key: Seq<char>,
    pub hash: Seq<u8>,
    pub storage: Seq<u8>,
}

impl View for SetStorageRequest {
    type V = SetStorageRequestView;

    open spec fn view(&self) -> SetStorageRequestView {
        SetStorageRequestView { key: self.key@, hash: self.hash@, storage: self.storage@ }
    }
}

/// Whether a storage write request is small enough for its encoding and
/// its hash has the shape of a digest.
pub open spec fn wf_set_storage_request(v: SetStorageRequestView) -> bool {
    &&& fits_u32(encode_utf8(v.key).len())
    &&& is_digest(v.hash)
    &&& fits_u32(v.storage.len())
}

/// The canonical encoding of a storage write request.
pub open spec fn enc_set_storage_request(v: SetStorageRequestView) -> Seq<u8> {
    enc_str(v.key) + v.hash + enc_bytes(v.storage)
}

/// Decodes a storage write request from the front of the input.
pub open spec fn dec_set_storage_request(s: Seq<u8>) -> Option<(SetStorageRequestView, int)> {
    match dec_str(s) {
        Option::Some((key, p1)) => match dec_digest(s.skip(p1)) {
            Option::Some((hash, p2)) => match dec_bytes(s.skip(p1 + p2)) {
                Option::Some((storage, p3)) => Option::Some(
                    (SetStorageRequestView { key, hash, storage }, p1 + p2 + p3),
                ),
                Option::None => Option::None,
            },
            Option::None => Option::None,
        },
        Option::None => Option::None,
    }
}

/// Decoding inverts the storage-write encoder, whatever follows it.
#[verifier::rlimit(100)]
#[verifier::spinoff_prover]
pub proof fn lemma_dec_enc_set_storage_request(v: SetStorageRequestView, rest: Seq<u8>)
    requires
        wf_set_storage_request(v),
    ensures
        dec_set_storage_request(enc_set_storage_request(v) + rest) == Option::Some(
            (v, enc_set_storage_request(v).len() as int),
        ),
{
    let e1 = enc_str(v.key);
    let e3 = enc_bytes(v.storage);
    let s = enc_set_storage_request(v) + rest;
    assert(s =~= e1 + (v.hash + (e3 + rest)));
    lemma_dec_enc_str(v.key, v.hash + (e3 + rest));
    assert(s.skip(e1.len() as int) =~= v.hash + (e3 + rest));
    lemma_dec_enc_digest(v.hash, e3 + rest);
    assert(s.skip((e1.len() + v.hash.len()) as int) =~= e3 + rest);
    lemma_dec_enc_bytes(v.storage, rest);
    assert(dec_set_storage_request(s) matches Option::Some((v2, used)) && v2 =~= v && used
        == enc_set_storage_request(v).len() as int);
}

impl SetStorageRequest {
    /// The canonical bytes of the request.
    pub fn into_bytes(&self) -> (r: Vec<u8>)
        requires
            wf_set_storage_request(self@),
        ensures
            r@ == enc_set_storage_request(self@),
    {
        let mut out: Vec<u8> = Vec::new();
        write_str(&mut out, self.key.as_str());
        write_digest(&mut out, &self.hash);
        write_bytes(&mut out, self.storage.as_slice());
        proof {
            assert(out@ =~= enc_set_storage_request(self@));
        }
        out
    }

    /// Decodes a request from its canonical bytes.
    pub fn try_from_bytes(bytes: Vec<u8>) -> (r: Result<Self, Error>)
        ensures
            match r {
                Result::Ok(c) => {
                    &&& dec_set_storage_request(bytes@) matches Option::Some((v, _))
                    &&& dec_set_storage_request(bytes@).unwrap().0 == c@
                    &&& is_digest(c.hash@)
                },
                Result::Err(e) => e == Error::MalformedRequest && dec_set_storage_request(
                    bytes@,
                ) is None,
            },
    {
        let input = bytes.as_slice();
        proof {
            assert(input@.skip(0) =~= input@);
        }
        let (key, p1) = match read_str(input, 0) {
            Option::Some(x) => x,
            Option::None => {
                return Result::Err(Error::MalformedRequest);
            },
        };
        proof {
            assert(input@.skip(0).skip(p1 as int) =~= input@.skip(p1 as int));
        }
        let (hash, p2) = match read_digest(input, p1) {
            Option::Some(x) => x,
            Option::None => {
                return Result::Err(Error::MalformedRequest);
            },
        };
        proof {
            assert(input@.skip(0).skip(p2 as int) =~= input@.skip(p2 as int));
        }
        let (storage, _p3) = match read_bytes(input, p2) {
            Option::Some(x) => x,
            Option::None => {
                return Result::Err(Error::MalformedRequest);
            },
        };
        Result::Ok(SetStorageRequest { key, hash, storage })
    }
}

/// A guest's request for a nested invocation: the target and the gas to
/// carve out of the caller's pool.
pub struct CrossContractCallRequest {
    pub contract: AccountId,
    pub method: String,
    pub args: Vec<u8>,
    pub attached_gas: u64,
}

impl CrossContractCallRequest {
    /// Packs a request from its fields.
    pub fn new(contract: AccountId, method: String, args: Vec<u8>, attached_gas: u64) -> (r: Self)
        ensures
            r.contract@ == contract@,
            r.method@ == method@,
            r.args@ == args@,
            r.attached_gas == attached_gas,
    {
        CrossContractCallRequest { contract, method, args, attached_gas }
    }
}


/// A decoded call is small enough to encode again: each of its strings
/// and its argument bytes came from length-prefixed regions.
pub proof fn lemma_dec_contract_call_wf(s: Seq<u8>)
    ensures
        dec_contract_call(s) matches Option::Some(p) ==> wf_contract_call(p.0),
{
    if dec_contract_call(s) matches Option::Some((v, _)) {
        let p1 = dec_str(s).unwrap().1;
        let p2 = dec_str(s.skip(p1)).unwrap().1;
        let p3 = dec_bytes(s.skip(p1 + p2)).unwrap().1;
        let p4 = dec_u64(s.skip(p1 + p2 + p3)).unwrap().1;
        let p5 = dec_str(s.skip(p1 + p2 + p3 + p4)).unwrap().1;
        crate::codec::lemma_dec_str_fits(s);
        crate::codec::lemma_dec_str_fits(s.skip(p1));
        crate::codec::lemma_dec_str_fits(s.skip(p1 + p2 + p3 + p4));
        crate::codec::lemma_dec_str_fits(s.skip(p1 + p2 + p3 + p4 + p5));
    }
}

} // verus!
