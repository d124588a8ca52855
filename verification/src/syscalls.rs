//! Host-side syscall handlers for the environment, storage, and account
//! mapping. Each takes the request region a guest supplied, performs the
//! effect, and produces the response region. The cross-contract handler
//! lives with the driver it recurses into.

use crate::codec::bytes_to_string;
use crate::context::{evm_address_of, ExecutionContext};
use crate::hashing::{is_digest, sha256, sha256_of, Digest};
use crate::primitives::{
    enc_call_env, enc_get_storage_response, wf_call_env, AccountId, CallEnv, CallEnvView, Error,
    GetStorageResponse, GetStorageResponseView, SetStorageRequest,
};
use crate::storage::{storage_fits, Storage};
use vstd::prelude::*;
use vstd::utf8::{decode_utf8, valid_utf8};

verus! {

/// The call environment the bound context presents to its guest.
pub open spec fn call_env_of(ctx: ExecutionContext) -> CallEnvView {
    CallEnvView {
        signer: ctx.spec_call().signer@,
        caller: ctx.spec_call().sender@,
        contract: ctx.spec_call().account@,
        attached_gas: ctx.spec_call().attached_gas,
    }
}

/// Handles `GET_ENV`: the response is the canonical serialization of the
/// environment of the bound context.
pub fn handle_get_env(ctx: &ExecutionContext) -> (r: Vec<u8>)
    requires
        wf_call_env(call_env_of(*ctx)),
    ensures
        r@ == enc_call_env(call_env_of(*ctx)),
{
    let call = ctx.call();
    let env = CallEnv {
        signer: call.signer.clone(),
        caller: call.sender.clone(),
        contract: call.account.clone(),
        attached_gas: call.attached_gas,
    };
    env.into_bytes()
}

/// Handles `GET_STORAGE`: the request region is the raw UTF-8 key; the
/// response carries the stored value, if any, and the SHA-256 digest of
/// the value (of the empty byte string where the key is absent). A
/// missing key is never an error.
pub fn handle_get_storage(storage: &Storage, contract: &AccountId, request: &Vec<u8>) -> (r:
    Result<Vec<u8>, Error>)
    requires
        storage_fits(*storage),
    ensures
        match r {
            Result::Ok(resp) => {
                &&& valid_utf8(request@)
                &&& resp@ == enc_get_storage_response(
                    GetStorageResponseView {
                        storage: storage.contents(contract@, decode_utf8(request@)),
                        hash: match storage.contents(contract@, decode_utf8(request@)) {
                            Option::Some(v) => sha256_of(v),
                            Option::None => sha256_of(Seq::<u8>::empty()),
                        },
                    },
                )
                &&& match storage.contents(contract@, decode_utf8(request@)) {
                    Option::Some(v) => is_digest(sha256_of(v)),
                    Option::None => is_digest(sha256_of(Seq::<u8>::empty())),
                }
            },
            Result::Err(e) => e == Error::MalformedRequest && !valid_utf8(request@),
        },
{
    let key = match bytes_to_string(request.as_slice()) {
        Option::Some(k) => k,
        Option::None => {
            return Result::Err(Error::MalformedRequest);
        },
    };
    let looked = storage.read(contract.id.as_str(), key.as_str());
    let response = match looked {
        Option::Some(v) => {
            let value = v.clone();
            let hash = sha256(value.as_slice());
            GetStorageResponse { storage: Some(value), hash }
        },
        Option::None => {
            let empty: Vec<u8> = Vec::new();
            let hash = sha256(empty.as_slice());
            GetStorageResponse { storage: None, hash }
        },
    };
    Result::Ok(response.into_bytes())
}

/// Handles `SET_STORAGE`: decodes the request, recomputes the SHA-256
/// digest of the supplied value, and rejects the write with
/// `HashMismatch` — leaving storage untouched — exactly when the supplied
/// digest disagrees. On success the value is persisted under the bound
/// contract's namespace and its digest returned.
pub fn handle_set_storage(storage: &mut Storage, contract: &AccountId, request: &Vec<u8>) -> (r:
    Result<Digest, Error>)
    requires
        storage_fits(*old(storage)),
    ensures
        storage_fits(*final(storage)),
        match r {
            Result::Ok(h) => {
                &&& crate::primitives::dec_set_storage_request(request@) matches Option::Some(
                    (v, _),
                )
                &&& {
                    let v = crate::primitives::dec_set_storage_request(request@).unwrap().0;
                    &&& sha256_of(v.storage) == v.hash
                    &&& h@ == v.hash
                    &&& forall|c2: Seq<char>, k2: Seq<char>|
                        final(storage).contents(c2, k2) == if c2 == contract@ && k2 == v.key {
                            Option::Some(v.storage)
                        } else {
                            old(storage).contents(c2, k2)
                        }
                }
            },
            Result::Err(e) => {
                &&& *final(storage) == *old(storage)
                &&& match e {
                    Error::MalformedRequest => crate::primitives::dec_set_storage_request(
                        request@,
                    ) is None,
                    Error::HashMismatch => {
                        &&& crate::primitives::dec_set_storage_request(request@) matches
                            Option::Some((v, _))
                        &&& sha256_of(
                            crate::primitives::dec_set_storage_request(
                                request@,
                            ).unwrap().0.storage,
                        ) != crate::primitives::dec_set_storage_request(request@).unwrap().0.hash
                    },
                    _ => false,
                }
            },
        },
{
    let req = match SetStorageRequest::try_from_bytes(request.clone()) {
        Result::Ok(q) => q,
        Result::Err(_) => {
            return Result::Err(Error::MalformedRequest);
        },
    };
    let recomputed = sha256(req.storage.as_slice());
    if !crate::hashing::digest_eq(&recomputed, &req.hash) {
        return Result::Err(Error::HashMismatch);
    }
    let SetStorageRequest { key, hash, storage: value } = req;
    let ghost value_view = value@;
    storage.write(contract.id.clone(), key, value);
    proof {
        assert(storage_fits(*storage)) by {
            assert forall|c2: Seq<char>, k2: Seq<char>|
                (#[trigger] storage.contents(c2, k2)) is Some implies storage.contents(
                c2,
                k2,
            ).unwrap().len() <= u32::MAX by {
                if storage.contents(c2, k2) == Option::Some(value_view) {
                    assert(value_view.len() <= u32::MAX);
                }
            }
        }
    }
    Result::Ok(hash)
}

/// Handles `GET_ACCOUNT_MAPPING`: the request region is the raw UTF-8
/// account id; the response is the mapped 20-byte address. An unknown
/// account is a fatal error.
pub fn handle_get_account_mapping(request: &Vec<u8>) -> (r: Result<Vec<u8>, Error>)
    ensures
        match r {
            Result::Ok(resp) => {
                &&& valid_utf8(request@)
                &&& evm_address_of(decode_utf8(request@)) == Option::Some(resp@)
            },
            Result::Err(e) => match e {
                Error::MalformedRequest => !valid_utf8(request@),
                Error::UnknownAccount => valid_utf8(request@) && evm_address_of(
                    decode_utf8(request@),
                ) is None,
                _ => false,
            },
        },
{
    let account = match bytes_to_string(request.as_slice()) {
        Option::Some(k) => k,
        Option::None => {
            return Result::Err(Error::MalformedRequest);
        },
    };
    let account = AccountId::new(account);
    match ExecutionContext::get_account_evm_address(&account) {
        Result::Ok(address) => {
            let mut out: Vec<u8> = Vec::new();
            out.extend_from_slice(address.as_slice());
            proof {
                assert(out@ =~= address@);
            }
            Result::Ok(out)
        },
        Result::Err(e) => Result::Err(e),
    }
}

} // verus!
