//! The counter contract: a single `u64` held under one storage key.
//! `init` writes zero, `add` increments, `get` commits the current value.

use crate::codec::{dec_u64, enc_u64, fits_u32, read_u64, write_u64};
use crate::context::ExecutionContext;
use crate::env::Env;
use crate::primitives::Error;
use crate::runtime::{guest_post, seal, Host};
use crate::sorted_map::str_eq;
use crate::storage::{storage_fits, Storage};
use vstd::prelude::*;
use vstd::string::StringExecFns;
use vstd::utf8::{encode_utf8, is_ascii_chars_encode_utf8};

verus! {

/// The storage key the counter keeps its state under.
pub open spec fn state_key() -> Seq<char> {
    "state"@
}

proof fn lemma_state_key_fits()
    ensures
        fits_u32(encode_utf8(state_key()).len()),
{
    reveal_strlit("state");
    assert(vstd::utf8::is_ascii_chars(state_key()));
    is_ascii_chars_encode_utf8(state_key());
}

/// The counter's current state bytes: the cached write if there is one,
/// else what the host stores.
pub open spec fn state_bytes(env: Env, storage: Storage) -> Option<Seq<u8>> {
    match env.spec_cache(state_key()) {
        Option::Some(e) => Option::Some(e.0@),
        Option::None => storage.contents(env.contract@, state_key()),
    }
}

/// When a run of `add` succeeds: the state is present, decodes, and is
/// below the maximum.
pub open spec fn add_ok(state: Option<Seq<u8>>) -> bool {
    match state {
        Option::Some(b) => dec_u64(b) matches Option::Some(p) && p.0 < u64::MAX,
        Option::None => false,
    }
}

/// When a run of `get` succeeds: the state is present and decodes.
pub open spec fn get_ok(state: Option<Seq<u8>>) -> bool {
    match state {
        Option::Some(b) => dec_u64(b) is Some,
        Option::None => false,
    }
}

/// When a whole counter invocation succeeds, given the host storage it
/// starts from.
pub open spec fn entry_ok(call: crate::primitives::ContractCallView, storage: Storage) -> bool {
    ||| call.method == "init"@
    ||| (call.method == "add"@ && add_ok(storage.contents(call.account, state_key())))
    ||| (call.method == "get"@ && get_ok(storage.contents(call.account, state_key())))
}

/// The counter contract.
pub struct Contract;

impl Contract {
    /// Writes the zero state into the cache.
    pub fn init(env: &mut Env)
        requires
            old(env).wf(),
            old(env).storage_cache.entries@.len() < u32::MAX,
        ensures
            final(env).wf(),
            final(env).same_identity(*old(env)),
            final(env).initial_storage_hashes == old(env).initial_storage_hashes,
            final(env).cross_calls_hashes == old(env).cross_calls_hashes,
            final(env).spec_cache(state_key()) matches Option::Some(e) && e.1 && e.0@ == enc_u64(
                0,
            ),
            forall|k2: Seq<char>|
                k2 != state_key() ==> final(env).spec_cache(k2) == old(env).spec_cache(k2),
    {
        proof {
            lemma_state_key_fits();
        }
        let mut state: Vec<u8> = Vec::new();
        write_u64(&mut state, 0);
        env.set_storage(String::from_str("state"), state);
    }

    /// Reads the current value and increments it in the cache. A missing
    /// or undecodable state, or a counter at its maximum, aborts the
    /// guest.
    pub fn add(env: &mut Env, storage: &Storage) -> (r: Result<(), Error>)
        requires
            old(env).wf(),
            storage_fits(*storage),
            old(env).storage_cache.entries@.len() + 2 <= u32::MAX,
            old(env).initial_storage_hashes.entries@.len() < u32::MAX,
        ensures
            final(env).wf(),
            final(env).same_identity(*old(env)),
            final(env).cross_calls_hashes == old(env).cross_calls_hashes,
            r is Ok <==> add_ok(state_bytes(*old(env), *storage)),
            match r {
                Result::Ok(_) => {
                    &&& state_bytes(*old(env), *storage) matches Option::Some(b)
                    &&& dec_u64(state_bytes(*old(env), *storage).unwrap()) matches Option::Some(_)
                    &&& {
                        let v = dec_u64(state_bytes(*old(env), *storage).unwrap()).unwrap().0;
                        &&& v < u64::MAX
                        &&& final(env).spec_cache(state_key()) matches Option::Some(e) && e.1
                            && e.0@ == enc_u64((v + 1) as u64)
                        &&& forall|k2: Seq<char>|
                            k2 != state_key() ==> final(env).spec_cache(k2) == old(env).spec_cache(
                                k2,
                            ) || (final(env).spec_cache(k2) matches Option::Some(ce) && !ce.1)
                    }
                },
                Result::Err(e) => e == Error::GuestPanic,
            },
    {
        proof {
            lemma_state_key_fits();
        }
        let current = match env.get_storage(storage, "state") {
            Result::Ok(o) => o,
            Result::Err(_) => {
                return Result::Err(Error::GuestPanic);
            },
        };
        let bytes = match current {
            Some(b) => b,
            None => {
                return Result::Err(Error::GuestPanic);
            },
        };
        let value = match read_u64(bytes.as_slice(), 0) {
            Some((v, _)) => v,
            None => {
                return Result::Err(Error::GuestPanic);
            },
        };
        if value == u64::MAX {
            return Result::Err(Error::GuestPanic);
        }
        let mut state: Vec<u8> = Vec::new();
        write_u64(&mut state, value + 1);
        proof {
            assert(bytes@.skip(0) =~= bytes@);
        }
        env.set_storage(String::from_str("state"), state);
        Result::Ok(())
    }

    /// Reads the current value and returns its canonical bytes as the
    /// output to commit. A missing or undecodable state aborts the guest.
    pub fn get(env: &mut Env, storage: &Storage) -> (r: Result<Vec<u8>, Error>)
        requires
            old(env).wf(),
            storage_fits(*storage),
            old(env).storage_cache.entries@.len() < u32::MAX,
            old(env).initial_storage_hashes.entries@.len() < u32::MAX,
        ensures
            final(env).wf(),
            final(env).same_identity(*old(env)),
            final(env).cross_calls_hashes == old(env).cross_calls_hashes,
            r is Ok <==> get_ok(state_bytes(*old(env), *storage)),
            match r {
                Result::Ok(out) => {
                    &&& state_bytes(*old(env), *storage) matches Option::Some(b)
                    &&& dec_u64(state_bytes(*old(env), *storage).unwrap()) matches Option::Some(_)
                    &&& out@ == enc_u64(
                        dec_u64(state_bytes(*old(env), *storage).unwrap()).unwrap().0,
                    )
                    &&& forall|k2: Seq<char>|
                        final(env).spec_cache(k2) is Some ==> !final(env).spec_cache(
                            k2,
                        ).unwrap().1 || old(env).spec_cache(k2) == final(env).spec_cache(k2)
                },
                Result::Err(e) => e == Error::GuestPanic,
            },
    {
        proof {
            lemma_state_key_fits();
        }
        let current = match env.get_storage(storage, "state") {
            Result::Ok(o) => o,
            Result::Err(_) => {
                return Result::Err(Error::GuestPanic);
            },
        };
        let bytes = match current {
            Some(b) => b,
            None => {
                return Result::Err(Error::GuestPanic);
            },
        };
        let value = match read_u64(bytes.as_slice(), 0) {
            Some((v, _)) => v,
            None => {
                return Result::Err(Error::GuestPanic);
            },
        };
        proof {
            assert(bytes@.skip(0) =~= bytes@);
        }
        let mut out: Vec<u8> = Vec::new();
        write_u64(&mut out, value);
        Result::Ok(out)
    }
}

/// The counter's entry dispatcher, as the runtime invokes it.
#[verifier::rlimit(100)]
#[verifier::spinoff_prover]
pub fn entrypoint(host: &mut Host, ctx: &mut ExecutionContext, fuel: u64) -> (r: Result<
    Vec<u8>,
    Error,
>)
    requires
        crate::primitives::wf_contract_call(old(ctx).spec_call()@),
        old(ctx).spec_children().len() == 0,
        old(ctx).spec_session() is None,
        storage_fits(old(host).storage),
        fuel >= 1,
    ensures
        storage_fits(final(host).storage),
        final(ctx).spec_call() == old(ctx).spec_call(),
        final(ctx).spec_session() is None,
        final(ctx).spec_children() == old(ctx).spec_children(),
        match r {
            Result::Ok(j) => guest_post(
                old(ctx).spec_call()@,
                j@,
                *final(ctx),
                final(host).storage,
            ),
            Result::Err(_) => true,
        },
        ({
            let call = old(ctx).spec_call()@;
            let state0 = old(host).storage.contents(call.account, state_key());
            &&& (call.method != "init"@ && call.method != "add"@ && call.method != "get"@)
                <==> r == Result::<Vec<u8>, Error>::Err(Error::UnknownMethod)
            &&& call.method == "init"@ ==> {
                &&& r is Ok
                &&& {
                    let o = crate::runtime::outcome_of_journal(r.unwrap()@).unwrap();
                    &&& o.output.len() == 0
                    &&& crate::outcome::view_get(o.storage_writes, state_key()) == Option::Some(
                        crate::hashing::sha256_of(enc_u64(0)),
                    )
                }
            }
            &&& call.method == "add"@ ==> {
                &&& (r is Ok <==> add_ok(state0))
                &&& r is Ok ==> {
                    let o = crate::runtime::outcome_of_journal(r.unwrap()@).unwrap();
                    &&& o.output.len() == 0
                    &&& crate::outcome::view_get(o.storage_writes, state_key()) == Option::Some(
                        crate::hashing::sha256_of(
                            enc_u64((dec_u64(state0.unwrap()).unwrap().0 + 1) as u64),
                        ),
                    )
                }
            }
            &&& call.method == "get"@ ==> {
                &&& (r is Ok <==> get_ok(state0))
                &&& r is Ok ==> {
                    let o = crate::runtime::outcome_of_journal(r.unwrap()@).unwrap();
                    &&& o.output == enc_u64(dec_u64(state0.unwrap()).unwrap().0)
                    &&& forall|k: Seq<char>|
                        crate::outcome::view_get(o.storage_writes, k) is None
                }
            }
        }),
    decreases fuel, 3int,
{
    let mut env = Env::new_from_call(ctx.call());
    proof {
        assert(crate::outcome::pair_list_view(env.cross_calls_hashes@) =~= Seq::<(
            Seq<u8>,
            Seq<u8>,
        )>::empty());
        reveal_strlit("init");
        reveal_strlit("add");
        reveal_strlit("get");
        assert("init"@.len() == 4 && "add"@.len() == 3 && "get"@.len() == 3);
        assert("add"@[0] == 'a' && "get"@[0] == 'g');
        assert("init"@ != "add"@ && "init"@ != "get"@ && "add"@ != "get"@);
    }
    let method = ctx.call().method.as_str();
    if str_eq(method, "init") {
        Contract::init(&mut env);
        let output: Vec<u8> = Vec::new();
        seal(env, host, ctx, output)
    } else if str_eq(method, "add") {
        match Contract::add(&mut env, &host.storage) {
            Result::Ok(_) => {},
            Result::Err(e) => {
                return Result::Err(e);
            },
        }
        let output: Vec<u8> = Vec::new();
        seal(env, host, ctx, output)
    } else if str_eq(method, "get") {
        let output = match Contract::get(&mut env, &host.storage) {
            Result::Ok(o) => o,
            Result::Err(e) => {
                return Result::Err(e);
            },
        };
        seal(env, host, ctx, output)
    } else {
        Result::Err(Error::UnknownMethod)
    }
}

} // verus!
