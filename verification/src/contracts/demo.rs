//! The cross-call demonstration contract: one method cross-calls the
//! fibonacci contract and multiplies its answer; another forwards a
//! token transfer to a token contract.

use crate::codec::{
    dec_u64, enc_str, enc_u128, enc_u32, enc_u64, fits_u32, read_str, read_u128, read_u32,
    read_u64, write_str, write_u128, write_u32, write_u64,
};
use crate::context::ExecutionContext;
use crate::env::Env;
use crate::outcome::pair_list_view;
use crate::primitives::{AccountId, ContractCallView, Error};
use crate::runtime::{child_outcome, guest_post, pairs_link, seal, Host};
use crate::sorted_map::str_eq;
use crate::storage::storage_fits;
use vstd::prelude::*;
use vstd::string::StringExecFns;
use vstd::utf8::{encode_utf8, is_ascii_chars_encode_utf8};

verus! {

proof fn lemma_fib_names_fit()
    ensures
        fits_u32(encode_utf8("fibonacci.spin"@).len()),
        fits_u32(encode_utf8("fibonacci"@).len()),
{
    reveal_strlit("fibonacci.spin");
    reveal_strlit("fibonacci");
    assert(vstd::utf8::is_ascii_chars("fibonacci.spin"@));
    assert(vstd::utf8::is_ascii_chars("fibonacci"@));
    is_ascii_chars_encode_utf8("fibonacci.spin"@);
    is_ascii_chars_encode_utf8("fibonacci"@);
}

/// The demonstration contract.
pub struct Contract;

impl Contract {
    /// Cross-calls `fibonacci.spin` with `n`, multiplies the committed
    /// answer by `multiplier`, and returns the product's canonical bytes
    /// as the output to commit. An answer that does not decode, or a
    /// product that overflows, aborts the guest.
    pub fn fibonacci_and_multiply(
        env: &mut Env,
        host: &mut Host,
        ctx: &mut ExecutionContext,
        input: (u32, u64),
        fuel: u64,
    ) -> (r: Result<Vec<u8>, Error>)
        requires
            old(env).wf(),
            old(env).matches_call(old(ctx).spec_call()@),
            crate::primitives::wf_contract_call(old(ctx).spec_call()@),
            pairs_link(
                pair_list_view(old(env).cross_calls_hashes@),
                old(ctx).spec_children(),
            ),
            storage_fits(old(host).storage),
            old(env).cross_calls_hashes@.len() < u32::MAX,
            fuel >= 1,
        ensures
            final(env).wf(),
            final(env).same_identity(*old(env)),
            final(env).storage_cache == old(env).storage_cache,
            final(env).initial_storage_hashes == old(env).initial_storage_hashes,
            final(ctx).spec_call() == old(ctx).spec_call(),
            final(ctx).spec_session() == old(ctx).spec_session(),
            storage_fits(final(host).storage),
            pairs_link(
                pair_list_view(final(env).cross_calls_hashes@),
                final(ctx).spec_children(),
            ),
            match r {
                Result::Ok(out) => {
                    &&& final(ctx).spec_children().len() == old(ctx).spec_children().len() + 1
                    &&& {
                        let co = child_outcome(final(ctx).spec_children().last());
                        &&& co.call_hash == crate::hashing::sha256_of(
                            crate::primitives::enc_contract_call(
                                ContractCallView {
                                    account: "fibonacci.spin"@,
                                    method: "fibonacci"@,
                                    args: enc_u32(input.0),
                                    attached_gas: 10000u64,
                                    sender: old(env).contract@,
                                    signer: old(env).signer@,
                                },
                            ),
                        )
                        &&& dec_u64(co.output) matches Option::Some(p)
                        &&& {
                            let v = dec_u64(co.output).unwrap().0;
                            &&& v * input.1 <= u64::MAX
                            &&& out@ == enc_u64((v * input.1) as u64)
                        }
                    }
                },
                Result::Err(e) => {
                    ||| final(ctx).spec_children() == old(ctx).spec_children()
                    ||| (e == Error::GuestPanic && final(ctx).spec_children().len() == old(
                        ctx,
                    ).spec_children().len() + 1 && {
                        let co = child_outcome(final(ctx).spec_children().last());
                        ||| dec_u64(co.output) is None
                        ||| dec_u64(co.output).unwrap().0 * input.1 > u64::MAX
                    })
                },
            },
        decreases fuel, 4int,
    {
        let (n, multiplier) = input;
        let mut args: Vec<u8> = Vec::new();
        write_u32(&mut args, n);
        proof {
            lemma_fib_names_fit();
        }
        let outcome = match env.cross_contract_call(
            host,
            ctx,
            AccountId::new(String::from_str("fibonacci.spin")),
            String::from_str("fibonacci"),
            10000u64,
            args,
            fuel,
        ) {
            Result::Ok(o) => o,
            Result::Err(e) => {
                return Result::Err(e);
            },
        };
        let answer = match read_u64(outcome.output.as_slice(), 0) {
            Option::Some((v, _)) => v,
            Option::None => {
                return Result::Err(Error::GuestPanic);
            },
        };
        proof {
            assert(outcome.output@.skip(0) =~= outcome.output@);
        }
        let product = match answer.checked_mul(multiplier) {
            Option::Some(p) => p,
            Option::None => {
                return Result::Err(Error::GuestPanic);
            },
        };
        let mut out: Vec<u8> = Vec::new();
        write_u64(&mut out, product);
        Result::Ok(out)
    }

    /// Greets a name: the output to commit is the canonical encoding of
    /// the greeting string. A name too long to serialize aborts the
    /// guest.
    pub fn hello(name: &str) -> (r: Result<Vec<u8>, Error>)
        ensures
            r is Ok <==> encode_utf8(name@).len() + 16 <= u32::MAX,
            match r {
                Result::Ok(out) => out@ == enc_str(
                    crate::contracts::playground::greeting_of(name@),
                ) && crate::codec::fits_u32(out@.len()),
                Result::Err(e) => e == Error::GuestPanic,
            },
    {
        proof {
            reveal_strlit("Hello, ");
            reveal_strlit("!");
            assert(vstd::utf8::is_ascii_chars("Hello, "@));
            assert(vstd::utf8::is_ascii_chars("!"@));
            is_ascii_chars_encode_utf8("Hello, "@);
            is_ascii_chars_encode_utf8("!"@);
        }
        if name.as_bytes().len() as u64 > u32::MAX as u64 - 16 {
            return Result::Err(Error::GuestPanic);
        }
        let mut greeting = String::from_str("Hello, ");
        greeting.append(name);
        greeting.append("!");
        proof {
            crate::codec::lemma_encode_utf8_concat("Hello, "@ + name@, "!"@);
            crate::codec::lemma_encode_utf8_concat("Hello, "@, name@);
        }
        let mut out: Vec<u8> = Vec::new();
        write_str(&mut out, greeting.as_str());
        Result::Ok(out)
    }

    /// Forwards a transfer to a token contract: cross-calls its
    /// `transfer` method with the recipient and amount.
    pub fn transfer_token(
        env: &mut Env,
        host: &mut Host,
        ctx: &mut ExecutionContext,
        input: (AccountId, AccountId, u128),
        fuel: u64,
    ) -> (r: Result<Vec<u8>, Error>)
        requires
            old(env).wf(),
            old(env).matches_call(old(ctx).spec_call()@),
            crate::primitives::wf_contract_call(old(ctx).spec_call()@),
            pairs_link(
                pair_list_view(old(env).cross_calls_hashes@),
                old(ctx).spec_children(),
            ),
            storage_fits(old(host).storage),
            fits_u32(encode_utf8(input.0@).len()),
            fits_u32(encode_utf8(input.1@).len() + 20),
            old(env).cross_calls_hashes@.len() < u32::MAX,
            fuel >= 1,
        ensures
            final(env).wf(),
            final(env).same_identity(*old(env)),
            final(env).storage_cache == old(env).storage_cache,
            final(env).initial_storage_hashes == old(env).initial_storage_hashes,
            final(ctx).spec_call() == old(ctx).spec_call(),
            final(ctx).spec_session() == old(ctx).spec_session(),
            storage_fits(final(host).storage),
            pairs_link(
                pair_list_view(final(env).cross_calls_hashes@),
                final(ctx).spec_children(),
            ),
            match r {
                Result::Ok(out) => {
                    &&& final(ctx).spec_children().len() == old(ctx).spec_children().len() + 1
                    &&& child_outcome(final(ctx).spec_children().last()).call_hash
                        == crate::hashing::sha256_of(
                        crate::primitives::enc_contract_call(
                            ContractCallView {
                                account: input.0@,
                                method: "transfer"@,
                                args: enc_str(input.1@) + enc_u128(input.2),
                                attached_gas: 1000000u64,
                                sender: old(env).contract@,
                                signer: old(env).signer@,
                            },
                        ),
                    )
                    &&& out@.len() == 0
                },
                Result::Err(_) => final(ctx).spec_children() == old(ctx).spec_children(),
            },
        decreases fuel, 4int,
    {
        let (token_account, recipient, amount) = input;
        let mut args: Vec<u8> = Vec::new();
        write_str(&mut args, recipient.id.as_str());
        write_u128(&mut args, amount);
        proof {
            reveal_strlit("transfer");
            assert(vstd::utf8::is_ascii_chars("transfer"@));
            is_ascii_chars_encode_utf8("transfer"@);
        }
        match env.cross_contract_call(
            host,
            ctx,
            token_account,
            String::from_str("transfer"),
            1000000u64,
            args,
            fuel,
        ) {
            Result::Ok(_) => {},
            Result::Err(e) => {
                return Result::Err(e);
            },
        }
        let out: Vec<u8> = Vec::new();
        Result::Ok(out)
    }
}

/// The demonstration contract's entry dispatcher.
#[verifier::rlimit(100)]
#[verifier::spinoff_prover]
pub fn entrypoint(host: &mut Host, ctx: &mut ExecutionContext, fuel: u64) -> (r: Result<
    Vec<u8>,
    Error,
>)
    requires
        crate::primitives::wf_contract_call(old(ctx).spec_call()@),
        old(ctx).spec_children().len() == 0,
        old(ctx).spec_session() is None,
        storage_fits(old(host).storage),
        fuel >= 1,
    ensures
        storage_fits(final(host).storage),
        final(ctx).spec_call() == old(ctx).spec_call(),
        final(ctx).spec_session() is None,
        match r {
            Result::Ok(j) => guest_post(
                old(ctx).spec_call()@,
                j@,
                *final(ctx),
                final(host).storage,
            ),
            Result::Err(_) => true,
        },
        ({
            let call = old(ctx).spec_call()@;
            &&& (call.method != "fibonacci_and_multiply"@ && call.method != "transfer_token"@
                && call.method != "hello"@) ==> r == Result::<Vec<u8>, Error>::Err(
                Error::UnknownMethod,
            ) && final(ctx).spec_children().len() == 0
            &&& call.method == "hello"@ ==> {
                &&& (r is Ok <==> (crate::codec::dec_str(call.args) matches Option::Some(p)
                    && encode_utf8(p.0).len() + 16 <= u32::MAX))
                &&& r is Ok ==> crate::runtime::outcome_of_journal(r.unwrap()@).unwrap().output
                    == enc_str(
                    crate::contracts::playground::greeting_of(
                        crate::codec::dec_str(call.args).unwrap().0,
                    ),
                )
            }
            &&& call.method == "fibonacci_and_multiply"@ ==> match r {
                Result::Ok(j) => {
                    &&& crate::codec::dec_u32(call.args) matches Option::Some(_)
                    &&& crate::codec::dec_u64(call.args.skip(4)) matches Option::Some(_)
                    &&& final(ctx).spec_children().len() == 1
                    &&& {
                        let o = crate::runtime::outcome_of_journal(j@).unwrap();
                        let co = child_outcome(final(ctx).spec_children().last());
                        let multiplier = crate::codec::dec_u64(call.args.skip(4)).unwrap().0;
                        &&& dec_u64(co.output) matches Option::Some(_)
                        &&& dec_u64(co.output).unwrap().0 * multiplier <= u64::MAX
                        &&& o.output == enc_u64(
                            (dec_u64(co.output).unwrap().0 * multiplier) as u64,
                        )
                        &&& o.cross_calls_hashes.len() == 1
                    }
                },
                Result::Err(_) => {
                    ||| !(crate::codec::dec_u32(call.args) is Some && crate::codec::dec_u64(
                        call.args.skip(4),
                    ) is Some)
                    ||| final(ctx).spec_children().len() == 0
                    ||| (final(ctx).spec_children().len() == 1 && {
                        let co = child_outcome(final(ctx).spec_children().last());
                        ||| dec_u64(co.output) is None
                        ||| dec_u64(co.output).unwrap().0 * crate::codec::dec_u64(
                            call.args.skip(4),
                        ).unwrap().0 > u64::MAX
                    })
                },
            }
            &&& call.method == "transfer_token"@ ==> match r {
                Result::Ok(j) => {
                    &&& final(ctx).spec_children().len() == 1
                    &&& crate::runtime::outcome_of_journal(j@).unwrap().output.len() == 0
                    &&& crate::runtime::outcome_of_journal(
                        j@,
                    ).unwrap().cross_calls_hashes.len() == 1
                },
                Result::Err(_) => final(ctx).spec_children().len() == 0,
            }
        }),
    decreases fuel, 6int,
{
    let mut env = Env::new_from_call(ctx.call());
    proof {
        assert(pair_list_view(env.cross_calls_hashes@) =~= Seq::<(Seq<u8>, Seq<u8>)>::empty());
        reveal_strlit("fibonacci_and_multiply");
        reveal_strlit("transfer_token");
        reveal_strlit("hello");
        assert("fibonacci_and_multiply"@.len() == 22 && "transfer_token"@.len() == 14
            && "hello"@.len() == 5);
        assert(ctx.spec_call().args@.skip(0) =~= ctx.spec_call().args@);
    }
    let method = ctx.call().method.as_str();
    if str_eq(method, "hello") {
        let args = ctx.call().args.as_slice();
        proof {
            assert(args@.skip(0) =~= args@);
        }
        let (name, _p1) = match read_str(args, 0) {
            Option::Some(x) => x,
            Option::None => {
                return Result::Err(Error::GuestPanic);
            },
        };
        let output = match Contract::hello(name.as_str()) {
            Result::Ok(o) => o,
            Result::Err(e) => {
                return Result::Err(e);
            },
        };
        seal(env, host, ctx, output)
    } else if str_eq(method, "fibonacci_and_multiply") {
        run_fibonacci_and_multiply(env, host, ctx, fuel)
    } else if str_eq(method, "transfer_token") {
        run_transfer_token(env, host, ctx, fuel)
    } else {
        Result::Err(Error::UnknownMethod)
    }
}

/// Decodes the arguments, runs the fibonacci cross-call, and commits.
#[verifier::rlimit(100)]
#[verifier::spinoff_prover]
fn run_fibonacci_and_multiply(
    env: Env,
    host: &mut Host,
    ctx: &mut ExecutionContext,
    fuel: u64,
) -> (r: Result<Vec<u8>, Error>)
    requires
        env.wf(),
        env.matches_call(old(ctx).spec_call()@),
        crate::primitives::wf_contract_call(old(ctx).spec_call()@),
        env.cross_calls_hashes@.len() == 0,
        old(ctx).spec_children().len() == 0,
        old(ctx).spec_session() is None,
        storage_fits(old(host).storage),
        fuel >= 1,
    ensures
        storage_fits(final(host).storage),
        final(ctx).spec_call() == old(ctx).spec_call(),
        final(ctx).spec_session() is None,
        match r {
            Result::Ok(j) => guest_post(
                old(ctx).spec_call()@,
                j@,
                *final(ctx),
                final(host).storage,
            ),
            Result::Err(e) => e != Error::UnknownMethod || final(ctx).spec_children().len()
                == 0,
        },
        ({
            let call = old(ctx).spec_call()@;
            match r {
                Result::Ok(j) => {
                    &&& crate::codec::dec_u32(call.args) matches Option::Some(_)
                    &&& crate::codec::dec_u64(call.args.skip(4)) matches Option::Some(_)
                    &&& final(ctx).spec_children().len() == 1
                    &&& {
                        let o = crate::runtime::outcome_of_journal(j@).unwrap();
                        let co = child_outcome(final(ctx).spec_children().last());
                        let multiplier = crate::codec::dec_u64(call.args.skip(4)).unwrap().0;
                        &&& dec_u64(co.output) matches Option::Some(_)
                        &&& dec_u64(co.output).unwrap().0 * multiplier <= u64::MAX
                        &&& o.output == enc_u64(
                            (dec_u64(co.output).unwrap().0 * multiplier) as u64,
                        )
                        &&& o.cross_calls_hashes.len() == 1
                    }
                },
                Result::Err(_) => {
                    ||| !(crate::codec::dec_u32(call.args) is Some && crate::codec::dec_u64(
                        call.args.skip(4),
                    ) is Some)
                    ||| final(ctx).spec_children().len() == 0
                    ||| (final(ctx).spec_children().len() == 1 && {
                        let co = child_outcome(final(ctx).spec_children().last());
                        ||| dec_u64(co.output) is None
                        ||| dec_u64(co.output).unwrap().0 * crate::codec::dec_u64(
                            call.args.skip(4),
                        ).unwrap().0 > u64::MAX
                    })
                },
            }
        }),
    decreases fuel, 5int,
{
    let mut env = env;
    proof {
        assert(pair_list_view(env.cross_calls_hashes@) =~= Seq::<(Seq<u8>, Seq<u8>)>::empty());
        assert(ctx.spec_call().args@.skip(0) =~= ctx.spec_call().args@);
    }
    let args = ctx.call().args.as_slice();
    let (n, p1) = match read_u32(args, 0) {
        Option::Some(x) => x,
        Option::None => {
            return Result::Err(Error::GuestPanic);
        },
    };
    let (multiplier, _p2) = match read_u64(args, p1) {
        Option::Some(x) => x,
        Option::None => {
            return Result::Err(Error::GuestPanic);
        },
    };
    let output = match Contract::fibonacci_and_multiply(&mut env, host, ctx, (n, multiplier), fuel)
    {
        Result::Ok(o) => o,
        Result::Err(e) => {
            return Result::Err(e);
        },
    };
    seal(env, host, ctx, output)
}

/// Decodes the arguments, forwards the transfer cross-call, and commits.
#[verifier::rlimit(100)]
#[verifier::spinoff_prover]
fn run_transfer_token(
    env: Env,
    host: &mut Host,
    ctx: &mut ExecutionContext,
    fuel: u64,
) -> (r: Result<Vec<u8>, Error>)
    requires
        env.wf(),
        env.matches_call(old(ctx).spec_call()@),
        crate::primitives::wf_contract_call(old(ctx).spec_call()@),
        env.cross_calls_hashes@.len() == 0,
        old(ctx).spec_children().len() == 0,
        old(ctx).spec_session() is None,
        storage_fits(old(host).storage),
        fuel >= 1,
    ensures
        storage_fits(final(host).storage),
        final(ctx).spec_call() == old(ctx).spec_call(),
        final(ctx).spec_session() is None,
        match r {
            Result::Ok(j) => guest_post(
                old(ctx).spec_call()@,
                j@,
                *final(ctx),
                final(host).storage,
            ),
            Result::Err(e) => e != Error::UnknownMethod || final(ctx).spec_children().len()
                == 0,
        },
        match r {
            Result::Ok(j) => {
                &&& final(ctx).spec_children().len() == 1
                &&& crate::runtime::outcome_of_journal(j@).unwrap().output.len() == 0
                &&& crate::runtime::outcome_of_journal(j@).unwrap().cross_calls_hashes.len()
                    == 1
            },
            Result::Err(_) => final(ctx).spec_children().len() == 0,
        },
    decreases fuel, 5int,
{
    let mut env = env;
    proof {
        assert(pair_list_view(env.cross_calls_hashes@) =~= Seq::<(Seq<u8>, Seq<u8>)>::empty());
        assert(ctx.spec_call().args@.skip(0) =~= ctx.spec_call().args@);
    }
    let args = ctx.call().args.as_slice();
    proof {
        assert(args@.skip(0) =~= args@);
    }
    let (token_account, p1) = match read_str(args, 0) {
        Option::Some(x) => x,
        Option::None => {
            return Result::Err(Error::GuestPanic);
        },
    };
    let (recipient, p2) = match read_str(args, p1) {
        Option::Some(x) => x,
        Option::None => {
            return Result::Err(Error::GuestPanic);
        },
    };
    let (amount, _p3) = match read_u128(args, p2) {
        Option::Some(x) => x,
        Option::None => {
            return Result::Err(Error::GuestPanic);
        },
    };
    proof {
        crate::codec::lemma_dec_str_fits(args@.skip(0));
        crate::codec::lemma_dec_str_fits(args@.skip(p1 as int));
    }
    if recipient.as_str().as_bytes().len() as u64 > u32::MAX as u64 - 20 {
        return Result::Err(Error::GuestPanic);
    }
    let output = match Contract::transfer_token(
        &mut env,
        host,
        ctx,
        (AccountId::new(token_account), AccountId::new(recipient), amount),
        fuel,
    ) {
        Result::Ok(o) => o,
        Result::Err(e) => {
            return Result::Err(e);
        },
    };
    seal(env, host, ctx, output)
}

} // verus!
