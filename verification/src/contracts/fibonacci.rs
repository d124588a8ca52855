//! The fibonacci contract: computes the n-th fibonacci number and
//! commits it, touching no storage and making no cross-contract calls.

use crate::codec::{read_u32, write_u64};
use crate::context::ExecutionContext;
use crate::env::Env;
use crate::primitives::Error;
use crate::runtime::{guest_post, seal, Host};
use crate::sorted_map::str_eq;
use crate::storage::storage_fits;
use vstd::prelude::*;

verus! {

/// The fibonacci numbers: zero, one, and each further one the sum of
/// the previous two.
pub open spec fn fib(n: nat) -> nat
    decreases n,
{
    if n == 0 {
        0
    } else if n == 1 {
        1
    } else {
        fib((n - 1) as nat) + fib((n - 2) as nat)
    }
}

/// The fibonacci numbers never decrease.
pub proof fn lemma_fib_monotone(a: nat, b: nat)
    requires
        a <= b,
    ensures
        fib(a) <= fib(b),
    decreases b - a,
{
    if a < b {
        if b >= 2 {
            lemma_fib_monotone(a, (b - 1) as nat);
        } else {
            assert(b == 1 && a == 0);
        }
    }
}

/// When a whole fibonacci invocation succeeds.
pub open spec fn entry_ok(call: crate::primitives::ContractCallView) -> bool {
    &&& call.method == "fibonacci"@
    &&& crate::codec::dec_u32(call.args) matches Option::Some(p)
    &&& fib(crate::codec::dec_u32(call.args).unwrap().0 as nat + 1) <= u64::MAX
}

/// The fibonacci contract.
pub struct Contract;

impl Contract {
    /// The n-th fibonacci number. The guest iterates one step past `n`,
    /// so it aborts exactly when the number after the requested one
    /// overflows the machine word.
    pub fn fibonacci(n: u32) -> (r: Result<u64, Error>)
        ensures
            match r {
                Result::Ok(v) => v == fib(n as nat) && fib(n as nat + 1) <= u64::MAX,
                Result::Err(e) => e == Error::GuestPanic && fib(n as nat + 1) > u64::MAX,
            },
    {
        let mut a: u64 = 0;
        let mut b: u64 = 1;
        let mut i: u32 = 0;
        while i < n
            invariant
                i <= n,
                a == fib(i as nat),
                b == fib(i as nat + 1),
            decreases n - i,
        {
            let c = a;
            a = b;
            b = match b.checked_add(c) {
                Some(x) => x,
                None => {
                    proof {
                        lemma_fib_monotone(i as nat + 2, n as nat + 1);
                    }
                    return Result::Err(Error::GuestPanic);
                },
            };
            i = i + 1;
        }
        Result::Ok(a)
    }
}

/// The fibonacci entry dispatcher, as the runtime invokes it.
#[verifier::rlimit(100)]
#[verifier::spinoff_prover]
pub fn entrypoint(host: &mut Host, ctx: &mut ExecutionContext, fuel: u64) -> (r: Result<
    Vec<u8>,
    Error,
>)
    requires
        crate::primitives::wf_contract_call(old(ctx).spec_call()@),
        old(ctx).spec_children().len() == 0,
        old(ctx).spec_session() is None,
        storage_fits(old(host).storage),
        fuel >= 1,
    ensures
        storage_fits(final(host).storage),
        final(ctx).spec_call() == old(ctx).spec_call(),
        final(ctx).spec_session() is None,
        final(ctx).spec_children() == old(ctx).spec_children(),
        match r {
            Result::Ok(j) => guest_post(
                old(ctx).spec_call()@,
                j@,
                *final(ctx),
                final(host).storage,
            ),
            Result::Err(_) => true,
        },
        ({
            let call = old(ctx).spec_call()@;
            &&& (call.method != "fibonacci"@) <==> r == Result::<Vec<u8>, Error>::Err(
                Error::UnknownMethod,
            )
            &&& call.method == "fibonacci"@ ==> {
                &&& (r is Ok <==> (crate::codec::dec_u32(call.args) matches Option::Some(p)
                    && fib(p.0 as nat + 1) <= u64::MAX))
                &&& r is Ok ==> {
                    let o = crate::runtime::outcome_of_journal(r.unwrap()@).unwrap();
                    &&& o.output == crate::codec::enc_u64(
                        fib(crate::codec::dec_u32(call.args).unwrap().0 as nat) as u64,
                    )
                    &&& o.storage_reads.len() == 0
                    &&& forall|k: Seq<char>|
                        crate::outcome::view_get(o.storage_writes, k) is None
                    &&& o.cross_calls_hashes.len() == 0
                }
            }
        }),
    decreases fuel, 3int,
{
    let env = Env::new_from_call(ctx.call());
    proof {
        assert(crate::outcome::pair_list_view(env.cross_calls_hashes@) =~= Seq::<(
            Seq<u8>,
            Seq<u8>,
        )>::empty());
        assert(ctx.spec_call().args@.skip(0) =~= ctx.spec_call().args@);
    }
    let method = ctx.call().method.as_str();
    if str_eq(method, "fibonacci") {
        let n = match read_u32(ctx.call().args.as_slice(), 0) {
            Some((v, _)) => v,
            None => {
                return Result::Err(Error::GuestPanic);
            },
        };
        let value = match Contract::fibonacci(n) {
            Result::Ok(v) => v,
            Result::Err(e) => {
                return Result::Err(e);
            },
        };
        proof {
            lemma_fib_monotone(n as nat, n as nat + 1);
        }
        let mut output: Vec<u8> = Vec::new();
        write_u64(&mut output, value);
        seal(env, host, ctx, output)
    } else {
        Result::Err(Error::UnknownMethod)
    }
}

} // verus!
