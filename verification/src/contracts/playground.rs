//! The playground contract: greets its signer.

use crate::codec::{enc_str, fits_u32, lemma_encode_utf8_concat, write_str};
use crate::context::ExecutionContext;
use crate::env::Env;
use crate::primitives::Error;
use crate::runtime::{guest_post, seal, Host};
use crate::sorted_map::str_eq;
use crate::storage::storage_fits;
use vstd::prelude::*;
use vstd::string::StringExecFns;
use vstd::utf8::{encode_utf8, is_ascii_chars_encode_utf8};

verus! {

/// The greeting the playground commits for a signer.
pub open spec fn greeting_of(signer: Seq<char>) -> Seq<char> {
    "Hello, "@ + signer + "!"@
}

/// When a whole playground invocation succeeds.
pub open spec fn entry_ok(call: crate::primitives::ContractCallView) -> bool {
    &&& call.method == "hello"@
    &&& encode_utf8(call.signer).len() + 16 <= u32::MAX
}

/// The playground contract.
pub struct Contract;

impl Contract {
    /// Greets the signer: the output to commit is the canonical encoding
    /// of the greeting string. A signer too long to serialize aborts the
    /// guest.
    pub fn hello(env: &Env) -> (r: Result<Vec<u8>, Error>)
        requires
            env.wf(),
        ensures
            r is Ok <==> encode_utf8(env.signer@).len() + 16 <= u32::MAX,
            match r {
                Result::Ok(out) => out@ == enc_str(greeting_of(env.signer@)) && fits_u32(
                    out@.len(),
                ),
                Result::Err(e) => e == Error::GuestPanic,
            },
    {
        proof {
            reveal_strlit("Hello, ");
            reveal_strlit("!");
            assert(vstd::utf8::is_ascii_chars("Hello, "@));
            assert(vstd::utf8::is_ascii_chars("!"@));
            is_ascii_chars_encode_utf8("Hello, "@);
            is_ascii_chars_encode_utf8("!"@);
        }
        let name = env.signer().to_string();
        if name.as_str().as_bytes().len() as u64 > u32::MAX as u64 - 16 {
            return Result::Err(Error::GuestPanic);
        }
        let mut greeting = String::from_str("Hello, ");
        greeting.append(name.as_str());
        greeting.append("!");
        proof {
            lemma_encode_utf8_concat("Hello, "@ + name@, "!"@);
            lemma_encode_utf8_concat("Hello, "@, name@);
        }
        let mut out: Vec<u8> = Vec::new();
        write_str(&mut out, greeting.as_str());
        Result::Ok(out)
    }
}

/// The playground's entry dispatcher.
#[verifier::rlimit(100)]
#[verifier::spinoff_prover]
pub fn entrypoint(host: &mut Host, ctx: &mut ExecutionContext, fuel: u64) -> (r: Result<
    Vec<u8>,
    Error,
>)
    requires
        crate::primitives::wf_contract_call(old(ctx).spec_call()@),
        old(ctx).spec_children().len() == 0,
        old(ctx).spec_session() is None,
        storage_fits(old(host).storage),
        fuel >= 1,
    ensures
        storage_fits(final(host).storage),
        final(ctx).spec_call() == old(ctx).spec_call(),
        final(ctx).spec_session() is None,
        final(ctx).spec_children() == old(ctx).spec_children(),
        match r {
            Result::Ok(j) => guest_post(
                old(ctx).spec_call()@,
                j@,
                *final(ctx),
                final(host).storage,
            ),
            Result::Err(_) => true,
        },
        ({
            let call = old(ctx).spec_call()@;
            &&& (call.method != "hello"@) <==> r == Result::<Vec<u8>, Error>::Err(
                Error::UnknownMethod,
            )
            &&& call.method == "hello"@ ==> {
                &&& (r is Ok <==> encode_utf8(call.signer).len() + 16 <= u32::MAX)
                &&& r is Ok ==> {
                    let o = crate::runtime::outcome_of_journal(r.unwrap()@).unwrap();
                    &&& o.output == enc_str(greeting_of(call.signer))
                    &&& o.storage_reads.len() == 0
                    &&& forall|k: Seq<char>|
                        crate::outcome::view_get(o.storage_writes, k) is None
                    &&& o.cross_calls_hashes.len() == 0
                }
            }
        }),
    decreases fuel, 6int,
{
    let env = Env::new_from_call(ctx.call());
    proof {
        assert(crate::outcome::pair_list_view(env.cross_calls_hashes@) =~= Seq::<(
            Seq<u8>,
            Seq<u8>,
        )>::empty());
    }
    let method = ctx.call().method.as_str();
    if str_eq(method, "hello") {
        let output = match Contract::hello(&env) {
            Result::Ok(o) => o,
            Result::Err(e) => {
                return Result::Err(e);
            },
        };
        seal(env, host, ctx, output)
    } else {
        Result::Err(Error::UnknownMethod)
    }
}

} // verus!
