//! The driver: maps accounts to guest programs, runs a context's guest to
//! completion, converts segment sizes to used gas, and mediates recursive
//! cross-contract calls. A cross-contract call suspends the parent guest,
//! runs the child to its own commit, and hands the child's journal back.

use crate::context::{sum_used, ExecutionContext, Session};
use crate::env::Env;
use crate::hashing::sha256_of;
use crate::outcome::{dec_execution_outcome, ExecutionOutcomeView};
use crate::primitives::{
    enc_contract_call, wf_contract_call, AccountId, ContractCall, CrossContractCallRequest, Error,
};
use crate::storage::{storage_fits, Storage};
use vstd::prelude::*;

verus! {

/// The guest cycle count the model charges for one run: every run costs
/// one segment of two-to-the-zeroth cycles.
pub const GUEST_CYCLE_COST: u64 = 1;

/// The guest programs the runtime can load.
#[derive(Clone, Copy, Debug, PartialEq, Eq, Structural)]
pub enum GuestProgram {
    Counter,
    Fibonacci,
    Token,
    DemoCcc,
    Playground,
}

/// The host: persistent storage and the account-to-program registry.
pub struct Host {
    pub storage: Storage,
    pub contracts: Vec<(AccountId, GuestProgram)>,
}

/// The program registered for an account, scanning from the front.
pub open spec fn spec_lookup(
    contracts: Seq<(AccountId, GuestProgram)>,
    account: Seq<char>,
) -> Option<GuestProgram>
    decreases contracts.len(),
{
    if contracts.len() == 0 {
        Option::None
    } else if contracts[0].0@ == account {
        Option::Some(contracts[0].1)
    } else {
        spec_lookup(contracts.drop_first(), account)
    }
}

proof fn lemma_spec_lookup_push(
    contracts: Seq<(AccountId, GuestProgram)>,
    binding: (AccountId, GuestProgram),
)
    ensures
        forall|a: Seq<char>|
            spec_lookup(#[trigger] contracts.push(binding), a) == match spec_lookup(contracts, a) {
                Option::Some(p) => Option::Some(p),
                Option::None => {
                    if a == binding.0@ {
                        Option::Some(binding.1)
                    } else {
                        Option::None
                    }
                },
            },
    decreases contracts.len(),
{
    if contracts.len() == 0 {
        assert forall|a: Seq<char>| true implies spec_lookup(
            #[trigger] contracts.push(binding),
            a,
        ) == (match spec_lookup(contracts, a) {
            Option::Some(p) => Option::Some(p),
            Option::None => {
                if a == binding.0@ {
                    Option::Some(binding.1)
                } else {
                    Option::None
                }
            },
        }) by {
            assert(contracts.push(binding)[0] == binding);
            assert(contracts.push(binding).drop_first() =~= contracts);
        }
    } else {
        lemma_spec_lookup_push(contracts.drop_first(), binding);
        assert forall|a: Seq<char>| true implies spec_lookup(
            #[trigger] contracts.push(binding),
            a,
        ) == (match spec_lookup(contracts, a) {
            Option::Some(p) => Option::Some(p),
            Option::None => {
                if a == binding.0@ {
                    Option::Some(binding.1)
                } else {
                    Option::None
                }
            },
        }) by {
            assert(contracts.push(binding)[0] == contracts[0]);
            assert(contracts.push(binding).drop_first() =~= contracts.drop_first().push(binding));
            assert(spec_lookup(contracts.push(binding).drop_first(), a) == spec_lookup(
                contracts.drop_first().push(binding),
                a,
            ));
        }
    }
}

impl Host {
    /// The program registered for an account, if any.
    pub open spec fn spec_program(self, account: Seq<char>) -> Option<GuestProgram> {
        spec_lookup(self.contracts@, account)
    }

    /// A host with empty storage and no contracts.
    pub fn new() -> (r: Self)
        ensures
            forall|c: Seq<char>, k: Seq<char>| r.storage.contents(c, k) is None,
            storage_fits(r.storage),
            forall|a: Seq<char>| r.spec_program(a) is None,
    {
        Host { storage: Storage::new(), contracts: Vec::new() }
    }

    /// Registers a program under an account; an account already bound
    /// keeps its first binding.
    pub fn register_contract(&mut self, account: AccountId, program: GuestProgram)
        ensures
            final(self).storage == old(self).storage,
            forall|a: Seq<char>|
                final(self).spec_program(a) == match old(self).spec_program(a) {
                    Option::Some(p) => Option::Some(p),
                    Option::None => {
                        if a == account@ {
                            Option::Some(program)
                        } else {
                            Option::None
                        }
                    },
                },
    {
        proof {
            lemma_spec_lookup_push(self.contracts@, (account, program));
        }
        let binding = (account, program);
        self.contracts.push(binding);
    }

    /// Looks the called account's program up; an unbound account is a
    /// `ContractNotFound` error.
    pub fn load_contract(&self, account: &AccountId) -> (r: Result<GuestProgram, Error>)
        ensures
            match r {
                Result::Ok(p) => self.spec_program(account@) == Option::Some(p),
                Result::Err(e) => e == Error::ContractNotFound && self.spec_program(
                    account@,
                ) is None,
            },
    {
        let n = self.contracts.len();
        proof {
            assert(self.contracts@.skip(0) =~= self.contracts@);
        }
        let mut i: usize = 0;
        while i < n
            invariant
                n == self.contracts@.len(),
                i <= n,
                spec_lookup(self.contracts@, account@) == spec_lookup(
                    self.contracts@.skip(i as int),
                    account@,
                ),
            decreases n - i,
        {
            proof {
                assert(self.contracts@.skip(i as int)[0] == self.contracts@[i as int]);
                assert(self.contracts@.skip(i as int).drop_first() =~= self.contracts@.skip(
                    i as int + 1,
                ));
            }
            if self.contracts[i].0.is(account) {
                return Result::Ok(self.contracts[i].1);
            }
            i = i + 1;
        }
        Result::Err(Error::ContractNotFound)
    }
}

/// The outcome a journal holds, where it decodes as one.
pub open spec fn outcome_of_journal(j: Seq<u8>) -> Option<ExecutionOutcomeView> {
    match dec_execution_outcome(j) {
        Option::Some((o, _)) => Option::Some(o),
        Option::None => Option::None,
    }
}

/// Gas accounting holds on every node of a context tree: what a node and
/// its direct children used fits in the node's attachment.
pub open spec fn gas_ok(ctx: ExecutionContext) -> bool
    decreases ctx,
{
    &&& ctx.spec_used_gas() + sum_used(ctx.spec_children()) <= ctx.spec_call().attached_gas
    &&& forall|i: int|
        0 <= i < ctx.spec_children().len() ==> gas_ok(#[trigger] ctx.spec_children()[i])
}

/// A finished child: gas accounting holds on its subtree and its session
/// holds a decodable outcome.
pub open spec fn child_ok(c: ExecutionContext) -> bool {
    &&& gas_ok(c)
    &&& (c.spec_session() matches Option::Some(s) && outcome_of_journal(s.journal@) is Some)
}

/// The outcome a finished child committed.
pub open spec fn child_outcome(c: ExecutionContext) -> ExecutionOutcomeView {
    outcome_of_journal(c.spec_session().unwrap().journal@).unwrap()
}

/// A hash-pair list mirrors a child list: pair `i` is the `i`-th child's
/// committed call hash and the digest of its committed output.
pub open spec fn pairs_link(
    pairs: Seq<(Seq<u8>, Seq<u8>)>,
    children: Seq<ExecutionContext>,
) -> bool {
    &&& pairs.len() == children.len()
    &&& forall|i: int|
        0 <= i < children.len() ==> {
            &&& child_ok(#[trigger] children[i])
            &&& pairs[i].0 == child_outcome(children[i]).call_hash
            &&& pairs[i].1 == sha256_of(child_outcome(children[i]).output)
        }
}

/// What a finished guest run promises: the journal decodes to an outcome
/// whose call hash is the digest of the canonical call, whose cross-call
/// hashes mirror the children in order, and whose write set is borne out
/// by host storage.
pub open spec fn guest_post(
    call: crate::primitives::ContractCallView,
    journal: Seq<u8>,
    ctx: ExecutionContext,
    storage: Storage,
) -> bool {
    &&& outcome_of_journal(journal) matches Option::Some(_)
    &&& {
        let o = outcome_of_journal(journal).unwrap();
        &&& o.call_hash == sha256_of(enc_contract_call(call))
        &&& pairs_link(o.cross_calls_hashes, ctx.spec_children())
        &&& forall|j2: int|
            0 <= j2 < o.storage_writes.len() ==> (storage.contents(
                call.account,
                (#[trigger] o.storage_writes[j2]).0,
            ) matches Option::Some(v) && sha256_of(v) == o.storage_writes[j2].1)
    }
}

/// Converts proving segments to gas: two to the power of the summed
/// segment sizes. The sum must be below the width of the gas unit.
pub fn gas_from_segments(segments: &Vec<u32>) -> (r: Option<u64>)
    ensures
        match r {
            Option::Some(g) => {
                &&& sum_po2(segments@) < 64
                &&& g == pow2_u64(sum_po2(segments@))
            },
            Option::None => sum_po2(segments@) >= 64,
        },
{
    let n = segments.len();
    let mut total: u64 = 0;
    let mut i: usize = 0;
    proof {
        assert(segments@.take(0) =~= Seq::<u32>::empty());
    }
    while i < n
        invariant
            n == segments@.len(),
            i <= n,
            total == sum_po2(segments@.take(i as int)),
            total < 64,
        decreases n - i,
    {
        proof {
            lemma_sum_po2_push(segments@.take(i as int), segments@[i as int]);
            assert(segments@.take(i as int).push(segments@[i as int]) =~= segments@.take(
                i as int + 1,
            ));
            lemma_sum_po2_nonneg(segments@.take(i as int + 1));
        }
        let s = segments[i];
        if s >= 64 || total + (s as u64) >= 64 {
            proof {
                lemma_sum_po2_take_monotone(segments@, i as int + 1);
            }
            return Option::None;
        }
        total = total + (s as u64);
        i = i + 1;
    }
    proof {
        assert(segments@.take(n as int) =~= segments@);
    }
    Option::Some(pow2_exec(total))
}

/// The sum of the segment sizes.
pub open spec fn sum_po2(segments: Seq<u32>) -> int
    decreases segments.len(),
{
    if segments.len() == 0 {
        0
    } else {
        segments[0] + sum_po2(segments.drop_first())
    }
}

proof fn lemma_sum_po2_push(segments: Seq<u32>, s: u32)
    ensures
        sum_po2(segments.push(s)) == sum_po2(segments) + s,
    decreases segments.len(),
{
    if segments.len() == 0 {
        assert(segments.push(s).drop_first() =~= segments);
    } else {
        assert(segments.push(s).drop_first() =~= segments.drop_first().push(s));
        lemma_sum_po2_push(segments.drop_first(), s);
    }
}

proof fn lemma_sum_po2_nonneg(segments: Seq<u32>)
    ensures
        sum_po2(segments) >= 0,
    decreases segments.len(),
{
    if segments.len() > 0 {
        lemma_sum_po2_nonneg(segments.drop_first());
    }
}

proof fn lemma_sum_po2_take_monotone(segments: Seq<u32>, i: int)
    requires
        0 <= i <= segments.len(),
    ensures
        sum_po2(segments) >= sum_po2(segments.take(i)),
    decreases segments.len() - i,
{
    if i < segments.len() {
        lemma_sum_po2_push(segments.take(i), segments[i]);
        assert(segments.take(i).push(segments[i]) =~= segments.take(i + 1));
        lemma_sum_po2_take_monotone(segments, i + 1);
    } else {
        assert(segments.take(i) =~= segments);
    }
}

/// Runs the context's guest to completion: loads the program registered
/// for the called account, runs its entry dispatcher, converts segment
/// sizes to used gas, and enforces the session gas limit. On success the
/// returned session's journal carries the guest's committed outcome,
/// hash-linked to the call, the children and the storage it wrote; gas
/// accounting holds on the whole finished subtree.
pub fn execute(host: &mut Host, ctx: &mut ExecutionContext, fuel: u64) -> (r: Result<
    Session,
    Error,
>)
    requires
        wf_contract_call(old(ctx).spec_call()@),
        old(ctx).spec_used_gas() == 0,
        old(ctx).spec_children().len() == 0,
        old(ctx).spec_session() is None,
        storage_fits(old(host).storage),
    ensures
        storage_fits(final(host).storage),
        final(ctx).spec_call() == old(ctx).spec_call(),
        final(ctx).spec_session() is None,
        match r {
            Result::Ok(s) => {
                &&& guest_post(
                    old(ctx).spec_call()@,
                    s.journal@,
                    *final(ctx),
                    final(host).storage,
                )
                &&& gas_ok(*final(ctx))
                &&& sum_po2(s.segments@) < 64
                &&& final(ctx).spec_used_gas() as int == pow2_u64(sum_po2(s.segments@))
            },
            Result::Err(_) => true,
        },
        fuel == 0 ==> r == Result::<Session, Error>::Err(Error::InsufficientGas) && *final(ctx)
            == *old(ctx) && *final(host) == *old(host),
        fuel >= 1 && old(host).spec_program(old(ctx).spec_call().account@) is None ==> r
            == Result::<Session, Error>::Err(Error::ContractNotFound) && *final(ctx) == *old(ctx)
            && *final(host) == *old(host),
        fuel >= 1 && old(host).spec_program(old(ctx).spec_call().account@) == Option::Some(
            GuestProgram::Counter,
        ) ==> (r is Ok <==> (old(ctx).spec_call().attached_gas >= GUEST_CYCLE_COST
            && crate::contracts::counter::entry_ok(old(ctx).spec_call()@, old(host).storage))),
        fuel >= 1 && old(host).spec_program(old(ctx).spec_call().account@) == Option::Some(
            GuestProgram::Fibonacci,
        ) ==> (r is Ok <==> (old(ctx).spec_call().attached_gas >= GUEST_CYCLE_COST
            && crate::contracts::fibonacci::entry_ok(old(ctx).spec_call()@))),
        fuel >= 1 && old(host).spec_program(old(ctx).spec_call().account@) == Option::Some(
            GuestProgram::Playground,
        ) ==> (r is Ok <==> (old(ctx).spec_call().attached_gas >= GUEST_CYCLE_COST
            && crate::contracts::playground::entry_ok(old(ctx).spec_call()@))),
    decreases fuel, 8int,
{
    if fuel == 0 {
        return Result::Err(Error::InsufficientGas);
    }
    let program = match host.load_contract(&ctx.call().account) {
        Result::Ok(p) => p,
        Result::Err(e) => {
            return Result::Err(e);
        },
    };
    let run = match program {
        GuestProgram::Counter => crate::contracts::counter::entrypoint(host, ctx, fuel),
        GuestProgram::Fibonacci => crate::contracts::fibonacci::entrypoint(host, ctx, fuel),
        GuestProgram::Token => crate::contracts::token::entrypoint(host, ctx, fuel),
        GuestProgram::DemoCcc => crate::contracts::demo::entrypoint(host, ctx, fuel),
        GuestProgram::Playground => crate::contracts::playground::entrypoint(host, ctx, fuel),
    };
    let journal = match run {
        Result::Ok(j) => j,
        Result::Err(e) => {
            return Result::Err(e);
        },
    };
    let mut segments: Vec<u32> = Vec::new();
    segments.push(0u32);
    proof {
        assert(segments@ =~= seq![0u32]);
        assert(segments@.drop_first() =~= Seq::<u32>::empty());
        assert(sum_po2(segments@.drop_first()) == 0);
        assert(segments@[0] == 0u32);
        assert(sum_po2(segments@) == 0);
        assert((1u64 << 0u64) == 1u64) by (bit_vector);
    }
    let used = match gas_from_segments(&segments) {
        Option::Some(g) => g,
        Option::None => {
            return Result::Err(Error::InsufficientGas);
        },
    };
    ctx.set_gas_usage(used);
    let children_gas = match ctx.children_used_checked() {
        Option::Some(v) => v,
        Option::None => {
            return Result::Err(Error::InsufficientGas);
        },
    };
    let attached = ctx.call().attached_gas;
    if used > attached || children_gas > attached - used {
        return Result::Err(Error::InsufficientGas);
    }
    proof {
        assert(gas_ok(*ctx)) by {
            assert(ctx.spec_used_gas() + sum_used(ctx.spec_children())
                <= ctx.spec_call().attached_gas);
            assert forall|i: int| 0 <= i < ctx.spec_children().len() implies gas_ok(
                #[trigger] ctx.spec_children()[i],
            ) by {
                assert(child_ok(ctx.spec_children()[i]));
            }
        }
    }
    Result::Ok(Session { journal, segments })
}

/// Handles `CROSS_CONTRACT_CALL`: records the parent guest's cycle count
/// as the parent's own gas, spawns a child for the decoded call, runs the
/// child to completion, attaches its session, and hands the child's
/// journal — its whole committed outcome — back to the parent guest. A
/// failed child aborts the call and leaves no child behind.
pub fn handle_cross_contract_call(
    host: &mut Host,
    ctx: &mut ExecutionContext,
    request: &Vec<u8>,
    fuel: u64,
) -> (r: Result<Vec<u8>, Error>)
    requires
        storage_fits(old(host).storage),
        wf_contract_call(old(ctx).spec_call()@),
        fuel >= 1,
    ensures
        storage_fits(final(host).storage),
        final(ctx).spec_call() == old(ctx).spec_call(),
        final(ctx).spec_session() == old(ctx).spec_session(),
        final(ctx).spec_used_gas() == GUEST_CYCLE_COST,
        match r {
            Result::Ok(journal) => {
                &&& crate::primitives::dec_contract_call(request@) matches Option::Some(_)
                &&& final(ctx).spec_children().len() == old(ctx).spec_children().len() + 1
                &&& final(ctx).spec_children().drop_last() == old(ctx).spec_children()
                &&& {
                    let callv = crate::primitives::dec_contract_call(request@).unwrap().0;
                    let child = final(ctx).spec_children().last();
                    &&& child_ok(child)
                    &&& outcome_of_journal(journal@) is Some
                    &&& child_outcome(child) == outcome_of_journal(journal@).unwrap()
                    &&& child.spec_call()@ == (crate::primitives::ContractCallView {
                        account: callv.account,
                        method: callv.method,
                        args: callv.args,
                        attached_gas: callv.attached_gas,
                        sender: old(ctx).spec_call().account@,
                        signer: old(ctx).spec_call().signer@,
                    })
                    &&& child_outcome(child).call_hash == sha256_of(
                        enc_contract_call(child.spec_call()@),
                    )
                }
            },
            Result::Err(_) => final(ctx).spec_children() == old(ctx).spec_children(),
        },
        crate::primitives::dec_contract_call(request@) is None ==> r == Result::<
            Vec<u8>,
            Error,
        >::Err(Error::MalformedRequest),
        (crate::primitives::dec_contract_call(request@) matches Option::Some(p)
            && p.0.attached_gas > crate::context::clamp0(
            old(ctx).spec_call().attached_gas - GUEST_CYCLE_COST - sum_used(
                old(ctx).spec_children(),
            ),
        )) ==> r == Result::<Vec<u8>, Error>::Err(Error::InsufficientGas),
    decreases fuel, 1int,
{
    ctx.set_gas_usage(GUEST_CYCLE_COST);
    let call = match ContractCall::try_from_bytes(request.clone()) {
        Result::Ok(c) => c,
        Result::Err(e) => {
            return Result::Err(e);
        },
    };
    proof {
        crate::primitives::lemma_dec_contract_call_wf(request@);
    }
    let req = CrossContractCallRequest::new(
        call.account,
        call.method,
        call.args,
        call.attached_gas,
    );
    match ctx.cross_contract_call(req) {
        Result::Ok(_) => {},
        Result::Err(e) => {
            return Result::Err(e);
        },
    }
    let mut child = match ctx.pop_child() {
        Option::Some(c) => c,
        Option::None => {
            return Result::Err(Error::GuestPanic);
        },
    };
    let session = match execute(host, &mut child, fuel - 1) {
        Result::Ok(s) => s,
        Result::Err(e) => {
            return Result::Err(e);
        },
    };
    let journal = session.journal.clone();
    child.set_execution_session(session);
    ctx.push_child(child);
    proof {
        assert(final(ctx).spec_children().drop_last() =~= old(ctx).spec_children());
    }
    Result::Ok(journal)
}

/// Seals a guest run: commits the environment and returns the journal.
/// The caller's cross-call pairs must already mirror the children.
pub fn seal(env: Env, host: &mut Host, ctx: &ExecutionContext, output: Vec<u8>) -> (r: Result<
    Vec<u8>,
    Error,
>)
    requires
        env.wf(),
        env.matches_call(ctx.spec_call()@),
        pairs_link(
            crate::outcome::pair_list_view(env.cross_calls_hashes@),
            ctx.spec_children(),
        ),
        storage_fits(old(host).storage),
        crate::codec::fits_u32(output@.len()),
    ensures
        storage_fits(final(host).storage),
        r is Ok,
        guest_post(ctx.spec_call()@, r.unwrap()@, *ctx, final(host).storage),
        ({
            let o = outcome_of_journal(r.unwrap()@).unwrap();
            &&& o.output == output@
            &&& forall|k: Seq<char>|
                crate::outcome::view_get(o.storage_writes, k) == (match env.spec_cache(k) {
                    Option::Some(e) => {
                        if e.1 {
                            Option::Some(crate::hashing::sha256_of(e.0@))
                        } else {
                            Option::None
                        }
                    },
                    Option::None => Option::None,
                })
            &&& o.storage_reads == crate::outcome::digest_map_view(env.initial_storage_hashes)
        }),
{
    let journal = match env.commit(&mut host.storage, output) {
        Result::Ok(j) => j,
        Result::Err(e) => {
            return Result::Err(e);
        },
    };
    proof {
        let o = dec_execution_outcome(journal@).unwrap().0;
        assert(outcome_of_journal(journal@) == Option::Some(o));
    }
    Result::Ok(journal)
}

/// Two to the power of `e`, for exponents below the gas unit's width.
pub open spec fn pow2_u64(e: int) -> int {
    if 0 <= e < 64 {
        (1u64 << (e as u64)) as int
    } else {
        0
    }
}

/// Two to the power of `e`.
pub fn pow2_exec(e: u64) -> (r: u64)
    requires
        e < 64,
    ensures
        r == pow2_u64(e as int),
{
    1u64 << e
}

} // verus!
