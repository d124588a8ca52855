//! The execution-context tree: one node per in-flight call, with the gas
//! accounting of the whole subtree. A child is spawned only when its gas
//! attachment fits in the parent's available pool; the pool can only
//! shrink over the life of a context.

use crate::primitives::{AccountId, ContractCall, ContractCallView, CrossContractCallRequest, Error};
use vstd::prelude::*;

verus! {

/// A completed guest run: the journal the guest committed and the proving
/// segments, each given by its power-of-two cycle count.
pub struct Session {
    pub journal: Vec<u8>,
    pub segments: Vec<u32>,
}

/// One node of the call tree.
pub struct ExecutionContext {
    pub call: ContractCall,
    pub used_gas: u64,
    pub cross_contract_calls: Vec<ExecutionContext>,
    pub session: Option<Session>,
}

/// The gas the direct children of a node have used, in order.
pub open spec fn sum_used(children: Seq<ExecutionContext>) -> int
    decreases children.len(),
{
    if children.len() == 0 {
        0
    } else {
        children[0].spec_used_gas() + sum_used(children.drop_first())
    }
}

/// Appending a child adds its gas to the sum.
pub proof fn lemma_sum_used_push(children: Seq<ExecutionContext>, c: ExecutionContext)
    ensures
        sum_used(children.push(c)) == sum_used(children) + c.spec_used_gas(),
    decreases children.len(),
{
    if children.len() == 0 {
        assert(children.push(c).drop_first() =~= children);
    } else {
        assert(children.push(c).drop_first() =~= children.drop_first().push(c));
        lemma_sum_used_push(children.drop_first(), c);
    }
}

/// The sum over a prefix of the children never exceeds the whole sum.
pub proof fn lemma_sum_used_take_monotone(children: Seq<ExecutionContext>, i: int)
    requires
        0 <= i <= children.len(),
    ensures
        sum_used(children) >= sum_used(children.take(i)),
    decreases children.len() - i,
{
    if i < children.len() {
        lemma_sum_used_push(children.take(i), children[i]);
        assert(children.take(i).push(children[i]) =~= children.take(i + 1));
        lemma_sum_used_take_monotone(children, i + 1);
    } else {
        assert(children.take(i) =~= children);
    }
}

/// The sum of the children's gas is never negative.
pub proof fn lemma_sum_used_nonneg(children: Seq<ExecutionContext>)
    ensures
        sum_used(children) >= 0,
    decreases children.len(),
{
    if children.len() > 0 {
        lemma_sum_used_nonneg(children.drop_first());
    }
}

/// `x`, or zero where `x` is negative.
pub open spec fn clamp0(x: int) -> int {
    if x > 0 {
        x
    } else {
        0
    }
}

impl ExecutionContext {
    /// The call this node runs.
    pub open spec fn spec_call(self) -> ContractCall {
        self.call
    }

    /// The gas this node's own run has consumed.
    pub open spec fn spec_used_gas(self) -> u64 {
        self.used_gas
    }

    /// The child contexts, in spawn order.
    pub open spec fn spec_children(self) -> Seq<ExecutionContext> {
        self.cross_contract_calls@
    }

    /// The session of this node's run, once it has one.
    pub open spec fn spec_session(self) -> Option<Session> {
        self.session
    }

    /// The gas still available to this node: the attachment, less what
    /// the node and its direct children have used, never below zero.
    pub open spec fn spec_available_gas(self) -> int {
        clamp0(
            self.call.attached_gas - self.used_gas - sum_used(self.cross_contract_calls@),
        )
    }

    /// A fresh node for a call: no gas used, no children, no session.
    pub fn new(call: ContractCall) -> (r: Self)
        ensures
            r.spec_call() == call,
            r.spec_used_gas() == 0,
            r.spec_children() =~= Seq::<ExecutionContext>::empty(),
            r.spec_session() is None,
    {
        ExecutionContext { call, used_gas: 0, cross_contract_calls: Vec::new(), session: None }
    }

    /// The call this node runs.
    pub fn call(&self) -> (r: &ContractCall)
        ensures
            *r == self.spec_call(),
    {
        &self.call
    }

    /// The gas this node's own run has consumed.
    pub fn used_gas(&self) -> (r: u64)
        ensures
            r == self.spec_used_gas(),
    {
        self.used_gas
    }

    /// The number of children.
    pub fn children_count(&self) -> (r: usize)
        ensures
            r == self.spec_children().len(),
    {
        self.cross_contract_calls.len()
    }

    /// Overwrites the gas consumed by this node's own run.
    pub fn set_gas_usage(&mut self, used_gas: u64)
        ensures
            final(self).spec_call() == old(self).spec_call(),
            final(self).spec_children() == old(self).spec_children(),
            final(self).spec_session() == old(self).spec_session(),
            final(self).spec_used_gas() == used_gas,
    {
        self.used_gas = used_gas;
    }

    /// The session of this node's run, once it has one.
    pub fn execution_session(&self) -> (r: Option<&Session>)
        ensures
            match r {
                Option::Some(s) => self.spec_session() == Option::Some(*s),
                Option::None => self.spec_session() is None,
            },
    {
        self.session.as_ref()
    }

    /// Attaches the session of this node's run.
    pub fn set_execution_session(&mut self, session: Session)
        ensures
            final(self).spec_call() == old(self).spec_call(),
            final(self).spec_children() == old(self).spec_children(),
            final(self).spec_used_gas() == old(self).spec_used_gas(),
            final(self).spec_session() == Option::Some(session),
    {
        self.session = Some(session);
    }

    /// Takes the last child out of the node, to run it.
    pub fn pop_child(&mut self) -> (r: Option<ExecutionContext>)
        ensures
            final(self).spec_call() == old(self).spec_call(),
            final(self).spec_used_gas() == old(self).spec_used_gas(),
            final(self).spec_session() == old(self).spec_session(),
            match r {
                Option::Some(c) => {
                    &&& old(self).spec_children().len() > 0
                    &&& c == old(self).spec_children().last()
                    &&& final(self).spec_children() == old(self).spec_children().drop_last()
                },
                Option::None => {
                    &&& old(self).spec_children().len() == 0
                    &&& final(self).spec_children() == old(self).spec_children()
                },
            },
    {
        self.cross_contract_calls.pop()
    }

    /// Puts a child back as the last one.
    pub fn push_child(&mut self, child: ExecutionContext)
        ensures
            final(self).spec_call() == old(self).spec_call(),
            final(self).spec_used_gas() == old(self).spec_used_gas(),
            final(self).spec_session() == old(self).spec_session(),
            final(self).spec_children() == old(self).spec_children().push(child),
    {
        self.cross_contract_calls.push(child);
    }

    /// The gas still available to this node, by saturating arithmetic.
    pub fn available_gas(&self) -> (r: u64)
        ensures
            r as int == self.spec_available_gas(),
    {
        let n = self.cross_contract_calls.len();
        let mut cc_gas: u64 = 0;
        let mut i: usize = 0;
        proof {
            assert(self.cross_contract_calls@.take(0) =~= Seq::<ExecutionContext>::empty());
        }
        while i < n
            invariant
                n == self.cross_contract_calls@.len(),
                i <= n,
                cc_gas as int == if sum_used(self.cross_contract_calls@.take(i as int))
                    > u64::MAX as int {
                    u64::MAX as int
                } else {
                    sum_used(self.cross_contract_calls@.take(i as int))
                },
            decreases n - i,
        {
            proof {
                lemma_sum_used_push(
                    self.cross_contract_calls@.take(i as int),
                    self.cross_contract_calls@[i as int],
                );
                assert(self.cross_contract_calls@.take(i as int).push(
                    self.cross_contract_calls@[i as int],
                ) =~= self.cross_contract_calls@.take(i as int + 1));
                lemma_sum_used_nonneg(self.cross_contract_calls@.take(i as int));
            }
            cc_gas = cc_gas.saturating_add(self.cross_contract_calls[i].used_gas);
            i = i + 1;
        }
        proof {
            assert(self.cross_contract_calls@.take(n as int) =~= self.cross_contract_calls@);
            lemma_sum_used_nonneg(self.cross_contract_calls@);
        }
        self.call.attached_gas.saturating_sub(self.used_gas).saturating_sub(cc_gas)
    }

    /// The gas the direct children have used, or nothing where the sum
    /// does not fit the gas unit.
    pub fn children_used_checked(&self) -> (r: Option<u64>)
        ensures
            match r {
                Option::Some(v) => v as int == sum_used(self.spec_children()),
                Option::None => sum_used(self.spec_children()) > u64::MAX,
            },
    {
        let n = self.cross_contract_calls.len();
        let mut total: u64 = 0;
        let mut i: usize = 0;
        proof {
            assert(self.cross_contract_calls@.take(0) =~= Seq::<ExecutionContext>::empty());
        }
        while i < n
            invariant
                n == self.cross_contract_calls@.len(),
                i <= n,
                total as int == sum_used(self.cross_contract_calls@.take(i as int)),
            decreases n - i,
        {
            proof {
                lemma_sum_used_push(
                    self.cross_contract_calls@.take(i as int),
                    self.cross_contract_calls@[i as int],
                );
                assert(self.cross_contract_calls@.take(i as int).push(
                    self.cross_contract_calls@[i as int],
                ) =~= self.cross_contract_calls@.take(i as int + 1));
            }
            total = match total.checked_add(self.cross_contract_calls[i].used_gas) {
                Some(t) => t,
                None => {
                    proof {
                        lemma_sum_used_take_monotone(
                            self.cross_contract_calls@,
                            i as int + 1,
                        );
                    }
                    return Option::None;
                },
            };
            i = i + 1;
        }
        proof {
            assert(self.cross_contract_calls@.take(n as int) =~= self.cross_contract_calls@);
        }
        Option::Some(total)
    }

    /// Spawns a child for a cross-contract request: the child borrows the
    /// parent's signer, is sent from the parent's contract, and carves its
    /// gas attachment out of the parent's available pool. Fails with
    /// `InsufficientGas`, leaving the node unchanged, exactly when the
    /// pool is smaller than the requested attachment.
    pub fn cross_contract_call(&mut self, req: CrossContractCallRequest) -> (r: Result<(), Error>)
        ensures
            match r {
                Result::Ok(_) => {
                    &&& old(self).spec_available_gas() >= req.attached_gas
                    &&& final(self).spec_call() == old(self).spec_call()
                    &&& final(self).spec_used_gas() == old(self).spec_used_gas()
                    &&& final(self).spec_session() == old(self).spec_session()
                    &&& final(self).spec_children().len() == old(self).spec_children().len() + 1
                    &&& final(self).spec_children().drop_last() == old(self).spec_children()
                    &&& {
                        let child = final(self).spec_children().last();
                        &&& child.spec_call()@ == (ContractCallView {
                            account: req.contract@,
                            method: req.method@,
                            args: req.args@,
                            attached_gas: req.attached_gas,
                            sender: old(self).spec_call().account@,
                            signer: old(self).spec_call().signer@,
                        })
                        &&& child.spec_used_gas() == 0
                        &&& child.spec_children() =~= Seq::<ExecutionContext>::empty()
                        &&& child.spec_session() is None
                    }
                },
                Result::Err(e) => {
                    &&& e == Error::InsufficientGas
                    &&& old(self).spec_available_gas() < req.attached_gas
                    &&& *final(self) == *old(self)
                },
            },
    {
        if self.available_gas() < req.attached_gas {
            return Result::Err(Error::InsufficientGas);
        }
        let call = ContractCall {
            account: req.contract,
            method: req.method,
            args: req.args,
            attached_gas: req.attached_gas,
            sender: self.call.account.clone(),
            signer: self.call.signer.clone(),
        };
        let child = ExecutionContext {
            call,
            used_gas: 0,
            cross_contract_calls: Vec::new(),
            session: None,
        };
        self.cross_contract_calls.push(child);
        proof {
            assert(final(self).spec_children().drop_last() =~= old(self).spec_children());
        }
        Result::Ok(())
    }

    /// The bootstrap account-to-address mapping: four known identities,
    /// each mapped to a fixed 20-byte address; every other account is a
    /// fatal error.
    pub fn get_account_evm_address(account_id: &AccountId) -> (r: Result<Vec<u8>, Error>)
        ensures
            match r {
                Result::Ok(a) => evm_address_of(account_id@) == Option::Some(a@),
                Result::Err(e) => e == Error::UnknownAccount && evm_address_of(
                    account_id@,
                ) is None,
            },
    {
        let id = account_id.id.as_str();
        if crate::sorted_map::str_eq(id, "alice.spin") {
            Result::Ok(bootstrap_address(0x01))
        } else if crate::sorted_map::str_eq(id, "bob.spin") {
            Result::Ok(bootstrap_address(0x02))
        } else if crate::sorted_map::str_eq(id, "charlie.spin") {
            Result::Ok(bootstrap_address(0x03))
        } else if crate::sorted_map::str_eq(id, "eve.spin") {
            Result::Ok(bootstrap_address(0x04))
        } else {
            Result::Err(Error::UnknownAccount)
        }
    }
}


/// The EVM address mapped to an account, for the bootstrap set of known
/// accounts; every other account is unknown.
pub open spec fn evm_address_of(a: Seq<char>) -> Option<Seq<u8>> {
    if a == "alice.spin"@ {
        Option::Some(seq![0x0Fu8, 0xF1, 0xCE, 0, 0, 0, 0, 0, 0, 0, 0, 0, 0, 0, 0, 0, 0, 0, 0, 0x01])
    } else if a == "bob.spin"@ {
        Option::Some(seq![0x0Fu8, 0xF1, 0xCE, 0, 0, 0, 0, 0, 0, 0, 0, 0, 0, 0, 0, 0, 0, 0, 0, 0x02])
    } else if a == "charlie.spin"@ {
        Option::Some(seq![0x0Fu8, 0xF1, 0xCE, 0, 0, 0, 0, 0, 0, 0, 0, 0, 0, 0, 0, 0, 0, 0, 0, 0x03])
    } else if a == "eve.spin"@ {
        Option::Some(seq![0x0Fu8, 0xF1, 0xCE, 0, 0, 0, 0, 0, 0, 0, 0, 0, 0, 0, 0, 0, 0, 0, 0, 0x04])
    } else {
        Option::None
    }
}

/// One bootstrap address: a fixed 17-byte prefix and a distinguishing
/// last byte.
fn bootstrap_address(last: u8) -> (r: Vec<u8>)
    ensures
        r@ == seq![0x0Fu8, 0xF1, 0xCE, 0, 0, 0, 0, 0, 0, 0, 0, 0, 0, 0, 0, 0, 0, 0, 0, last],
{
    let mut a: Vec<u8> = Vec::new();
    a.push(0x0F);
    a.push(0xF1);
    a.push(0xCE);
    let mut i: usize = 0;
    while i < 16
        invariant
            a@.len() == 3 + i,
            i <= 16,
            a@[0] == 0x0Fu8 && a@[1] == 0xF1u8 && a@[2] == 0xCEu8,
            forall|j: int| 3 <= j < a@.len() ==> a@[j] == 0u8,
        decreases 16 - i,
    {
        a.push(0x00);
        i = i + 1;
    }
    a.push(last);
    proof {
        assert(a@ =~= seq![0x0Fu8, 0xF1, 0xCE, 0, 0, 0, 0, 0, 0, 0, 0, 0, 0, 0, 0, 0, 0, 0, 0, last]);
    }
    a
}

/// Overwriting a node's own gas with a value at least as large never
/// enlarges its available pool: as a run's cycle count grows, the pool
/// only shrinks.
pub proof fn lemma_available_gas_usage_monotone(
    before: ExecutionContext,
    after: ExecutionContext,
)
    requires
        after.spec_call() == before.spec_call(),
        after.spec_children() == before.spec_children(),
        after.spec_used_gas() >= before.spec_used_gas(),
    ensures
        after.spec_available_gas() <= before.spec_available_gas(),
{
}

/// Growth of the children's gas never enlarges the available pool.
pub proof fn lemma_available_gas_children_monotone(
    before: ExecutionContext,
    after: ExecutionContext,
)
    requires
        after.spec_call() == before.spec_call(),
        after.spec_used_gas() == before.spec_used_gas(),
        sum_used(after.spec_children()) >= sum_used(before.spec_children()),
    ensures
        after.spec_available_gas() <= before.spec_available_gas(),
{
}

/// Spawning a child leaves the available pool as it was: a fresh child
/// has used no gas yet. With the two lemmas above, every step in the life
/// of a context — spawning, charging the node's own cycles, a child's
/// cycles growing — keeps `available_gas` non-increasing.
pub proof fn lemma_available_gas_spawn(before: ExecutionContext, after: ExecutionContext)
    requires
        after.spec_call() == before.spec_call(),
        after.spec_used_gas() == before.spec_used_gas(),
        after.spec_children().len() == before.spec_children().len() + 1,
        after.spec_children().drop_last() == before.spec_children(),
        after.spec_children().last().spec_used_gas() == 0,
    ensures
        after.spec_available_gas() == before.spec_available_gas(),
{
    lemma_sum_used_push(before.spec_children(), after.spec_children().last());
    assert(before.spec_children().push(after.spec_children().last()) =~= after.spec_children());
}

} // verus!
