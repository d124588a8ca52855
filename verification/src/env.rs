//! The guest-side call environment: the identity triple and gas of the
//! running invocation, the hash of the call that started it, a
//! read-through storage cache, the read-set hashes captured at first
//! read, and the ordered cross-call hash pairs. `commit` seals the
//! invocation by flushing dirty cache entries through the verifying
//! storage syscall and encoding the outcome into the journal.

use crate::codec::fits_u32;
use crate::hashing::{is_digest, sha256, sha256_of, Digest};
use crate::outcome::{
    digest_map_view, pair_list_view, wf_entries, wf_pairs, DigestMap, ExecutionOutcome,
};
use crate::primitives::{
    dec_set_storage_request, enc_contract_call, wf_contract_call, AccountId, ContractCall,
    ContractCallView, Error, GetStorageRequest, GetStorageResponse, SetStorageRequest,
};
use crate::sorted_map::{spec_get, SortedMap};
use crate::storage::{storage_fits, Storage};
use crate::syscalls::{handle_get_storage, handle_set_storage};
use vstd::prelude::*;
use vstd::string::StringExecFns;
use vstd::utf8::{encode_utf8, encode_utf8_valid_utf8};

verus! {

/// A cached storage entry: the value and whether the guest has written it.
pub type CacheEntry = (Vec<u8>, bool);

/// The per-invocation environment a guest threads through its calls.
pub struct Env {
    pub signer: AccountId,
    pub caller: AccountId,
    pub contract: AccountId,
    pub attached_gas: u64,
    pub call_hash: Digest,
    pub initial_storage_hashes: DigestMap,
    pub storage_cache: SortedMap<CacheEntry>,
    pub cross_calls_hashes: Vec<(Digest, Digest)>,
}

impl Env {
    /// Two environment values that agree on the identity triple, the gas
    /// and the call hash.
    pub open spec fn same_identity(self, other: Env) -> bool {
        &&& self.signer == other.signer
        &&& self.caller == other.caller
        &&& self.contract == other.contract
        &&& self.attached_gas == other.attached_gas
        &&& self.call_hash == other.call_hash
    }

    /// The cached entry for a key, if the key has been read or written.
    pub open spec fn spec_cache(self, k: Seq<char>) -> Option<CacheEntry> {
        self.storage_cache.spec_index(k)
    }

    /// The read-set digest captured for a key at its first host read.
    pub open spec fn spec_read_hash(self, k: Seq<char>) -> Option<Digest> {
        self.initial_storage_hashes.spec_index(k)
    }

    /// Internal consistency: both maps sorted, every hash a digest, and
    /// every cached key and value short enough to serialize.
    pub open spec fn wf(self) -> bool {
        &&& fits_u32(encode_utf8(self.signer@).len())
        &&& fits_u32(encode_utf8(self.caller@).len())
        &&& fits_u32(encode_utf8(self.contract@).len())
        &&& is_digest(self.call_hash@)
        &&& self.initial_storage_hashes.wf()
        &&& wf_entries(digest_map_view(self.initial_storage_hashes))
        &&& self.storage_cache.wf()
        &&& self.storage_cache.entries@.len() <= u32::MAX
        &&& forall|i: int|
            0 <= i < self.storage_cache.entries@.len() ==> fits_u32(
                encode_utf8((#[trigger] self.storage_cache.entries@[i]).0@).len(),
            ) && fits_u32(self.storage_cache.entries@[i].1.0@.len())
        &&& wf_pairs(pair_list_view(self.cross_calls_hashes@))
    }

    /// The environment presents exactly the identity, gas and hash of
    /// the given call.
    pub open spec fn matches_call(self, c: ContractCallView) -> bool {
        &&& self.signer@ == c.signer
        &&& self.caller@ == c.sender
        &&& self.contract@ == c.account
        &&& self.attached_gas == c.attached_gas
        &&& self.call_hash@ == sha256_of(enc_contract_call(c))
    }

    /// Builds the environment of an invocation from its call: identity
    /// and gas are taken over, the call hash is the SHA-256 of the
    /// call's canonical bytes, and the cache, read set and cross-call
    /// list start empty.
    pub fn new_from_call(call: &ContractCall) -> (r: Env)
        requires
            wf_contract_call(call@),
        ensures
            r.wf(),
            r.matches_call(call@),
            forall|k: Seq<char>| r.spec_cache(k) is None,
            forall|k: Seq<char>| r.spec_read_hash(k) is None,
            r.cross_calls_hashes@.len() == 0,
            r.initial_storage_hashes.entries@.len() == 0,
            r.storage_cache.entries@.len() == 0,
    {
        let call_bytes = call.into_bytes();
        let call_hash = sha256(call_bytes.as_slice());
        Env {
            signer: call.signer.clone(),
            caller: call.sender.clone(),
            contract: call.account.clone(),
            attached_gas: call.attached_gas,
            call_hash,
            initial_storage_hashes: SortedMap::new(),
            storage_cache: SortedMap::new(),
            cross_calls_hashes: Vec::new(),
        }
    }

    /// The current call's signer.
    pub fn signer(&self) -> (r: AccountId)
        ensures
            r@ == self.signer@,
    {
        self.signer.clone()
    }

    /// The current call's sender.
    pub fn caller(&self) -> (r: AccountId)
        ensures
            r@ == self.caller@,
    {
        self.caller.clone()
    }

    /// The current call's contract.
    pub fn contract(&self) -> (r: AccountId)
        ensures
            r@ == self.contract@,
    {
        self.contract.clone()
    }

    /// Reads a storage value through the cache. A key already cached —
    /// read before, or written by this invocation — is answered from the
    /// cache without consulting the host. On a first read the host's
    /// value is cached clean and its digest captured into the read set;
    /// an absent key is reported as absent and nothing is recorded.
    pub fn get_storage(&mut self, storage: &Storage, key: &str) -> (r: Result<
        Option<Vec<u8>>,
        Error,
    >)
        requires
            old(self).wf(),
            storage_fits(*storage),
            fits_u32(encode_utf8(key@).len()),
            old(self).storage_cache.entries@.len() < u32::MAX,
            old(self).initial_storage_hashes.entries@.len() < u32::MAX,
        ensures
            final(self).wf(),
            final(self).signer == old(self).signer,
            final(self).caller == old(self).caller,
            final(self).contract == old(self).contract,
            final(self).attached_gas == old(self).attached_gas,
            final(self).call_hash == old(self).call_hash,
            final(self).cross_calls_hashes == old(self).cross_calls_hashes,
            final(self).storage_cache.entries@.len() <= old(self).storage_cache.entries@.len()
                + 1,
            final(self).initial_storage_hashes.entries@.len() <= old(
                self,
            ).initial_storage_hashes.entries@.len() + 1,
            match old(self).spec_cache(key@) {
                Option::Some(entry) => {
                    &&& r matches Result::Ok(o) && o matches Option::Some(rv) && rv@ == entry.0@
                    &&& *final(self) == *old(self)
                },
                Option::None => {
                    match storage.contents(old(self).contract@, key@) {
                        Option::Some(v) => {
                            &&& r matches Result::Ok(o) && o matches Option::Some(rv) && rv@ == v
                            &&& final(self).spec_cache(key@) matches Option::Some(e) && e.0@ == v
                                && e.1 == false
                            &&& forall|k2: Seq<char>|
                                k2 != key@ ==> final(self).spec_cache(k2) == old(self).spec_cache(
                                    k2,
                                )
                            &&& final(self).spec_read_hash(key@) matches Option::Some(h) && h@
                                == sha256_of(v)
                            &&& forall|k2: Seq<char>|
                                k2 != key@ ==> final(self).spec_read_hash(k2) == old(
                                    self,
                                ).spec_read_hash(k2)
                        },
                        Option::None => {
                            &&& r == Result::<Option<Vec<u8>>, Error>::Ok(
                                Option::None::<Vec<u8>>,
                            )
                            &&& *final(self) == *old(self)
                        },
                    }
                },
            },
    {
        match self.storage_cache.get(key) {
            Option::Some(entry) => {
                return Result::Ok(Option::Some(entry.0.clone()));
            },
            Option::None => {},
        }
        let request = GetStorageRequest { key: String::from_str(key) }.into_bytes();
        proof {
            encode_utf8_valid_utf8(key@);
            vstd::utf8::encode_utf8_decode_utf8(key@);
        }
        let response_bytes = match handle_get_storage(storage, &self.contract, &request) {
            Result::Ok(b) => b,
            Result::Err(e) => {
                return Result::Err(e);
            },
        };
        let ghost resp_view = crate::primitives::GetStorageResponseView {
            storage: storage.contents(self.contract@, key@),
            hash: match storage.contents(self.contract@, key@) {
                Option::Some(v) => sha256_of(v),
                Option::None => sha256_of(Seq::<u8>::empty()),
            },
        };
        proof {
            assert(match storage.contents(self.contract@, key@) {
                Option::Some(v) => v.len() <= u32::MAX,
                Option::None => true,
            });
            crate::primitives::lemma_dec_enc_get_storage_response(resp_view, Seq::<u8>::empty());
            assert(crate::primitives::enc_get_storage_response(resp_view) + Seq::<u8>::empty()
                =~= response_bytes@);
        }
        let response = match GetStorageResponse::try_from_bytes(response_bytes) {
            Result::Ok(x) => x,
            Result::Err(e) => {
                return Result::Err(e);
            },
        };
        let value = match response.storage {
            Some(v) => v,
            None => {
                return Result::Ok(None);
            },
        };
        let hash = sha256(value.as_slice());
        let cache_key = String::from_str(key);
        let reads_key = String::from_str(key);
        self.storage_cache.set(cache_key, (value.clone(), false));
        self.initial_storage_hashes.set(reads_key, hash);
        proof {
            assert(wf_entries(digest_map_view(self.initial_storage_hashes))) by {
                assert forall|i: int|
                    0 <= i < digest_map_view(self.initial_storage_hashes).len() implies fits_u32(
                    encode_utf8(
                        (#[trigger] digest_map_view(self.initial_storage_hashes)[i]).0,
                    ).len(),
                ) && is_digest(digest_map_view(self.initial_storage_hashes)[i].1) by {
                    let e = self.initial_storage_hashes.entries@[i];
                    assert(digest_map_view(self.initial_storage_hashes)[i] == (e.0@, e.1@));
                    if old(self).initial_storage_hashes.entries@.contains(e) {
                        let j = choose|j: int|
                            0 <= j < old(self).initial_storage_hashes.entries@.len() && old(
                                self,
                            ).initial_storage_hashes.entries@[j] == e;
                        assert(digest_map_view(old(self).initial_storage_hashes)[j] == (
                        e.0@,
                        e.1@,
                        ));
                        assert(fits_u32(
                            encode_utf8(
                                digest_map_view(old(self).initial_storage_hashes)[j].0,
                            ).len(),
                        ));
                        assert(is_digest(digest_map_view(old(self).initial_storage_hashes)[j].1));
                    } else {
                        assert(e == (reads_key, hash));
                        assert(e.0@ == key@);
                    }
                }
            }
            assert forall|i: int| 0 <= i < self.storage_cache.entries@.len() implies fits_u32(
                encode_utf8((#[trigger] self.storage_cache.entries@[i]).0@).len(),
            ) && fits_u32(self.storage_cache.entries@[i].1.0@.len()) by {
                let e = self.storage_cache.entries@[i];
                if old(self).storage_cache.entries@.contains(e) {
                    let j = choose|j: int|
                        0 <= j < old(self).storage_cache.entries@.len() && old(
                            self,
                        ).storage_cache.entries@[j] == e;
                    assert(fits_u32(
                        encode_utf8(
                            (old(self).storage_cache.entries@[j]).0@,
                        ).len(),
                    ));
                    assert(fits_u32(old(self).storage_cache.entries@[j].1.0@.len()));
                } else {
                    assert(e.0@ == key@);
                }
            }
        }
        Result::Ok(Some(value))
    }

    /// Writes a value into the cache and marks it dirty; the host is not
    /// consulted until `commit` flushes the write.
    pub fn set_storage(&mut self, key: String, value: Vec<u8>)
        requires
            old(self).wf(),
            fits_u32(encode_utf8(key@).len()),
            fits_u32(value@.len()),
            old(self).storage_cache.entries@.len() < u32::MAX,
        ensures
            final(self).wf(),
            final(self).signer == old(self).signer,
            final(self).caller == old(self).caller,
            final(self).contract == old(self).contract,
            final(self).attached_gas == old(self).attached_gas,
            final(self).call_hash == old(self).call_hash,
            final(self).cross_calls_hashes == old(self).cross_calls_hashes,
            final(self).initial_storage_hashes == old(self).initial_storage_hashes,
            final(self).storage_cache.entries@.len() <= old(self).storage_cache.entries@.len()
                + 1,
            forall|k2: Seq<char>|
                final(self).spec_cache(k2) == if k2 == key@ {
                    Option::Some((value, true))
                } else {
                    old(self).spec_cache(k2)
                },
    {
        self.storage_cache.set(key, (value, true));
        proof {
            assert forall|i: int| 0 <= i < self.storage_cache.entries@.len() implies fits_u32(
                encode_utf8((#[trigger] self.storage_cache.entries@[i]).0@).len(),
            ) && fits_u32(self.storage_cache.entries@[i].1.0@.len()) by {
                let e = self.storage_cache.entries@[i];
                if old(self).storage_cache.entries@.contains(e) {
                    let j = choose|j: int|
                        0 <= j < old(self).storage_cache.entries@.len() && old(
                            self,
                        ).storage_cache.entries@[j] == e;
                }
            }
        }
    }

    /// Looks up the EVM address mapped to an account through the
    /// account-mapping syscall; an unknown account is a fatal error.
    pub fn get_evm_address(&self, account_id: AccountId) -> (r: Result<Vec<u8>, Error>)
        ensures
            match r {
                Result::Ok(a) => crate::context::evm_address_of(account_id@) == Option::Some(a@),
                Result::Err(e) => e == Error::UnknownAccount && crate::context::evm_address_of(
                    account_id@,
                ) is None,
            },
    {
        let request = account_id.id.as_str().as_bytes_vec();
        proof {
            vstd::utf8::encode_utf8_valid_utf8(account_id@);
            vstd::utf8::encode_utf8_decode_utf8(account_id@);
        }
        match crate::syscalls::handle_get_account_mapping(&request) {
            Result::Ok(resp) => Result::Ok(resp),
            Result::Err(e) => Result::Err(e),
        }
    }

    /// Makes a cross-contract call: builds the child call with this
    /// invocation's contract as sender and its signer as signer, hands it
    /// to the host, decodes the child's whole committed outcome from the
    /// response, checks the child committed to exactly this call, and
    /// appends the (call hash, output hash) pair to the transcript.
    #[verifier::rlimit(100)]
    #[verifier::spinoff_prover]
    pub fn cross_contract_call(
        &mut self,
        host: &mut crate::runtime::Host,
        ctx: &mut crate::context::ExecutionContext,
        account: AccountId,
        method: String,
        attached_gas: u64,
        args: Vec<u8>,
        fuel: u64,
    ) -> (r: Result<ExecutionOutcome, Error>)
        requires
            old(self).wf(),
            old(self).matches_call(old(ctx).spec_call()@),
            wf_contract_call(old(ctx).spec_call()@),
            crate::runtime::pairs_link(
                pair_list_view(old(self).cross_calls_hashes@),
                old(ctx).spec_children(),
            ),
            storage_fits(old(host).storage),
            fits_u32(encode_utf8(account@).len()),
            fits_u32(encode_utf8(method@).len()),
            fits_u32(args@.len()),
            old(self).cross_calls_hashes@.len() < u32::MAX,
            fuel >= 1,
        ensures
            final(self).wf(),
            final(self).same_identity(*old(self)),
            final(self).storage_cache == old(self).storage_cache,
            final(self).initial_storage_hashes == old(self).initial_storage_hashes,
            final(ctx).spec_call() == old(ctx).spec_call(),
            final(ctx).spec_session() == old(ctx).spec_session(),
            storage_fits(final(host).storage),
            match r {
                Result::Ok(outcome) => {
                    &&& crate::runtime::pairs_link(
                        pair_list_view(final(self).cross_calls_hashes@),
                        final(ctx).spec_children(),
                    )
                    &&& final(ctx).spec_children().len() == old(ctx).spec_children().len() + 1
                    &&& final(ctx).spec_children().drop_last() == old(ctx).spec_children()
                    &&& crate::runtime::child_outcome(final(ctx).spec_children().last())
                        == outcome@
                    &&& outcome@.call_hash == sha256_of(
                        enc_contract_call(
                            ContractCallView {
                                account: account@,
                                method: method@,
                                args: args@,
                                attached_gas,
                                sender: old(self).contract@,
                                signer: old(self).signer@,
                            },
                        ),
                    )
                },
                Result::Err(_) => {
                    &&& final(self).cross_calls_hashes == old(self).cross_calls_hashes
                    &&& final(ctx).spec_children() == old(ctx).spec_children()
                },
            },
            attached_gas > crate::context::clamp0(
                old(ctx).spec_call().attached_gas - crate::runtime::GUEST_CYCLE_COST
                    - crate::context::sum_used(old(ctx).spec_children()),
            ) ==> (r matches Result::Err(e) && e == Error::InsufficientGas),
        decreases fuel, 2int,
    {
        let call = ContractCall::new(
            account,
            method,
            args,
            attached_gas,
            self.contract.clone(),
            self.signer.clone(),
        );
        let call_bytes = call.into_bytes();
        let call_hash = crate::hashing::sha256(call_bytes.as_slice());
        proof {
            crate::primitives::lemma_dec_enc_contract_call(call@, Seq::<u8>::empty());
            assert(enc_contract_call(call@) + Seq::<u8>::empty() =~= call_bytes@);
        }
        let response = match crate::runtime::handle_cross_contract_call(
            host,
            ctx,
            &call_bytes,
            fuel,
        ) {
            Result::Ok(j) => j,
            Result::Err(e) => {
                return Result::Err(e);
            },
        };
        proof {
            let callv = crate::primitives::dec_contract_call(call_bytes@).unwrap().0;
            assert(callv =~= call@);
            let child = ctx.spec_children().last();
            assert(child.spec_call()@ =~= call@);
        }
        let outcome = match ExecutionOutcome::try_from_bytes(response) {
            Result::Ok(o) => o,
            Result::Err(_) => {
                return Result::Err(Error::MalformedRequest);
            },
        };
        if !crate::hashing::digest_eq(&call_hash, &outcome.call_hash) {
            return Result::Err(Error::HashMismatch);
        }
        let output_hash = crate::hashing::sha256(outcome.output.as_slice());
        let ghost pre_pairs = self.cross_calls_hashes@;
        self.cross_calls_hashes.push((call_hash, output_hash));
        proof {
            assert(pair_list_view(self.cross_calls_hashes@) =~= pair_list_view(pre_pairs).push(
                (call_hash@, output_hash@),
            ));
            let pairs = pair_list_view(self.cross_calls_hashes@);
            let children = ctx.spec_children();
            assert forall|i: int| 0 <= i < children.len() implies {
                &&& crate::runtime::child_ok(#[trigger] children[i])
                &&& pairs[i].0 == crate::runtime::child_outcome(children[i]).call_hash
                &&& pairs[i].1 == sha256_of(crate::runtime::child_outcome(children[i]).output)
            } by {
                if i < children.len() - 1 {
                    assert(children[i] == old(ctx).spec_children()[i]);
                    assert(pairs[i] == pair_list_view(pre_pairs)[i]);
                }
            }
            assert(crate::hashing::is_digest(call_hash@));
            assert(wf_pairs(pair_list_view(self.cross_calls_hashes@))) by {
                assert forall|i: int|
                    0 <= i < pair_list_view(self.cross_calls_hashes@).len() implies is_digest(
                    (#[trigger] pair_list_view(self.cross_calls_hashes@)[i]).0,
                ) && is_digest(pair_list_view(self.cross_calls_hashes@)[i].1) by {
                    if i < pair_list_view(pre_pairs).len() {
                        assert(pair_list_view(self.cross_calls_hashes@)[i] == pair_list_view(
                            pre_pairs,
                        )[i]);
                        assert(is_digest(pair_list_view(pre_pairs)[i].0));
                        assert(is_digest(pair_list_view(pre_pairs)[i].1));
                    }
                }
            }
        }
        Result::Ok(outcome)
    }

    /// Seals the invocation. Every dirty cache entry is flushed through
    /// the verifying storage syscall and its digest recorded into the
    /// write set; the outcome — call hash, output, read set, write set
    /// and cross-call hashes — is then encoded as the journal. After a
    /// commit, the host holds every written value, and the write set
    /// holds exactly the digests of the dirty entries.
    #[verifier::rlimit(100)]
    #[verifier::spinoff_prover]
    pub fn commit(self, storage: &mut Storage, output: Vec<u8>) -> (r: Result<Vec<u8>, Error>)
        requires
            self.wf(),
            storage_fits(*old(storage)),
            fits_u32(output@.len()),
        ensures
            storage_fits(*final(storage)),
            r is Ok,
            ({
                let j = r.unwrap();
                &&& crate::outcome::dec_execution_outcome(j@) matches Option::Some(_)
                &&& {
                    let o = crate::outcome::dec_execution_outcome(j@).unwrap().0;
                    &&& o.call_hash == self.call_hash@
                    &&& o.output == output@
                    &&& o.storage_reads == digest_map_view(self.initial_storage_hashes)
                    &&& o.cross_calls_hashes == pair_list_view(self.cross_calls_hashes@)
                    &&& forall|j2: int|
                        0 <= j2 < o.storage_writes.len() ==> {
                            &&& final(storage).contents(
                                self.contract@,
                                (#[trigger] o.storage_writes[j2]).0,
                            ) matches Option::Some(v) && sha256_of(v) == o.storage_writes[j2].1
                        }
                    &&& forall|k: Seq<char>|
                        crate::outcome::view_get(o.storage_writes, k) == match self.spec_cache(
                            k,
                        ) {
                            Option::Some(e) => {
                                if e.1 {
                                    Option::Some(sha256_of(e.0@))
                                } else {
                                    Option::None
                                }
                            },
                            Option::None => Option::None,
                        }
                    &&& forall|c2: Seq<char>, k2: Seq<char>|
                        final(storage).contents(c2, k2) == (match self.spec_cache(k2) {
                            Option::Some(e) => {
                                if e.1 && c2 == self.contract@ {
                                    Option::Some(e.0@)
                                } else {
                                    old(storage).contents(c2, k2)
                                }
                            },
                            Option::None => old(storage).contents(c2, k2),
                        })
                }
            }),
    {
        let writes = flush_writes(&self.storage_cache, &self.contract, storage);
        let outcome = ExecutionOutcome {
            call_hash: self.call_hash,
            output,
            storage_reads: self.initial_storage_hashes,
            storage_writes: writes,
            cross_calls_hashes: self.cross_calls_hashes,
        };
        let journal = outcome.into_bytes();
        proof {
            let ov = outcome@;
            crate::outcome::lemma_dec_enc_execution_outcome(ov, Seq::<u8>::empty());
            assert(crate::outcome::enc_execution_outcome(ov) + Seq::<u8>::empty() =~= journal@);
            assert(crate::outcome::dec_execution_outcome(journal@) == Option::Some(
                (ov, crate::outcome::enc_execution_outcome(ov).len() as int),
            ));
            lemma_write_set_facts(outcome.storage_writes, self.storage_cache, self.contract@, *storage);
            assert(ov.storage_writes == digest_map_view(outcome.storage_writes));
        }
        Result::Ok(journal)
    }
}

/// From the flush loop's characterization of the write set, the two
/// facts a committed outcome promises: the view-level write set mirrors
/// the dirty cache entries, and the host now stores, for every write-set
/// entry, a value whose digest is the recorded one.
#[verifier::rlimit(100)]
#[verifier::spinoff_prover]
proof fn lemma_write_set_facts(
    writes: DigestMap,
    cache: SortedMap<CacheEntry>,
    contract: Seq<char>,
    storage: Storage,
)
    requires
        writes.wf(),
        forall|k: Seq<char>|
            match #[trigger] writes.spec_index(k) {
                Option::Some(d) => {
                    &&& spec_get(cache.entries@, k) matches Option::Some(e) && e.1 && d@
                        == sha256_of(e.0@)
                },
                Option::None => !(spec_get(cache.entries@, k) matches Option::Some(e) && e.1),
            },
        forall|k2: Seq<char>|
            (spec_get(cache.entries@, k2) matches Option::Some(e) && e.1) ==> storage.contents(
                contract,
                k2,
            ) == Option::Some((spec_get(cache.entries@, k2)->Some_0).0@),
    ensures
        forall|k: Seq<char>|
            crate::outcome::view_get(digest_map_view(writes), k) == match spec_get(
                cache.entries@,
                k,
            ) {
                Option::Some(e) => {
                    if e.1 {
                        Option::Some(sha256_of(e.0@))
                    } else {
                        Option::None
                    }
                },
                Option::None => Option::None,
            },
        forall|j2: int|
            0 <= j2 < digest_map_view(writes).len() ==> {
                storage.contents(
                    contract,
                    (#[trigger] digest_map_view(writes)[j2]).0,
                ) matches Option::Some(v) && sha256_of(v) == digest_map_view(writes)[j2].1
            },
{
    assert forall|k: Seq<char>| true implies crate::outcome::view_get(
        digest_map_view(writes),
        k,
    ) == (match spec_get(cache.entries@, k) {
        Option::Some(e) => {
            if e.1 {
                Option::Some(sha256_of(e.0@))
            } else {
                Option::None
            }
        },
        Option::None => Option::None,
    }) by {
        crate::outcome::lemma_view_get(writes, k);
        assert(writes.spec_index(k) == spec_get(writes.entries@, k));
    }
    crate::sorted_map::lemma_spec_get_of_entries(writes.entries@);
    assert forall|j2: int| 0 <= j2 < digest_map_view(writes).len() implies {
        storage.contents(contract, (#[trigger] digest_map_view(writes)[j2]).0) matches
            Option::Some(v) && sha256_of(v) == digest_map_view(writes)[j2].1
    } by {
        let e = writes.entries@[j2];
        assert(digest_map_view(writes)[j2] == (e.0@, e.1@));
        assert(spec_get(writes.entries@, e.0@) == Option::Some(e.1));
        assert(writes.spec_index(e.0@) == Option::Some(e.1));
    }
}

/// Flushes every dirty cache entry through the verifying storage
/// syscall, returning the write set: each flushed key mapped to the
/// digest of the value it now holds on the host.
#[verifier::rlimit(100)]
#[verifier::spinoff_prover]
fn flush_writes(
    cache: &SortedMap<CacheEntry>,
    contract: &AccountId,
    storage: &mut Storage,
) -> (writes: DigestMap)
    requires
        cache.wf(),
        cache.entries@.len() <= u32::MAX,
        forall|i: int|
            0 <= i < cache.entries@.len() ==> fits_u32(
                encode_utf8((#[trigger] cache.entries@[i]).0@).len(),
            ) && fits_u32(cache.entries@[i].1.0@.len()),
        fits_u32(encode_utf8(contract@).len()),
        storage_fits(*old(storage)),
    ensures
        storage_fits(*final(storage)),
        writes.wf(),
        wf_entries(digest_map_view(writes)),
        writes.entries@.len() <= cache.entries@.len(),
        forall|k: Seq<char>|
            match #[trigger] writes.spec_index(k) {
                Option::Some(d) => {
                    &&& spec_get(cache.entries@, k) matches Option::Some(e) && e.1 && d@
                        == sha256_of(e.0@)
                },
                Option::None => !(spec_get(cache.entries@, k) matches Option::Some(e) && e.1),
            },
        forall|c2: Seq<char>, k2: Seq<char>|
            #[trigger] final(storage).contents(c2, k2) == (match spec_get(cache.entries@, k2) {
                Option::Some(e) => {
                    if e.1 && c2 == contract@ {
                        Option::Some(e.0@)
                    } else {
                        old(storage).contents(c2, k2)
                    }
                },
                Option::None => old(storage).contents(c2, k2),
            }),
{
    let mut writes: DigestMap = SortedMap::new();
    let n = cache.entries.len();
    let mut i: usize = 0;
    proof {
        assert(cache.entries@.take(0) =~= Seq::<(String, CacheEntry)>::empty());
    }
    while i < n
        invariant
            cache.wf(),
            forall|i2: int|
                0 <= i2 < cache.entries@.len() ==> fits_u32(
                    encode_utf8((#[trigger] cache.entries@[i2]).0@).len(),
                ) && fits_u32(cache.entries@[i2].1.0@.len()),
            fits_u32(encode_utf8(contract@).len()),
            n == cache.entries@.len(),
            n <= u32::MAX,
            i <= n,
            storage_fits(*storage),
            writes.wf(),
            writes.entries@.len() <= i,
            wf_entries(digest_map_view(writes)),
            forall|k: Seq<char>|
                match #[trigger] writes.spec_index(k) {
                    Option::Some(d) => {
                        &&& spec_get(cache.entries@.take(i as int), k) matches Option::Some(e)
                            && e.1 && d@ == sha256_of(e.0@)
                    },
                    Option::None => !(spec_get(cache.entries@.take(i as int), k) matches
                        Option::Some(e) && e.1),
                },
            forall|c2: Seq<char>, k2: Seq<char>|
                #[trigger] storage.contents(c2, k2) == (match spec_get(
                    cache.entries@.take(i as int),
                    k2,
                ) {
                    Option::Some(e) => {
                        if e.1 && c2 == contract@ {
                            Option::Some(e.0@)
                        } else {
                            old(storage).contents(c2, k2)
                        }
                    },
                    Option::None => old(storage).contents(c2, k2),
                }),
        decreases n - i,
    {
        let ghost prefix = cache.entries@.take(i as int);
        let ghost entry = cache.entries@[i as int];
        proof {
            crate::sorted_map::lemma_spec_get_push(prefix, entry);
            assert(prefix.push(entry) =~= cache.entries@.take(i as int + 1));
            crate::sorted_map::lemma_spec_get_of_prefix_none(cache.entries@, i as int);
        }
        let dirty = cache.entries[i].1.1;
        if dirty {
            let key = cache.entries[i].0.clone();
            let value = cache.entries[i].1.0.clone();
            let hash = sha256(value.as_slice());
            let request = SetStorageRequest {
                key: key.clone(),
                hash: hash.clone(),
                storage: value.clone(),
            };
            let ghost req_view = request@;
            let request_bytes = request.into_bytes();
            proof {
                crate::primitives::lemma_dec_enc_set_storage_request(
                    req_view,
                    Seq::<u8>::empty(),
                );
                assert(crate::primitives::enc_set_storage_request(req_view) + Seq::<u8>::empty()
                    =~= request_bytes@);
            }
            match handle_set_storage(storage, contract, &request_bytes) {
                Result::Ok(_) => {},
                Result::Err(e) => {
                    proof {
                        assert(crate::primitives::dec_set_storage_request(request_bytes@)
                            matches Option::Some(p) && p.0 == req_view);
                        assert(req_view.hash == sha256_of(req_view.storage));
                        assert(false);
                    }
                    return writes;
                },
            }
            let ghost pre_writes = writes;
            let ghost key_view = key@;
            let ghost hash_view = hash@;
            writes.set(key, hash);
            proof {
                assert(wf_entries(digest_map_view(writes))) by {
                    assert forall|i2: int|
                        0 <= i2 < digest_map_view(writes).len() implies fits_u32(
                        encode_utf8((#[trigger] digest_map_view(writes)[i2]).0).len(),
                    ) && is_digest(digest_map_view(writes)[i2].1) by {
                        let e = writes.entries@[i2];
                        assert(digest_map_view(writes)[i2] == (e.0@, e.1@));
                        if pre_writes.entries@.contains(e) {
                            let j = choose|j: int|
                                0 <= j < pre_writes.entries@.len() && pre_writes.entries@[j]
                                    == e;
                            assert(digest_map_view(pre_writes)[j] == (e.0@, e.1@));
                            assert(fits_u32(
                                encode_utf8(digest_map_view(pre_writes)[j].0).len(),
                            ));
                            assert(is_digest(digest_map_view(pre_writes)[j].1));
                        } else {
                            assert(e.0@ == key_view && e.1@ == hash_view);
                        }
                    }
                }
            }
        }
        i = i + 1;
    }
    proof {
        assert(cache.entries@.take(n as int) =~= cache.entries@);
    }
    writes
}

/// What a storage read observes in a given environment and host state:
/// the cached entry where the key has been read or written in this
/// invocation, else what the host stores.
pub open spec fn read_result(env: Env, storage: Storage, k: Seq<char>) -> Option<Seq<u8>> {
    match env.spec_cache(k) {
        Option::Some(e) => Option::Some(e.0@),
        Option::None => storage.contents(env.contract@, k),
    }
}

/// Read-your-writes: after a guest writes a value under a key, a read of
/// that key observes exactly the written bytes, whatever the host
/// stores — the written entry sits in the cache and a cached key is
/// answered from the cache alone.
pub proof fn lemma_read_your_writes(
    before: Env,
    after: Env,
    k: Seq<char>,
    v: Vec<u8>,
    s1: Storage,
    s2: Storage,
)
    requires
        forall|k2: Seq<char>|
            after.spec_cache(k2) == if k2 == k {
                Option::Some((v, true))
            } else {
                before.spec_cache(k2)
            },
    ensures
        read_result(after, s1, k) == Option::Some(v@),
        read_result(after, s2, k) == Option::Some(v@),
{
}

/// Read stability: within one invocation, two reads of one key observe
/// bytes of equal value — the first read materializes the key in the
/// cache, and every later read of a cached key is answered from the
/// cache.
pub proof fn lemma_read_stability(before: Env, after: Env, storage: Storage, k: Seq<char>)
    requires
        after.contract == before.contract,
        match before.spec_cache(k) {
            Option::Some(_) => after == before,
            Option::None => match storage.contents(before.contract@, k) {
                Option::Some(v) => after.spec_cache(k) matches Option::Some(e) && e.0@ == v,
                Option::None => after == before,
            },
        },
    ensures
        read_result(after, storage, k) == read_result(before, storage, k),
{
}

} // verus!
