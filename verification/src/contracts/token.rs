//! The token contract: a ticker, an owner, a total supply and a balance
//! per account, all held as one state blob under one storage key.

use crate::codec::{
    dec_str, dec_u128, dec_u32, enc_str, enc_u128, enc_u32, fits_u32, read_str, read_u128,
    read_u32, write_str, write_u128, write_u32,
};
use crate::context::ExecutionContext;
use crate::env::Env;
use crate::primitives::{AccountId, Error};
use crate::runtime::{guest_post, seal, Host};
use crate::sorted_map::{spec_get, str_eq, SortedMap};
use crate::storage::{storage_fits, Storage};
use vstd::prelude::*;
use vstd::string::StringExecFns;
use vstd::utf8::{encode_utf8, is_ascii_chars_encode_utf8};

verus! {

/// The storage key the token keeps its state under.
pub open spec fn state_key() -> Seq<char> {
    "state"@
}

proof fn lemma_state_key_fits()
    ensures
        fits_u32(encode_utf8(state_key()).len()),
{
    reveal_strlit("state");
    assert(vstd::utf8::is_ascii_chars(state_key()));
    is_ascii_chars_encode_utf8(state_key());
}

/// The token's state: ticker, owner, total supply and the balances map.
pub struct TokenState {
    pub ticker: String,
    pub owner: AccountId,
    pub total_supply: u128,
    pub balances: SortedMap<u128>,
}

/// The view of a balances map: its entries in order.
pub open spec fn balances_view(m: SortedMap<u128>) -> Seq<(Seq<char>, u128)> {
    Seq::new(m.entries@.len(), |i: int| (m.entries@[i].0@, m.entries@[i].1))
}

/// The view of a [`TokenState`].
#[verifier::ext_equal]
pub struct TokenStateView {
    pub ticker: Seq<char>,
    pub owner: Seq<char>,
    pub total_supply: u128,
    pub balances: Seq<(Seq<char>, u128)>,
}

impl View for TokenState {
    type V = TokenStateView;

    open spec fn view(&self) -> TokenStateView {
        TokenStateView {
            ticker: self.ticker@,
            owner: self.owner@,
            total_supply: self.total_supply,
            balances: balances_view(self.balances),
        }
    }
}

/// Whether a token state is small enough for its encoding.
pub open spec fn wf_token_state(v: TokenStateView) -> bool {
    &&& fits_u32(encode_utf8(v.ticker).len())
    &&& fits_u32(encode_utf8(v.owner).len())
    &&& fits_u32(v.balances.len())
    &&& forall|i: int|
        0 <= i < v.balances.len() ==> fits_u32(encode_utf8((#[trigger] v.balances[i]).0).len())
}

/// The encoding of the balance entries: each account then its balance.
pub open spec fn enc_balance_entries(entries: Seq<(Seq<char>, u128)>) -> Seq<u8>
    decreases entries.len(),
{
    if entries.len() == 0 {
        Seq::empty()
    } else {
        enc_str(entries[0].0) + enc_u128(entries[0].1) + enc_balance_entries(entries.drop_first())
    }
}

/// The canonical encoding of a token state: its fields in order, the
/// balances as a counted, key-ordered map.
pub open spec fn enc_token_state(v: TokenStateView) -> Seq<u8> {
    enc_str(v.ticker) + enc_str(v.owner) + enc_u128(v.total_supply) + enc_u32(
        v.balances.len() as u32,
    ) + enc_balance_entries(v.balances)
}

/// The balance the decoded entries leave bound to `k`: the last pair for
/// the key wins, a key never listed is unbound.
pub open spec fn fold_lookup(entries: Seq<(Seq<char>, u128)>, k: Seq<char>) -> Option<u128>
    decreases entries.len(),
{
    if entries.len() == 0 {
        Option::None
    } else if entries.last().0 == k {
        Option::Some(entries.last().1)
    } else {
        fold_lookup(entries.drop_last(), k)
    }
}

/// The state a guest invocation observes under the state key: the wire
/// view of the decoded bytes, where they are present and decode.
pub open spec fn loaded_state(env: Env, storage: Storage) -> Option<TokenStateView> {
    match crate::env::read_result(env, storage, state_key()) {
        Option::Some(b) => match dec_token_state(b) {
            Option::Some(p) => Option::Some(p.0),
            Option::None => Option::None,
        },
        Option::None => Option::None,
    }
}

/// The state stored for a token account on the host, as its wire view,
/// where it is present and decodes.
pub open spec fn stored_state(storage: Storage, account: Seq<char>) -> Option<TokenStateView> {
    match storage.contents(account, state_key()) {
        Option::Some(b) => match dec_token_state(b) {
            Option::Some(p) => Option::Some(p.0),
            Option::None => Option::None,
        },
        Option::None => Option::None,
    }
}

/// The balance a state view holds for an account, zero where unlisted.
pub open spec fn balance_in(tv: TokenStateView, k: Seq<char>) -> u128 {
    match fold_lookup(tv.balances, k) {
        Option::Some(v) => v,
        Option::None => 0u128,
    }
}

/// Whether a balances map holds exactly the given per-key content.
pub open spec fn map_matches(
    m2: SortedMap<u128>,
    tv: TokenStateView,
    changed: Seq<(Seq<char>, u128)>,
) -> bool {
    forall|k: Seq<char>|
        (#[trigger] m2.spec_index(k)) == (match fold_lookup(changed, k) {
            Option::Some(v) => Option::Some(v),
            Option::None => fold_lookup(tv.balances, k),
        })
}

/// Whether every canonically sorted balances map with the given content
/// encodes past the length prefix — the one way storing an updated state
/// can fail once its fields are in range.
pub open spec fn store_oversized(
    tv: TokenStateView,
    owner: Seq<char>,
    total_supply: u128,
    changed: Seq<(Seq<char>, u128)>,
) -> bool {
    exists|m2: SortedMap<u128>|
        {
            &&& m2.wf()
            &&& map_matches(m2, tv, changed)
            &&& enc_token_state(
                TokenStateView {
                    ticker: tv.ticker,
                    owner,
                    total_supply,
                    balances: balances_view(m2),
                },
            ).len() > u32::MAX
        }
}

/// Decodes `n` balance pairs from the front of the input.
pub open spec fn dec_balance_entries(s: Seq<u8>, n: nat) -> Option<(Seq<(Seq<char>, u128)>, int)>
    decreases n,
{
    if n == 0 {
        Option::Some((Seq::empty(), 0int))
    } else {
        match dec_str(s) {
            Option::Some((k, p1)) => match dec_u128(s.skip(p1)) {
                Option::Some((v, _)) => match dec_balance_entries(
                    s.skip(p1 + 16),
                    (n - 1) as nat,
                ) {
                    Option::Some((tail, p2)) => Option::Some((seq![(k, v)] + tail, p1 + 16 + p2)),
                    Option::None => Option::None,
                },
                Option::None => Option::None,
            },
            Option::None => Option::None,
        }
    }
}

/// Decodes a token state from the front of the input, the balances as
/// the pair sequence it carries on the wire.
pub open spec fn dec_token_state(s: Seq<u8>) -> Option<(TokenStateView, int)> {
    match dec_str(s) {
        Option::Some((ticker, p1)) => match dec_str(s.skip(p1)) {
            Option::Some((owner, p2)) => match dec_u128(s.skip(p1 + p2)) {
                Option::Some((total_supply, _)) => match dec_u32(s.skip(p1 + p2 + 16)) {
                    Option::Some((n, _)) => match dec_balance_entries(
                        s.skip(p1 + p2 + 20),
                        n as nat,
                    ) {
                        Option::Some((balances, p5)) => Option::Some(
                            (
                                TokenStateView { ticker, owner, total_supply, balances },
                                p1 + p2 + 20 + p5,
                            ),
                        ),
                        Option::None => Option::None,
                    },
                    Option::None => Option::None,
                },
                Option::None => Option::None,
            },
            Option::None => Option::None,
        },
        Option::None => Option::None,
    }
}

proof fn lemma_enc_balance_entries_push(entries: Seq<(Seq<char>, u128)>, e: (Seq<char>, u128))
    ensures
        enc_balance_entries(entries.push(e)) == enc_balance_entries(entries) + enc_str(e.0)
            + enc_u128(e.1),
    decreases entries.len(),
{
    if entries.len() == 0 {
        assert(entries.push(e).drop_first() =~= entries);
        assert(enc_balance_entries(entries.push(e)) =~= enc_balance_entries(entries) + enc_str(
            e.0,
        ) + enc_u128(e.1));
    } else {
        assert(entries.push(e).drop_first() =~= entries.drop_first().push(e));
        lemma_enc_balance_entries_push(entries.drop_first(), e);
        assert(enc_balance_entries(entries.push(e)) =~= enc_balance_entries(entries) + enc_str(
            e.0,
        ) + enc_u128(e.1));
    }
}

/// Appends the canonical bytes of a token state.
fn write_token_state(out: &mut Vec<u8>, state: &TokenState)
    requires
        wf_token_state(state@),
    ensures
        final(out)@ == old(out)@ + enc_token_state(state@),
{
    write_str(out, state.ticker.as_str());
    write_str(out, state.owner.id.as_str());
    write_u128(out, state.total_supply);
    let n = state.balances.entries.len();
    write_u32(out, n as u32);
    let mut i: usize = 0;
    while i < n
        invariant
            n == state.balances.entries@.len(),
            i <= n,
            wf_token_state(state@),
            out@ == old(out)@ + enc_str(state@.ticker) + enc_str(state@.owner) + enc_u128(
                state@.total_supply,
            ) + enc_u32(n as u32) + enc_balance_entries(balances_view(state.balances).take(
                i as int,
            )),
        decreases n - i,
    {
        proof {
            assert(fits_u32(encode_utf8(balances_view(state.balances)[i as int].0).len()));
            assert(balances_view(state.balances)[i as int] == (
                state.balances.entries@[i as int].0@,
                state.balances.entries@[i as int].1,
            ));
        }
        write_str(out, state.balances.entries[i].0.as_str());
        write_u128(out, state.balances.entries[i].1);
        proof {
            lemma_enc_balance_entries_push(
                balances_view(state.balances).take(i as int),
                balances_view(state.balances)[i as int],
            );
            assert(balances_view(state.balances).take(i as int).push(
                balances_view(state.balances)[i as int],
            ) =~= balances_view(state.balances).take(i as int + 1));
            assert(out@ =~= old(out)@ + enc_str(state@.ticker) + enc_str(state@.owner) + enc_u128(
                state@.total_supply,
            ) + enc_u32(n as u32) + enc_balance_entries(balances_view(state.balances).take(
                i as int + 1,
            )));
        }
        i = i + 1;
    }
    proof {
        assert(balances_view(state.balances).take(n as int) =~= balances_view(state.balances));
        assert(out@ =~= old(out)@ + enc_token_state(state@));
    }
}

/// Decodes a token state from state bytes: reads the fields in order and
/// folds the balance pairs into a sorted map, later pairs overriding
/// earlier ones. Trailing bytes are tolerated.
#[verifier::rlimit(100)]
#[verifier::spinoff_prover]
fn read_token_state(input: &[u8]) -> (r: Option<TokenState>)
    ensures
        match r {
            Option::Some(state) => {
                &&& state.balances.wf()
                &&& wf_token_state(state@)
                &&& fits_u32(state.balances.entries@.len())
                &&& forall|i: int|
                    0 <= i < state.balances.entries@.len() ==> fits_u32(
                        encode_utf8((#[trigger] state.balances.entries@[i]).0@).len(),
                    )
                &&& dec_token_state(input@) matches Option::Some(_)
                &&& {
                    let tv = dec_token_state(input@).unwrap().0;
                    &&& state@.ticker == tv.ticker
                    &&& state@.owner == tv.owner
                    &&& state@.total_supply == tv.total_supply
                    &&& state.balances.entries@.len() <= tv.balances.len()
                    &&& forall|k: Seq<char>|
                        #[trigger] state.balances.spec_index(k) == fold_lookup(tv.balances, k)
                }
            },
            Option::None => dec_token_state(input@) is None,
        },
{
    proof {
        assert(input@.skip(0) =~= input@);
    }
    let (ticker, p1) = match read_str(input, 0) {
        Option::Some(x) => x,
        Option::None => {
            return Option::None;
        },
    };
    let (owner, p2) = match read_str(input, p1) {
        Option::Some(x) => x,
        Option::None => {
            return Option::None;
        },
    };
    proof {
        assert(input@.skip(0).skip(p1 as int) =~= input@.skip(p1 as int));
        crate::codec::lemma_dec_str_fits(input@.skip(0));
        crate::codec::lemma_dec_str_fits(input@.skip(p1 as int));
    }
    let (total_supply, p3) = match read_u128(input, p2) {
        Option::Some(x) => x,
        Option::None => {
            return Option::None;
        },
    };
    proof {
        assert(input@.skip(p1 as int).skip((p2 - p1) as int) =~= input@.skip(p2 as int));
    }
    let (n, p4) = match read_u32(input, p3) {
        Option::Some(x) => x,
        Option::None => {
            return Option::None;
        },
    };
    proof {
        assert(input@.skip(p2 as int).skip(16) =~= input@.skip(p3 as int));
    }
    let mut balances: SortedMap<u128> = SortedMap::new();
    let ghost mut decoded: Seq<(Seq<char>, u128)> = Seq::empty();
    let mut p: usize = p4;
    let mut i: u32 = 0;
    while i < n
        invariant
            p4 <= p <= input@.len(),
            p1 <= p2 <= input@.len(),
            p3 == p2 + 16,
            p4 == p3 + 4,
            dec_str(input@) == Option::Some((ticker@, p1 as int)),
            dec_str(input@.skip(p1 as int)) == Option::Some((owner@, (p2 - p1) as int)),
            dec_u128(input@.skip(p2 as int)) == Option::Some((total_supply, 16int)),
            dec_u32(input@.skip(p3 as int)) == Option::Some((n, 4int)),
            balances.wf(),
            balances.entries@.len() <= i,
            i <= n,
            forall|j: int|
                0 <= j < balances.entries@.len() ==> fits_u32(
                    encode_utf8((#[trigger] balances.entries@[j]).0@).len(),
                ),
            decoded.len() == i,
            forall|k: Seq<char>|
                #[trigger] balances.spec_index(k) == fold_lookup(decoded, k),
            match dec_balance_entries(input@.skip(p as int), (n - i) as nat) {
                Option::Some((tail, used)) => dec_balance_entries(
                    input@.skip(p4 as int),
                    n as nat,
                ) == Option::Some((decoded + tail, (p - p4) + used)),
                Option::None => dec_balance_entries(input@.skip(p4 as int), n as nat) is None,
            },
        decreases n - i,
    {
        let ghost s_at_p = input@.skip(p as int);
        proof {
            assert(input@.skip(p2 as int).skip(20) =~= input@.skip(p4 as int));
        }
        let (key, q1) = match read_str(input, p) {
            Option::Some(x) => x,
            Option::None => {
                return Option::None;
            },
        };
        proof {
            assert(s_at_p.skip((q1 - p) as int) =~= input@.skip(q1 as int));
        }
        let (value, q2) = match read_u128(input, q1) {
            Option::Some(x) => x,
            Option::None => {
                return Option::None;
            },
        };
        proof {
            assert(s_at_p.skip((q1 - p) + 16) =~= input@.skip(q2 as int));
            crate::codec::lemma_dec_str_fits(input@.skip(p as int));
        }
        let ghost pre = balances;
        let ghost pre_decoded = decoded;
        balances.set(key.clone(), value);
        proof {
            decoded = decoded.push((key@, value));
            assert forall|j: int| 0 <= j < balances.entries@.len() implies fits_u32(
                encode_utf8((#[trigger] balances.entries@[j]).0@).len(),
            ) by {
                let e = balances.entries@[j];
                if pre.entries@.contains(e) {
                    let j2 = choose|j2: int|
                        0 <= j2 < pre.entries@.len() && pre.entries@[j2] == e;
                }
            }
            assert(decoded.drop_last() =~= pre_decoded);
            assert(decoded.last() == (key@, value));
            assert forall|k: Seq<char>| #[trigger] balances.spec_index(k) == fold_lookup(
                decoded,
                k,
            ) by {
                if k != key@ {
                    assert(balances.spec_index(k) == pre.spec_index(k));
                }
            }
            match dec_balance_entries(input@.skip(q2 as int), (n - i - 1) as nat) {
                Option::Some((tail, used)) => {
                    assert(pre_decoded + (seq![(key@, value)] + tail) =~= decoded + tail);
                },
                Option::None => {},
            }
        }
        p = q2;
        i = i + 1;
    }
    proof {
        assert(dec_balance_entries(input@.skip(p as int), 0) == Option::Some(
            (Seq::<(Seq<char>, u128)>::empty(), 0int),
        ));
        assert(decoded + Seq::<(Seq<char>, u128)>::empty() =~= decoded);
    }
    let state = TokenState { ticker, owner: AccountId { id: owner }, total_supply, balances };
    proof {
        assert(input@.skip(p2 as int).skip(20) =~= input@.skip(p4 as int));
        assert(wf_token_state(state@)) by {
            assert forall|i2: int| 0 <= i2 < state@.balances.len() implies fits_u32(
                encode_utf8((#[trigger] state@.balances[i2]).0).len(),
            ) by {
                assert(state@.balances[i2] == (
                    state.balances.entries@[i2].0@,
                    state.balances.entries@[i2].1,
                ));
            }
        }
    }
    Option::Some(state)
}

/// The token contract.
pub struct TokenContract;

impl TokenContract {
    /// Creates the token: the caller becomes owner and holds the whole
    /// initial supply.
    pub fn init(env: &mut Env, input: (String, u128)) -> (r: Result<(), Error>)
        requires
            old(env).wf(),
            old(env).storage_cache.entries@.len() < u32::MAX,
            fits_u32(encode_utf8(input.0@).len()),
        ensures
            final(env).wf(),
            final(env).same_identity(*old(env)),
            final(env).initial_storage_hashes == old(env).initial_storage_hashes,
            final(env).cross_calls_hashes == old(env).cross_calls_hashes,
            r is Ok <==> enc_token_state(
                TokenStateView {
                    ticker: input.0@,
                    owner: old(env).caller@,
                    total_supply: input.1,
                    balances: seq![(old(env).caller@, input.1)],
                },
            ).len() <= u32::MAX,
            match r {
                Result::Ok(_) => final(env).spec_cache(state_key()) matches Option::Some(e) && e.1
                    && e.0@ == enc_token_state(
                    TokenStateView {
                        ticker: input.0@,
                        owner: old(env).caller@,
                        total_supply: input.1,
                        balances: seq![(old(env).caller@, input.1)],
                    },
                ),
                Result::Err(e) => e == Error::GuestPanic,
            },
    {
        proof {
            lemma_state_key_fits();
        }
        let (ticker, initial_supply) = input;
        let caller = env.caller();
        let mut balances: SortedMap<u128> = SortedMap::new();
        balances.set(caller.id.clone(), initial_supply);
        proof {
            assert(balances.entries@.len() == 1) by {
                assert(balances.spec_index(old(env).caller@) is Some);
                if balances.entries@.len() == 0 {
                    assert(spec_get(balances.entries@, old(env).caller@) is None);
                }
            }
            assert(balances.entries@[0] == (caller.id, input.1));
        }
        let state = TokenState {
            ticker,
            owner: AccountId { id: caller.id },
            total_supply: initial_supply,
            balances,
        };
        proof {
            assert(balances_view(state.balances) =~= seq![(old(env).caller@, input.1)]);
        }
        match store_state(env, &state) {
            Result::Ok(_) => {},
            Result::Err(e) => {
                return Result::Err(e);
            },
        }
        proof {
            assert(state@ =~= (TokenStateView {
                ticker: input.0@,
                owner: old(env).caller@,
                total_supply: input.1,
                balances: seq![(old(env).caller@, input.1)],
            }));
        }
        Result::Ok(())
    }

    /// The balance held by an account: zero where the account holds
    /// nothing. The output to commit is the balance's canonical bytes.
    pub fn balance_of(env: &mut Env, storage: &Storage, address: AccountId) -> (r: Result<
        Vec<u8>,
        Error,
    >)
        requires
            old(env).wf(),
            storage_fits(*storage),
            old(env).storage_cache.entries@.len() < u32::MAX,
            old(env).initial_storage_hashes.entries@.len() < u32::MAX,
        ensures
            final(env).wf(),
            final(env).same_identity(*old(env)),
            final(env).cross_calls_hashes == old(env).cross_calls_hashes,
            r is Ok <==> (crate::env::read_result(*old(env), *storage, state_key()) matches
                Option::Some(b) && dec_token_state(b) is Some),
            match r {
                Result::Ok(out) => {
                    &&& fits_u32(out@.len())
                    &&& crate::env::read_result(*old(env), *storage, state_key()) matches
                        Option::Some(_)
                    &&& dec_token_state(
                        crate::env::read_result(*old(env), *storage, state_key()).unwrap(),
                    ) matches Option::Some(_)
                    &&& out@ == enc_u128(
                        match fold_lookup(
                            dec_token_state(
                                crate::env::read_result(
                                    *old(env),
                                    *storage,
                                    state_key(),
                                ).unwrap(),
                            ).unwrap().0.balances,
                            address@,
                        ) {
                            Option::Some(v) => v,
                            Option::None => 0u128,
                        },
                    )
                },
                Result::Err(e) => e == Error::GuestPanic,
            },
    {
        let state = match load_state(env, storage) {
            Result::Ok(s) => s,
            Result::Err(e) => {
                return Result::Err(e);
            },
        };
        let balance: u128 = match state.balances.get(address.id.as_str()) {
            Option::Some(v) => *v,
            Option::None => 0,
        };
        let mut out: Vec<u8> = Vec::new();
        write_u128(&mut out, balance);
        Result::Ok(out)
    }

    /// Moves `amount` from the caller to the recipient; a caller without
    /// that much aborts the guest, as does a recipient balance that would
    /// overflow.
    #[verifier::rlimit(100)]
    #[verifier::spinoff_prover]
    pub fn transfer(
        env: &mut Env,
        storage: &Storage,
        input: (AccountId, u128),
    ) -> (r: Result<(), Error>)
        requires
            old(env).wf(),
            storage_fits(*storage),
            old(env).storage_cache.entries@.len() + 2 <= u32::MAX,
            old(env).initial_storage_hashes.entries@.len() < u32::MAX,
        ensures
            final(env).wf(),
            final(env).same_identity(*old(env)),
            final(env).cross_calls_hashes == old(env).cross_calls_hashes,
            match r {
                Result::Ok(_) => {
                    &&& crate::env::read_result(*old(env), *storage, state_key()) matches
                        Option::Some(_)
                    &&& dec_token_state(
                        crate::env::read_result(*old(env), *storage, state_key()).unwrap(),
                    ) matches Option::Some(_)
                    &&& {
                        let tv = dec_token_state(
                            crate::env::read_result(*old(env), *storage, state_key()).unwrap(),
                        ).unwrap().0;
                        let sender_before = match fold_lookup(tv.balances, old(env).caller@) {
                            Option::Some(v) => v,
                            Option::None => 0u128,
                        };
                        let recipient_before = if input.0@ == old(env).caller@ {
                            (sender_before - input.1) as u128
                        } else {
                            match fold_lookup(tv.balances, input.0@) {
                                Option::Some(v) => v,
                                Option::None => 0u128,
                            }
                        };
                        &&& sender_before >= input.1
                        &&& recipient_before + input.1 <= u128::MAX
                        &&& (final(env).spec_cache(state_key()) matches Option::Some(e) && e.1
                            && exists|m2: SortedMap<u128>|
                            {
                                &&& e.0@ == enc_token_state(
                                    TokenStateView {
                                        ticker: tv.ticker,
                                        owner: tv.owner,
                                        total_supply: tv.total_supply,
                                        balances: balances_view(m2),
                                    },
                                )
                                &&& forall|k: Seq<char>|
                                    (#[trigger] m2.spec_index(k)) == if k == input.0@ {
                                        Option::Some((recipient_before + input.1) as u128)
                                    } else if k == old(env).caller@ {
                                        Option::Some((sender_before - input.1) as u128)
                                    } else {
                                        fold_lookup(tv.balances, k)
                                    }
                            })
                    }
                },
                Result::Err(e) => {
                    &&& e == Error::GuestPanic
                    &&& {
                        ||| loaded_state(*old(env), *storage) is None
                        ||| {
                            let tv = loaded_state(*old(env), *storage).unwrap();
                            let sender_before = balance_in(tv, old(env).caller@);
                            let recipient_before = if input.0@ == old(env).caller@ {
                                (sender_before - input.1) as u128
                            } else {
                                balance_in(tv, input.0@)
                            };
                            ||| sender_before < input.1
                            ||| encode_utf8(input.0@).len() > u32::MAX
                            ||| tv.balances.len() + 2 > u32::MAX
                            ||| recipient_before + input.1 > u128::MAX
                            ||| store_oversized(
                                tv,
                                tv.owner,
                                tv.total_supply,
                                seq![
                                    (old(env).caller@, (sender_before - input.1) as u128),
                                    (input.0@, (recipient_before + input.1) as u128),
                                ],
                            )
                        }
                    }
                },
            },
    {
        proof {
            lemma_state_key_fits();
        }
        let (recipient, amount) = input;
        let mut state = match load_state(env, storage) {
            Result::Ok(s) => s,
            Result::Err(e) => {
                return Result::Err(e);
            },
        };
        let caller = env.caller();
        let sender_balance: u128 = match state.balances.get(caller.id.as_str()) {
            Option::Some(v) => *v,
            Option::None => 0,
        };
        if sender_balance < amount {
            return Result::Err(Error::GuestPanic);
        }
        if recipient.id.as_str().as_bytes().len() as u64 > u32::MAX as u64 {
            return Result::Err(Error::GuestPanic);
        }
        match bal_set(&mut state.balances, caller.id.clone(), sender_balance - amount) {
            Result::Ok(_) => {},
            Result::Err(e) => {
                return Result::Err(e);
            },
        }
        let recipient_balance: u128 = match state.balances.get(recipient.id.as_str()) {
            Option::Some(v) => *v,
            Option::None => 0,
        };
        let new_recipient_balance = match recipient_balance.checked_add(amount) {
            Option::Some(v) => v,
            Option::None => {
                return Result::Err(Error::GuestPanic);
            },
        };
        match bal_set(&mut state.balances, recipient.id.clone(), new_recipient_balance) {
            Result::Ok(_) => {},
            Result::Err(e) => {
                return Result::Err(e);
            },
        }
        let r = store_state(env, &state);
        proof {
            let tv = loaded_state(*old(env), *storage).unwrap();
            let sender_before = balance_in(tv, old(env).caller@);
            let recipient_before = if input.0@ == old(env).caller@ {
                (sender_before - input.1) as u128
            } else {
                balance_in(tv, input.0@)
            };
            assert(forall|k: Seq<char>|
                (#[trigger] state.balances.spec_index(k)) == if k == input.0@ {
                    Option::Some((recipient_before + input.1) as u128)
                } else if k == old(env).caller@ {
                    Option::Some((sender_before - input.1) as u128)
                } else {
                    fold_lookup(tv.balances, k)
                });
            if r is Err {
                let changed = seq![
                    (old(env).caller@, (sender_before - input.1) as u128),
                    (input.0@, (recipient_before + input.1) as u128),
                ];
                assert(changed.last() == (input.0@, (recipient_before + input.1) as u128));
                assert(changed.drop_last() =~= seq![
                    (old(env).caller@, (sender_before - input.1) as u128),
                ]);
                assert(changed.drop_last().last() == (
                    old(env).caller@,
                    (sender_before - input.1) as u128,
                ));
                assert(changed.drop_last().drop_last() =~= Seq::<(Seq<char>, u128)>::empty());
                assert forall|k: Seq<char>| #[trigger] fold_lookup(changed, k) == (if k
                    == input.0@ {
                    Option::Some((recipient_before + input.1) as u128)
                } else if k == old(env).caller@ {
                    Option::Some((sender_before - input.1) as u128)
                } else {
                    Option::None
                }) by {
                    assert(fold_lookup(changed.drop_last().drop_last(), k)
                        == Option::None::<u128>);
                    assert(fold_lookup(changed.drop_last(), k) == (if k == old(env).caller@ {
                        Option::Some((sender_before - input.1) as u128)
                    } else {
                        Option::None
                    }));
                }
                assert(map_matches(state.balances, tv, changed));
                assert(store_oversized(tv, tv.owner, tv.total_supply, changed));
            }
        }
        r
    }

    /// Creates `amount` new tokens for the caller; only the owner may
    /// mint, and a supply or balance that would overflow aborts the
    /// guest.
    pub fn mint(env: &mut Env, storage: &Storage, amount: u128) -> (r: Result<(), Error>)
        requires
            old(env).wf(),
            storage_fits(*storage),
            old(env).storage_cache.entries@.len() + 2 <= u32::MAX,
            old(env).initial_storage_hashes.entries@.len() < u32::MAX,
        ensures
            final(env).wf(),
            final(env).same_identity(*old(env)),
            final(env).cross_calls_hashes == old(env).cross_calls_hashes,
            match r {
                Result::Ok(_) => {
                    &&& crate::env::read_result(*old(env), *storage, state_key()) matches
                        Option::Some(_)
                    &&& dec_token_state(
                        crate::env::read_result(*old(env), *storage, state_key()).unwrap(),
                    ) matches Option::Some(_)
                    &&& {
                        let tv = dec_token_state(
                            crate::env::read_result(*old(env), *storage, state_key()).unwrap(),
                        ).unwrap().0;
                        let caller_before = match fold_lookup(tv.balances, old(env).caller@) {
                            Option::Some(v) => v,
                            Option::None => 0u128,
                        };
                        &&& tv.owner == old(env).caller@
                        &&& tv.total_supply + amount <= u128::MAX
                        &&& caller_before + amount <= u128::MAX
                        &&& (final(env).spec_cache(state_key()) matches Option::Some(e) && e.1
                            && exists|m2: SortedMap<u128>|
                            {
                                &&& e.0@ == enc_token_state(
                                    TokenStateView {
                                        ticker: tv.ticker,
                                        owner: tv.owner,
                                        total_supply: (tv.total_supply + amount) as u128,
                                        balances: balances_view(m2),
                                    },
                                )
                                &&& forall|k: Seq<char>|
                                    (#[trigger] m2.spec_index(k)) == if k == old(env).caller@ {
                                        Option::Some((caller_before + amount) as u128)
                                    } else {
                                        fold_lookup(tv.balances, k)
                                    }
                            })
                    }
                },
                Result::Err(e) => {
                    &&& e == Error::GuestPanic
                    &&& {
                        ||| loaded_state(*old(env), *storage) is None
                        ||| {
                            let tv = loaded_state(*old(env), *storage).unwrap();
                            let caller_before = balance_in(tv, old(env).caller@);
                            ||| tv.owner != old(env).caller@
                            ||| tv.total_supply + amount > u128::MAX
                            ||| caller_before + amount > u128::MAX
                            ||| tv.balances.len() + 1 > u32::MAX
                            ||| store_oversized(
                                tv,
                                tv.owner,
                                (tv.total_supply + amount) as u128,
                                seq![(old(env).caller@, (caller_before + amount) as u128)],
                            )
                        }
                    }
                },
            },
    {
        proof {
            lemma_state_key_fits();
        }
        let mut state = match load_state(env, storage) {
            Result::Ok(s) => s,
            Result::Err(e) => {
                return Result::Err(e);
            },
        };
        let caller = env.caller();
        if !state.owner.is(&caller) {
            return Result::Err(Error::GuestPanic);
        }
        let new_total = match state.total_supply.checked_add(amount) {
            Option::Some(v) => v,
            Option::None => {
                return Result::Err(Error::GuestPanic);
            },
        };
        state.total_supply = new_total;
        let balance: u128 = match state.balances.get(caller.id.as_str()) {
            Option::Some(v) => *v,
            Option::None => 0,
        };
        let new_balance = match balance.checked_add(amount) {
            Option::Some(v) => v,
            Option::None => {
                return Result::Err(Error::GuestPanic);
            },
        };
        match bal_set(&mut state.balances, caller.id.clone(), new_balance) {
            Result::Ok(_) => {},
            Result::Err(e) => {
                return Result::Err(e);
            },
        }
        let r = store_state(env, &state);
        proof {
            let tv = loaded_state(*old(env), *storage).unwrap();
            let caller_before = balance_in(tv, old(env).caller@);
            assert(forall|k: Seq<char>|
                (#[trigger] state.balances.spec_index(k)) == if k == old(env).caller@ {
                    Option::Some((caller_before + amount) as u128)
                } else {
                    fold_lookup(tv.balances, k)
                });
            if r is Err {
                let changed = seq![(old(env).caller@, (caller_before + amount) as u128)];
                assert(changed.last() == (old(env).caller@, (caller_before + amount) as u128));
                assert(changed.drop_last() =~= Seq::<(Seq<char>, u128)>::empty());
                assert forall|k: Seq<char>| #[trigger] fold_lookup(changed, k) == (if k == old(
                    env,
                ).caller@ {
                    Option::Some((caller_before + amount) as u128)
                } else {
                    Option::None
                }) by {
                    assert(fold_lookup(changed.drop_last(), k) == Option::None::<u128>);
                }
                assert(map_matches(state.balances, tv, changed));
                assert(store_oversized(
                    tv,
                    tv.owner,
                    (tv.total_supply + amount) as u128,
                    changed,
                ));
            }
        }
        r
    }

    /// Destroys `amount` of the caller's tokens; a caller without that
    /// much aborts the guest.
    pub fn burn(env: &mut Env, storage: &Storage, amount: u128) -> (r: Result<(), Error>)
        requires
            old(env).wf(),
            storage_fits(*storage),
            old(env).storage_cache.entries@.len() + 2 <= u32::MAX,
            old(env).initial_storage_hashes.entries@.len() < u32::MAX,
        ensures
            final(env).wf(),
            final(env).same_identity(*old(env)),
            final(env).cross_calls_hashes == old(env).cross_calls_hashes,
            match r {
                Result::Ok(_) => {
                    &&& crate::env::read_result(*old(env), *storage, state_key()) matches
                        Option::Some(_)
                    &&& dec_token_state(
                        crate::env::read_result(*old(env), *storage, state_key()).unwrap(),
                    ) matches Option::Some(_)
                    &&& {
                        let tv = dec_token_state(
                            crate::env::read_result(*old(env), *storage, state_key()).unwrap(),
                        ).unwrap().0;
                        let caller_before = match fold_lookup(tv.balances, old(env).caller@) {
                            Option::Some(v) => v,
                            Option::None => 0u128,
                        };
                        &&& caller_before >= amount
                        &&& tv.total_supply >= amount
                        &&& (final(env).spec_cache(state_key()) matches Option::Some(e) && e.1
                            && exists|m2: SortedMap<u128>|
                            {
                                &&& e.0@ == enc_token_state(
                                    TokenStateView {
                                        ticker: tv.ticker,
                                        owner: tv.owner,
                                        total_supply: (tv.total_supply - amount) as u128,
                                        balances: balances_view(m2),
                                    },
                                )
                                &&& forall|k: Seq<char>|
                                    (#[trigger] m2.spec_index(k)) == if k == old(env).caller@ {
                                        Option::Some((caller_before - amount) as u128)
                                    } else {
                                        fold_lookup(tv.balances, k)
                                    }
                            })
                    }
                },
                Result::Err(e) => {
                    &&& e == Error::GuestPanic
                    &&& {
                        ||| loaded_state(*old(env), *storage) is None
                        ||| {
                            let tv = loaded_state(*old(env), *storage).unwrap();
                            let caller_before = balance_in(tv, old(env).caller@);
                            ||| caller_before < amount
                            ||| tv.total_supply < amount
                            ||| tv.balances.len() + 1 > u32::MAX
                            ||| store_oversized(
                                tv,
                                tv.owner,
                                (tv.total_supply - amount) as u128,
                                seq![(old(env).caller@, (caller_before - amount) as u128)],
                            )
                        }
                    }
                },
            },
    {
        proof {
            lemma_state_key_fits();
        }
        let mut state = match load_state(env, storage) {
            Result::Ok(s) => s,
            Result::Err(e) => {
                return Result::Err(e);
            },
        };
        let caller = env.caller();
        let balance: u128 = match state.balances.get(caller.id.as_str()) {
            Option::Some(v) => *v,
            Option::None => 0,
        };
        if balance < amount {
            return Result::Err(Error::GuestPanic);
        }
        state.total_supply = match state.total_supply.checked_sub(amount) {
            Option::Some(v) => v,
            Option::None => {
                return Result::Err(Error::GuestPanic);
            },
        };
        match bal_set(&mut state.balances, caller.id.clone(), balance - amount) {
            Result::Ok(_) => {},
            Result::Err(e) => {
                return Result::Err(e);
            },
        }
        let r = store_state(env, &state);
        proof {
            let tv = loaded_state(*old(env), *storage).unwrap();
            let caller_before = balance_in(tv, old(env).caller@);
            assert(forall|k: Seq<char>|
                (#[trigger] state.balances.spec_index(k)) == if k == old(env).caller@ {
                    Option::Some((caller_before - amount) as u128)
                } else {
                    fold_lookup(tv.balances, k)
                });
            if r is Err {
                let changed = seq![(old(env).caller@, (caller_before - amount) as u128)];
                assert(changed.last() == (old(env).caller@, (caller_before - amount) as u128));
                assert(changed.drop_last() =~= Seq::<(Seq<char>, u128)>::empty());
                assert forall|k: Seq<char>| #[trigger] fold_lookup(changed, k) == (if k == old(
                    env,
                ).caller@ {
                    Option::Some((caller_before - amount) as u128)
                } else {
                    Option::None
                }) by {
                    assert(fold_lookup(changed.drop_last(), k) == Option::None::<u128>);
                }
                assert(map_matches(state.balances, tv, changed));
                assert(store_oversized(
                    tv,
                    tv.owner,
                    (tv.total_supply - amount) as u128,
                    changed,
                ));
            }
        }
        r
    }

    /// Hands ownership over; only the owner may do so.
    pub fn set_owner(env: &mut Env, storage: &Storage, new_owner: AccountId) -> (r: Result<
        (),
        Error,
    >)
        requires
            old(env).wf(),
            storage_fits(*storage),
            old(env).storage_cache.entries@.len() + 2 <= u32::MAX,
            old(env).initial_storage_hashes.entries@.len() < u32::MAX,
        ensures
            final(env).wf(),
            final(env).same_identity(*old(env)),
            final(env).cross_calls_hashes == old(env).cross_calls_hashes,
            match r {
                Result::Ok(_) => {
                    &&& crate::env::read_result(*old(env), *storage, state_key()) matches
                        Option::Some(_)
                    &&& dec_token_state(
                        crate::env::read_result(*old(env), *storage, state_key()).unwrap(),
                    ) matches Option::Some(_)
                    &&& {
                        let tv = dec_token_state(
                            crate::env::read_result(*old(env), *storage, state_key()).unwrap(),
                        ).unwrap().0;
                        &&& tv.owner == old(env).caller@
                        &&& (final(env).spec_cache(state_key()) matches Option::Some(e) && e.1
                            && exists|m2: SortedMap<u128>|
                            {
                                &&& e.0@ == enc_token_state(
                                    TokenStateView {
                                        ticker: tv.ticker,
                                        owner: new_owner@,
                                        total_supply: tv.total_supply,
                                        balances: balances_view(m2),
                                    },
                                )
                                &&& forall|k: Seq<char>|
                                    (#[trigger] m2.spec_index(k)) == fold_lookup(tv.balances, k)
                            })
                    }
                },
                Result::Err(e) => {
                    &&& e == Error::GuestPanic
                    &&& {
                        ||| loaded_state(*old(env), *storage) is None
                        ||| {
                            let tv = loaded_state(*old(env), *storage).unwrap();
                            ||| tv.owner != old(env).caller@
                            ||| encode_utf8(new_owner@).len() > u32::MAX
                            ||| store_oversized(
                                tv,
                                new_owner@,
                                tv.total_supply,
                                Seq::<(Seq<char>, u128)>::empty(),
                            )
                        }
                    }
                },
            },
    {
        proof {
            lemma_state_key_fits();
        }
        let mut state = match load_state(env, storage) {
            Result::Ok(s) => s,
            Result::Err(e) => {
                return Result::Err(e);
            },
        };
        let caller = env.caller();
        if !state.owner.is(&caller) {
            return Result::Err(Error::GuestPanic);
        }
        if new_owner.id.as_str().as_bytes().len() as u64 > u32::MAX as u64 {
            return Result::Err(Error::GuestPanic);
        }
        let ghost tv = dec_token_state(
            crate::env::read_result(*old(env), *storage, state_key()).unwrap(),
        ).unwrap().0;
        state.owner = new_owner;
        let r = store_state(env, &state);
        proof {
            assert(forall|k: Seq<char>|
                (#[trigger] state.balances.spec_index(k)) == fold_lookup(tv.balances, k));
            if r is Err {
                let changed = Seq::<(Seq<char>, u128)>::empty();
                assert(forall|k: Seq<char>|
                    #[trigger] fold_lookup(changed, k) == Option::None::<u128>);
                assert(map_matches(state.balances, tv, changed));
                assert(store_oversized(tv, state.owner@, tv.total_supply, changed));
            }
        }
        r
    }

    /// The owner's identifier: the output to commit is its canonical
    /// bytes.
    pub fn get_owner(env: &mut Env, storage: &Storage) -> (r: Result<Vec<u8>, Error>)
        requires
            old(env).wf(),
            storage_fits(*storage),
            old(env).storage_cache.entries@.len() < u32::MAX,
            old(env).initial_storage_hashes.entries@.len() < u32::MAX,
        ensures
            final(env).wf(),
            final(env).same_identity(*old(env)),
            final(env).cross_calls_hashes == old(env).cross_calls_hashes,
            r is Ok <==> (crate::env::read_result(*old(env), *storage, state_key()) matches
                Option::Some(b) && dec_token_state(b) matches Option::Some(p) && encode_utf8(
                p.0.owner,
            ).len() + 4 <= u32::MAX),
            match r {
                Result::Ok(out) => {
                    &&& fits_u32(out@.len())
                    &&& crate::env::read_result(*old(env), *storage, state_key()) matches
                        Option::Some(_)
                    &&& dec_token_state(
                        crate::env::read_result(*old(env), *storage, state_key()).unwrap(),
                    ) matches Option::Some(_)
                    &&& out@ == enc_str(
                        dec_token_state(
                            crate::env::read_result(*old(env), *storage, state_key()).unwrap(),
                        ).unwrap().0.owner,
                    )
                },
                Result::Err(e) => e == Error::GuestPanic,
            },
    {
        let state = match load_state(env, storage) {
            Result::Ok(s) => s,
            Result::Err(e) => {
                return Result::Err(e);
            },
        };
        if state.owner.id.as_str().as_bytes().len() as u64 > u32::MAX as u64 - 4 {
            return Result::Err(Error::GuestPanic);
        }
        let mut out: Vec<u8> = Vec::new();
        write_str(&mut out, state.owner.id.as_str());
        Result::Ok(out)
    }
}

/// Loads and decodes the token state; a missing or undecodable state
/// aborts the guest.
fn load_state(env: &mut Env, storage: &Storage) -> (r: Result<TokenState, Error>)
    requires
        old(env).wf(),
        storage_fits(*storage),
        old(env).storage_cache.entries@.len() < u32::MAX,
        old(env).initial_storage_hashes.entries@.len() < u32::MAX,
    ensures
        final(env).wf(),
        final(env).same_identity(*old(env)),
        final(env).cross_calls_hashes == old(env).cross_calls_hashes,
        final(env).storage_cache.entries@.len() <= old(env).storage_cache.entries@.len() + 1,
        final(env).initial_storage_hashes.entries@.len() <= old(
            env,
        ).initial_storage_hashes.entries@.len() + 1,
        r is Ok <==> (crate::env::read_result(*old(env), *storage, state_key()) matches
            Option::Some(b) && dec_token_state(b) is Some),
        match r {
            Result::Ok(state) => {
                &&& state.balances.wf()
                &&& wf_token_state(state@)
                &&& fits_u32(state.balances.entries@.len())
                &&& forall|i: int|
                    0 <= i < state.balances.entries@.len() ==> fits_u32(
                        encode_utf8((#[trigger] state.balances.entries@[i]).0@).len(),
                    )
                &&& crate::env::read_result(*old(env), *storage, state_key()) matches
                    Option::Some(_)
                &&& dec_token_state(
                    crate::env::read_result(*old(env), *storage, state_key()).unwrap(),
                ) matches Option::Some(_)
                &&& {
                    let tv = dec_token_state(
                        crate::env::read_result(*old(env), *storage, state_key()).unwrap(),
                    ).unwrap().0;
                    &&& state@.ticker == tv.ticker
                    &&& state@.owner == tv.owner
                    &&& state@.total_supply == tv.total_supply
                    &&& state.balances.entries@.len() <= tv.balances.len()
                    &&& forall|k: Seq<char>|
                        #[trigger] state.balances.spec_index(k) == fold_lookup(tv.balances, k)
                }
            },
            Result::Err(e) => e == Error::GuestPanic,
        },
{
    proof {
        lemma_state_key_fits();
    }
    let current = match env.get_storage(storage, "state") {
        Result::Ok(o) => o,
        Result::Err(_) => {
            return Result::Err(Error::GuestPanic);
        },
    };
    let bytes = match current {
        Option::Some(b) => b,
        Option::None => {
            return Result::Err(Error::GuestPanic);
        },
    };
    match read_token_state(bytes.as_slice()) {
        Option::Some(state) => Result::Ok(state),
        Option::None => Result::Err(Error::GuestPanic),
    }
}

/// Rebinds one balance, guarding the size limits of the encoding.
fn bal_set(balances: &mut SortedMap<u128>, key: String, value: u128) -> (r: Result<(), Error>)
    requires
        old(balances).wf(),
        fits_u32(old(balances).entries@.len()),
        forall|i: int|
            0 <= i < old(balances).entries@.len() ==> fits_u32(
                encode_utf8((#[trigger] old(balances).entries@[i]).0@).len(),
            ),
    ensures
        final(balances).wf(),
        fits_u32(final(balances).entries@.len()),
        forall|i: int|
            0 <= i < final(balances).entries@.len() ==> fits_u32(
                encode_utf8((#[trigger] final(balances).entries@[i]).0@).len(),
            ),
        r is Ok <==> (old(balances).entries@.len() + 1 <= u32::MAX && encode_utf8(key@).len()
            <= u32::MAX),
        final(balances).entries@.len() <= old(balances).entries@.len() + 1,
        match r {
            Result::Ok(_) => forall|k2: Seq<char>|
                final(balances).spec_index(k2) == if k2 == key@ {
                    Option::Some(value)
                } else {
                    old(balances).spec_index(k2)
                },
            Result::Err(e) => e == Error::GuestPanic && *final(balances) == *old(balances),
        },
{
    if balances.entries.len() as u64 + 1 > u32::MAX as u64 {
        return Result::Err(Error::GuestPanic);
    }
    if key.as_str().as_bytes().len() as u64 > u32::MAX as u64 {
        return Result::Err(Error::GuestPanic);
    }
    let ghost pre = *balances;
    balances.set(key, value);
    proof {
        assert forall|i: int| 0 <= i < balances.entries@.len() implies fits_u32(
            encode_utf8((#[trigger] balances.entries@[i]).0@).len(),
        ) by {
            let e = balances.entries@[i];
            if pre.entries@.contains(e) {
                let j = choose|j: int| 0 <= j < pre.entries@.len() && pre.entries@[j] == e;
            }
        }
    }
    Result::Ok(())
}

/// Encodes the state and writes it into the cache under the state key.
fn store_state(env: &mut Env, state: &TokenState) -> (r: Result<(), Error>)
    requires
        old(env).wf(),
        fits_u32(encode_utf8(state.ticker@).len()),
        fits_u32(encode_utf8(state.owner@).len()),
        fits_u32(state.balances.entries@.len()),
        forall|i: int|
            0 <= i < state.balances.entries@.len() ==> fits_u32(
                encode_utf8((#[trigger] state.balances.entries@[i]).0@).len(),
            ),
        old(env).storage_cache.entries@.len() < u32::MAX,
    ensures
        final(env).wf(),
        final(env).same_identity(*old(env)),
        final(env).initial_storage_hashes == old(env).initial_storage_hashes,
        final(env).cross_calls_hashes == old(env).cross_calls_hashes,
        r is Ok <==> enc_token_state(state@).len() <= u32::MAX,
        r is Err ==> *final(env) == *old(env),
        match r {
            Result::Ok(_) => final(env).spec_cache(state_key()) matches Option::Some(e) && e.1
                && e.0@ == enc_token_state(state@),
            Result::Err(e) => e == Error::GuestPanic,
        },
{
    proof {
        lemma_state_key_fits();
        assert(wf_token_state(state@)) by {
            assert forall|i: int| 0 <= i < state@.balances.len() implies fits_u32(
                encode_utf8((#[trigger] state@.balances[i]).0).len(),
            ) by {
                assert(state@.balances[i] == (
                    state.balances.entries@[i].0@,
                    state.balances.entries@[i].1,
                ));
                assert(fits_u32(encode_utf8(state.balances.entries@[i].0@).len()));
            }
        }
    }
    let mut bytes: Vec<u8> = Vec::new();
    write_token_state(&mut bytes, state);
    if bytes.len() as u64 > u32::MAX as u64 {
        return Result::Err(Error::GuestPanic);
    }
    env.set_storage(String::from_str("state"), bytes);
    Result::Ok(())
}

/// The token's entry dispatcher.
#[verifier::rlimit(100)]
#[verifier::spinoff_prover]
pub fn entrypoint(host: &mut Host, ctx: &mut ExecutionContext, fuel: u64) -> (r: Result<
    Vec<u8>,
    Error,
>)
    requires
        crate::primitives::wf_contract_call(old(ctx).spec_call()@),
        old(ctx).spec_children().len() == 0,
        old(ctx).spec_session() is None,
        storage_fits(old(host).storage),
        fuel >= 1,
    ensures
        storage_fits(final(host).storage),
        final(ctx).spec_call() == old(ctx).spec_call(),
        final(ctx).spec_session() is None,
        final(ctx).spec_children() == old(ctx).spec_children(),
        match r {
            Result::Ok(j) => guest_post(
                old(ctx).spec_call()@,
                j@,
                *final(ctx),
                final(host).storage,
            ),
            Result::Err(_) => true,
        },
        ({
            let call = old(ctx).spec_call()@;
            let tv0 = stored_state(old(host).storage, call.account);
            &&& (call.method != "init"@ && call.method != "balance_of"@ && call.method
                != "transfer"@ && call.method != "mint"@ && call.method != "burn"@ && call.method
                != "set_owner"@ && call.method != "get_owner"@) <==> r == Result::<
                Vec<u8>,
                Error,
            >::Err(Error::UnknownMethod)
            &&& call.method == "init"@ ==> match r {
                Result::Ok(j) => {
                    &&& dec_str(call.args) matches Option::Some(_)
                    &&& dec_u128(call.args.skip(dec_str(call.args).unwrap().1)) matches
                        Option::Some(_)
                    &&& {
                        let o = crate::runtime::outcome_of_journal(j@).unwrap();
                        &&& o.output.len() == 0
                        &&& crate::outcome::view_get(o.storage_writes, state_key())
                            == Option::Some(
                            crate::hashing::sha256_of(
                                enc_token_state(
                                    TokenStateView {
                                        ticker: dec_str(call.args).unwrap().0,
                                        owner: call.sender,
                                        total_supply: dec_u128(
                                            call.args.skip(dec_str(call.args).unwrap().1),
                                        ).unwrap().0,
                                        balances: seq![
                                            (
                                                call.sender,
                                                dec_u128(
                                                    call.args.skip(
                                                        dec_str(call.args).unwrap().1,
                                                    ),
                                                ).unwrap().0,
                                            ),
                                        ],
                                    },
                                ),
                            ),
                        )
                    }
                },
                Result::Err(e) => {
                    &&& e == Error::GuestPanic
                    &&& {
                        ||| !(dec_str(call.args) matches Option::Some(p1) && dec_u128(
                            call.args.skip(p1.1),
                        ) is Some)
                        ||| enc_token_state(
                            TokenStateView {
                                ticker: dec_str(call.args).unwrap().0,
                                owner: call.sender,
                                total_supply: dec_u128(
                                    call.args.skip(dec_str(call.args).unwrap().1),
                                ).unwrap().0,
                                balances: seq![
                                    (
                                        call.sender,
                                        dec_u128(
                                            call.args.skip(dec_str(call.args).unwrap().1),
                                        ).unwrap().0,
                                    ),
                                ],
                            },
                        ).len() > u32::MAX
                    }
                },
            }
            &&& call.method == "balance_of"@ ==> {
                &&& (r is Ok <==> (dec_str(call.args) is Some && tv0 is Some))
                &&& r is Ok ==> crate::runtime::outcome_of_journal(r.unwrap()@).unwrap().output
                    == enc_u128(balance_in(tv0.unwrap(), dec_str(call.args).unwrap().0))
            }
            &&& call.method == "transfer"@ ==> match r {
                Result::Ok(j) => {
                    &&& dec_str(call.args) matches Option::Some(_)
                    &&& dec_u128(call.args.skip(dec_str(call.args).unwrap().1)) matches
                        Option::Some(_)
                    &&& tv0 matches Option::Some(_)
                    &&& {
                        let recipient = dec_str(call.args).unwrap().0;
                        let amount = dec_u128(
                            call.args.skip(dec_str(call.args).unwrap().1),
                        ).unwrap().0;
                        &&& balance_in(tv0.unwrap(), call.sender) >= amount
                        &&& crate::runtime::outcome_of_journal(j@).unwrap().output.len() == 0
                        &&& crate::outcome::view_get(
                            crate::runtime::outcome_of_journal(j@).unwrap().storage_writes,
                            state_key(),
                        ) is Some
                    }
                },
                Result::Err(e) => {
                    &&& e == Error::GuestPanic
                    &&& {
                        ||| !(dec_str(call.args) matches Option::Some(p1) && dec_u128(
                            call.args.skip(p1.1),
                        ) is Some)
                        ||| tv0 is None
                        ||| {
                            let tv = tv0.unwrap();
                            let recipient = dec_str(call.args).unwrap().0;
                            let amount = dec_u128(
                                call.args.skip(dec_str(call.args).unwrap().1),
                            ).unwrap().0;
                            let sender_before = balance_in(tv, call.sender);
                            let recipient_before = if recipient == call.sender {
                                (sender_before - amount) as u128
                            } else {
                                balance_in(tv, recipient)
                            };
                            ||| sender_before < amount
                            ||| encode_utf8(recipient).len() > u32::MAX
                            ||| tv.balances.len() + 2 > u32::MAX
                            ||| recipient_before + amount > u128::MAX
                            ||| store_oversized(
                                tv,
                                tv.owner,
                                tv.total_supply,
                                seq![
                                    (call.sender, (sender_before - amount) as u128),
                                    (recipient, (recipient_before + amount) as u128),
                                ],
                            )
                        }
                    }
                },
            }
            &&& call.method == "mint"@ ==> match r {
                Result::Ok(j) => {
                    &&& dec_u128(call.args) matches Option::Some(_)
                    &&& tv0 matches Option::Some(_)
                    &&& tv0.unwrap().owner == call.sender
                    &&& crate::runtime::outcome_of_journal(j@).unwrap().output.len() == 0
                    &&& crate::outcome::view_get(
                        crate::runtime::outcome_of_journal(j@).unwrap().storage_writes,
                        state_key(),
                    ) is Some
                },
                Result::Err(e) => {
                    &&& e == Error::GuestPanic
                    &&& {
                        ||| dec_u128(call.args) is None
                        ||| tv0 is None
                        ||| {
                            let tv = tv0.unwrap();
                            let amount = dec_u128(call.args).unwrap().0;
                            let caller_before = balance_in(tv, call.sender);
                            ||| tv.owner != call.sender
                            ||| tv.total_supply + amount > u128::MAX
                            ||| caller_before + amount > u128::MAX
                            ||| tv.balances.len() + 1 > u32::MAX
                            ||| store_oversized(
                                tv,
                                tv.owner,
                                (tv.total_supply + amount) as u128,
                                seq![(call.sender, (caller_before + amount) as u128)],
                            )
                        }
                    }
                },
            }
            &&& call.method == "burn"@ ==> match r {
                Result::Ok(j) => {
                    &&& dec_u128(call.args) matches Option::Some(_)
                    &&& tv0 matches Option::Some(_)
                    &&& balance_in(tv0.unwrap(), call.sender) >= dec_u128(
                        call.args,
                    ).unwrap().0
                    &&& crate::runtime::outcome_of_journal(j@).unwrap().output.len() == 0
                    &&& crate::outcome::view_get(
                        crate::runtime::outcome_of_journal(j@).unwrap().storage_writes,
                        state_key(),
                    ) is Some
                },
                Result::Err(e) => {
                    &&& e == Error::GuestPanic
                    &&& {
                        ||| dec_u128(call.args) is None
                        ||| tv0 is None
                        ||| {
                            let tv = tv0.unwrap();
                            let amount = dec_u128(call.args).unwrap().0;
                            let caller_before = balance_in(tv, call.sender);
                            ||| caller_before < amount
                            ||| tv.total_supply < amount
                            ||| tv.balances.len() + 1 > u32::MAX
                            ||| store_oversized(
                                tv,
                                tv.owner,
                                (tv.total_supply - amount) as u128,
                                seq![(call.sender, (caller_before - amount) as u128)],
                            )
                        }
                    }
                },
            }
            &&& call.method == "set_owner"@ ==> match r {
                Result::Ok(j) => {
                    &&& dec_str(call.args) matches Option::Some(_)
                    &&& tv0 matches Option::Some(_)
                    &&& tv0.unwrap().owner == call.sender
                    &&& crate::runtime::outcome_of_journal(j@).unwrap().output.len() == 0
                    &&& crate::outcome::view_get(
                        crate::runtime::outcome_of_journal(j@).unwrap().storage_writes,
                        state_key(),
                    ) is Some
                },
                Result::Err(e) => {
                    &&& e == Error::GuestPanic
                    &&& {
                        ||| dec_str(call.args) is None
                        ||| tv0 is None
                        ||| {
                            let tv = tv0.unwrap();
                            let new_owner = dec_str(call.args).unwrap().0;
                            ||| tv.owner != call.sender
                            ||| encode_utf8(new_owner).len() > u32::MAX
                            ||| store_oversized(
                                tv,
                                new_owner,
                                tv.total_supply,
                                Seq::<(Seq<char>, u128)>::empty(),
                            )
                        }
                    }
                },
            }
            &&& call.method == "get_owner"@ ==> {
                &&& (r is Ok <==> (tv0 matches Option::Some(p) && encode_utf8(p.owner).len() + 4
                    <= u32::MAX))
                &&& r is Ok ==> crate::runtime::outcome_of_journal(r.unwrap()@).unwrap().output
                    == enc_str(tv0.unwrap().owner)
            }
        }),
    decreases fuel, 6int,
{
    let mut env = Env::new_from_call(ctx.call());
    proof {
        assert(crate::outcome::pair_list_view(env.cross_calls_hashes@) =~= Seq::<(
            Seq<u8>,
            Seq<u8>,
        )>::empty());
        reveal_strlit("init");
        reveal_strlit("balance_of");
        reveal_strlit("transfer");
        reveal_strlit("mint");
        reveal_strlit("burn");
        reveal_strlit("set_owner");
        reveal_strlit("get_owner");
        assert("init"@.len() == 4 && "balance_of"@.len() == 10 && "transfer"@.len() == 8
            && "mint"@.len() == 4 && "burn"@.len() == 4 && "set_owner"@.len() == 9
            && "get_owner"@.len() == 9);
        assert("init"@[0] == 'i' && "mint"@[0] == 'm' && "burn"@[0] == 'b' && "set_owner"@[0]
            == 's' && "get_owner"@[0] == 'g');
        assert(ctx.spec_call().args@.skip(0) =~= ctx.spec_call().args@);
    }
    let method = ctx.call().method.as_str();
    let args = ctx.call().args.as_slice();
    proof {
        assert(args@.skip(0) =~= args@);
    }
    if str_eq(method, "init") {
        let (ticker, p1) = match read_str(args, 0) {
            Option::Some(x) => x,
            Option::None => {
                return Result::Err(Error::GuestPanic);
            },
        };
        let (supply, _p2) = match read_u128(args, p1) {
            Option::Some(x) => x,
            Option::None => {
                return Result::Err(Error::GuestPanic);
            },
        };
        proof {
            crate::codec::lemma_dec_str_fits(args@.skip(0));
        }
        match TokenContract::init(&mut env, (ticker, supply)) {
            Result::Ok(_) => {},
            Result::Err(e) => {
                return Result::Err(e);
            },
        }
        let output: Vec<u8> = Vec::new();
        seal(env, host, ctx, output)
    } else if str_eq(method, "balance_of") {
        let (address, _p1) = match read_str(args, 0) {
            Option::Some(x) => x,
            Option::None => {
                return Result::Err(Error::GuestPanic);
            },
        };
        let output = match TokenContract::balance_of(
            &mut env,
            &host.storage,
            AccountId::new(address),
        ) {
            Result::Ok(o) => o,
            Result::Err(e) => {
                return Result::Err(e);
            },
        };
        seal(env, host, ctx, output)
    } else if str_eq(method, "transfer") {
        let (recipient, p1) = match read_str(args, 0) {
            Option::Some(x) => x,
            Option::None => {
                return Result::Err(Error::GuestPanic);
            },
        };
        let (amount, _p2) = match read_u128(args, p1) {
            Option::Some(x) => x,
            Option::None => {
                return Result::Err(Error::GuestPanic);
            },
        };
        match TokenContract::transfer(&mut env, &host.storage, (AccountId::new(recipient), amount))
        {
            Result::Ok(_) => {},
            Result::Err(e) => {
                return Result::Err(e);
            },
        }
        let output: Vec<u8> = Vec::new();
        seal(env, host, ctx, output)
    } else if str_eq(method, "mint") {
        let (amount, _p1) = match read_u128(args, 0) {
            Option::Some(x) => x,
            Option::None => {
                return Result::Err(Error::GuestPanic);
            },
        };
        match TokenContract::mint(&mut env, &host.storage, amount) {
            Result::Ok(_) => {},
            Result::Err(e) => {
                return Result::Err(e);
            },
        }
        let output: Vec<u8> = Vec::new();
        seal(env, host, ctx, output)
    } else if str_eq(method, "burn") {
        let (amount, _p1) = match read_u128(args, 0) {
            Option::Some(x) => x,
            Option::None => {
                return Result::Err(Error::GuestPanic);
            },
        };
        match TokenContract::burn(&mut env, &host.storage, amount) {
            Result::Ok(_) => {},
            Result::Err(e) => {
                return Result::Err(e);
            },
        }
        let output: Vec<u8> = Vec::new();
        seal(env, host, ctx, output)
    } else if str_eq(method, "set_owner") {
        let (new_owner, _p1) = match read_str(args, 0) {
            Option::Some(x) => x,
            Option::None => {
                return Result::Err(Error::GuestPanic);
            },
        };
        match TokenContract::set_owner(&mut env, &host.storage, AccountId::new(new_owner)) {
            Result::Ok(_) => {},
            Result::Err(e) => {
                return Result::Err(e);
            },
        }
        let output: Vec<u8> = Vec::new();
        seal(env, host, ctx, output)
    } else if str_eq(method, "get_owner") {
        let output = match TokenContract::get_owner(&mut env, &host.storage) {
            Result::Ok(o) => o,
            Result::Err(e) => {
                return Result::Err(e);
            },
        };
        seal(env, host, ctx, output)
    } else {
        Result::Err(Error::UnknownMethod)
    }
}

} // verus!
