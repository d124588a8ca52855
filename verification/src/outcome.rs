//! The execution outcome: the hash-linked record a guest commits for one
//! invocation, with its canonical encoding. Storage read and write sets
//! are key-sorted maps from storage key to digest; cross-call hashes are
//! an ordered list of digest pairs.

use crate::codec::{
    dec_bytes, dec_digest, dec_str, dec_u32, enc_bytes, enc_str, enc_u32, fits_u32,
    lemma_dec_enc_bytes, lemma_dec_enc_digest, lemma_dec_enc_str, lemma_dec_enc_u32, read_bytes,
    read_digest, read_str, read_u32, write_bytes, write_digest, write_str, write_u32,
};
use crate::hashing::{is_digest, Digest};
use crate::primitives::Error;
use crate::sorted_map::SortedMap;
use vstd::prelude::*;
use vstd::utf8::encode_utf8;

verus! {

/// A key-sorted map from storage key to digest.
pub type DigestMap = SortedMap<Digest>;

/// The view of a digest map: its entries in order, keys as character
/// strings and digests as byte strings.
pub open spec fn digest_map_view(m: DigestMap) -> Seq<(Seq<char>, Seq<u8>)> {
    Seq::new(m.entries@.len(), |i: int| (m.entries@[i].0@, m.entries@[i].1@))
}

/// Whether map entries are small enough for their encoding and each
/// value has the shape of a digest.
pub open spec fn wf_entries(entries: Seq<(Seq<char>, Seq<u8>)>) -> bool {
    &&& fits_u32(entries.len())
    &&& forall|i: int|
        0 <= i < entries.len() ==> fits_u32(encode_utf8(#[trigger] entries[i].0).len())
            && is_digest(entries[i].1)
}

/// The encoding of map entries: each key then its digest, in order.
pub open spec fn enc_map_entries(entries: Seq<(Seq<char>, Seq<u8>)>) -> Seq<u8>
    decreases entries.len(),
{
    if entries.len() == 0 {
        Seq::empty()
    } else {
        enc_str(entries[0].0) + entries[0].1 + enc_map_entries(entries.drop_first())
    }
}

/// The canonical encoding of a digest map: the entry count, then the
/// entries in key order.
pub open spec fn enc_digest_map(entries: Seq<(Seq<char>, Seq<u8>)>) -> Seq<u8> {
    enc_u32(entries.len() as u32) + enc_map_entries(entries)
}

/// Decodes `n` map entries from the front of the input.
pub open spec fn dec_map_entries(s: Seq<u8>, n: nat) -> Option<(Seq<(Seq<char>, Seq<u8>)>, int)>
    decreases n,
{
    if n == 0 {
        Option::Some((Seq::empty(), 0int))
    } else {
        match dec_str(s) {
            Option::Some((k, p1)) => match dec_digest(s.skip(p1)) {
                Option::Some((d, _)) => match dec_map_entries(s.skip(p1 + 32), (n - 1) as nat) {
                    Option::Some((tail, p2)) => Option::Some(
                        (seq![(k, d)] + tail, p1 + 32 + p2),
                    ),
                    Option::None => Option::None,
                },
                Option::None => Option::None,
            },
            Option::None => Option::None,
        }
    }
}

/// Decodes a digest map from the front of the input.
pub open spec fn dec_digest_map(s: Seq<u8>) -> Option<(Seq<(Seq<char>, Seq<u8>)>, int)> {
    match dec_u32(s) {
        Option::Some((n, _)) => match dec_map_entries(s.skip(4), n as nat) {
            Option::Some((entries, p)) => Option::Some((entries, 4 + p)),
            Option::None => Option::None,
        },
        Option::None => Option::None,
    }
}

/// Appending an entry to a sequence appends its encoding.
pub proof fn lemma_enc_map_entries_push(entries: Seq<(Seq<char>, Seq<u8>)>, e: (Seq<char>, Seq<u8>))
    ensures
        enc_map_entries(entries.push(e)) == enc_map_entries(entries) + enc_str(e.0) + e.1,
    decreases entries.len(),
{
    if entries.len() == 0 {
        assert(entries.push(e).drop_first() =~= entries);
        assert(enc_map_entries(entries.push(e)) =~= enc_map_entries(entries) + enc_str(e.0) + e.1);
    } else {
        assert(entries.push(e).drop_first() =~= entries.drop_first().push(e));
        lemma_enc_map_entries_push(entries.drop_first(), e);
        assert(enc_map_entries(entries.push(e)) =~= enc_map_entries(entries) + enc_str(e.0) + e.1);
    }
}

/// Decoding inverts the entry encoder, whatever follows it.
#[verifier::rlimit(100)]
#[verifier::spinoff_prover]
pub proof fn lemma_dec_enc_map_entries(entries: Seq<(Seq<char>, Seq<u8>)>, rest: Seq<u8>)
    requires
        forall|i: int|
            0 <= i < entries.len() ==> fits_u32(encode_utf8(#[trigger] entries[i].0).len())
                && is_digest(entries[i].1),
    ensures
        dec_map_entries(enc_map_entries(entries) + rest, entries.len() as nat) == Option::Some(
            (entries, enc_map_entries(entries).len() as int),
        ),
    decreases entries.len(),
{
    if entries.len() == 0 {
        assert(enc_map_entries(entries) =~= Seq::<u8>::empty());
        assert(entries =~= Seq::<(Seq<char>, Seq<u8>)>::empty());
    } else {
        let e = entries[0];
        let tail = entries.drop_first();
        let et = enc_map_entries(tail);
        let s = enc_map_entries(entries) + rest;
        assert(s =~= enc_str(e.0) + (e.1 + (et + rest)));
        lemma_dec_enc_str(e.0, e.1 + (et + rest));
        let p1 = enc_str(e.0).len() as int;
        assert(s.skip(p1) =~= e.1 + (et + rest));
        lemma_dec_enc_digest(e.1, et + rest);
        assert(s.skip(p1 + 32) =~= et + rest);
        lemma_dec_enc_map_entries(tail, rest);
        assert(seq![(e.0, e.1)] + tail =~= entries);
        assert(dec_map_entries(s, entries.len() as nat) matches Option::Some((es, used)) && es
            =~= entries && used == enc_map_entries(entries).len() as int);
    }
}

/// Decoding inverts the digest-map encoder, whatever follows it.
#[verifier::rlimit(100)]
#[verifier::spinoff_prover]
pub proof fn lemma_dec_enc_digest_map(entries: Seq<(Seq<char>, Seq<u8>)>, rest: Seq<u8>)
    requires
        wf_entries(entries),
    ensures
        dec_digest_map(enc_digest_map(entries) + rest) == Option::Some(
            (entries, enc_digest_map(entries).len() as int),
        ),
{
    let s = enc_digest_map(entries) + rest;
    assert(s =~= enc_u32(entries.len() as u32) + (enc_map_entries(entries) + rest));
    lemma_dec_enc_u32(entries.len() as u32, enc_map_entries(entries) + rest);
    assert(s.skip(4) =~= enc_map_entries(entries) + rest);
    lemma_dec_enc_map_entries(entries, rest);
}

/// Appends the canonical bytes of a digest map.
pub fn write_digest_map(out: &mut Vec<u8>, m: &DigestMap)
    requires
        wf_entries(digest_map_view(*m)),
    ensures
        final(out)@ == old(out)@ + enc_digest_map(digest_map_view(*m)),
{
    let n = m.entries.len();
    write_u32(out, n as u32);
    let mut i: usize = 0;
    while i < n
        invariant
            n == m.entries@.len(),
            i <= n,
            wf_entries(digest_map_view(*m)),
            out@ == old(out)@ + enc_u32(n as u32) + enc_map_entries(
                digest_map_view(*m).take(i as int),
            ),
        decreases n - i,
    {
        proof {
            assert(fits_u32(encode_utf8(digest_map_view(*m)[i as int].0).len()));
            assert(is_digest(digest_map_view(*m)[i as int].1));
            assert(digest_map_view(*m)[i as int] == (m.entries@[i as int].0@, m.entries@[
                i as int].1@));
        }
        write_str(out, m.entries[i].0.as_str());
        write_digest(out, &m.entries[i].1);
        proof {
            lemma_enc_map_entries_push(
                digest_map_view(*m).take(i as int),
                digest_map_view(*m)[i as int],
            );
            assert(digest_map_view(*m).take(i as int).push(digest_map_view(*m)[i as int])
                =~= digest_map_view(*m).take(i as int + 1));
            assert(out@ =~= old(out)@ + enc_u32(n as u32) + enc_map_entries(
                digest_map_view(*m).take(i as int + 1),
            ));
        }
        i = i + 1;
    }
    proof {
        assert(digest_map_view(*m).take(n as int) =~= digest_map_view(*m));
        assert(out@ =~= old(out)@ + enc_digest_map(digest_map_view(*m)));
    }
}

/// Reads a digest map at `pos`. The decoder takes the entries as they
/// stand on the wire and does not re-check their order.
pub fn read_digest_map(input: &[u8], pos: usize) -> (r: Option<(DigestMap, usize)>)
    requires
        pos <= input@.len(),
    ensures
        match r {
            Option::Some((m, newpos)) => {
                &&& dec_digest_map(input@.skip(pos as int)) == Option::Some(
                    (digest_map_view(m), (newpos - pos) as int),
                )
                &&& pos <= newpos <= input@.len()
            },
            Option::None => dec_digest_map(input@.skip(pos as int)) is None,
        },
{
    let (n, p0) = match read_u32(input, pos) {
        Option::Some(x) => x,
        Option::None => {
            return Option::None;
        },
    };
    proof {
        assert(input@.skip(pos as int).skip(4) =~= input@.skip(p0 as int));
    }
    let mut entries: Vec<(String, Digest)> = Vec::new();
    let mut p: usize = p0;
    let mut i: u32 = 0;
    while i < n
        invariant
            pos <= p0 <= p <= input@.len(),
            i <= n,
            dec_u32(input@.skip(pos as int)) == Option::Some((n, 4int)),
            input@.skip(pos as int).skip(4) == input@.skip(p0 as int),
            match dec_map_entries(input@.skip(p as int), (n - i) as nat) {
                Option::Some((tail, used)) => dec_map_entries(input@.skip(p0 as int), n as nat)
                    == Option::Some(
                    (
                        Seq::new(entries@.len(), |k: int| (entries@[k].0@, entries@[k].1@)) + tail,
                        (p - p0) + used,
                    ),
                ),
                Option::None => dec_map_entries(input@.skip(p0 as int), n as nat) is None,
            },
        decreases n - i,
    {
        let ghost s_at_p = input@.skip(p as int);
        let (key, p1) = match read_str(input, p) {
            Option::Some(x) => x,
            Option::None => {
                return Option::None;
            },
        };
        proof {
            assert(s_at_p.skip((p1 - p) as int) =~= input@.skip(p1 as int));
        }
        let (d, p2) = match read_digest(input, p1) {
            Option::Some(x) => x,
            Option::None => {
                return Option::None;
            },
        };
        proof {
            assert(s_at_p.skip((p1 - p) + 32) =~= input@.skip(p2 as int));
        }
        let ghost old_entries = entries@;
        entries.push((key, d));
        p = p2;
        i = i + 1;
        proof {
            let oldview = Seq::new(old_entries.len(), |k: int| (old_entries[k].0@, old_entries[
                k].1@));
            let newview = Seq::new(entries@.len(), |k: int| (entries@[k].0@, entries@[k].1@));
            assert(newview =~= oldview.push((key@, d@)));
            match dec_map_entries(input@.skip(p as int), (n - i) as nat) {
                Option::Some((tail, used)) => {
                    assert(oldview.push((key@, d@)) + tail =~= oldview + (seq![(key@, d@)]
                        + tail));
                },
                Option::None => {},
            }
        }
    }
    proof {
        assert(dec_map_entries(input@.skip(p as int), 0) == Option::Some(
            (Seq::<(Seq<char>, Seq<u8>)>::empty(), 0int),
        ));
        let view = Seq::new(entries@.len(), |k: int| (entries@[k].0@, entries@[k].1@));
        assert(view + Seq::<(Seq<char>, Seq<u8>)>::empty() =~= view);
    }
    let m = SortedMap { entries };
    proof {
        assert(digest_map_view(m) =~= Seq::new(
            m.entries@.len(),
            |k: int| (m.entries@[k].0@, m.entries@[k].1@),
        ));
    }
    Option::Some((m, p))
}


/// The first digest bound to `k` in view-level map entries.
pub open spec fn view_get(entries: Seq<(Seq<char>, Seq<u8>)>, k: Seq<char>) -> Option<Seq<u8>>
    decreases entries.len(),
{
    if entries.len() == 0 {
        Option::None
    } else if entries[0].0 == k {
        Option::Some(entries[0].1)
    } else {
        view_get(entries.drop_first(), k)
    }
}

proof fn lemma_view_get_raw(entries: Seq<(String, Digest)>, k: Seq<char>)
    ensures
        view_get(Seq::new(entries.len(), |i: int| (entries[i].0@, entries[i].1@)), k) == match crate::sorted_map::spec_get(entries, k) {
            Option::Some(d) => Option::Some(d@),
            Option::None => Option::None,
        },
    decreases entries.len(),
{
    let view = Seq::new(entries.len(), |i: int| (entries[i].0@, entries[i].1@));
    if entries.len() > 0 {
        lemma_view_get_raw(entries.drop_first(), k);
        assert(view.drop_first() =~= Seq::new(
            entries.drop_first().len(),
            |i: int| (entries.drop_first()[i].0@, entries.drop_first()[i].1@),
        ));
    }
}

/// Looking a key up in the view of a digest map agrees with looking it
/// up in the map itself.
pub proof fn lemma_view_get(m: DigestMap, k: Seq<char>)
    ensures
        view_get(digest_map_view(m), k) == match crate::sorted_map::spec_get(m.entries@, k) {
            Option::Some(d) => Option::Some(d@),
            Option::None => Option::None,
        },
{
    lemma_view_get_raw(m.entries@, k);
    assert(digest_map_view(m) =~= Seq::new(
        m.entries@.len(),
        |i: int| (m.entries@[i].0@, m.entries@[i].1@),
    ));
}

// ---------------------------------------------------------------------------
// Ordered lists of (call hash, output hash) pairs
// ---------------------------------------------------------------------------

/// The view of a pair list: each digest pair as byte strings.
pub open spec fn pair_list_view(v: Seq<(Digest, Digest)>) -> Seq<(Seq<u8>, Seq<u8>)> {
    Seq::new(v.len(), |i: int| (v[i].0@, v[i].1@))
}

/// Whether a pair list is small enough for its encoding and each entry
/// is a pair of digests.
pub open spec fn wf_pairs(pairs: Seq<(Seq<u8>, Seq<u8>)>) -> bool {
    &&& fits_u32(pairs.len())
    &&& forall|i: int|
        0 <= i < pairs.len() ==> is_digest(#[trigger] pairs[i].0) && is_digest(pairs[i].1)
}

/// The encoding of the pairs themselves, in order.
pub open spec fn enc_pair_entries(pairs: Seq<(Seq<u8>, Seq<u8>)>) -> Seq<u8>
    decreases pairs.len(),
{
    if pairs.len() == 0 {
        Seq::empty()
    } else {
        pairs[0].0 + pairs[0].1 + enc_pair_entries(pairs.drop_first())
    }
}

/// The canonical encoding of a pair list: the count, then the pairs.
pub open spec fn enc_pairs(pairs: Seq<(Seq<u8>, Seq<u8>)>) -> Seq<u8> {
    enc_u32(pairs.len() as u32) + enc_pair_entries(pairs)
}

/// Decodes `n` digest pairs from the front of the input.
pub open spec fn dec_pair_entries(s: Seq<u8>, n: nat) -> Option<(Seq<(Seq<u8>, Seq<u8>)>, int)>
    decreases n,
{
    if n == 0 {
        Option::Some((Seq::empty(), 0int))
    } else {
        match dec_digest(s) {
            Option::Some((a, _)) => match dec_digest(s.skip(32)) {
                Option::Some((b, _)) => match dec_pair_entries(s.skip(64), (n - 1) as nat) {
                    Option::Some((tail, p2)) => Option::Some((seq![(a, b)] + tail, 64 + p2)),
                    Option::None => Option::None,
                },
                Option::None => Option::None,
            },
            Option::None => Option::None,
        }
    }
}

/// Decodes a pair list from the front of the input.
pub open spec fn dec_pairs(s: Seq<u8>) -> Option<(Seq<(Seq<u8>, Seq<u8>)>, int)> {
    match dec_u32(s) {
        Option::Some((n, _)) => match dec_pair_entries(s.skip(4), n as nat) {
            Option::Some((pairs, p)) => Option::Some((pairs, 4 + p)),
            Option::None => Option::None,
        },
        Option::None => Option::None,
    }
}

/// Appending a pair to a list appends its encoding.
pub proof fn lemma_enc_pair_entries_push(pairs: Seq<(Seq<u8>, Seq<u8>)>, e: (Seq<u8>, Seq<u8>))
    ensures
        enc_pair_entries(pairs.push(e)) == enc_pair_entries(pairs) + e.0 + e.1,
    decreases pairs.len(),
{
    if pairs.len() == 0 {
        assert(pairs.push(e).drop_first() =~= pairs);
        assert(enc_pair_entries(pairs.push(e)) =~= enc_pair_entries(pairs) + e.0 + e.1);
    } else {
        assert(pairs.push(e).drop_first() =~= pairs.drop_first().push(e));
        lemma_enc_pair_entries_push(pairs.drop_first(), e);
        assert(enc_pair_entries(pairs.push(e)) =~= enc_pair_entries(pairs) + e.0 + e.1);
    }
}

/// Decoding inverts the pair encoder, whatever follows it.
#[verifier::rlimit(100)]
#[verifier::spinoff_prover]
pub proof fn lemma_dec_enc_pair_entries(pairs: Seq<(Seq<u8>, Seq<u8>)>, rest: Seq<u8>)
    requires
        forall|i: int|
            0 <= i < pairs.len() ==> is_digest(#[trigger] pairs[i].0) && is_digest(pairs[i].1),
    ensures
        dec_pair_entries(enc_pair_entries(pairs) + rest, pairs.len() as nat) == Option::Some(
            (pairs, enc_pair_entries(pairs).len() as int),
        ),
    decreases pairs.len(),
{
    if pairs.len() == 0 {
        assert(enc_pair_entries(pairs) =~= Seq::<u8>::empty());
        assert(pairs =~= Seq::<(Seq<u8>, Seq<u8>)>::empty());
    } else {
        let e = pairs[0];
        let tail = pairs.drop_first();
        let et = enc_pair_entries(tail);
        let s = enc_pair_entries(pairs) + rest;
        assert(s =~= e.0 + (e.1 + (et + rest)));
        lemma_dec_enc_digest(e.0, e.1 + (et + rest));
        assert(s.skip(32) =~= e.1 + (et + rest));
        lemma_dec_enc_digest(e.1, et + rest);
        assert(s.skip(64) =~= et + rest);
        lemma_dec_enc_pair_entries(tail, rest);
        assert(seq![(e.0, e.1)] + tail =~= pairs);
        assert(dec_pair_entries(s, pairs.len() as nat) matches Option::Some((es, used)) && es
            =~= pairs && used == enc_pair_entries(pairs).len() as int);
    }
}

/// Decoding inverts the pair-list encoder, whatever follows it.
#[verifier::rlimit(100)]
#[verifier::spinoff_prover]
pub proof fn lemma_dec_enc_pairs(pairs: Seq<(Seq<u8>, Seq<u8>)>, rest: Seq<u8>)
    requires
        wf_pairs(pairs),
    ensures
        dec_pairs(enc_pairs(pairs) + rest) == Option::Some(
            (pairs, enc_pairs(pairs).len() as int),
        ),
{
    let s = enc_pairs(pairs) + rest;
    assert(s =~= enc_u32(pairs.len() as u32) + (enc_pair_entries(pairs) + rest));
    lemma_dec_enc_u32(pairs.len() as u32, enc_pair_entries(pairs) + rest);
    assert(s.skip(4) =~= enc_pair_entries(pairs) + rest);
    lemma_dec_enc_pair_entries(pairs, rest);
}

/// Appends the canonical bytes of a pair list.
pub fn write_pairs(out: &mut Vec<u8>, pairs: &Vec<(Digest, Digest)>)
    requires
        wf_pairs(pair_list_view(pairs@)),
    ensures
        final(out)@ == old(out)@ + enc_pairs(pair_list_view(pairs@)),
{
    let n = pairs.len();
    write_u32(out, n as u32);
    let mut i: usize = 0;
    while i < n
        invariant
            n == pairs@.len(),
            i <= n,
            wf_pairs(pair_list_view(pairs@)),
            out@ == old(out)@ + enc_u32(n as u32) + enc_pair_entries(
                pair_list_view(pairs@).take(i as int),
            ),
        decreases n - i,
    {
        proof {
            assert(is_digest(pair_list_view(pairs@)[i as int].0));
            assert(is_digest(pair_list_view(pairs@)[i as int].1));
            assert(pair_list_view(pairs@)[i as int] == (pairs@[i as int].0@, pairs@[
                i as int].1@));
        }
        write_digest(out, &pairs[i].0);
        write_digest(out, &pairs[i].1);
        proof {
            lemma_enc_pair_entries_push(
                pair_list_view(pairs@).take(i as int),
                pair_list_view(pairs@)[i as int],
            );
            assert(pair_list_view(pairs@).take(i as int).push(pair_list_view(pairs@)[i as int])
                =~= pair_list_view(pairs@).take(i as int + 1));
            assert(out@ =~= old(out)@ + enc_u32(n as u32) + enc_pair_entries(
                pair_list_view(pairs@).take(i as int + 1),
            ));
        }
        i = i + 1;
    }
    proof {
        assert(pair_list_view(pairs@).take(n as int) =~= pair_list_view(pairs@));
        assert(out@ =~= old(out)@ + enc_pairs(pair_list_view(pairs@)));
    }
}

/// Reads a pair list at `pos`.
pub fn read_pairs(input: &[u8], pos: usize) -> (r: Option<(Vec<(Digest, Digest)>, usize)>)
    requires
        pos <= input@.len(),
    ensures
        match r {
            Option::Some((pairs, newpos)) => {
                &&& dec_pairs(input@.skip(pos as int)) == Option::Some(
                    (pair_list_view(pairs@), (newpos - pos) as int),
                )
                &&& pos <= newpos <= input@.len()
            },
            Option::None => dec_pairs(input@.skip(pos as int)) is None,
        },
{
    let (n, p0) = match read_u32(input, pos) {
        Option::Some(x) => x,
        Option::None => {
            return Option::None;
        },
    };
    proof {
        assert(input@.skip(pos as int).skip(4) =~= input@.skip(p0 as int));
    }
    let mut pairs: Vec<(Digest, Digest)> = Vec::new();
    let mut p: usize = p0;
    let mut i: u32 = 0;
    while i < n
        invariant
            pos <= p0 <= p <= input@.len(),
            i <= n,
            dec_u32(input@.skip(pos as int)) == Option::Some((n, 4int)),
            input@.skip(pos as int).skip(4) == input@.skip(p0 as int),
            match dec_pair_entries(input@.skip(p as int), (n - i) as nat) {
                Option::Some((tail, used)) => dec_pair_entries(input@.skip(p0 as int), n as nat)
                    == Option::Some((pair_list_view(pairs@) + tail, (p - p0) + used)),
                Option::None => dec_pair_entries(input@.skip(p0 as int), n as nat) is None,
            },
        decreases n - i,
    {
        let ghost s_at_p = input@.skip(p as int);
        let (a, p1) = match read_digest(input, p) {
            Option::Some(x) => x,
            Option::None => {
                return Option::None;
            },
        };
        proof {
            assert(s_at_p.skip(32) =~= input@.skip(p1 as int));
        }
        let (b, p2) = match read_digest(input, p1) {
            Option::Some(x) => x,
            Option::None => {
                return Option::None;
            },
        };
        proof {
            assert(s_at_p.skip(64) =~= input@.skip(p2 as int));
        }
        let ghost old_pairs = pairs@;
        pairs.push((a, b));
        p = p2;
        i = i + 1;
        proof {
            assert(pair_list_view(pairs@) =~= pair_list_view(old_pairs).push((a@, b@)));
            match dec_pair_entries(input@.skip(p as int), (n - i) as nat) {
                Option::Some((tail, used)) => {
                    assert(pair_list_view(old_pairs).push((a@, b@)) + tail =~= pair_list_view(
                        old_pairs,
                    ) + (seq![(a@, b@)] + tail));
                },
                Option::None => {},
            }
        }
    }
    proof {
        assert(dec_pair_entries(input@.skip(p as int), 0) == Option::Some(
            (Seq::<(Seq<u8>, Seq<u8>)>::empty(), 0int),
        ));
        assert(pair_list_view(pairs@) + Seq::<(Seq<u8>, Seq<u8>)>::empty() =~= pair_list_view(
            pairs@,
        ));
    }
    Option::Some((pairs, p))
}

// ---------------------------------------------------------------------------
// The execution outcome
// ---------------------------------------------------------------------------

/// The commitment a guest makes for one contract call: the hash of the
/// call that started it, the raw output, the read and write sets, and the
/// hashes of every cross-contract call in invocation order.
pub struct ExecutionOutcome {
    pub call_hash: Digest,
    pub output: Vec<u8>,
    pub storage_reads: DigestMap,
    pub storage_writes: DigestMap,
    pub cross_calls_hashes: Vec<(Digest, Digest)>,
}

/// The view of an [`ExecutionOutcome`].
#[verifier::ext_equal]
pub struct ExecutionOutcomeView {
    pub call_hash: Seq<u8>,
    pub output: Seq<u8>,
    pub storage_reads: Seq<(Seq<char>, Seq<u8>)>,
    pub storage_writes: Seq<(Seq<char>, Seq<u8>)>,
    pub cross_calls_hashes: Seq<(Seq<u8>, Seq<u8>)>,
}

impl View for ExecutionOutcome {
    type V = ExecutionOutcomeView;

    open spec fn view(&self) -> ExecutionOutcomeView {
        ExecutionOutcomeView {
            call_hash: self.call_hash@,
            output: self.output@,
            storage_reads: digest_map_view(self.storage_reads),
            storage_writes: digest_map_view(self.storage_writes),
            cross_calls_hashes: pair_list_view(self.cross_calls_hashes@),
        }
    }
}

/// Whether an outcome is small enough for its encoding and each hash in
/// it has the shape of a digest.
pub open spec fn wf_execution_outcome(v: ExecutionOutcomeView) -> bool {
    &&& is_digest(v.call_hash)
    &&& fits_u32(v.output.len())
    &&& wf_entries(v.storage_reads)
    &&& wf_entries(v.storage_writes)
    &&& wf_pairs(v.cross_calls_hashes)
}

/// The canonical encoding of an outcome: its fields in order.
pub open spec fn enc_execution_outcome(v: ExecutionOutcomeView) -> Seq<u8> {
    v.call_hash + enc_bytes(v.output) + enc_digest_map(v.storage_reads) + enc_digest_map(
        v.storage_writes,
    ) + enc_pairs(v.cross_calls_hashes)
}

/// Decodes an outcome from the front of the input.
pub open spec fn dec_execution_outcome(s: Seq<u8>) -> Option<(ExecutionOutcomeView, int)> {
    match dec_digest(s) {
        Option::Some((call_hash, p1)) => match dec_bytes(s.skip(p1)) {
            Option::Some((output, p2)) => match dec_digest_map(s.skip(p1 + p2)) {
                Option::Some((storage_reads, p3)) => match dec_digest_map(s.skip(p1 + p2 + p3)) {
                    Option::Some((storage_writes, p4)) => match dec_pairs(
                        s.skip(p1 + p2 + p3 + p4),
                    ) {
                        Option::Some((cross_calls_hashes, p5)) => Option::Some(
                            (
                                ExecutionOutcomeView {
                                    call_hash,
                                    output,
                                    storage_reads,
                                    storage_writes,
                                    cross_calls_hashes,
                                },
                                p1 + p2 + p3 + p4 + p5,
                            ),
                        ),
                        Option::None => Option::None,
                    },
                    Option::None => Option::None,
                },
                Option::None => Option::None,
            },
            Option::None => Option::None,
        },
        Option::None => Option::None,
    }
}

/// Decoding inverts the outcome encoder, whatever follows it.
#[verifier::rlimit(100)]
#[verifier::spinoff_prover]
pub proof fn lemma_dec_enc_execution_outcome(v: ExecutionOutcomeView, rest: Seq<u8>)
    requires
        wf_execution_outcome(v),
    ensures
        dec_execution_outcome(enc_execution_outcome(v) + rest) == Option::Some(
            (v, enc_execution_outcome(v).len() as int),
        ),
{
    let e2 = enc_bytes(v.output);
    let e3 = enc_digest_map(v.storage_reads);
    let e4 = enc_digest_map(v.storage_writes);
    let e5 = enc_pairs(v.cross_calls_hashes);
    let s = enc_execution_outcome(v) + rest;
    assert(s =~= v.call_hash + (e2 + e3 + e4 + e5 + rest));
    lemma_dec_enc_digest(v.call_hash, e2 + e3 + e4 + e5 + rest);
    assert(s.skip(32) =~= e2 + (e3 + e4 + e5 + rest));
    lemma_dec_enc_bytes(v.output, e3 + e4 + e5 + rest);
    assert(s.skip((32 + e2.len()) as int) =~= e3 + (e4 + e5 + rest));
    lemma_dec_enc_digest_map(v.storage_reads, e4 + e5 + rest);
    assert(s.skip((32 + e2.len() + e3.len()) as int) =~= e4 + (e5 + rest));
    lemma_dec_enc_digest_map(v.storage_writes, e5 + rest);
    assert(s.skip((32 + e2.len() + e3.len() + e4.len()) as int) =~= e5 + rest);
    lemma_dec_enc_pairs(v.cross_calls_hashes, rest);
    assert(dec_execution_outcome(s) matches Option::Some((v2, used)) && v2 =~= v && used
        == enc_execution_outcome(v).len() as int);
}

impl ExecutionOutcome {
    /// The canonical bytes of the outcome.
    pub fn into_bytes(&self) -> (r: Vec<u8>)
        requires
            wf_execution_outcome(self@),
        ensures
            r@ == enc_execution_outcome(self@),
    {
        let mut out: Vec<u8> = Vec::new();
        write_digest(&mut out, &self.call_hash);
        write_bytes(&mut out, self.output.as_slice());
        write_digest_map(&mut out, &self.storage_reads);
        write_digest_map(&mut out, &self.storage_writes);
        write_pairs(&mut out, &self.cross_calls_hashes);
        proof {
            assert(out@ =~= enc_execution_outcome(self@));
        }
        out
    }

    /// Decodes an outcome from its canonical bytes. The format is not
    /// self-delimiting at the top level, so trailing bytes are tolerated.
    pub fn try_from_bytes(bytes: Vec<u8>) -> (r: Result<Self, Error>)
        ensures
            match r {
                Result::Ok(c) => {
                    &&& dec_execution_outcome(bytes@) matches Option::Some((v, _))
                    &&& dec_execution_outcome(bytes@).unwrap().0 == c@
                },
                Result::Err(e) => e == Error::MalformedRequest && dec_execution_outcome(
                    bytes@,
                ) is None,
            },
    {
        let input = bytes.as_slice();
        proof {
            assert(input@.skip(0) =~= input@);
        }
        let (call_hash, p1) = match read_digest(input, 0) {
            Option::Some(x) => x,
            Option::None => {
                return Result::Err(Error::MalformedRequest);
            },
        };
        proof {
            assert(input@.skip(0).skip(p1 as int) =~= input@.skip(p1 as int));
        }
        let (output, p2) = match read_bytes(input, p1) {
            Option::Some(x) => x,
            Option::None => {
                return Result::Err(Error::MalformedRequest);
            },
        };
        proof {
            assert(input@.skip(0).skip(p2 as int) =~= input@.skip(p2 as int));
        }
        let (storage_reads, p3) = match read_digest_map(input, p2) {
            Option::Some(x) => x,
            Option::None => {
                return Result::Err(Error::MalformedRequest);
            },
        };
        proof {
            assert(input@.skip(0).skip(p3 as int) =~= input@.skip(p3 as int));
        }
        let (storage_writes, p4) = match read_digest_map(input, p3) {
            Option::Some(x) => x,
            Option::None => {
                return Result::Err(Error::MalformedRequest);
            },
        };
        proof {
            assert(input@.skip(0).skip(p4 as int) =~= input@.skip(p4 as int));
        }
        let (cross_calls_hashes, _p5) = match read_pairs(input, p4) {
            Option::Some(x) => x,
            Option::None => {
                return Result::Err(Error::MalformedRequest);
            },
        };
        Result::Ok(
            ExecutionOutcome { call_hash, output, storage_reads, storage_writes, cross_calls_hashes },
        )
    }
}

} // verus!
