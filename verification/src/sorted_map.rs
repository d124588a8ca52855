//! A string-keyed map held as a vector of entries sorted strictly by the
//! UTF-8 bytes of the keys. The canonical codec serializes mappings in key
//! order, so the map keeps that order at all times; sortedness also makes
//! the keys unique.

use vstd::prelude::*;
use vstd::string::StringSliceAdditionalSpecFns;
use vstd::utf8::{decode_utf8, encode_utf8, encode_utf8_decode_utf8};

verus! {

/// Strict lexicographic order on byte strings.
pub open spec fn bytes_lt(a: Seq<u8>, b: Seq<u8>) -> bool
    decreases a.len(),
{
    if b.len() == 0 {
        false
    } else if a.len() == 0 {
        true
    } else if a[0] < b[0] {
        true
    } else if a[0] > b[0] {
        false
    } else {
        bytes_lt(a.drop_first(), b.drop_first())
    }
}

/// Strict order on character strings: the order of their UTF-8 bytes.
pub open spec fn key_lt(a: Seq<char>, b: Seq<char>) -> bool {
    bytes_lt(encode_utf8(a), encode_utf8(b))
}

/// No byte string is below itself.
pub proof fn lemma_bytes_lt_irrefl(a: Seq<u8>)
    ensures
        !bytes_lt(a, a),
    decreases a.len(),
{
    if a.len() > 0 {
        lemma_bytes_lt_irrefl(a.drop_first());
    }
}

/// The byte-string order is transitive.
pub proof fn lemma_bytes_lt_trans(a: Seq<u8>, b: Seq<u8>, c: Seq<u8>)
    requires
        bytes_lt(a, b),
        bytes_lt(b, c),
    ensures
        bytes_lt(a, c),
    decreases a.len(),
{
    if a.len() > 0 && b.len() > 0 && c.len() > 0 {
        if a[0] == b[0] && b[0] == c[0] {
            lemma_bytes_lt_trans(a.drop_first(), b.drop_first(), c.drop_first());
        }
    }
}

/// A byte string strictly below another differs from it.
pub proof fn lemma_bytes_lt_ne(a: Seq<u8>, b: Seq<u8>)
    requires
        bytes_lt(a, b),
    ensures
        a != b,
{
    if a == b {
        lemma_bytes_lt_irrefl(a);
    }
}

/// Two character strings with the same UTF-8 bytes are the same string.
pub proof fn lemma_utf8_injective(a: Seq<char>, b: Seq<char>)
    requires
        encode_utf8(a) == encode_utf8(b),
    ensures
        a == b,
{
    encode_utf8_decode_utf8(a);
    encode_utf8_decode_utf8(b);
    assert(decode_utf8(encode_utf8(a)) == decode_utf8(encode_utf8(b)));
}

proof fn lemma_bytes_lt_from_diff(a: Seq<u8>, b: Seq<u8>, i: int)
    requires
        0 <= i < a.len(),
        i < b.len(),
        forall|j: int| 0 <= j < i ==> a[j] == b[j],
        a[i] < b[i],
    ensures
        bytes_lt(a, b),
    decreases i,
{
    if i > 0 {
        lemma_bytes_lt_from_diff(a.drop_first(), b.drop_first(), i - 1);
    }
}

proof fn lemma_bytes_lt_from_prefix(a: Seq<u8>, b: Seq<u8>)
    requires
        a.len() < b.len(),
        forall|j: int| 0 <= j < a.len() ==> a[j] == b[j],
    ensures
        bytes_lt(a, b),
    decreases a.len(),
{
    if a.len() > 0 {
        lemma_bytes_lt_from_prefix(a.drop_first(), b.drop_first());
    }
}

/// The result of a three-way byte-string comparison.
pub enum KeyOrder {
    Less,
    Equal,
    Greater,
}

/// Three-way comparison of two byte strings in lexicographic order.
pub fn bytes_cmp(a: &[u8], b: &[u8]) -> (r: KeyOrder)
    ensures
        match r {
            KeyOrder::Less => bytes_lt(a@, b@),
            KeyOrder::Equal => a@ == b@,
            KeyOrder::Greater => bytes_lt(b@, a@),
        },
{
    let la = a.len();
    let lb = b.len();
    let min = if la < lb {
        la
    } else {
        lb
    };
    let mut i: usize = 0;
    while i < min
        invariant
            min <= la == a@.len(),
            min <= lb == b@.len(),
            i <= min,
            forall|j: int| 0 <= j < i ==> a@[j] == b@[j],
        decreases min - i,
    {
        if a[i] < b[i] {
            proof {
                lemma_bytes_lt_from_diff(a@, b@, i as int);
            }
            return KeyOrder::Less;
        }
        if a[i] > b[i] {
            proof {
                lemma_bytes_lt_from_diff(b@, a@, i as int);
            }
            return KeyOrder::Greater;
        }
        i = i + 1;
    }
    if la == lb {
        proof {
            assert(a@ =~= b@);
        }
        KeyOrder::Equal
    } else if la < lb {
        proof {
            lemma_bytes_lt_from_prefix(a@, b@);
        }
        KeyOrder::Less
    } else {
        proof {
            lemma_bytes_lt_from_prefix(b@, a@);
        }
        KeyOrder::Greater
    }
}

/// Three-way comparison of two character strings in UTF-8 byte order.
pub fn key_cmp(a: &str, b: &str) -> (r: KeyOrder)
    ensures
        match r {
            KeyOrder::Less => key_lt(a@, b@),
            KeyOrder::Equal => a@ == b@,
            KeyOrder::Greater => key_lt(b@, a@),
        },
{
    let r = bytes_cmp(a.as_bytes(), b.as_bytes());
    proof {
        if a.spec_bytes() == b.spec_bytes() {
            lemma_utf8_injective(a@, b@);
        }
    }
    r
}

/// Whether two string slices hold the same characters.
pub fn str_eq(a: &str, b: &str) -> (r: bool)
    ensures
        r == (a@ == b@),
{
    let cmp = key_cmp(a, b);
    match cmp {
        KeyOrder::Equal => true,
        KeyOrder::Less => {
            proof {
                lemma_key_lt_ne(a@, b@);
            }
            false
        },
        KeyOrder::Greater => {
            proof {
                lemma_key_lt_ne(b@, a@);
            }
            false
        },
    }
}

/// The first value bound to `k` in an entry sequence, scanning from the front.
pub open spec fn spec_get<V>(entries: Seq<(String, V)>, k: Seq<char>) -> Option<V>
    decreases entries.len(),
{
    if entries.len() == 0 {
        Option::None
    } else if entries[0].0@ == k {
        Option::Some(entries[0].1)
    } else {
        spec_get(entries.drop_first(), k)
    }
}

proof fn lemma_spec_get_insert<V>(entries: Seq<(String, V)>, i: int, key: String, value: V)
    requires
        0 <= i <= entries.len(),
        forall|j: int| 0 <= j < i ==> entries[j].0@ != key@,
    ensures
        forall|k2: Seq<char>|
            spec_get(entries.insert(i, (key, value)), k2) == if k2 == key@ {
                Option::Some(value)
            } else {
                spec_get(entries, k2)
            },
    decreases i,
{
    let newe = entries.insert(i, (key, value));
    if i == 0 {
        assert(newe[0] == (key, value));
        assert(newe.drop_first() =~= entries);
    } else {
        lemma_spec_get_insert(entries.drop_first(), i - 1, key, value);
        assert(newe.drop_first() =~= entries.drop_first().insert(i - 1, (key, value)));
        assert(newe[0] == entries[0]);
        assert forall|k2: Seq<char>|
            spec_get(newe, k2) == (if k2 == key@ {
                Option::Some(value)
            } else {
                spec_get(entries, k2)
            }) by {
            assert(spec_get(entries.drop_first().insert(i - 1, (key, value)), k2) == (if k2
                == key@ {
                Option::Some(value)
            } else {
                spec_get(entries.drop_first(), k2)
            }));
            assert(spec_get(newe.drop_first(), k2) == spec_get(
                entries.drop_first().insert(i - 1, (key, value)),
                k2,
            ));
            assert(entries[0].0@ != key@);
        }
    }
}

proof fn lemma_spec_get_update<V>(entries: Seq<(String, V)>, i: int, key: String, value: V)
    requires
        0 <= i < entries.len(),
        entries[i].0@ == key@,
        forall|j: int| 0 <= j < i ==> entries[j].0@ != key@,
    ensures
        forall|k2: Seq<char>|
            spec_get(entries.update(i, (key, value)), k2) == if k2 == key@ {
                Option::Some(value)
            } else {
                spec_get(entries, k2)
            },
    decreases i,
{
    let newe = entries.update(i, (key, value));
    if i == 0 {
        assert(newe[0] == (key, value));
        assert(newe.drop_first() =~= entries.drop_first());
    } else {
        lemma_spec_get_update(entries.drop_first(), i - 1, key, value);
        assert(newe.drop_first() =~= entries.drop_first().update(i - 1, (key, value)));
        assert(newe[0] == entries[0]);
        assert forall|k2: Seq<char>|
            spec_get(newe, k2) == (if k2 == key@ {
                Option::Some(value)
            } else {
                spec_get(entries, k2)
            }) by {
            assert(spec_get(entries.drop_first().update(i - 1, (key, value)), k2) == (if k2
                == key@ {
                Option::Some(value)
            } else {
                spec_get(entries.drop_first(), k2)
            }));
            assert(spec_get(newe.drop_first(), k2) == spec_get(
                entries.drop_first().update(i - 1, (key, value)),
                k2,
            ));
            assert(entries[0].0@ != key@);
        }
    }
}


/// Appending an entry changes only lookups of keys not yet bound.
pub proof fn lemma_spec_get_push<V>(entries: Seq<(String, V)>, e: (String, V))
    ensures
        forall|k: Seq<char>|
            spec_get(#[trigger] entries.push(e), k) == match spec_get(entries, k) {
                Option::Some(v) => Option::Some(v),
                Option::None => {
                    if k == e.0@ {
                        Option::Some(e.1)
                    } else {
                        Option::None
                    }
                },
            },
    decreases entries.len(),
{
    if entries.len() == 0 {
        assert forall|k: Seq<char>| true implies spec_get(#[trigger] entries.push(e), k) == (
        match spec_get(entries, k) {
            Option::Some(v) => Option::Some(v),
            Option::None => {
                if k == e.0@ {
                    Option::Some(e.1)
                } else {
                    Option::None
                }
            },
        }) by {
            assert(entries.push(e)[0] == e);
            assert(entries.push(e).drop_first() =~= entries);
        }
    } else {
        lemma_spec_get_push(entries.drop_first(), e);
        assert forall|k: Seq<char>| true implies spec_get(#[trigger] entries.push(e), k) == (
        match spec_get(entries, k) {
            Option::Some(v) => Option::Some(v),
            Option::None => {
                if k == e.0@ {
                    Option::Some(e.1)
                } else {
                    Option::None
                }
            },
        }) by {
            assert(entries.push(e)[0] == entries[0]);
            assert(entries.push(e).drop_first() =~= entries.drop_first().push(e));
            assert(spec_get(entries.push(e).drop_first(), k) == spec_get(
                entries.drop_first().push(e),
                k,
            ));
        }
    }
}

/// In a sorted entry sequence the keys are unique, so looking an entry's
/// own key up finds that entry.
pub proof fn lemma_spec_get_of_entries<V>(entries: Seq<(String, V)>)
    requires
        forall|i: int, j: int|
            0 <= i < j < entries.len() ==> key_lt(
                #[trigger] entries[i].0@,
                #[trigger] entries[j].0@,
            ),
    ensures
        forall|j: int|
            0 <= j < entries.len() ==> spec_get(entries, #[trigger] entries[j].0@)
                == Option::Some(entries[j].1),
    decreases entries.len(),
{
    if entries.len() > 0 {
        assert(forall|i: int, j: int|
            0 <= i < j < entries.drop_first().len() ==> key_lt(
                #[trigger] entries.drop_first()[i].0@,
                #[trigger] entries.drop_first()[j].0@,
            ));
        lemma_spec_get_of_entries(entries.drop_first());
        assert forall|j: int| 0 <= j < entries.len() implies spec_get(
            entries,
            #[trigger] entries[j].0@,
        ) == Option::Some(entries[j].1) by {
            if j > 0 {
                lemma_key_lt_ne(entries[0].0@, entries[j].0@);
                assert(entries.drop_first()[j - 1] == entries[j]);
                assert(spec_get(entries.drop_first(), entries[j].0@) == Option::Some(
                    entries[j].1,
                ));
            }
        }
    }
}


/// A key bound nowhere in the entries is looked up as absent.
pub proof fn lemma_spec_get_none<V>(entries: Seq<(String, V)>, k: Seq<char>)
    requires
        forall|j: int| 0 <= j < entries.len() ==> (#[trigger] entries[j]).0@ != k,
    ensures
        spec_get(entries, k) is None,
    decreases entries.len(),
{
    if entries.len() > 0 {
        assert(forall|j: int|
            0 <= j < entries.drop_first().len() ==> #[trigger] entries.drop_first()[j]
                == entries[j + 1]);
        lemma_spec_get_none(entries.drop_first(), k);
    }
}

/// In sorted entries, the key of an entry is absent from the entries
/// before it.
pub proof fn lemma_spec_get_of_prefix_none<V>(entries: Seq<(String, V)>, i: int)
    requires
        0 <= i < entries.len(),
        forall|i2: int, j2: int|
            0 <= i2 < j2 < entries.len() ==> key_lt(
                #[trigger] entries[i2].0@,
                #[trigger] entries[j2].0@,
            ),
    ensures
        spec_get(entries.take(i), entries[i].0@) is None,
{
    assert forall|j: int| 0 <= j < entries.take(i).len() implies (#[trigger] entries.take(
        i,
    )[j]).0@ != entries[i].0@ by {
        assert(entries.take(i)[j] == entries[j]);
        lemma_key_lt_ne(entries[j].0@, entries[i].0@);
    }
    lemma_spec_get_none(entries.take(i), entries[i].0@);
}

/// A map from strings to values, held sorted strictly by key bytes.
pub struct SortedMap<V> {
    pub entries: Vec<(String, V)>,
}

impl<V> SortedMap<V> {
    /// The entries are strictly ascending in key order, so keys are unique.
    pub open spec fn wf(self) -> bool {
        forall|i: int, j: int|
            0 <= i < j < self.entries@.len() ==> key_lt(
                #[trigger] self.entries@[i].0@,
                #[trigger] self.entries@[j].0@,
            )
    }

    /// The value bound to `k`, if any.
    pub open spec fn spec_index(self, k: Seq<char>) -> Option<V> {
        spec_get(self.entries@, k)
    }

    /// The number of entries.
    pub open spec fn spec_len(self) -> nat {
        self.entries@.len()
    }

    /// An empty map.
    pub fn new() -> (r: Self)
        ensures
            r.wf(),
            r.spec_len() == 0,
            forall|k: Seq<char>| r.spec_index(k) is None,
    {
        SortedMap { entries: Vec::new() }
    }

    /// The number of entries.
    pub fn len(&self) -> (r: usize)
        ensures
            r == self.spec_len(),
    {
        self.entries.len()
    }

    /// Looks a key up.
    pub fn get(&self, key: &str) -> (r: Option<&V>)
        ensures
            match r {
                Option::Some(v) => self.spec_index(key@) == Option::Some(*v),
                Option::None => self.spec_index(key@) is None,
            },
    {
        let n = self.entries.len();
        proof {
            assert(self.entries@.skip(0) =~= self.entries@);
        }
        let mut i: usize = 0;
        while i < n
            invariant
                n == self.entries@.len(),
                i <= n,
                spec_get(self.entries@, key@) == spec_get(self.entries@.skip(i as int), key@),
            decreases n - i,
        {
            let cmp = key_cmp(self.entries[i].0.as_str(), key);
            match cmp {
                KeyOrder::Equal => {
                    proof {
                        assert(self.entries@.skip(i as int)[0] == self.entries@[i as int]);
                    }
                    return Option::Some(&self.entries[i].1);
                },
                _ => {
                    proof {
                        lemma_bytes_lt_ne_key(self.entries@[i as int].0@, key@, cmp);
                        assert(self.entries@.skip(i as int).drop_first() =~= self.entries@.skip(
                            i as int + 1,
                        ));
                    }
                },
            }
            i = i + 1;
        }
        Option::None
    }

    /// Binds `key` to `value`, replacing any previous binding and keeping
    /// the entries sorted.
    pub fn set(&mut self, key: String, value: V)
        requires
            old(self).wf(),
        ensures
            final(self).wf(),
            forall|k2: Seq<char>|
                final(self).spec_index(k2) == if k2 == key@ {
                    Option::Some(value)
                } else {
                    old(self).spec_index(k2)
                },
            final(self).spec_len() <= old(self).spec_len() + 1,
            forall|i: int|
                0 <= i < final(self).entries@.len() ==> final(self).entries@[i] == (key, value)
                    || old(self).entries@.contains(#[trigger] final(self).entries@[i]),
    {
        let n = self.entries.len();
        let mut i: usize = 0;
        while i < n
            invariant
                n == self.entries@.len(),
                i <= n,
                self.entries@ == old(self).entries@,
                old(self).wf(),
                forall|j: int| 0 <= j < i ==> key_lt(#[trigger] self.entries@[j].0@, key@),
            decreases n - i,
        {
            let cmp = key_cmp(self.entries[i].0.as_str(), key.as_str());
            match cmp {
                KeyOrder::Less => {},
                KeyOrder::Equal => {
                    proof {
                        assert(forall|j: int| 0 <= j < i ==> self.entries@[j].0@ != key@) by {
                            assert forall|j: int| 0 <= j < i implies self.entries@[j].0@
                                != key@ by {
                                lemma_key_lt_ne(self.entries@[j].0@, key@);
                            }
                        }
                        lemma_spec_get_update(self.entries@, i as int, key, value);
                    }
                    self.entries[i] = (key, value);
                    proof {
                        assert forall|j: int| 0 <= j < self.entries@.len() implies self.entries@[j]
                            == (key, value) || old(self).entries@.contains(
                            #[trigger] self.entries@[j],
                        ) by {
                            if j != i {
                                assert(self.entries@[j] == old(self).entries@[j]);
                            }
                        }
                        assert(final(self).wf()) by {
                            assert forall|p: int, q: int|
                                0 <= p < q < self.entries@.len() implies key_lt(
                                #[trigger] self.entries@[p].0@,
                                #[trigger] self.entries@[q].0@,
                            ) by {
                                assert(old(self).entries@[p].0@ == self.entries@[p].0@ || p == i);
                                assert(old(self).entries@[q].0@ == self.entries@[q].0@ || q == i);
                            }
                        }
                    }
                    return ;
                },
                KeyOrder::Greater => {
                    proof {
                        lemma_insert_position(old(self).entries@, i as int, (key, value));
                        lemma_spec_get_insert(self.entries@, i as int, key, value);
                    }
                    self.entries.insert(i, (key, value));
                    proof {
                        assert forall|j: int| 0 <= j < self.entries@.len() implies self.entries@[j]
                            == (key, value) || old(self).entries@.contains(
                            #[trigger] self.entries@[j],
                        ) by {
                            if j < i {
                                assert(self.entries@[j] == old(self).entries@[j]);
                            } else if j > i {
                                assert(self.entries@[j] == old(self).entries@[j - 1]);
                            }
                        }
                    }
                    return ;
                },
            }
            i = i + 1;
        }
        proof {
            lemma_insert_position(old(self).entries@, n as int, (key, value));
            lemma_spec_get_insert(self.entries@, n as int, key, value);
        }
        self.entries.insert(n, (key, value));
        proof {
            assert forall|j: int| 0 <= j < self.entries@.len() implies self.entries@[j] == (
            key,
            value,
            ) || old(self).entries@.contains(#[trigger] self.entries@[j]) by {
                if j < n {
                    assert(self.entries@[j] == old(self).entries@[j]);
                }
            }
        }
    }
}

proof fn lemma_bytes_lt_ne_key(a: Seq<char>, b: Seq<char>, cmp: KeyOrder)
    requires
        match cmp {
            KeyOrder::Less => key_lt(a, b),
            KeyOrder::Equal => a == b,
            KeyOrder::Greater => key_lt(b, a),
        },
        !(cmp is Equal),
    ensures
        a != b,
{
    match cmp {
        KeyOrder::Less => {
            lemma_bytes_lt_ne(encode_utf8(a), encode_utf8(b));
        },
        KeyOrder::Greater => {
            lemma_bytes_lt_ne(encode_utf8(b), encode_utf8(a));
        },
        KeyOrder::Equal => {},
    }
}

proof fn lemma_key_lt_ne(a: Seq<char>, b: Seq<char>)
    requires
        key_lt(a, b),
    ensures
        a != b,
{
    lemma_bytes_lt_ne(encode_utf8(a), encode_utf8(b));
}

/// The character-string order is transitive.
pub proof fn lemma_key_lt_trans(a: Seq<char>, b: Seq<char>, c: Seq<char>)
    requires
        key_lt(a, b),
        key_lt(b, c),
    ensures
        key_lt(a, c),
{
    lemma_bytes_lt_trans(encode_utf8(a), encode_utf8(b), encode_utf8(c));
}

/// At the first position whose key is not below the new key, every earlier
/// key differs from the new one, and inserting there keeps the entries
/// sorted.
proof fn lemma_insert_position<V>(entries: Seq<(String, V)>, i: int, e: (String, V))
    requires
        0 <= i <= entries.len(),
        forall|i2: int, j2: int|
            0 <= i2 < j2 < entries.len() ==> key_lt(
                #[trigger] entries[i2].0@,
                #[trigger] entries[j2].0@,
            ),
        forall|j: int| 0 <= j < i ==> key_lt(#[trigger] entries[j].0@, e.0@),
        i < entries.len() ==> key_lt(e.0@, entries[i].0@),
    ensures
        forall|j: int| 0 <= j < i ==> entries[j].0@ != e.0@,
        forall|p: int, q: int|
            0 <= p < q < entries.insert(i, e).len() ==> key_lt(
                #[trigger] entries.insert(i, e)[p].0@,
                #[trigger] entries.insert(i, e)[q].0@,
            ),
{
    assert forall|j: int| 0 <= j < i implies entries[j].0@ != e.0@ by {
        lemma_key_lt_ne(entries[j].0@, e.0@);
    }
    let newe = entries.insert(i, e);
    assert forall|p: int, q: int| 0 <= p < q < newe.len() implies key_lt(
        #[trigger] newe[p].0@,
        #[trigger] newe[q].0@,
    ) by {
        if p < i && q == i {
        } else if p == i && q > i {
            if i < entries.len() && q - 1 > i {
                lemma_key_lt_trans(e.0@, entries[i].0@, entries[q - 1].0@);
            }
        } else if p < i && q > i {
            if q - 1 == i {
                if i < entries.len() {
                    lemma_key_lt_trans(entries[p].0@, e.0@, entries[i].0@);
                }
            }
        }
    }
}

} // verus!
