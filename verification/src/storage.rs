//! The host's content-addressed storage: one byte blob per
//! (contract, key) pair. Reads return the stored value; the syscall layer
//! pairs every value with its SHA-256 digest and verifies every write
//! against the digest the guest claims.

use vstd::prelude::*;

verus! {

/// One stored blob, addressed by contract and key.
pub struct StorageCell {
    pub contract: String,
    pub key: String,
    pub value: Vec<u8>,
}

/// The value stored for `(c, k)`, scanning cells from the front.
pub open spec fn st_get(cells: Seq<StorageCell>, c: Seq<char>, k: Seq<char>) -> Option<Seq<u8>>
    decreases cells.len(),
{
    if cells.len() == 0 {
        Option::None
    } else if cells[0].contract@ == c && cells[0].key@ == k {
        Option::Some(cells[0].value@)
    } else {
        st_get(cells.drop_first(), c, k)
    }
}

proof fn lemma_st_get_none(cells: Seq<StorageCell>, c: Seq<char>, k: Seq<char>)
    requires
        forall|j: int|
            0 <= j < cells.len() ==> !((#[trigger] cells[j]).contract@ == c && cells[j].key@ == k),
    ensures
        st_get(cells, c, k) is None,
    decreases cells.len(),
{
    if cells.len() > 0 {
        assert(cells.drop_first() =~= cells.skip(1));
        assert(forall|j: int|
            0 <= j < cells.drop_first().len() ==> #[trigger] cells.drop_first()[j] == cells[j + 1]);
        lemma_st_get_none(cells.drop_first(), c, k);
    }
}

proof fn lemma_st_get_push(cells: Seq<StorageCell>, cell: StorageCell)
    ensures
        forall|c2: Seq<char>, k2: Seq<char>|
            st_get(#[trigger] cells.push(cell), c2, k2) == match st_get(cells, c2, k2) {
                Option::Some(v) => Option::Some(v),
                Option::None => {
                    if c2 == cell.contract@ && k2 == cell.key@ {
                        Option::Some(cell.value@)
                    } else {
                        Option::None
                    }
                },
            },
    decreases cells.len(),
{
    if cells.len() == 0 {
        assert forall|c2: Seq<char>, k2: Seq<char>| true implies st_get(
            #[trigger] cells.push(cell),
            c2,
            k2,
        ) == (match st_get(cells, c2, k2) {
            Option::Some(v) => Option::Some(v),
            Option::None => {
                if c2 == cell.contract@ && k2 == cell.key@ {
                    Option::Some(cell.value@)
                } else {
                    Option::None
                }
            },
        }) by {
            assert(cells.push(cell)[0] == cell);
            assert(cells.push(cell).drop_first() =~= cells);
        }
    } else {
        lemma_st_get_push(cells.drop_first(), cell);
        assert forall|c2: Seq<char>, k2: Seq<char>| true implies st_get(
            #[trigger] cells.push(cell),
            c2,
            k2,
        ) == (match st_get(cells, c2, k2) {
            Option::Some(v) => Option::Some(v),
            Option::None => {
                if c2 == cell.contract@ && k2 == cell.key@ {
                    Option::Some(cell.value@)
                } else {
                    Option::None
                }
            },
        }) by {
            assert(cells.push(cell)[0] == cells[0]);
            assert(cells.push(cell).drop_first() =~= cells.drop_first().push(cell));
            assert(st_get(cells.push(cell).drop_first(), c2, k2) == st_get(
                cells.drop_first().push(cell),
                c2,
                k2,
            ));
        }
    }
}

proof fn lemma_st_get_update(cells: Seq<StorageCell>, i: int, cell: StorageCell)
    requires
        0 <= i < cells.len(),
        cells[i].contract@ == cell.contract@,
        cells[i].key@ == cell.key@,
        forall|j: int|
            0 <= j < i ==> !((#[trigger] cells[j]).contract@ == cell.contract@ && cells[j].key@
                == cell.key@),
    ensures
        forall|c2: Seq<char>, k2: Seq<char>|
            st_get(#[trigger] cells.update(i, cell), c2, k2) == if c2 == cell.contract@ && k2
                == cell.key@ {
                Option::Some(cell.value@)
            } else {
                st_get(cells, c2, k2)
            },
    decreases i,
{
    let newc = cells.update(i, cell);
    if i == 0 {
        assert(newc[0] == cell);
        assert(newc.drop_first() =~= cells.drop_first());
        assert forall|c2: Seq<char>, k2: Seq<char>| true implies st_get(newc, c2, k2) == (if c2
            == cell.contract@ && k2 == cell.key@ {
            Option::Some(cell.value@)
        } else {
            st_get(cells, c2, k2)
        }) by {}
    } else {
        lemma_st_get_update(cells.drop_first(), i - 1, cell);
        assert(newc[0] == cells[0]);
        assert(newc.drop_first() =~= cells.drop_first().update(i - 1, cell));
        assert forall|c2: Seq<char>, k2: Seq<char>| true implies st_get(newc, c2, k2) == (if c2
            == cell.contract@ && k2 == cell.key@ {
            Option::Some(cell.value@)
        } else {
            st_get(cells, c2, k2)
        }) by {
            assert(st_get(newc.drop_first(), c2, k2) == st_get(
                cells.drop_first().update(i - 1, cell),
                c2,
                k2,
            ));
        }
    }
}

/// Every stored value is short enough for a length-prefixed encoding.
/// The syscall layer admits only such values, so it preserves this.
pub open spec fn storage_fits(s: Storage) -> bool {
    forall|c: Seq<char>, k: Seq<char>|
        (#[trigger] s.contents(c, k)) matches Option::Some(v) ==> v.len() <= u32::MAX
}

/// The host's persistent store: per-contract byte blobs by string key.
pub struct Storage {
    pub cells: Vec<StorageCell>,
}

impl Storage {
    /// The value stored for contract `c` under key `k`, if any.
    pub open spec fn contents(self, c: Seq<char>, k: Seq<char>) -> Option<Seq<u8>> {
        st_get(self.cells@, c, k)
    }

    /// An empty store.
    pub fn new() -> (r: Self)
        ensures
            forall|c: Seq<char>, k: Seq<char>| r.contents(c, k) is None,
    {
        Storage { cells: Vec::new() }
    }

    /// Reads the value for `(contract, key)`, if one is stored.
    pub fn read(&self, contract: &str, key: &str) -> (r: Option<&Vec<u8>>)
        ensures
            match r {
                Option::Some(v) => self.contents(contract@, key@) == Option::Some(v@),
                Option::None => self.contents(contract@, key@) is None,
            },
    {
        let n = self.cells.len();
        proof {
            assert(self.cells@.skip(0) =~= self.cells@);
        }
        let mut i: usize = 0;
        while i < n
            invariant
                n == self.cells@.len(),
                i <= n,
                st_get(self.cells@, contract@, key@) == st_get(
                    self.cells@.skip(i as int),
                    contract@,
                    key@,
                ),
            decreases n - i,
        {
            let c_eq = crate::sorted_map::str_eq(self.cells[i].contract.as_str(), contract);
            let k_eq = crate::sorted_map::str_eq(self.cells[i].key.as_str(), key);
            proof {
                assert(self.cells@.skip(i as int)[0] == self.cells@[i as int]);
                assert(self.cells@.skip(i as int).drop_first() =~= self.cells@.skip(i as int + 1));
            }
            if c_eq && k_eq {
                return Option::Some(&self.cells[i].value);
            }
            i = i + 1;
        }
        Option::None
    }

    /// Stores `value` for `(contract, key)`, replacing any previous value.
    pub fn write(&mut self, contract: String, key: String, value: Vec<u8>)
        ensures
            forall|c2: Seq<char>, k2: Seq<char>|
                final(self).contents(c2, k2) == if c2 == contract@ && k2 == key@ {
                    Option::Some(value@)
                } else {
                    old(self).contents(c2, k2)
                },
    {
        let n = self.cells.len();
        let mut i: usize = 0;
        while i < n
            invariant
                n == self.cells@.len(),
                self.cells@ == old(self).cells@,
                i <= n,
                forall|j: int|
                    0 <= j < i ==> !((#[trigger] self.cells@[j]).contract@ == contract@
                        && self.cells@[j].key@ == key@),
            decreases n - i,
        {
            let c_eq = crate::sorted_map::str_eq(self.cells[i].contract.as_str(), contract.as_str());
            let k_eq = crate::sorted_map::str_eq(self.cells[i].key.as_str(), key.as_str());
            if c_eq && k_eq {
                let cell = StorageCell { contract, key, value };
                proof {
                    lemma_st_get_update(self.cells@, i as int, cell);
                }
                self.cells[i] = cell;
                return ;
            }
            i = i + 1;
        }
        let cell = StorageCell { contract, key, value };
        proof {
            lemma_st_get_push(self.cells@, cell);
            lemma_st_get_none(self.cells@, cell.contract@, cell.key@);
        }
        self.cells.push(cell);
    }
}

} // verus!
