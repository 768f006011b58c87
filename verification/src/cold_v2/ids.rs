//! Keyset identifiers.

use vstd::prelude::*;

use super::encode::{checked_u32, exceeds_error};
use super::shapes::{
    find_keyset, keysets_view, lemma_keyset_inserted, lemma_keysets_distinct, lex_less, lex_sorted, Slot,
};
use crate::error::{data_error, invalid_data, Error};

verus! {

/// The number of every keyset, found by its keys.
#[derive(Debug)]
pub struct KeysetIds {
    keysets: Vec<Vec<u32>>,
    ids: Vec<u32>,
}

impl View for KeysetIds {
    type V = Map<Seq<u32>, u32>;

    closed spec fn view(&self) -> Map<Seq<u32>, u32> {
        let keysets = keysets_view(self.keysets@);
        Map::new(
            |keys: Seq<u32>| keysets.contains(keys),
            |keys: Seq<u32>| self.ids@[keysets.index_of(keys)],
        )
    }
}

impl KeysetIds {
    /// The keysets are in order and each has a number.
    pub closed spec fn wf(self) -> bool {
        &&& lex_sorted(keysets_view(self.keysets@))
        &&& self.ids@.len() == self.keysets@.len()
    }

    /// The number of a keyset.
    pub fn get(&self, keys: &[u32]) -> (id: Option<u32>)
        requires
            self.wf(),
        ensures
            id == (if self@.contains_key(keys@) {
                Some(self@[keys@])
            } else {
                None
            }),
    {
        let ghost view = keysets_view(self.keysets@);
        match find_keyset(&self.keysets, keys) {
            Slot::Found(k) => {
                proof {
                    assert(view[k as int] == keys@);
                    assert(view.contains(keys@));
                    lemma_keysets_distinct(view, k as int, view.index_of(keys@));
                }
                Some(self.ids[k])
            },
            Slot::Missing(k) => {
                proof {
                    assert forall|i: int| 0 <= i < k implies lex_less(
                        #[trigger] view[i],
                        keys@,
                    ) by {
                        assert(view[i] == self.keysets@[i]@);
                    }
                    assert forall|i: int| k <= i < view.len() implies lex_less(
                        keys@,
                        #[trigger] view[i],
                    ) by {
                        assert(view[i] == self.keysets@[i]@);
                    }
                    lemma_keyset_inserted(view, k as int, keys@);
                }
                None
            },
        }
    }
}

/// The first `n` keysets can be numbered, or the first error.
pub open spec fn keyset_ids_result(keysets: Seq<Seq<u32>>, n: nat) -> Result<(), Error>
    decreases n,
{
    if n == 0 {
        Ok(())
    } else {
        match keyset_ids_result(keysets, (n - 1) as nat) {
            Err(error) => Err(error),
            Ok(_) => if n - 1 > u32::MAX {
                Err(exceeds_error("keyset id", "u32"))
            } else if keysets.take(n - 1).contains(keysets[n - 1]) {
                Err(data_error("duplicate canonical keyset"))
            } else {
                Ok(())
            },
        }
    }
}

proof fn lemma_keyset_ids_error(keysets: Seq<Seq<u32>>, n: nat, m: nat)
    requires
        n <= m,
        keyset_ids_result(keysets, n) is Err,
    ensures
        keyset_ids_result(keysets, m) == keyset_ids_result(keysets, n),
    decreases m,
{
    if n < m {
        lemma_keyset_ids_error(keysets, n, (m - 1) as nat);
    }
}

/// The first `n` keysets are numbered by their position.
pub open spec fn numbered(ids: Map<Seq<u32>, u32>, keysets: Seq<Seq<u32>>, n: nat) -> bool {
    &&& forall|keys: Seq<u32>| #[trigger]
        ids.contains_key(keys) <==> keysets.take(n as int).contains(keys)
    &&& forall|i: int| 0 <= i < n ==> ids[#[trigger] keysets[i]] == i
}

proof fn lemma_id_inserted(before: KeysetIds, after: KeysetIds, k: int, keys: Vec<u32>, id: u32)
    requires
        before.wf(),
        0 <= k <= before.keysets@.len(),
        after.keysets@ == before.keysets@.insert(k, keys),
        after.ids@ == before.ids@.insert(k, id),
        forall|i: int|
            0 <= i < k ==> lex_less(#[trigger] before.keysets@[i]@, keys@),
        forall|i: int|
            k <= i < before.keysets@.len() ==> lex_less(
                keys@,
                #[trigger] before.keysets@[i]@,
            ),
    ensures
        after.wf(),
        !before@.contains_key(keys@),
        after@ == before@.insert(keys@, id),
{
    let old_view = keysets_view(before.keysets@);
    let view = keysets_view(after.keysets@);
    assert(view =~= old_view.insert(k, keys@));
    assert forall|i: int| 0 <= i < k implies lex_less(
        #[trigger] old_view[i],
        keys@,
    ) by {
        assert(old_view[i] == before.keysets@[i]@);
    }
    assert forall|i: int| k <= i < old_view.len() implies lex_less(
        keys@,
        #[trigger] old_view[i],
    ) by {
        assert(old_view[i] == before.keysets@[i]@);
    }
    lemma_keyset_inserted(old_view, k, keys@);
    assert forall|x: Seq<u32>| after@.contains_key(x) implies #[trigger] after@[x]
        == before@.insert(keys@, id)[x] by {
        assert(view.contains(x));
        let i = view.index_of(x);
        if x == keys@ {
            assert(view[k] == x);
            lemma_keysets_distinct(view, i, k);
        } else {
            assert(old_view.contains(x));
            let j = old_view.index_of(x);
            let moved = if j < k {
                j
            } else {
                j + 1
            };
            assert(view[moved] == x);
            lemma_keysets_distinct(view, i, moved);
        }
    }
    assert(after@ =~= before@.insert(keys@, id));
}

/// Numbers keysets by their position.
pub fn keyset_id_map(keysets: &[Vec<u32>]) -> (result: Result<KeysetIds, Error>)
    ensures
        match keyset_ids_result(keysets_view(keysets@), keysets@.len()) {
            Err(error) => result == Err::<KeysetIds, Error>(error),
            Ok(_) => result is Ok && result->Ok_0.wf() && numbered(
                result->Ok_0@,
                keysets_view(keysets@),
                keysets@.len(),
            ),
        },
{
    let ghost view = keysets_view(keysets@);
    let mut map = KeysetIds { keysets: Vec::new(), ids: Vec::new() };
    let mut idx: usize = 0;
    while idx < keysets.len()
        invariant
            idx <= keysets@.len(),
            view == keysets_view(keysets@),
            map.wf(),
            keyset_ids_result(view, idx as nat) is Ok,
            numbered(map@, view, idx as nat),
        decreases keysets@.len() - idx,
    {
        let id: u32 = match checked_u32(idx, "keyset id") {
            Ok(id) => id,
            Err(error) => {
                proof {
                    lemma_keyset_ids_error(view, (idx + 1) as nat, keysets@.len());
                }
                return Err(error);
            },
        };
        let keys: Vec<u32> = keysets[idx].clone();
        assert(keys@ =~= view[idx as int]);
        match find_keyset(&map.keysets, &keys) {
            Slot::Found(k) => {
                proof {
                    assert(keysets_view(map.keysets@)[k as int] == keys@);
                    assert(map@.contains_key(keys@));
                    lemma_keyset_ids_error(view, (idx + 1) as nat, keysets@.len());
                }
                return Err(invalid_data("duplicate canonical keyset"));
            },
            Slot::Missing(k) => {
                let ghost before = map;
                let ghost added = keys;
                map.keysets.insert(k, keys);
                map.ids.insert(k, id);
                proof {
                    lemma_id_inserted(before, map, k as int, added, id);
                    let more = view.take(idx + 1);
                    let less = view.take(idx as int);
                    assert(more =~= less.push(added@));
                    assert(before@.contains_key(added@) <==> less.contains(added@));
                    assert forall|x: Seq<u32>| #[trigger]
                        map@.contains_key(x) <==> more.contains(x) by {
                        assert(before@.contains_key(x) <==> less.contains(x));
                        if less.contains(x) {
                            let j = less.index_of(x);
                            assert(more[j] == x);
                        }
                        if x == added@ {
                            assert(more[idx as int] == x);
                        }
                    }
                    assert forall|i: int| 0 <= i < idx + 1 implies map@[#[trigger] view[i]] == i by {
                        if i < idx {
                            assert(less[i] == view[i]);
                            assert(less.contains(view[i]));
                        }
                    }
                }
            },
        }
        idx += 1;
    }
    assert(view.take(idx as int) =~= view);
    Ok(map)
}

} // verus!
