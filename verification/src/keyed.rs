//! Reconciling a list of things by id.
//!
//! When the user edits the set of LEQs, or the set of series the history
//! records, the new list is matched against the old one by id so that what
//! survives keeps its state: adding a fourth LEQ must not restart the first
//! three, and adding a series must not throw away the history of the others.
//! Each new entry takes the first old entry with its id that no earlier new
//! entry has taken; anything else starts fresh.

use vstd::prelude::*;

verus! {

/// Old entry `j` has been taken by one of the first `upto` new entries.
pub open spec fn taken(r: Seq<Option<usize>>, upto: int, j: int) -> bool {
    exists|k: int| 0 <= k < upto && #[trigger] r[k] == Some(j as usize)
}

/// `r` is the match of `wanted` against `existing`: for each new id, the
/// position of the first old entry with that id not already taken by an
/// earlier new entry, or `None` if every old entry with that id is taken.
pub open spec fn is_first_free_match(
    existing: Seq<Seq<char>>,
    wanted: Seq<Seq<char>>,
    r: Seq<Option<usize>>,
) -> bool {
    &&& r.len() == wanted.len()
    &&& forall|i: int|
        0 <= i < r.len() ==> match #[trigger] r[i] {
            Some(j) => {
                &&& j < existing.len()
                &&& existing[j as int] == wanted[i]
                &&& !taken(r, i, j as int)
                &&& forall|k: int|
                    0 <= k < j && existing[k] == wanted[i] ==> taken(r, i, k)
            },
            None => forall|k: int|
                0 <= k < existing.len() && existing[k] == wanted[i] ==> taken(r, i, k),
        }
}

/// The ids of a list of strings, as character sequences.
pub open spec fn ids_of(v: Seq<String>) -> Seq<Seq<char>> {
    v.map_values(|s: String| s@)
}

/// Match `wanted` against `existing` by id; see [`is_first_free_match`].
pub fn match_by_id(existing: &Vec<String>, wanted: &Vec<String>) -> (r: Vec<Option<usize>>)
    ensures
        is_first_free_match(ids_of(existing@), ids_of(wanted@), r@),
{
    let ghost ex = ids_of(existing@);
    let ghost wa = ids_of(wanted@);
    let mut used: Vec<bool> = Vec::new();
    while used.len() < existing.len()
        invariant
            used@.len() <= existing@.len(),
            forall|j: int| 0 <= j < used@.len() ==> !#[trigger] used@[j],
        decreases existing@.len() - used@.len(),
    {
        used.push(false);
    }
    let mut r: Vec<Option<usize>> = Vec::new();
    let count = existing.len();
    assert(count == existing@.len());
    let mut i: usize = 0;
    while i < wanted.len()
        invariant
            ex == ids_of(existing@),
            wa == ids_of(wanted@),
            used@.len() == existing@.len(),
            existing@.len() <= usize::MAX,
            i <= wanted@.len(),
            r@.len() == i,
            forall|j: int| 0 <= j < used@.len() ==> #[trigger] used@[j] == taken(r@, i as int, j),
            forall|k: int|
                0 <= k < i ==> match #[trigger] r@[k] {
                    Some(j) => {
                        &&& j < ex.len()
                        &&& ex[j as int] == wa[k]
                        &&& !taken(r@, k, j as int)
                        &&& forall|m: int| 0 <= m < j && ex[m] == wa[k] ==> taken(r@, k, m)
                    },
                    None => forall|m: int| 0 <= m < ex.len() && ex[m] == wa[k] ==> taken(r@, k, m),
                },
        decreases wanted@.len() - i,
    {
        let mut j: usize = 0;
        let mut found: Option<usize> = None;
        while j < existing.len()
            invariant_except_break
                found is None,
            invariant
                ex == ids_of(existing@),
                wa == ids_of(wanted@),
                used@.len() == existing@.len(),
                i < wanted@.len(),
                j <= existing@.len(),
                r@.len() == i,
                forall|m: int| 0 <= m < used@.len() ==> #[trigger] used@[m] == taken(r@, i as int, m),
                forall|m: int| 0 <= m < j && ex[m] == wa[i as int] ==> #[trigger] used@[m],
            ensures
                match found {
                    Some(jj) => {
                        &&& jj < existing@.len()
                        &&& ex[jj as int] == wa[i as int]
                        &&& !used@[jj as int]
                        &&& forall|m: int| 0 <= m < jj && ex[m] == wa[i as int] ==> #[trigger] used@[m]
                    },
                    None => forall|m: int|
                        0 <= m < existing@.len() && ex[m] == wa[i as int] ==> #[trigger] used@[m],
                },
            decreases existing@.len() - j,
        {
            if !used[j] && existing[j] == wanted[i] {
                found = Some(j);
                break;
            }
            j = j + 1;
        }
        let ghost before = r@;
        let ghost used_before = used@;
        match found {
            Some(jj) => {
                used.set(jj, true);
            },
            None => {},
        }
        r.push(found);
        proof {
            assert forall|k: int| 0 <= k < i implies r@[k] == before[k] by {}
            assert(r@[i as int] == found);
            assert forall|m: int| 0 <= m < used@.len() implies #[trigger] used@[m] == taken(
                r@,
                i + 1,
                m,
            ) by {
                assert(used_before[m] == taken(before, i as int, m));
                assert(m as usize as int == m);
                if found == Some(m as usize) {
                    assert(r@[i as int] == Some(m as usize));
                    assert(taken(r@, i + 1, m));
                } else {
                    assert(used@[m] == used_before[m]);
                    if taken(before, i as int, m) {
                        let k = choose|k: int| 0 <= k < i && #[trigger] before[k] == Some(m as usize);
                        assert(r@[k] == Some(m as usize));
                        assert(taken(r@, i + 1, m));
                    }
                    if taken(r@, i + 1, m) {
                        let k = choose|k: int| 0 <= k < i + 1 && #[trigger] r@[k] == Some(m as usize);
                        assert(k != i);
                        assert(before[k] == Some(m as usize));
                        assert(taken(before, i as int, m));
                    }
                }
            }
            assert forall|k: int, m: int| 0 <= k <= i && taken(before, k, m) implies taken(
                r@,
                k,
                m,
            ) by {
                let w = choose|w: int| 0 <= w < k && #[trigger] before[w] == Some(m as usize);
                assert(r@[w] == Some(m as usize));
            }
            assert forall|k: int, m: int| 0 <= k <= i && taken(r@, k, m) implies taken(
                before,
                k,
                m,
            ) by {
                let w = choose|w: int| 0 <= w < k && #[trigger] r@[w] == Some(m as usize);
                assert(before[w] == Some(m as usize));
            }
            assert forall|k: int|
                0 <= k < i + 1 implies match #[trigger] r@[k] {
                Some(j) => {
                    &&& j < ex.len()
                    &&& ex[j as int] == wa[k]
                    &&& !taken(r@, k, j as int)
                    &&& forall|m: int| 0 <= m < j && ex[m] == wa[k] ==> taken(r@, k, m)
                },
                None => forall|m: int| 0 <= m < ex.len() && ex[m] == wa[k] ==> taken(r@, k, m),
            } by {
                if k < i {
                    assert(r@[k] == before[k]);
                    match before[k] {
                        Some(j) => {
                            assert(taken(r@, k, j as int) == taken(before, k, j as int));
                            assert forall|m: int| 0 <= m < j && ex[m] == wa[k] implies taken(
                                r@,
                                k,
                                m,
                            ) by {
                                assert(taken(before, k, m));
                            }
                        },
                        None => {
                            assert forall|m: int| 0 <= m < ex.len() && ex[m] == wa[k] implies taken(
                                r@,
                                k,
                                m,
                            ) by {
                                assert(taken(before, k, m));
                            }
                        },
                    }
                } else {
                    assert(r@[k] == found);
                    match found {
                        Some(j) => {
                            assert(used_before[j as int] == taken(before, i as int, j as int));
                            assert(taken(r@, k, j as int) == taken(before, k, j as int));
                            assert forall|m: int| 0 <= m < j && ex[m] == wa[k] implies taken(
                                r@,
                                k,
                                m,
                            ) by {
                                assert(used_before[m] == taken(before, i as int, m));
                                assert(taken(before, k, m));
                            }
                        },
                        None => {
                            assert forall|m: int| 0 <= m < ex.len() && ex[m] == wa[k] implies taken(
                                r@,
                                k,
                                m,
                            ) by {
                                assert(used_before[m] == taken(before, i as int, m));
                                assert(taken(before, k, m));
                            }
                        },
                    }
                }
            }
        }
        i = i + 1;
    }
    r
}

/// Appending new ids to a list of distinct ones keeps every old entry where
/// it was: adding a series keeps the history of the others.
pub proof fn lemma_extending_keeps_everything(
    existing: Seq<Seq<char>>,
    added: Seq<Seq<char>>,
    r: Seq<Option<usize>>,
)
    requires
        forall|a: int, b: int|
            0 <= a < b < existing.len() ==> existing[a] != existing[b],
        existing.len() <= usize::MAX,
        is_first_free_match(existing, existing + added, r),
    ensures
        forall|i: int| 0 <= i < existing.len() ==> #[trigger] r[i] == Some(i as usize),
{
    let wanted = existing + added;
    assert forall|i: int| 0 <= i < existing.len() implies #[trigger] r[i] == Some(i as usize) by {
        assert(wanted[i] == existing[i]);
        if taken(r, i, i) {
            let k = choose|k: int| 0 <= k < i && #[trigger] r[k] == Some(i as usize);
            assert(wanted[k] == existing[k]);
            assert(existing[i] == existing[k]);
        }
        match r[i] {
            Some(j) => {
                if (j as int) < i {
                    assert(existing[j as int] == existing[i]);
                } else if (j as int) > i {
                    assert(existing[i] == wanted[i]);
                }
            },
            None => {},
        }
    }
}

/// No old entry is carried over twice, and every carried entry has the id
/// it was wanted under.
pub proof fn lemma_match_reuses_each_entry_once(
    existing: Seq<Seq<char>>,
    wanted: Seq<Seq<char>>,
    r: Seq<Option<usize>>,
)
    requires
        is_first_free_match(existing, wanted, r),
    ensures
        forall|k: int, l: int|
            0 <= k < l < r.len() && r[k] is Some ==> #[trigger] r[k] != #[trigger] r[l],
        forall|k: int|
            0 <= k < r.len() && r[k] is Some ==> existing[r[k]->0 as int] == wanted[k],
{
    assert forall|k: int, l: int| 0 <= k < l < r.len() && r[k] is Some implies #[trigger] r[k]
        != #[trigger] r[l] by {
        if r[k] == r[l] {
            let j = r[l]->0;
            assert(taken(r, l, j as int));
        }
    }
    assert forall|k: int| 0 <= k < r.len() && r[k] is Some implies existing[r[k]->0 as int]
        == wanted[k] by {
        match r[k] {
            Some(j) => {},
            None => {},
        }
    }
}

} // verus!
