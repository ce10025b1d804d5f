//! Listing what is stored: which directory entries count, and in what order
//! they are shown.
//!
//! Reading the directories is I/O and happens outside this crate; what
//! stands here is the filter on entry names and the newest-first order.

use vstd::prelude::*;

verus! {

/// `a` sorts before `b`, comparing character by character by code point, a
/// proper prefix first. UTF-8 keeps the order of code points, so this is
/// also the order of the strings' bytes, which is how `String` compares.
pub open spec fn str_less(a: Seq<char>, b: Seq<char>) -> bool
    decreases a.len(),
{
    if a.len() == 0 {
        b.len() > 0
    } else if b.len() == 0 {
        false
    } else if a[0] != b[0] {
        (a[0] as int) < (b[0] as int)
    } else {
        str_less(a.drop_first(), b.drop_first())
    }
}

/// Exactly one of `a < b`, `a == b`, `b < a` holds.
pub proof fn lemma_str_less_trichotomy(a: Seq<char>, b: Seq<char>)
    ensures
        str_less(a, b) || a == b || str_less(b, a),
        !(str_less(a, b) && str_less(b, a)),
        !(str_less(a, b) && a == b),
    decreases a.len(),
{
    if a.len() == 0 || b.len() == 0 {
        if a.len() == 0 && b.len() == 0 {
            assert(a =~= b);
        }
    } else if a[0] != b[0] {
        assert((a[0] as int) != (b[0] as int));
    } else {
        lemma_str_less_trichotomy(a.drop_first(), b.drop_first());
        if a.drop_first() == b.drop_first() {
            assert forall|i: int| 0 <= i < a.len() implies a[i] == b[i] by {
                if i > 0 {
                    assert(a[i] == a.drop_first()[i - 1]);
                    assert(b[i] == b.drop_first()[i - 1]);
                }
            }
            assert(a =~= b);
        }
        if a == b {
            assert(a.drop_first() == b.drop_first());
        }
    }
}

/// The order is transitive.
pub proof fn lemma_str_less_transitive(a: Seq<char>, b: Seq<char>, c: Seq<char>)
    requires
        str_less(a, b),
        str_less(b, c),
    ensures
        str_less(a, c),
    decreases a.len(),
{
    if a.len() == 0 {
    } else if a[0] != b[0] || b[0] != c[0] {
    } else {
        lemma_str_less_transitive(a.drop_first(), b.drop_first(), c.drop_first());
    }
}

/// Skipping a shared prefix does not change the comparison.
proof fn lemma_str_less_skip(a: Seq<char>, b: Seq<char>, i: int)
    requires
        0 <= i <= a.len(),
        i <= b.len(),
        a.subrange(0, i) == b.subrange(0, i),
    ensures
        str_less(a, b) == str_less(a.subrange(i, a.len() as int), b.subrange(i, b.len() as int)),
    decreases i,
{
    if i > 0 {
        assert(a[0] == a.subrange(0, i)[0]);
        assert(b[0] == b.subrange(0, i)[0]);
        let a1 = a.drop_first();
        let b1 = b.drop_first();
        assert(a1.subrange(0, i - 1) =~= a.subrange(1, i));
        assert(b1.subrange(0, i - 1) =~= b.subrange(1, i));
        assert(a.subrange(1, i) =~= a.subrange(0, i).drop_first());
        assert(b.subrange(1, i) =~= b.subrange(0, i).drop_first());
        lemma_str_less_skip(a1, b1, i - 1);
        assert(a1.subrange(i - 1, a1.len() as int) =~= a.subrange(i, a.len() as int));
        assert(b1.subrange(i - 1, b1.len() as int) =~= b.subrange(i, b.len() as int));
    } else {
        assert(a.subrange(0, a.len() as int) =~= a);
        assert(b.subrange(0, b.len() as int) =~= b);
    }
}

/// Whether `a` sorts before `b`.
pub fn str_less_exec(a: &str, b: &str) -> (r: bool)
    ensures
        r == str_less(a@, b@),
{
    let n = a.unicode_len();
    let m = b.unicode_len();
    let mut i: usize = 0;
    while i < n && i < m
        invariant
            n == a@.len(),
            m == b@.len(),
            i <= n,
            i <= m,
            a@.subrange(0, i as int) == b@.subrange(0, i as int),
        decreases n - i,
    {
        let x = a.get_char(i);
        let y = b.get_char(i);
        if x != y {
            proof {
                lemma_str_less_skip(a@, b@, i as int);
                let ra = a@.subrange(i as int, n as int);
                let rb = b@.subrange(i as int, m as int);
                assert(ra[0] == x);
                assert(rb[0] == y);
            }
            return (x as u32) < (y as u32);
        }
        assert(a@.subrange(0, i + 1) =~= a@.subrange(0, i as int).push(x));
        assert(b@.subrange(0, i + 1) =~= b@.subrange(0, i as int).push(y));
        i = i + 1;
    }
    proof {
        lemma_str_less_skip(a@, b@, i as int);
    }
    i == n && i < m
}

/// `order` lists every position of `keys` once.
pub open spec fn is_permutation(order: Seq<usize>, n: nat) -> bool {
    &&& order.len() == n
    &&& forall|k: int| 0 <= k < order.len() ==> #[trigger] order[k] < n
    &&& forall|k: int, l: int| 0 <= k < l < order.len() ==> order[k] != order[l]
}

/// `order` puts `keys` in descending order, equal keys in their original
/// order.
pub open spec fn is_newest_first(keys: Seq<Seq<char>>, order: Seq<usize>) -> bool {
    &&& is_permutation(order, keys.len())
    &&& forall|k: int, l: int|
        0 <= k < l < order.len() ==> !str_less(
            keys[order[k] as int],
            keys[order[l] as int],
        ) && (keys[order[k] as int] == keys[order[l] as int] ==> order[k] < order[l])
}

/// The characters of each string.
pub open spec fn views(v: Seq<String>) -> Seq<Seq<char>> {
    v.map_values(|s: String| s@)
}

/// The order to show entries in, newest first, given each entry's
/// modification time as an RFC 3339 string (which sorts as it reads): a
/// stable sort, so entries modified at the same instant keep the order they
/// were found in.
pub fn newest_first(modified: &Vec<String>) -> (order: Vec<usize>)
    ensures
        is_newest_first(views(modified@), order@),
{
    let ghost keys = views(modified@);
    let mut order: Vec<usize> = Vec::new();
    let mut i: usize = 0;
    while i < modified.len()
        invariant
            keys == views(modified@),
            i <= modified@.len(),
            order@.len() == i,
            forall|k: int| 0 <= k < order@.len() ==> #[trigger] order@[k] < i,
            forall|k: int, l: int| 0 <= k < l < order@.len() ==> order@[k] != order@[l],
            forall|k: int, l: int|
                0 <= k < l < order@.len() ==> !str_less(
                    keys[order@[k] as int],
                    keys[order@[l] as int],
                ) && (keys[order@[k] as int] == keys[order@[l] as int] ==> order@[k] < order@[l]),
        decreases modified@.len() - i,
    {
        // Insert `i` after every entry whose key is not below its own.
        let mut pos: usize = 0;
        while pos < order.len() && !str_less_exec(modified[order[pos]].as_str(), modified[i].as_str())
            invariant
                keys == views(modified@),
                i < modified@.len(),
                pos <= order@.len(),
                forall|k: int| 0 <= k < order@.len() ==> #[trigger] order@[k] < i,
                forall|k: int| 0 <= k < pos ==> !str_less(#[trigger] keys[order@[k] as int], keys[i as int]),
            decreases order@.len() - pos,
        {
            pos = pos + 1;
        }
        // Everything from `pos` on sorts below `i`'s key.
        proof {
            if pos < order@.len() {
                assert(str_less(keys[order@[pos as int] as int], keys[i as int]));
                assert forall|l: int| pos <= l < order@.len() implies str_less(
                    #[trigger] keys[order@[l] as int],
                    keys[i as int],
                ) by {
                    if l > pos {
                        let a = keys[order@[pos as int] as int];
                        let b = keys[order@[l] as int];
                        lemma_str_less_trichotomy(a, b);
                        if str_less(b, a) {
                            lemma_str_less_transitive(b, a, keys[i as int]);
                        }
                    }
                }
            }
        }
        let ghost before = order@;
        order.insert(pos, i);
        proof {
            assert forall|k: int| 0 <= k < order@.len() implies #[trigger] order@[k] < i + 1 by {
                if k < pos {
                    assert(order@[k] == before[k]);
                } else if k > pos {
                    assert(order@[k] == before[k - 1]);
                }
            }
            assert forall|k: int, l: int| 0 <= k < l < order@.len() implies order@[k] != order@[l] by {
                if k < pos && l < pos {
                    assert(order@[k] == before[k] && order@[l] == before[l]);
                } else if k < pos && l == pos {
                    assert(order@[k] == before[k]);
                } else if k < pos && l > pos {
                    assert(order@[k] == before[k] && order@[l] == before[l - 1]);
                } else if k == pos {
                    assert(order@[l] == before[l - 1]);
                } else {
                    assert(order@[k] == before[k - 1] && order@[l] == before[l - 1]);
                }
            }
            assert forall|k: int, l: int|
                0 <= k < l < order@.len() implies !str_less(
                keys[order@[k] as int],
                keys[order@[l] as int],
            ) && (keys[order@[k] as int] == keys[order@[l] as int] ==> order@[k] < order@[l]) by {
                if k < pos && l < pos {
                    assert(order@[k] == before[k] && order@[l] == before[l]);
                } else if k < pos && l == pos {
                    assert(order@[k] == before[k]);
                    assert(order@[l] == i);
                } else if k < pos && l > pos {
                    assert(order@[k] == before[k] && order@[l] == before[l - 1]);
                } else if k == pos {
                    assert(order@[k] == i);
                    assert(order@[l] == before[l - 1]);
                    let a = keys[i as int];
                    let b = keys[before[l - 1] as int];
                    assert(str_less(b, a));
                    lemma_str_less_trichotomy(a, b);
                } else {
                    assert(order@[k] == before[k - 1] && order@[l] == before[l - 1]);
                }
            }
        }
        i = i + 1;
    }
    order
}

/// The extension `Path::extension` gives a file name: what follows its last
/// `.`, unless there is no `.` or the only one starts the name.
pub open spec fn extension(name: Seq<char>) -> Option<Seq<char>> {
    if exists|k: int| 0 < k < name.len() && name[k] == '.' {
        let k = choose|k: int|
            0 < k < name.len() && name[k] == '.' && forall|j: int| k < j < name.len() ==> name[j] != '.';
        Some(name.subrange(k + 1, name.len() as int))
    } else {
        None
    }
}

/// Whether a file name has the extension `json`, as a show's file does.
pub fn is_json_file(name: &str) -> (r: bool)
    ensures
        r == (extension(name@) == Some("json"@)),
{
    let n = name.unicode_len();
    let mut k: usize = n;
    // Find the last `.`.
    while k > 0 && name.get_char(k - 1) != '.'
        invariant
            n == name@.len(),
            k <= n,
            forall|j: int| k <= j < n ==> name@[j] != '.',
        decreases k,
    {
        k = k - 1;
    }
    proof {
        reveal_strlit("json");
    }
    if k <= 1 {
        // No `.`, or only one that starts the name.
        proof {
            if exists|j: int| 0 < j < name@.len() && name@[j] == '.' {
                let j = choose|j: int| 0 < j < name@.len() && name@[j] == '.';
                assert(j < k);
            }
        }
        return false;
    }
    let dot = k - 1;
    assert(extension(name@) == Some(name@.subrange(k as int, n as int))) by {
        assert(name@[dot as int] == '.');
        assert(0 < dot < name@.len() && name@[dot as int] == '.');
        let c = choose|c: int|
            0 < c < name@.len() && name@[c] == '.' && forall|j: int| c < j < name@.len() ==> name@[j] != '.';
        if c < dot {
            assert(name@[dot as int] != '.');
        } else if c > dot {
            assert(name@[c] != '.');
        }
        assert(c == dot);
    }
    if n - k != 4 {
        assert(name@.subrange(k as int, n as int).len() != "json"@.len());
        return false;
    }
    let a = name.get_char(k);
    let b = name.get_char(k + 1);
    let c = name.get_char(k + 2);
    let d = name.get_char(k + 3);
    let r = a == 'j' && b == 's' && c == 'o' && d == 'n';
    proof {
        let e = name@.subrange(k as int, n as int);
        if r {
            assert(e =~= "json"@);
        } else {
            assert(e != "json"@) by {
                if e == "json"@ {
                    assert(e[0] == 'j' && e[1] == 's' && e[2] == 'o' && e[3] == 'n');
                }
            }
        }
    }
    r
}

/// How many of a directory's file names are shows' files.
pub fn count_json_files(names: &Vec<String>) -> (r: usize)
    ensures
        r == views(names@).filter(|n: Seq<char>| extension(n) == Some("json"@)).len(),
{
    let ghost p = |n: Seq<char>| extension(n) == Some("json"@);
    let mut count: usize = 0;
    let mut i: usize = 0;
    while i < names.len()
        invariant
            i <= names@.len(),
            p == (|n: Seq<char>| extension(n) == Some("json"@)),
            count == views(names@.subrange(0, i as int)).filter(p).len(),
            count <= i,
        decreases names@.len() - i,
    {
        proof {
            assert(views(names@.subrange(0, i + 1)) =~= views(names@.subrange(0, i as int)).push(
                names@[i as int]@,
            ));
            views(names@.subrange(0, i as int)).lemma_filter_push(names@[i as int]@, p);
        }
        if is_json_file(names[i].as_str()) {
            count = count + 1;
        }
        i = i + 1;
    }
    assert(names@.subrange(0, names@.len() as int) =~= names@);
    count
}

/// Whether a directory entry is hidden: its name starts with `.`. The
/// projects root is a place people put other things, and hidden entries
/// (the deleted projects among them) are never listed as projects.
pub fn is_hidden(name: &str) -> (r: bool)
    ensures
        r == (name@.len() > 0 && name@[0] == '.'),
{
    name.unicode_len() > 0 && name.get_char(0) == '.'
}

} // verus!
