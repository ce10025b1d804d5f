//! Projects and shows: the names and paths they are stored under.
//!
//! A project is a directory under the projects root, named after the project;
//! a show is a file under the project's `shows` directory, named after its id.
//! Names arrive from the user interface, so nothing here trusts them to be a
//! bare path component: [`sanitise_name`] makes them one, on every platform.
//! Reading and writing the files is done by the caller; this module decides
//! what they are called and where they go.

use vstd::prelude::*;
use crate::text::{
    ascii_lower, char_ascii_lower, char_is_control, chars_of, eq_ignore_ascii_case,
    is_ascii_alnum, is_ascii_upper, is_control, is_white_space, lemma_strip_bounds,
    lemma_strip_facts, lemma_leading_facts, lemma_trailing_facts, char_is_white_space, leading_count, trailing_count, lowercase, is_ascii_digit, push_char, to_lowercase, trim_bounds, char_is_ascii_alnum, growable, slice_chars, string_of, strip, trim, trim_chars,
};

verus! {

/// What a project name may not contain on Windows, the strict platform.
pub open spec fn is_forbidden_in_name(c: char) -> bool {
    c == '/' || c == '\\' || c == ':' || c == '*' || c == '?' || c == '"' || c == '<' || c == '>'
        || c == '|'
}

/// One character of a name as it is stored: forbidden characters become
/// `-`, control characters a space.
pub open spec fn name_char(c: char) -> char {
    if is_forbidden_in_name(c) {
        '-'
    } else if is_control(c) {
        ' '
    } else {
        c
    }
}

/// A character a stored name may neither start nor end with: white space,
/// which trimming removes, or a dot, which Windows drops from the end and
/// which at the start makes a hidden directory.
pub open spec fn is_name_edge(c: char) -> bool {
    is_white_space(c) || c == '.'
}

/// The name after character replacement, with white space and dots taken
/// off both ends until neither end holds one: what trimming and stripping
/// dots and spaces in turn, until nothing changes, comes to.
pub open spec fn name_core(s: Seq<char>) -> Seq<char> {
    strip(s.map_values(|c: char| name_char(c)), |c: char| is_name_edge(c))
}

/// `t` names a Windows device, ignoring ASCII case: CON, PRN, AUX, NUL,
/// COM1–COM9 or LPT1–LPT9.
pub open spec fn is_reserved_device_name(t: Seq<char>) -> bool {
    ||| eq_ignore_ascii_case(t, seq!['C', 'O', 'N'])
    ||| eq_ignore_ascii_case(t, seq!['P', 'R', 'N'])
    ||| eq_ignore_ascii_case(t, seq!['A', 'U', 'X'])
    ||| eq_ignore_ascii_case(t, seq!['N', 'U', 'L'])
    ||| t.len() == 4 && '1' as u32 <= t[3] as u32 && t[3] as u32 <= '9' as u32 && (
    eq_ignore_ascii_case(t.take(3), seq!['C', 'O', 'M']) || eq_ignore_ascii_case(
        t.take(3),
        seq!['L', 'P', 'T'],
    ))
}

/// Longest stored project name, in characters.
pub const NAME_LIMIT: usize = 120;

/// The core held to [`NAME_LIMIT`] characters; white space and dots the cut
/// leaves at the end are taken off too.
pub open spec fn name_cut(t: Seq<char>) -> Seq<char> {
    if t.len() <= NAME_LIMIT {
        t
    } else {
        strip(t.take(NAME_LIMIT as int), |c: char| is_name_edge(c))
    }
}

/// What [`sanitise_name`] makes of `s`.
pub open spec fn sanitised_name(s: Seq<char>) -> Seq<char> {
    let c = name_cut(name_core(s));
    if c.len() == 0 {
        Seq::empty()
    } else if is_reserved_device_name(c) {
        c.push('_')
    } else {
        c
    }
}

/// A character an id may hold.
pub open spec fn is_id_char(c: char) -> bool {
    is_ascii_alnum(c) || c == '-' || c == '_'
}

/// Longest id, in characters.
pub const ID_LIMIT: usize = 80;

/// What [`sanitise_id`] makes of `s`.
pub open spec fn sanitised_id(s: Seq<char>) -> Seq<char> {
    let kept = s.filter(|c: char| is_id_char(c));
    if kept.len() <= ID_LIMIT {
        kept
    } else {
        kept.take(ID_LIMIT as int)
    }
}

fn char_is_forbidden_in_name(c: char) -> (r: bool)
    ensures
        r == is_forbidden_in_name(c),
{
    c == '/' || c == '\\' || c == ':' || c == '*' || c == '?' || c == '"' || c == '<' || c == '>'
        || c == '|'
}

fn char_is_name_edge(c: char) -> (r: bool)
    ensures
        r == is_name_edge(c),
{
    char_is_white_space(c) || c == '.'
}

/// `v` with white space and dots taken off both ends.
fn strip_name_edges(v: &Vec<char>) -> (r: Vec<char>)
    ensures
        r@ == strip(v@, |c: char| is_name_edge(c)),
{
    let n = v.len();
    let mut lo: usize = 0;
    while lo < n && char_is_name_edge(v[lo])
        invariant
            n == v@.len(),
            lo <= n,
            forall|i: int| 0 <= i < lo ==> #[trigger] is_name_edge(v@[i]),
        decreases n - lo,
    {
        lo = lo + 1;
    }
    let mut hi: usize = n;
    while hi > lo && char_is_name_edge(v[hi - 1])
        invariant
            n == v@.len(),
            lo <= hi <= n,
            lo < n ==> !is_name_edge(v@[lo as int]),
            forall|i: int| hi <= i < n ==> #[trigger] is_name_edge(v@[i]),
        decreases hi,
    {
        hi = hi - 1;
    }
    proof {
        let p = |c: char| is_name_edge(c);
        assert forall|i: int| 0 <= i < lo implies #[trigger] p(v@[i]) by {}
        assert forall|i: int| hi <= i < n implies #[trigger] p(v@[i]) by {}
        lemma_strip_bounds(v@, p, lo as int, hi as int);
    }
    slice_chars(v, lo, hi)
}

fn eq_ignore_case_upper3(t: &Vec<char>, a: char, b: char, c: char) -> (r: bool)
    requires
        t@.len() >= 3,
        is_ascii_upper(a),
        is_ascii_upper(b),
        is_ascii_upper(c),
    ensures
        r == eq_ignore_ascii_case(t@.take(3), seq![a, b, c]),
{
    let r = char_ascii_lower(t[0]) == char_ascii_lower(a) && char_ascii_lower(t[1])
        == char_ascii_lower(b) && char_ascii_lower(t[2]) == char_ascii_lower(c);
    proof {
        let s = seq![a, b, c];
        let tt = t@.take(3);
        if r {
            assert forall|i: int| 0 <= i < tt.len() implies #[trigger] ascii_lower(tt[i])
                == ascii_lower(s[i]) by {
                if i == 0 {
                } else if i == 1 {
                } else {
                }
            }
        } else {
            if eq_ignore_ascii_case(tt, s) {
                assert(ascii_lower(tt[0]) == ascii_lower(s[0]));
                assert(ascii_lower(tt[1]) == ascii_lower(s[1]));
                assert(ascii_lower(tt[2]) == ascii_lower(s[2]));
            }
        }
    }
    r
}

fn is_reserved(t: &Vec<char>) -> (r: bool)
    ensures
        r == is_reserved_device_name(t@),
{
    let n = t.len();
    proof {
        assert(forall|s: Seq<char>| s.len() == 3 ==> s.take(3) =~= s);
    }
    if n == 3 {
        eq_ignore_case_upper3(t, 'C', 'O', 'N') || eq_ignore_case_upper3(t, 'P', 'R', 'N')
            || eq_ignore_case_upper3(t, 'A', 'U', 'X') || eq_ignore_case_upper3(t, 'N', 'U', 'L')
    } else if n == 4 {
        let d = t[3] as u32;
        '1' as u32 <= d && d <= '9' as u32 && (eq_ignore_case_upper3(t, 'C', 'O', 'M')
            || eq_ignore_case_upper3(t, 'L', 'P', 'T'))
    } else {
        false
    }
}

/// Make a string safe to use as a single path component, on every platform.
///
/// Windows is the strict one and therefore the one this targets: it forbids
/// `\ / : * ? " < > |`, forbids trailing dots and spaces, and reserves device
/// names that cannot be used even with an extension. Leading dots go too, so
/// a project never becomes a hidden directory that listing would skip. White
/// space and dots come off both ends until neither end holds one, and again
/// after the name is cut to length. A name with nothing left is refused by
/// returning the empty string.
pub fn sanitise_name(name: &str) -> (r: String)
    ensures
        r@ == sanitised_name(name@),
        // A stored name is a single normal path component: it holds no
        // separator or other forbidden character and no control character,
        // and it is neither `.` nor `..` nor a Windows device name.
        forall|i: int| 0 <= i < r@.len() ==> !is_forbidden_in_name(#[trigger] r@[i]) && !is_control(
            r@[i],
        ),
        r@ != seq!['.'] && r@ != seq!['.', '.'],
        !is_reserved_device_name(r@),
        r@.len() <= NAME_LIMIT,
        // It neither starts nor ends with white space or a dot.
        r@.len() > 0 ==> !is_name_edge(r@[0]) && !is_name_edge(r@.last()),
        // It is empty exactly when nothing but white space and dots was left.
        r@.len() == 0 <==> name_core(name@).len() == 0,
{
    let v = chars_of(name);
    let mut cleaned: Vec<char> = Vec::new();
    let mut i: usize = 0;
    while i < v.len()
        invariant
            i <= v@.len(),
            cleaned@ == v@.subrange(0, i as int).map_values(|c: char| name_char(c)),
        decreases v@.len() - i,
    {
        let c = v[i];
        let m = if char_is_forbidden_in_name(c) {
            '-'
        } else if char_is_control(c) {
            ' '
        } else {
            c
        };
        cleaned.push(m);
        proof {
            assert(v@.subrange(0, i + 1).map_values(|c: char| name_char(c)) =~= v@.subrange(
                0,
                i as int,
            ).map_values(|c: char| name_char(c)).push(m));
        }
        i = i + 1;
    }
    proof {
        assert(v@.subrange(0, v@.len() as int) =~= v@);
        lemma_sanitised_name_laws(name@);
    }
    let t = strip_name_edges(&cleaned);
    assert(t@ == name_core(name@));
    if t.len() == 0 {
        return String::new();
    }
    let c = if t.len() <= NAME_LIMIT {
        t
    } else {
        let cut = slice_chars(&t, 0, NAME_LIMIT);
        assert(cut@ =~= t@.take(NAME_LIMIT as int));
        strip_name_edges(&cut)
    };
    assert(c@ == name_cut(name_core(name@)));
    if is_reserved(&c) {
        let mut out = string_of(&c);
        push_char(&mut out, '_');
        return out;
    }
    string_of(&c)
}

/// Every character of the core is a character of the replaced name, so
/// none is forbidden or a control character, and the core neither starts
/// nor ends with white space or a dot.
proof fn lemma_name_core_facts(s: Seq<char>)
    ensures
        forall|i: int|
            0 <= i < name_core(s).len() ==> !is_forbidden_in_name(#[trigger] name_core(s)[i])
                && !is_control(name_core(s)[i]),
        name_core(s).len() > 0 ==> !is_name_edge(name_core(s)[0]) && !is_name_edge(
            name_core(s).last(),
        ),
{
    let e = |c: char| is_name_edge(c);
    let m = s.map_values(|c: char| name_char(c));
    let t = strip(m, e);
    lemma_strip_facts(m, e);
    assert forall|i: int| 0 <= i < t.len() implies !is_forbidden_in_name(#[trigger] t[i]) && !is_control(t[i]) by {
        let h = leading_count(m, e) + i;
        assert(t[i] == m[h]);
    }
}

/// What the cut keeps: characters of the core, no edge at either end, none
/// at all only when the core was empty, and at most [`NAME_LIMIT`].
proof fn lemma_name_cut_facts(t: Seq<char>)
    requires
        forall|i: int| 0 <= i < t.len() ==> !is_forbidden_in_name(#[trigger] t[i]) && !is_control(t[i]),
        t.len() > 0 ==> !is_name_edge(t[0]) && !is_name_edge(t.last()),
    ensures
        forall|i: int|
            0 <= i < name_cut(t).len() ==> !is_forbidden_in_name(#[trigger] name_cut(t)[i])
                && !is_control(name_cut(t)[i]),
        name_cut(t).len() > 0 ==> !is_name_edge(name_cut(t)[0]) && !is_name_edge(name_cut(t).last()),
        name_cut(t).len() == 0 <==> t.len() == 0,
        name_cut(t).len() <= NAME_LIMIT,
{
    if t.len() > NAME_LIMIT {
        let e = |c: char| is_name_edge(c);
        let k = t.take(NAME_LIMIT as int);
        let c = strip(k, e);
        lemma_strip_facts(k, e);
        lemma_leading_facts(k, e);
        assert(k[0] == t[0]);
        assert(leading_count(k, e) == 0);
        assert(k.skip(0) =~= k);
        assert forall|i: int| 0 <= i < c.len() implies !is_forbidden_in_name(#[trigger] c[i]) && !is_control(c[i]) by {
            assert(c[i] == k[i]);
            assert(k[i] == t[i]);
        }
        assert(c.len() > 0) by {
            lemma_trailing_facts(k, e);
        }
    }
}

/// The laws a stored project name obeys.
pub proof fn lemma_sanitised_name_laws(s: Seq<char>)
    ensures
        forall|i: int|
            0 <= i < sanitised_name(s).len() ==> !is_forbidden_in_name(#[trigger] sanitised_name(s)[i])
                && !is_control(sanitised_name(s)[i]),
        sanitised_name(s) != seq!['.'] && sanitised_name(s) != seq!['.', '.'],
        !is_reserved_device_name(sanitised_name(s)),
        sanitised_name(s).len() <= NAME_LIMIT,
        sanitised_name(s).len() > 0 ==> !is_name_edge(sanitised_name(s)[0]) && !is_name_edge(
            sanitised_name(s).last(),
        ),
        sanitised_name(s).len() == 0 <==> name_core(s).len() == 0,
{
    lemma_name_core_facts(s);
    let t = name_core(s);
    lemma_name_cut_facts(t);
    let c = name_cut(t);
    let r = sanitised_name(s);
    let one = seq!['.'];
    let two = seq!['.', '.'];
    assert(one.len() == 1 && one[0] == '.');
    assert(two.len() == 2 && two[0] == '.' && two[1] == '.');
    if c.len() == 0 {
    } else if is_reserved_device_name(c) {
        lemma_reserved_case(c);
    } else {
        assert(r[0] == c[0]);
    }
}

/// Sanitising a stored name changes nothing: a name that went through
/// [`sanitise_name`] once comes back unchanged from a second pass.
pub proof fn lemma_sanitising_twice_changes_nothing(s: Seq<char>)
    ensures
        sanitised_name(sanitised_name(s)) == sanitised_name(s),
{
    lemma_sanitised_name_laws(s);
    let r = sanitised_name(s);
    let e = |c: char| is_name_edge(c);
    let m = r.map_values(|c: char| name_char(c));
    assert(m =~= r) by {
        assert forall|i: int| 0 <= i < r.len() implies #[trigger] m[i] == r[i] by {
            assert(!is_forbidden_in_name(r[i]) && !is_control(r[i]));
        }
    }
    if r.len() > 0 {
        assert forall|i: int| 0 <= i < 0 implies #[trigger] e(r[i]) by {}
        assert forall|i: int| r.len() <= i < r.len() implies #[trigger] e(r[i]) by {}
        lemma_strip_bounds(r, e, 0, r.len() as int);
        assert(r.subrange(0, r.len() as int) =~= r);
    } else {
        assert(strip(m, e) =~= m) by {
            lemma_strip_facts(m, e);
        }
    }
    assert(name_core(r) == r);
    assert(name_cut(r) == r);
}

/// Only white space and dots come off the ends of a name: a name of at
/// most [`NAME_LIMIT`] characters that starts and ends with neither, holds
/// no forbidden or control character and is not a device name is stored
/// exactly as typed.
pub proof fn lemma_a_clean_name_is_stored_unchanged(s: Seq<char>)
    requires
        0 < s.len() <= NAME_LIMIT,
        !is_white_space(s[0]) && s[0] != '.',
        !is_white_space(s.last()) && s.last() != '.',
        forall|i: int| 0 <= i < s.len() ==> !is_forbidden_in_name(#[trigger] s[i]) && !is_control(s[i]),
        !is_reserved_device_name(s),
    ensures
        sanitised_name(s) == s,
{
    let e = |c: char| is_name_edge(c);
    let m = s.map_values(|c: char| name_char(c));
    assert(m =~= s) by {
        assert forall|i: int| 0 <= i < s.len() implies #[trigger] m[i] == s[i] by {
            assert(!is_forbidden_in_name(s[i]) && !is_control(s[i]));
        }
    }
    assert forall|i: int| 0 <= i < 0 implies #[trigger] e(s[i]) by {}
    assert forall|i: int| s.len() <= i < s.len() implies #[trigger] e(s[i]) by {}
    lemma_strip_bounds(s, e, 0, s.len() as int);
    assert(s.subrange(0, s.len() as int) =~= s);
    assert(name_core(s) == s);
    assert(name_cut(s) == s);
}

/// A reserved device name with `_` after it is safe.
proof fn lemma_reserved_case(t: Seq<char>)
    requires
        is_reserved_device_name(t),
        forall|i: int| 0 <= i < t.len() ==> !is_forbidden_in_name(#[trigger] t[i]) && !is_control(t[i]),
    ensures
        ({
            let r = t.push('_');
            &&& r.len() <= NAME_LIMIT
            &&& r.last() == '_'
            &&& r[0] == t[0]
            &&& forall|i: int| 0 <= i < r.len() ==> !is_forbidden_in_name(#[trigger] r[i]) && !is_control(r[i])
            &&& !is_reserved_device_name(r)
            &&& r != seq!['.'] && r != seq!['.', '.']
        }),
{
    let r = t.push('_');
    assert(t.len() == 3 || t.len() == 4);
    assert(r[r.len() - 1] == '_');
    assert forall|i: int| 0 <= i < r.len() implies !is_forbidden_in_name(#[trigger] r[i]) && !is_control(r[i]) by {
        if i < t.len() {
            assert(r[i] == t[i]);
        }
    }
    assert(r[0] == t[0]);
    if r.len() == 4 {
        assert(r[3] == '_');
    }
}

fn is_id_char_exec(c: char) -> (r: bool)
    ensures
        r == is_id_char(c),
{
    char_is_ascii_alnum(c) || c == '-' || c == '_'
}

proof fn lemma_filter_step(s: Seq<char>, p: spec_fn(char) -> bool, i: int)
    requires
        0 <= i < s.len(),
    ensures
        s.take(i + 1).filter(p) == if p(s[i]) {
            s.take(i).filter(p).push(s[i])
        } else {
            s.take(i).filter(p)
        },
{
    reveal_with_fuel(Seq::<_>::filter, 1);
    assert(s.take(i + 1).drop_last() =~= s.take(i));
}

proof fn lemma_filter_all(s: Seq<char>, p: spec_fn(char) -> bool)
    requires
        forall|i: int| 0 <= i < s.len() ==> #[trigger] p(s[i]),
    ensures
        s.filter(p) == s,
    decreases s.len(),
{
    reveal_with_fuel(Seq::<_>::filter, 1);
    if s.len() > 0 {
        let t = s.drop_last();
        assert forall|i: int| 0 <= i < t.len() implies #[trigger] p(t[i]) by {
            assert(t[i] == s[i]);
        }
        lemma_filter_all(t, p);
        assert(p(s[s.len() - 1]));
        assert(t.push(s.last()) =~= s);
    }
}

/// Ids are ours, not the user's, so they get the strict treatment: ASCII
/// letters and digits, `-` and `_`, and nothing else, at most
/// [`ID_LIMIT`] of them.
pub fn sanitise_id(id: &str) -> (r: String)
    ensures
        r@ == sanitised_id(id@),
        forall|i: int| 0 <= i < r@.len() ==> is_id_char(#[trigger] r@[i]),
        r@.len() <= ID_LIMIT,
{
    let v = chars_of(id);
    let mut out: Vec<char> = Vec::new();
    let ghost p = |c: char| is_id_char(c);
    let mut i: usize = 0;
    while i < v.len()
        invariant
            i <= v@.len(),
            v@ == id@,
            p == (|c: char| is_id_char(c)),
            out@ == (if v@.take(i as int).filter(p).len() <= ID_LIMIT {
                v@.take(i as int).filter(p)
            } else {
                v@.take(i as int).filter(p).take(ID_LIMIT as int)
            }),
        decreases v@.len() - i,
    {
        proof {
            lemma_filter_step(v@, p, i as int);
        }
        let c = v[i];
        if is_id_char_exec(c) && out.len() < ID_LIMIT {
            out.push(c);
        }
        proof {
            let f = v@.take(i + 1).filter(p);
            if f.len() > ID_LIMIT {
                assert(out@ =~= f.take(ID_LIMIT as int));
            }
        }
        i = i + 1;
    }
    proof {
        assert(v@.take(v@.len() as int) =~= v@);
        let kept = v@.filter(p);
        broadcast use vstd::seq_lib::group_filter_ensures;
        assert forall|k: int| 0 <= k < out@.len() implies is_id_char(#[trigger] out@[k]) by {
            assert(out@[k] == kept[k]);
            assert(p(kept[k]));
        }
    }
    string_of(&out)
}


/// A character of a slug: ASCII letters and digits stay, anything else is a
/// separator.
pub open spec fn slug_char(c: char) -> char {
    if is_ascii_alnum(c) {
        c
    } else {
        '-'
    }
}

/// `s` split on `-`, with the empty pieces dropped and the rest joined by
/// single dashes, read left to right: the joined text so far, and whether a
/// dash is owed before the next piece.
pub open spec fn squeeze_dashes(s: Seq<char>) -> (Seq<char>, bool)
    decreases s.len(),
{
    if s.len() == 0 {
        (Seq::empty(), false)
    } else {
        let (o, owed) = squeeze_dashes(s.drop_last());
        let c = s.last();
        if c == '-' {
            (o, o.len() > 0)
        } else if owed {
            (o.push('-').push(c), false)
        } else {
            (o.push(c), false)
        }
    }
}

/// Longest slug kept from a name.
pub const SLUG_LIMIT: usize = 40;

/// The readable part of an id made from `name`.
pub open spec fn slug(name: Seq<char>) -> Seq<char> {
    let joined = squeeze_dashes(lowercase(trim(name)).map_values(|c: char| slug_char(c))).0;
    let cut = if joined.len() <= SLUG_LIMIT {
        joined
    } else {
        joined.take(SLUG_LIMIT as int)
    };
    if cut.len() == 0 {
        seq!['s', 'h', 'o', 'w']
    } else {
        cut
    }
}

/// The character for a decimal digit.
pub open spec fn digit_char(d: nat) -> char {
    (('0' as u32) + d) as char
}

/// `n` in decimal, zero-padded on the left to at least `width` digits, as
/// `format!("{:0width$}")` writes it.
pub open spec fn decimal(n: nat, width: nat) -> Seq<char>
    decreases n + width,
{
    if n < 10 && width <= 1 {
        seq![digit_char(n)]
    } else {
        decimal(n / 10, if width > 0 { (width - 1) as nat } else { 0 }).push(digit_char(n % 10))
    }
}

/// A year as `format!("{:04}")` writes an `i32`: the sign counts towards
/// the width.
pub open spec fn year_text(y: int) -> Seq<char> {
    if y >= 0 {
        decimal(y as nat, 4)
    } else {
        seq!['-'] + decimal((-y) as nat, 3)
    }
}

/// The timestamp an id ends with: `YYYYMMDD-HHMMSS`.
pub open spec fn stamp_text(y: int, mo: nat, d: nat, h: nat, mi: nat, s: nat) -> Seq<char> {
    year_text(y) + decimal(mo, 2) + decimal(d, 2) + seq!['-'] + decimal(h, 2) + decimal(mi, 2)
        + decimal(s, 2)
}

/// Calendar fields as the `time` crate bounds them.
pub open spec fn valid_fields(y: int, mo: nat, d: nat, h: nat, mi: nat, s: nat) -> bool {
    -9999 <= y <= 9999 && 1 <= mo <= 12 && 1 <= d <= 31 && h < 24 && mi < 60 && s < 60
}

pub open spec fn is_stamp(t: Seq<char>) -> bool {
    exists|y: int, mo: nat, d: nat, h: nat, mi: nat, s: nat|
        valid_fields(y, mo, d, h, mi, s) && t == stamp_text(y, mo, d, h, mi, s)
}

pub open spec fn pow10(k: nat) -> nat
    decreases k,
{
    if k == 0 {
        1
    } else {
        10 * pow10((k - 1) as nat)
    }
}

/// Write `n` in decimal, padded to `width` digits.
pub(crate) fn push_decimal(out: &mut Vec<char>, n: u32, width: u32)
    ensures
        final(out)@ == old(out)@ + decimal(n as nat, width as nat),
    decreases n + width,
{
    if n < 10 && width <= 1 {
        out.push((48 + n) as u8 as char);
        proof {
            assert(digit_char(n as nat) == (48 + n) as u8 as char);
            assert(old(out)@.push(digit_char(n as nat)) =~= old(out)@ + seq![digit_char(n as nat)]);
        }
    } else {
        let w = if width > 0 {
            width - 1
        } else {
            0
        };
        push_decimal(out, n / 10, w);
        let d = n % 10;
        out.push((48 + d) as u8 as char);
        proof {
            assert(digit_char(d as nat) == (48 + d) as u8 as char);
            assert(old(out)@ + decimal(n as nat, width as nat) =~= old(out)@ + decimal(
                (n / 10) as nat,
                w as nat,
            ) + seq![digit_char(d as nat)]);
        }
    }
}

/// Format calendar fields as `YYYYMMDD-HHMMSS`, with `format!`'s zero
/// padding.
pub fn format_stamp(y: i32, mo: u8, d: u8, h: u8, mi: u8, s: u8) -> (r: String)
    ensures
        r@ == stamp_text(y as int, mo as nat, d as nat, h as nat, mi as nat, s as nat),
{
    let mut out: Vec<char> = Vec::new();
    if y >= 0 {
        push_decimal(&mut out, y as u32, 4);
    } else {
        out.push('-');
        let a: u32 = if y == i32::MIN {
            2147483648u32
        } else {
            (-y) as u32
        };
        push_decimal(&mut out, a, 3);
    }
    push_decimal(&mut out, mo as u32, 2);
    push_decimal(&mut out, d as u32, 2);
    out.push('-');
    push_decimal(&mut out, h as u32, 2);
    push_decimal(&mut out, mi as u32, 2);
    push_decimal(&mut out, s as u32, 2);
    proof {
        assert(out@ =~= stamp_text(y as int, mo as nat, d as nat, h as nat, mi as nat, s as nat));
        lemma_decimal_len_le(a_nat(y), if y >= 0 { 4 } else { 3 }, 10);
        lemma_decimal_len_le(mo as nat, 2, 10);
        lemma_decimal_len_le(d as nat, 2, 10);
        lemma_decimal_len_le(h as nat, 2, 10);
        lemma_decimal_len_le(mi as nat, 2, 10);
        lemma_decimal_len_le(s as nat, 2, 10);
    }
    string_of(&out)
}

spec fn a_nat(y: i32) -> nat {
    if y >= 0 {
        y as nat
    } else {
        (-(y as int)) as nat
    }
}

proof fn lemma_pow10_ten()
    ensures
        pow10(10) == 10_000_000_000,
{
    reveal_with_fuel(pow10, 11);
}

/// `decimal` never writes more digits than the value or the width needs.
pub(crate) proof fn lemma_decimal_len_le(n: nat, width: nat, k: nat)
    requires
        1 <= k,
        width <= k,
        n <= 4_294_967_296,
        k == 10,
    ensures
        decimal(n, width).len() <= k,
{
    lemma_pow10_ten();
    lemma_decimal_len_general(n, width, k);
}

proof fn lemma_decimal_len_general(n: nat, width: nat, k: nat)
    requires
        1 <= k,
        width <= k,
        n < pow10(k),
    ensures
        decimal(n, width).len() <= k,
    decreases n + width,
{
    if n < 10 && width <= 1 {
    } else {
        let w2: nat = if width > 0 { (width - 1) as nat } else { 0 };
        let k2 = (k - 1) as nat;
        assert(pow10(k) == 10 * pow10(k2));
        assert(n / 10 < pow10(k2)) by (nonlinear_arith)
            requires
                n < 10 * pow10(k2),
        ;
        if k2 == 0 {
            assert(pow10(0) == 1);
            assert(n < 10);
            assert(width > 1);
            assert(false);
        }
        lemma_decimal_len_general(n / 10, w2, k2);
    }
}


/// The id `make_id` gives `name` when the clock reads `stamp`.
pub open spec fn id_text(name: Seq<char>, stamp: Seq<char>) -> Seq<char> {
    slug(name) + seq!['-'] + stamp
}

proof fn lemma_squeeze_keeps_id_chars(s: Seq<char>)
    requires
        forall|i: int| 0 <= i < s.len() ==> #[trigger] is_id_char(s[i]),
    ensures
        forall|i: int|
            0 <= i < squeeze_dashes(s).0.len() ==> #[trigger] is_id_char(squeeze_dashes(s).0[i]),
    decreases s.len(),
{
    if s.len() > 0 {
        let t = s.drop_last();
        assert forall|i: int| 0 <= i < t.len() implies #[trigger] is_id_char(t[i]) by {
            assert(t[i] == s[i]);
        }
        lemma_squeeze_keeps_id_chars(t);
        assert(is_id_char(s[s.len() - 1]));
        let o = squeeze_dashes(t).0;
        let r = squeeze_dashes(s).0;
        assert forall|i: int| 0 <= i < r.len() implies #[trigger] is_id_char(r[i]) by {
            if i < o.len() {
                assert(r[i] == o[i]);
            }
        }
    }
}

proof fn lemma_decimal_digits(n: nat, width: nat)
    ensures
        forall|i: int|
            0 <= i < decimal(n, width).len() ==> #[trigger] is_ascii_digit(decimal(n, width)[i]),
    decreases n + width,
{
    if n < 10 && width <= 1 {
    } else {
        let w2: nat = if width > 0 { (width - 1) as nat } else { 0 };
        lemma_decimal_digits(n / 10, w2);
        let prefix = decimal(n / 10, w2);
        let r = decimal(n, width);
        assert forall|i: int| 0 <= i < r.len() implies #[trigger] is_ascii_digit(r[i]) by {
            if i < prefix.len() {
                assert(r[i] == prefix[i]);
            }
        }
    }
}

proof fn lemma_stamp_facts(y: int, mo: nat, d: nat, h: nat, mi: nat, s: nat)
    requires
        valid_fields(y, mo, d, h, mi, s),
    ensures
        stamp_text(y, mo, d, h, mi, s).len() <= 16,
        forall|i: int|
            0 <= i < stamp_text(y, mo, d, h, mi, s).len() ==> #[trigger] is_id_char(
                stamp_text(y, mo, d, h, mi, s)[i],
            ),
{
    reveal_with_fuel(pow10, 5);
    let a: nat = if y >= 0 { y as nat } else { (-y) as nat };
    lemma_decimal_len_general(a, if y >= 0 { 4 } else { 3 }, 4);
    lemma_decimal_len_general(mo, 2, 2);
    lemma_decimal_len_general(d, 2, 2);
    lemma_decimal_len_general(h, 2, 2);
    lemma_decimal_len_general(mi, 2, 2);
    lemma_decimal_len_general(s, 2, 2);
    lemma_decimal_digits(a, if y >= 0 { 4 } else { 3 });
    lemma_decimal_digits(mo, 2);
    lemma_decimal_digits(d, 2);
    lemma_decimal_digits(h, 2);
    lemma_decimal_digits(mi, 2);
    lemma_decimal_digits(s, 2);
    let t = stamp_text(y, mo, d, h, mi, s);
    let parts = seq![
        year_text(y),
        decimal(mo, 2),
        decimal(d, 2),
        seq!['-'],
        decimal(h, 2),
        decimal(mi, 2),
        decimal(s, 2),
    ];
    assert forall|i: int| 0 <= i < t.len() implies #[trigger] is_id_char(t[i]) by {
        let y_t = year_text(y);
        let p1 = y_t + decimal(mo, 2);
        let p2 = p1 + decimal(d, 2);
        let p3 = p2 + seq!['-'];
        let p4 = p3 + decimal(h, 2);
        let p5 = p4 + decimal(mi, 2);
        if i >= p5.len() {
            assert(t[i] == decimal(s, 2)[i - p5.len()]);
        } else if i >= p4.len() {
            assert(t[i] == decimal(mi, 2)[i - p4.len()]);
        } else if i >= p3.len() {
            assert(t[i] == decimal(h, 2)[i - p3.len()]);
        } else if i >= p2.len() {
            assert(t[i] == '-');
        } else if i >= p1.len() {
            assert(t[i] == decimal(d, 2)[i - p1.len()]);
        } else if i >= y_t.len() {
            assert(t[i] == decimal(mo, 2)[i - y_t.len()]);
        } else if y >= 0 {
            assert(t[i] == decimal(a, 4)[i]);
        } else if i == 0 {
            assert(t[i] == '-');
        } else {
            assert(t[i] == decimal(a, 3)[i - 1]);
        }
    }
}

/// The ASCII letters and digits of `s`, in order.
pub open spec fn letters_and_digits(s: Seq<char>) -> Seq<char> {
    s.filter(|c: char| is_ascii_alnum(c))
}

/// Every character of `l` through [`slug_char`].
pub open spec fn slug_chars(l: Seq<char>) -> Seq<char> {
    l.map_values(|c: char| slug_char(c))
}

/// Turning separators into dashes keeps every letter and digit, in order,
/// and leaves only letters, digits and dashes.
proof fn lemma_slug_chars_keep_letters_and_digits(l: Seq<char>)
    ensures
        letters_and_digits(slug_chars(l)) == letters_and_digits(l),
        forall|i: int|
            0 <= i < l.len() ==> is_ascii_alnum(#[trigger] slug_chars(l)[i]) || slug_chars(l)[i] == '-',
    decreases l.len(),
{
    let p = |c: char| is_ascii_alnum(c);
    let m = l.map_values(|c: char| slug_char(c));
    if l.len() > 0 {
        let t = l.drop_last();
        let c = l.last();
        lemma_slug_chars_keep_letters_and_digits(t);
        assert(l =~= t.push(c));
        assert(m =~= t.map_values(|c: char| slug_char(c)).push(slug_char(c)));
        t.lemma_filter_push(c, p);
        t.map_values(|c: char| slug_char(c)).lemma_filter_push(slug_char(c), p);
    } else {
        assert(m =~= Seq::<char>::empty());
        assert(letters_and_digits(m) =~= Seq::<char>::empty()) by {
            reveal_with_fuel(Seq::filter, 1);
        }
        assert(letters_and_digits(l) =~= Seq::<char>::empty()) by {
            reveal_with_fuel(Seq::filter, 1);
        }
    }
}

/// Squeezing runs of dashes keeps every letter and digit, in order, makes
/// nothing longer, and leaves text that is empty exactly when there was no
/// letter or digit, and otherwise ends in one.
proof fn lemma_squeeze_keeps_letters_and_digits(s: Seq<char>)
    requires
        forall|i: int| 0 <= i < s.len() ==> is_ascii_alnum(#[trigger] s[i]) || s[i] == '-',
    ensures
        letters_and_digits(squeeze_dashes(s).0) == letters_and_digits(s),
        squeeze_dashes(s).0.len() + (if squeeze_dashes(s).1 { 1int } else { 0 }) <= s.len(),
        squeeze_dashes(s).0.len() > 0 ==> is_ascii_alnum(squeeze_dashes(s).0.last()),
        squeeze_dashes(s).1 ==> squeeze_dashes(s).0.len() > 0,
    decreases s.len(),
{
    let p = |c: char| is_ascii_alnum(c);
    if s.len() == 0 {
        assert(letters_and_digits(s) =~= Seq::<char>::empty()) by {
            reveal_with_fuel(Seq::filter, 1);
        }
        assert(letters_and_digits(squeeze_dashes(s).0) =~= Seq::<char>::empty()) by {
            reveal_with_fuel(Seq::filter, 1);
        }
    } else {
        let t = s.drop_last();
        let c = s.last();
        assert forall|i: int| 0 <= i < t.len() implies is_ascii_alnum(#[trigger] t[i]) || t[i] == '-' by {
            assert(t[i] == s[i]);
        }
        lemma_squeeze_keeps_letters_and_digits(t);
        assert(s =~= t.push(c));
        t.lemma_filter_push(c, p);
        let o = squeeze_dashes(t).0;
        if c == '-' {
        } else if squeeze_dashes(t).1 {
            o.lemma_filter_push('-', p);
            o.push('-').lemma_filter_push(c, p);
        } else {
            o.lemma_filter_push(c, p);
        }
    }
}

/// The slug keeps every ASCII letter and digit of the trimmed, lower-cased
/// name, in order, when it is not cut short; only runs of other characters
/// become single dashes, so names that differ in a letter or a digit get
/// different slugs. A name with no letter or digit is called `show`.
pub proof fn lemma_slug_keeps_every_letter_and_digit(name: Seq<char>)
    ensures
        letters_and_digits(lowercase(trim(name))).len() == 0 ==> slug(name) == seq!['s', 'h', 'o', 'w'],
        letters_and_digits(lowercase(trim(name))).len() > 0 && lowercase(trim(name)).len() <= SLUG_LIMIT
            ==> letters_and_digits(slug(name)) == letters_and_digits(lowercase(trim(name))),
{
    let l = lowercase(trim(name));
    let m = slug_chars(l);
    lemma_slug_chars_keep_letters_and_digits(l);
    assert forall|i: int| 0 <= i < m.len() implies is_ascii_alnum(#[trigger] m[i]) || m[i] == '-' by {
        assert(is_ascii_alnum(slug_chars(l)[i]) || slug_chars(l)[i] == '-');
    }
    lemma_squeeze_keeps_letters_and_digits(m);
    let joined = squeeze_dashes(m).0;
    if letters_and_digits(l).len() == 0 {
        if joined.len() > 0 {
            let p = |c: char| is_ascii_alnum(c);
            assert(p(joined.last()));
            joined.filter_lemma(p);
            assert(joined.filter(p).contains(joined.last())) by {
                assert(joined[joined.len() - 1] == joined.last());
            }
        }
    }
}

/// An id made by [`make_id`] is already what [`sanitise_id`] keeps: only
/// filename-safe characters, and short enough not to be cut.
pub proof fn lemma_generated_ids_are_safe(
    name: Seq<char>,
    y: int,
    mo: nat,
    d: nat,
    h: nat,
    mi: nat,
    s: nat,
)
    requires
        valid_fields(y, mo, d, h, mi, s),
    ensures
        sanitised_id(id_text(name, stamp_text(y, mo, d, h, mi, s))) == id_text(
            name,
            stamp_text(y, mo, d, h, mi, s),
        ),
{
    let st = stamp_text(y, mo, d, h, mi, s);
    lemma_stamp_facts(y, mo, d, h, mi, s);
    let m = lowercase(trim(name)).map_values(|c: char| slug_char(c));
    assert forall|i: int| 0 <= i < m.len() implies #[trigger] is_id_char(m[i]) by {}
    lemma_squeeze_keeps_id_chars(m);
    let sl = slug(name);
    let joined = squeeze_dashes(m).0;
    assert forall|i: int| 0 <= i < sl.len() implies #[trigger] is_id_char(sl[i]) by {
        if joined.len() == 0 {
        } else if joined.len() <= SLUG_LIMIT {
            assert(sl[i] == joined[i]);
        } else {
            assert(sl[i] == joined[i]);
        }
    }
    let id = id_text(name, st);
    assert forall|i: int| 0 <= i < id.len() implies #[trigger] is_id_char(id[i]) by {
        if i < sl.len() {
            assert(id[i] == sl[i]);
        } else if i == sl.len() {
            assert(id[i] == '-');
        } else {
            assert(id[i] == st[i - sl.len() - 1]);
        }
    }
    lemma_filter_all(id, |c: char| is_id_char(c));
}

/// The id for `name` when the clock reads `stamp`.
pub fn make_id_at(name: &str, stamp: &str) -> (r: String)
    requires
        name@.len() < usize::MAX / 16,
        stamp@.len() < usize::MAX / 16,
    ensures
        r@ == id_text(name@, stamp@),
{
    let v = chars_of(name);
    let (lo, hi) = trim_bounds(&v);
    proof {
        assert(v@ == name@);
    }
    let trimmed = name.substring_char(lo, hi);
    let lower = to_lowercase(trimmed);
    let l = chars_of(lower.as_str());
    let ghost m = lowercase(trim(name@)).map_values(|c: char| slug_char(c));
    let mut joined: Vec<char> = Vec::new();
    let mut owed = false;
    let mut i: usize = 0;
    while i < l.len()
        invariant
            i <= l@.len(),
            l@ == lowercase(trim(name@)),
            m == l@.map_values(|c: char| slug_char(c)),
            (joined@, owed) == squeeze_dashes(m.take(i as int)),
            joined@.len() <= i * 2,
        decreases l@.len() - i,
    {
        let c = l[i];
        let sc = if char_is_ascii_alnum(c) {
            c
        } else {
            '-'
        };
        proof {
            assert(m.take(i + 1).drop_last() =~= m.take(i as int));
            assert(m.take(i + 1).last() == sc);
        }
        if sc == '-' {
            owed = joined.len() > 0;
        } else {
            if owed {
                joined.push('-');
            }
            joined.push(sc);
            owed = false;
        }
        i = i + 1;
    }
    proof {
        assert(m.take(l@.len() as int) =~= m);
    }
    let mut out: Vec<char> = if joined.len() == 0 {
        let mut w = Vec::new();
        w.push('s');
        w.push('h');
        w.push('o');
        w.push('w');
        w
    } else if joined.len() <= SLUG_LIMIT {
        joined
    } else {
        slice_chars(&joined, 0, SLUG_LIMIT)
    };
    proof {
        assert(out@ =~= slug(name@));
    }
    out.push('-');
    let st = chars_of(stamp);
    let mut k: usize = 0;
    let ghost base = out@;
    while k < st.len()
        invariant
            k <= st@.len(),
            st@ == stamp@,
            base.len() <= SLUG_LIMIT + 1,
            out@ == base + st@.take(k as int),
        decreases st@.len() - k,
    {
        out.push(st[k]);
        proof {
            assert(st@.take(k + 1) =~= st@.take(k as int).push(st@[k as int]));
        }
        k = k + 1;
    }
    proof {
        assert(st@.take(st@.len() as int) =~= st@);
        assert(out@ =~= id_text(name@, stamp@));
    }
    string_of(&out)
}


#[verifier::external_type_specification]
#[verifier::external_body]
pub struct ExOffsetDateTime(time::OffsetDateTime);

#[verifier::external_type_specification]
#[verifier::external_body]
pub struct ExSystemTime(std::time::SystemTime);

#[verifier::external_type_specification]
#[verifier::external_body]
pub struct ExSystemTimeError(std::time::SystemTimeError);

/// `std::time::SystemTime::now`: what the system clock reads. Nothing is
/// promised about the reading.
#[verifier::external_body]
fn system_now() -> std::time::SystemTime {
    std::time::SystemTime::now()
}

/// `SystemTime::duration_since(UNIX_EPOCH)`: how long after the epoch the
/// reading is, or an error for a reading before it. Nothing is promised
/// about the reading.
#[verifier::external_body]
fn since_epoch(t: &std::time::SystemTime) -> Result<core::time::Duration, std::time::SystemTimeError> {
    t.duration_since(std::time::UNIX_EPOCH)
}

/// `SystemTimeError::duration`: how long before the epoch the reading was.
#[verifier::external_body]
fn before_epoch(e: &std::time::SystemTimeError) -> core::time::Duration {
    e.duration()
}

/// `Duration::as_nanos`: the whole length in nanoseconds.
#[verifier::external_body]
fn nanos_of(d: &core::time::Duration) -> u128 {
    d.as_nanos()
}

/// An instant at the UTC offset, with the Unix nanoseconds it stands for.
/// Only [`from_unix_nanos`] makes one.
struct UtcInstant {
    t: time::OffsetDateTime,
    nanos: i128,
}

impl View for UtcInstant {
    type V = int;

    /// The nanoseconds since the Unix epoch that the instant stands for.
    closed spec fn view(&self) -> int {
        self.nanos as int
    }
}

/// The calendar year in UTC of the instant `nanos` nanoseconds after the
/// Unix epoch, as `OffsetDateTime::year` gives it.
pub uninterp spec fn civil_year(nanos: int) -> int;

/// The month (January is 1) in UTC of that instant, as
/// `OffsetDateTime::month` gives it.
pub uninterp spec fn civil_month(nanos: int) -> int;

/// The day of the month in UTC of that instant, as `OffsetDateTime::day`
/// gives it.
pub uninterp spec fn civil_day(nanos: int) -> int;

/// The hour in UTC of that instant, as `OffsetDateTime::hour` gives it.
pub uninterp spec fn civil_hour(nanos: int) -> int;

/// The minute of that instant, as `OffsetDateTime::minute` gives it.
pub uninterp spec fn civil_minute(nanos: int) -> int;

/// The second of that instant, as `OffsetDateTime::second` gives it.
pub uninterp spec fn civil_second(nanos: int) -> int;

/// The text `OffsetDateTime::format` writes for that instant with the
/// RFC 3339 description, or the empty string where it refuses.
pub uninterp spec fn rfc3339_text(nanos: int) -> Seq<char>;

/// The stamp `YYYYMMDD-HHMMSS` of the instant `nanos` nanoseconds after the
/// Unix epoch, in UTC.
pub open spec fn stamp_at(nanos: int) -> Seq<char> {
    stamp_text(
        civil_year(nanos),
        civil_month(nanos) as nat,
        civil_day(nanos) as nat,
        civil_hour(nanos) as nat,
        civil_minute(nanos) as nat,
        civil_second(nanos) as nat,
    )
}

/// `OffsetDateTime::from_unix_timestamp_nanos`: the instant that many
/// nanoseconds from the epoch, which the crate always builds at the UTC
/// offset (`UtcOffset::UTC`), or `None` where the crate's date range (years
/// -9999..=9999 without its `large-dates` feature) cannot hold it. The
/// crate checks the range and returns an error rather than panicking.
#[verifier::external_body]
fn from_unix_nanos(n: i128) -> (r: Option<UtcInstant>)
    ensures
        r matches Some(u) ==> u@ == n,
{
    match time::OffsetDateTime::from_unix_timestamp_nanos(n) {
        Ok(t) => Some(UtcInstant { t, nanos: n }),
        Err(_) => None,
    }
}

/// A reading of the system clock: the whole nanoseconds after the Unix
/// epoch (`Ok`) or before it (`Err`).
fn clock_reading() -> Result<u128, u128> {
    let t = system_now();
    match since_epoch(&t) {
        Ok(d) => Ok(nanos_of(&d)),
        Err(e) => Err(nanos_of(&before_epoch(&e))),
    }
}

/// The signed nanoseconds since the Unix epoch that a clock reading stands
/// for: as many after it as the reading says, or as many before it.
pub open spec fn reading_instant(reading: Result<u128, u128>) -> int {
    match reading {
        Ok(x) => x as int,
        Err(x) => -(x as int),
    }
}

/// The instant a clock reading stands for, as signed nanoseconds since the
/// Unix epoch: a reading after the epoch counts forward and one before it
/// backward. `None` where an `i128` cannot hold the count.
pub fn reading_nanos(reading: Result<u128, u128>) -> (r: Option<i128>)
    ensures
        match reading {
            Ok(x) => (x <= i128::MAX ==> r == Some(x as i128)) && (x > i128::MAX ==> r is None),
            Err(x) => (x <= i128::MAX ==> (r matches Some(n) && n as int == -(x as int))) && (x
                > i128::MAX ==> r is None),
        },
        r matches Some(n) ==> n as int == reading_instant(reading),
{
    match reading {
        Ok(x) => {
            if x <= i128::MAX as u128 {
                Some(x as i128)
            } else {
                None
            }
        },
        Err(x) => {
            if x <= i128::MAX as u128 {
                Some(-(x as i128))
            } else {
                None
            }
        },
    }
}

/// A clock reading keeps its place in time: readings after the epoch stand
/// for instants at or after it and readings before it for instants at or
/// before it, a later reading never stands for an earlier instant, and two
/// readings stand for the same instant only when they read the same.
pub proof fn lemma_clock_readings_keep_their_order(a: Result<u128, u128>, b: Result<u128, u128>)
    ensures
        a is Ok ==> reading_instant(a) >= 0,
        a is Err ==> reading_instant(a) <= 0,
        (a matches Ok(x) && b matches Ok(y) && x <= y) ==> reading_instant(a) <= reading_instant(b),
        (a matches Err(x) && b matches Err(y) && x <= y) ==> reading_instant(b) <= reading_instant(a),
        (a is Err && b is Ok) ==> reading_instant(a) <= reading_instant(b),
        (a is Ok && b is Ok && reading_instant(a) == reading_instant(b)) ==> a == b,
{
}

/// The current instant in UTC: the one the system clock reads, or `None`
/// where that reading is outside what a date can hold. Unlike
/// `OffsetDateTime::now_utc`, this never panics on such a clock.
fn utc_now() -> Option<UtcInstant> {
    match reading_nanos(clock_reading()) {
        Some(n) => from_unix_nanos(n),
        None => None,
    }
}

/// `OffsetDateTime::year`. The crate stores the year as an integer ranged
/// to -9999..=9999 when its `large-dates` feature is off, as it is here.
#[verifier::external_body]
fn year_of(t: &UtcInstant) -> (r: i32)
    ensures
        -9999 <= r <= 9999,
        r == civil_year(t@),
{
    t.t.year()
}

/// `OffsetDateTime::month`, as the number `u8::from` gives a `Month`:
/// January is 1 and December 12.
#[verifier::external_body]
fn month_of(t: &UtcInstant) -> (r: u8)
    ensures
        1 <= r <= 12,
        r == civil_month(t@),
{
    u8::from(t.t.month())
}

/// `OffsetDateTime::day`, documented as always in 1..=31.
#[verifier::external_body]
fn day_of(t: &UtcInstant) -> (r: u8)
    ensures
        1 <= r <= 31,
        r == civil_day(t@),
{
    t.t.day()
}

/// `OffsetDateTime::hour`, documented as always in 0..24.
#[verifier::external_body]
fn hour_of(t: &UtcInstant) -> (r: u8)
    ensures
        r < 24,
        r == civil_hour(t@),
{
    t.t.hour()
}

/// `OffsetDateTime::minute`, documented as always in 0..60.
#[verifier::external_body]
fn minute_of(t: &UtcInstant) -> (r: u8)
    ensures
        r < 60,
        r == civil_minute(t@),
{
    t.t.minute()
}

/// `OffsetDateTime::second`, documented as always in 0..60.
#[verifier::external_body]
fn second_of(t: &UtcInstant) -> (r: u8)
    ensures
        r < 60,
        r == civil_second(t@),
{
    t.t.second()
}

/// The number the two ASCII digits at `i` and `i + 1` spell.
pub open spec fn two_digits_at(s: Seq<char>, i: int) -> int {
    (s[i] as int - '0' as int) * 10 + (s[i + 1] as int - '0' as int)
}

/// The `n` characters from `i` on are ASCII digits.
pub open spec fn digits_at(s: Seq<char>, i: int, n: int) -> bool {
    forall|k: int| i <= k < i + n ==> is_ascii_digit(#[trigger] s[k])
}

/// A fraction of a second as RFC 3339 writes it here: nothing, or a dot and
/// one to nine digits with no trailing zero.
pub open spec fn is_fraction_text(f: Seq<char>) -> bool {
    ||| f.len() == 0
    ||| {
        &&& 2 <= f.len() <= 10
        &&& f[0] == '.'
        &&& digits_at(f, 1, f.len() - 1)
        &&& f.last() != '0'
    }
}

/// A UTC offset as RFC 3339 writes it: `Z`, or a sign, hours below 24, a
/// colon and minutes below 60.
pub open spec fn is_offset_text(o: Seq<char>) -> bool {
    ||| (o.len() == 1 && o[0] == 'Z')
    ||| {
        &&& o.len() == 6
        &&& (o[0] == '+' || o[0] == '-')
        &&& digits_at(o, 1, 2)
        &&& o[3] == ':'
        &&& digits_at(o, 4, 2)
        &&& two_digits_at(o, 1) < 24
        &&& two_digits_at(o, 4) < 60
    }
}

/// An RFC 3339 timestamp: `YYYY-MM-DDTHH:MM:SS`, each field in its range,
/// then a fraction of a second and an offset.
pub open spec fn is_rfc3339_text(s: Seq<char>) -> bool {
    &&& s.len() >= 20
    &&& digits_at(s, 0, 4)
    &&& s[4] == '-'
    &&& digits_at(s, 5, 2)
    &&& s[7] == '-'
    &&& digits_at(s, 8, 2)
    &&& s[10] == 'T'
    &&& digits_at(s, 11, 2)
    &&& s[13] == ':'
    &&& digits_at(s, 14, 2)
    &&& s[16] == ':'
    &&& digits_at(s, 17, 2)
    &&& 1 <= two_digits_at(s, 5) <= 12
    &&& 1 <= two_digits_at(s, 8) <= 31
    &&& two_digits_at(s, 11) < 24
    &&& two_digits_at(s, 14) < 60
    &&& two_digits_at(s, 17) < 60
    &&& exists|k: int|
        19 <= k <= s.len() && is_fraction_text(#[trigger] s.subrange(19, k))
            && is_offset_text(s.subrange(k, s.len() as int))
}

/// An RFC 3339 timestamp in UTC: it ends in `Z`.
pub open spec fn is_rfc3339_utc_text(s: Seq<char>) -> bool {
    is_rfc3339_text(s) && s.last() == 'Z'
}

/// `OffsetDateTime::format` with the RFC 3339 description. The crate
/// refuses a year outside 0..=9999; that error becomes the empty string.
/// Otherwise the text is the zero-padded year, month, day, hour, minute and
/// second, the nanoseconds (if not zero) as up to nine digits with trailing
/// zeros cut, and `Z`, which the crate writes for a value at the UTC offset,
/// as every [`UtcInstant`] is. Which instant the digits spell is left
/// unsaid: the instant is not visible here.
#[verifier::external_body]
fn rfc3339(t: &UtcInstant) -> (r: String)
    ensures
        r@ == rfc3339_text(t@),
        r@.len() == 0 || is_rfc3339_utc_text(r@),
{
    t.t.format(&time::format_description::well_known::Rfc3339).unwrap_or_default()
}

/// The current time as an RFC 3339 timestamp in UTC, or the empty string
/// where the clock reads a time that a date cannot hold or RFC 3339 cannot
/// write.
pub fn now_rfc3339() -> (r: String)
    ensures
        r@.len() == 0 || is_rfc3339_utc_text(r@),
        r@.len() == 0 || exists|n: int| r@ == rfc3339_text(n),
{
    match utc_now() {
        Some(now) => rfc3339(&now),
        None => String::new(),
    }
}

/// `now` as `YYYYMMDD-HHMMSS`.
fn stamp_of(now: &UtcInstant) -> (r: String)
    ensures
        is_stamp(r@),
        r@ == stamp_at(now@),
{
    let (y, mo, d) = (year_of(now), month_of(now), day_of(now));
    let (h, mi, s) = (hour_of(now), minute_of(now), second_of(now));
    let r = format_stamp(y, mo, d, h, mi, s);
    assert(valid_fields(y as int, mo as nat, d as nat, h as nat, mi as nat, s as nat));
    r
}

/// The current time as `YYYYMMDD-HHMMSS`, in UTC, or `None` where the clock
/// reads a time that a date cannot hold.
pub fn stamp() -> (r: Option<String>)
    ensures
        r matches Some(t) ==> is_stamp(t@) && exists|n: int| t@ == stamp_at(n),
{
    match utc_now() {
        Some(now) => Some(stamp_of(&now)),
        None => None,
    }
}

/// A stable, human-readable id: a slug of the name plus a timestamp.
///
/// Human-readable because these are filenames someone may end up looking
/// at, and timestamped because two shows called "FOH" in one project is
/// normal. The slug is the trimmed, lower-cased name with every run of
/// characters other than ASCII letters and digits turned into one dash and
/// none at either end, at most [`SLUG_LIMIT`] long, or `show` when nothing
/// is left.
///
/// `None` where the clock reads a time that a date cannot hold.
pub fn make_id(name: &str) -> (r: Option<String>)
    requires
        name@.len() < usize::MAX / 16,
    ensures
        r matches Some(id) ==> (exists|n: int| id@ == id_text(name@, stamp_at(n)))
            && (exists|t: Seq<char>| is_stamp(t) && id@ == id_text(name@, t))
            && sanitised_id(id@) == id@,
{
    let st = match stamp() {
        Some(st) => st,
        None => {
            return None;
        },
    };
    proof {
        let (y, mo, d, h, mi, s) = choose|y: int, mo: nat, d: nat, h: nat, mi: nat, s: nat|
            valid_fields(y, mo, d, h, mi, s) && st@ == stamp_text(y, mo, d, h, mi, s);
        lemma_stamp_facts(y, mo, d, h, mi, s);
        lemma_generated_ids_are_safe(name@, y, mo, d, h, mi, s);
    }
    Some(make_id_at(name, st.as_str()))
}

/// Metadata for a project. Everything else about a project is the files
/// inside its directory.
#[derive(Debug, Clone)]
pub struct Project {
    pub id: String,
    pub name: String,
    pub created: String,
    pub modified: String,
    pub notes: String,
    /// Directory name under the projects root. It is where the project was
    /// found, not something stored in it.
    pub dir: String,
}

impl Project {
    /// A new project called `name`, created now: its id is the name's slug
    /// and the current stamp, and its creation and modification times are
    /// both the current UTC time in RFC 3339. `None` where the clock reads a
    /// time that a date cannot hold.
    pub fn new(name: &str) -> (r: Option<Self>)
        requires
            name@.len() < usize::MAX / 16,
        ensures
            r matches Some(p) ==> {
                &&& exists|n: int|
                    p.id@ == id_text(name@, stamp_at(n)) && p.created@ == rfc3339_text(n)
                &&& exists|t: Seq<char>| is_stamp(t) && p.id@ == id_text(name@, t)
                &&& sanitised_id(p.id@) == p.id@
                &&& p.name@ == trim(name@)
                &&& p.created@ == p.modified@
                &&& (p.created@.len() == 0 || is_rfc3339_utc_text(p.created@))
                &&& p.notes@ == Seq::<char>::empty()
                &&& p.dir@ == Seq::<char>::empty()
            },
    {
        let now = match utc_now() {
            Some(now) => now,
            None => {
                return None;
            },
        };
        let created = rfc3339(&now);
        let st = stamp_of(&now);
        proof {
            let (y, mo, d, h, mi, s) = choose|y: int, mo: nat, d: nat, h: nat, mi: nat, s: nat|
                valid_fields(y, mo, d, h, mi, s) && st@ == stamp_text(y, mo, d, h, mi, s);
            lemma_stamp_facts(y, mo, d, h, mi, s);
            lemma_generated_ids_are_safe(name@, y, mo, d, h, mi, s);
        }
        let v = chars_of(name);
        let (lo, hi) = trim_bounds(&v);
        let trimmed = name.substring_char(lo, hi);
        Some(Project {
            id: make_id_at(name, st.as_str()),
            name: String::from_str(trimmed),
            created: created.clone(),
            modified: created,
            notes: String::new(),
            dir: String::new(),
        })
    }
}

/// A show without its configuration, for pickers and lists.
#[derive(Debug, Clone)]
pub struct ShowSummary {
    pub id: String,
    pub name: String,
    pub created: String,
    pub modified: String,
    pub notes: String,
    pub device: Option<String>,
}

/// A project without its shows read in.
#[derive(Debug, Clone)]
pub struct ProjectSummary {
    pub id: String,
    pub name: String,
    pub dir: String,
    pub created: String,
    pub modified: String,
    pub notes: String,
    pub show_count: usize,
}

/// A location under the projects root: the root, then one path component
/// per element of `parts`.
#[derive(Debug, Clone)]
pub struct StorePath {
    pub root: String,
    pub parts: Vec<String>,
}

impl View for StorePath {
    type V = (Seq<char>, Seq<Seq<char>>);

    open spec fn view(&self) -> (Seq<char>, Seq<Seq<char>>) {
        (self.root@, self.parts@.map_values(|p: String| p@))
    }
}

/// A component that names something inside its parent and nothing else:
/// not empty, no separator, and neither `.` nor `..`.
pub open spec fn is_plain_component(c: Seq<char>) -> bool {
    &&& c.len() > 0
    &&& forall|i: int| 0 <= i < c.len() ==> #[trigger] c[i] != '/' && c[i] != '\\'
    &&& c != seq!['.']
    &&& c != seq!['.', '.']
}

pub const PROJECT_FILE: &'static str = "project.json";
pub const SHOWS_DIR: &'static str = "shows";
pub const TRACES_DIR: &'static str = "traces";
pub const DELETED_DIR: &'static str = ".deleted";

/// The projects root, one directory holding every project.
#[derive(Debug, Clone)]
pub struct ProjectStore {
    pub root: String,
}

impl ProjectStore {
    pub fn new(root: String) -> (r: Self)
        ensures
            r.root@ == root@,
    {
        ProjectStore { root }
    }

    pub fn root(&self) -> (r: &str)
        ensures
            r@ == self.root@,
    {
        self.root.as_str()
    }

    /// Where the project called `dir` lives.
    ///
    /// `dir` arrives from the frontend, so it is not trusted to be a bare
    /// name: it goes through [`sanitise_name`], and a name that comes out empty
    /// is refused. A project called `../../etc` cannot escape the root.
    pub fn project_dir(&self, dir: &str) -> (r: Result<StorePath, String>)
        ensures
            match r {
                Ok(p) => {
                    &&& sanitised_name(dir@).len() > 0
                    &&& p@.0 == self.root@
                    &&& p@.1 == seq![sanitised_name(dir@)]
                    &&& is_plain_component(p@.1[0])
                },
                Err(e) => sanitised_name(dir@).len() == 0 && e@ == "that is not a valid project name"@,
            },
    {
        let clean = sanitise_name(dir);
        if clean.unicode_len() == 0 {
            return Err(String::from_str("that is not a valid project name"));
        }
        let mut parts: Vec<String> = Vec::new();
        proof {
            let c = clean@;
            assert forall|i: int| 0 <= i < c.len() implies #[trigger] c[i] != '/' && c[i] != '\\' by {
                assert(!is_forbidden_in_name(c[i]));
            }
        }
        parts.push(clean);
        let p = StorePath { root: self.root.clone(), parts };
        assert(p@.1 =~= seq![sanitised_name(dir@)]);
        Ok(p)
    }

    /// Where the shows of the project called `dir` live.
    pub fn shows_dir(&self, dir: &str) -> (r: Result<StorePath, String>)
        ensures
            match r {
                Ok(p) => {
                    &&& sanitised_name(dir@).len() > 0
                    &&& p@.0 == self.root@
                    &&& p@.1 == seq![sanitised_name(dir@), SHOWS_DIR@]
                },
                Err(e) => sanitised_name(dir@).len() == 0 && e@ == "that is not a valid project name"@,
            },
    {
        let found = self.project_dir(dir)?;
        let ghost before = found@.1;
        let StorePath { root, mut parts } = found;
        assert(parts@.map_values(|p: String| p@) == before);
        parts.push(String::from_str(SHOWS_DIR));
        let p = StorePath { root, parts };
        assert(p@.1[0] == before[0]);
        assert(p@.1 =~= seq![sanitised_name(dir@), SHOWS_DIR@]);
        Ok(p)
    }

    /// The file the show `id` of the project `dir` is stored in: the id
    /// through [`sanitise_id`], with `.json` after it. An id that sanitises
    /// to nothing is refused before the project name is looked at.
    pub fn show_path(&self, dir: &str, id: &str) -> (r: Result<StorePath, String>)
        ensures
            match r {
                Ok(p) => {
                    &&& sanitised_id(id@).len() > 0
                    &&& sanitised_name(dir@).len() > 0
                    &&& p@.0 == self.root@
                    &&& p@.1 == seq![sanitised_name(dir@), SHOWS_DIR@, sanitised_id(id@) + ".json"@]
                },
                Err(e) => if sanitised_id(id@).len() == 0 {
                    e@ == "that is not a valid show"@
                } else {
                    sanitised_name(dir@).len() == 0 && e@ == "that is not a valid project name"@
                },
            },
    {
        let clean = sanitise_id(id);
        if clean.unicode_len() == 0 {
            return Err(String::from_str("that is not a valid show"));
        }
        let found = self.shows_dir(dir)?;
        let ghost before = found@.1;
        let StorePath { root, mut parts } = found;
        assert(parts@.map_values(|p: String| p@) == before);
        parts.push(clean.concat(".json"));
        let p = StorePath { root, parts };
        assert(p@.1[0] == before[0]);
        assert(p@.1[1] == before[1]);
        assert(p@.1 =~= seq![sanitised_name(dir@), SHOWS_DIR@, sanitised_id(id@) + ".json"@]);
        Ok(p)
    }

    /// A project as the UI sees it, with the number of shows its `shows`
    /// directory holds.
    ///
    /// `opened` is what reading the project file gave (see [`Self::project_dir`]
    /// and [`PROJECT_FILE`]), and `show_count` the number of `.json` files
    /// counted under the project's own directory.
    pub fn summary(&self, opened: Result<Project, String>, show_count: usize) -> (r: Result<ProjectSummary, String>)
        ensures
            match opened {
                Err(e) => r == Err::<ProjectSummary, String>(e),
                Ok(p) => match r {
                    Ok(s) => {
                        &&& sanitised_name(p.dir@).len() > 0
                        &&& s.id == p.id && s.name == p.name && s.dir == p.dir
                        &&& s.created == p.created && s.modified == p.modified && s.notes == p.notes
                        &&& s.show_count == show_count
                    },
                    Err(e) => sanitised_name(p.dir@).len() == 0 && e@ == "that is not a valid project name"@,
                },
            },
    {
        let project = opened?;
        let _located = self.project_dir(project.dir.as_str())?;
        Ok(ProjectSummary {
            show_count,
            id: project.id,
            name: project.name,
            dir: project.dir,
            created: project.created,
            modified: project.modified,
            notes: project.notes,
        })
    }
}

/// What a user is told when a project or show they asked for is missing.
pub const PROJECT_NOT_THERE: &'static str = "that project is not there";
pub const SHOW_NOT_THERE: &'static str = "that show is not there";

/// A show's name as stored: trimmed, and refused when nothing is left.
pub fn show_name(name: &str) -> (r: Result<String, String>)
    ensures
        match r {
            Ok(n) => trim(name@).len() > 0 && n@ == trim(name@),
            Err(e) => trim(name@).len() == 0 && e@ == "a show needs a name"@,
        },
{
    let v = chars_of(name);
    let (lo, hi) = trim_bounds(&v);
    if lo == hi {
        return Err(String::from_str("a show needs a name"));
    }
    Ok(String::from_str(name.substring_char(lo, hi)))
}

/// The sentence for a project name that is already taken.
pub open spec fn already_exists_text(clean: Seq<char>) -> Seq<char> {
    "a project called \""@ + clean + "\" already exists"@
}

/// The sentence for a project name that is already taken.
pub fn already_exists(clean: &str) -> (r: String)
    ensures
        r@ == already_exists_text(clean@),
{
    let mut s = String::from_str("a project called \"");
    s.append(clean);
    s.append("\" already exists");
    s
}

/// Where a rename moves a project, and what it is called afterwards.
#[derive(Debug, Clone)]
pub struct RenamePlan {
    /// The project's directory now.
    pub from: StorePath,
    /// Its directory afterwards.
    pub to: StorePath,
    /// Whether the directory moves at all: a rename that only changes the
    /// name's case or spacing may leave it where it is.
    pub moves: bool,
    /// The name it is shown under afterwards: what was typed, trimmed.
    pub name: String,
    /// The directory name afterwards.
    pub dir: String,
}

impl ProjectStore {
    /// The directory a new project called `name` is created in, under the
    /// root. The name goes through [`sanitise_name`], and one that comes out
    /// empty is refused. The caller refuses a directory that exists, with
    /// [`already_exists`]: a project is never merged into another.
    pub fn new_project_dir(&self, name: &str) -> (r: Result<StorePath, String>)
        ensures
            match r {
                Ok(p) => {
                    &&& sanitised_name(name@).len() > 0
                    &&& p@.0 == self.root@
                    &&& p@.1 == seq![sanitised_name(name@)]
                    &&& is_plain_component(p@.1[0])
                },
                Err(e) => sanitised_name(name@).len() == 0 && e@ == "a project needs a name"@,
            },
    {
        match self.project_dir(name) {
            Ok(p) => Ok(p),
            Err(_) => Err(String::from_str("a project needs a name")),
        }
    }

    /// What renaming the project in `dir` to `new_name` does. The new name
    /// is refused if it sanitises to nothing, and the old directory must be
    /// a valid one. The caller refuses a move onto an existing directory,
    /// with [`already_exists`]: a rename onto another project's name is
    /// refused rather than merged.
    pub fn rename_plan(&self, dir: &str, new_name: &str) -> (r: Result<RenamePlan, String>)
        ensures
            match r {
                Ok(p) => {
                    &&& sanitised_name(new_name@).len() > 0
                    &&& sanitised_name(dir@).len() > 0
                    &&& p.from@ == (self.root@, seq![sanitised_name(dir@)])
                    &&& p.to@ == (self.root@, seq![sanitised_name(new_name@)])
                    &&& p.moves == (sanitised_name(dir@) != sanitised_name(new_name@))
                    &&& p.name@ == trim(new_name@)
                    &&& p.dir@ == sanitised_name(new_name@)
                },
                Err(e) => if sanitised_name(new_name@).len() == 0 {
                    e@ == "a project needs a name"@
                } else {
                    sanitised_name(dir@).len() == 0 && e@ == "that is not a valid project name"@
                },
            },
    {
        let to = self.new_project_dir(new_name)?;
        let from = self.project_dir(dir)?;
        let clean = sanitise_name(new_name);
        let old = sanitise_name(dir);
        let moves = !(old == clean);
        let v = chars_of(new_name);
        let (lo, hi) = trim_bounds(&v);
        let name = String::from_str(new_name.substring_char(lo, hi));
        Ok(RenamePlan { from, to, moves, name, dir: clean })
    }

    /// Where deleting the project in `dir` moves it: into the root's
    /// [`DELETED_DIR`], under its directory name and the time, so a
    /// mis-click never loses anyone's work. The caller refuses a project
    /// that is not there, with [`PROJECT_NOT_THERE`].
    pub fn deleted_project_path(&self, dir: &str, stamp: &str) -> (r: Result<StorePath, String>)
        ensures
            match r {
                Ok(p) => {
                    &&& sanitised_name(dir@).len() > 0
                    &&& p@.0 == self.root@
                    &&& p@.1 == seq![DELETED_DIR@, sanitised_name(dir@) + "-"@ + stamp@]
                },
                Err(e) => sanitised_name(dir@).len() == 0 && e@ == "that is not a valid project name"@,
            },
    {
        let _located = self.project_dir(dir)?;
        let mut name = sanitise_name(dir);
        name.append("-");
        name.append(stamp);
        let mut parts: Vec<String> = Vec::new();
        parts.push(String::from_str(DELETED_DIR));
        parts.push(name);
        let p = StorePath { root: self.root.clone(), parts };
        assert(p@.1 =~= seq![DELETED_DIR@, sanitised_name(dir@) + "-"@ + stamp@]);
        Ok(p)
    }

    /// Where deleting the show `id` of the project in `dir` moves its file:
    /// into the project's own [`DELETED_DIR`], under its id and the time. The
    /// caller refuses a show that is not there, with [`SHOW_NOT_THERE`].
    pub fn deleted_show_path(&self, dir: &str, id: &str, stamp: &str) -> (r: Result<StorePath, String>)
        ensures
            match r {
                Ok(p) => {
                    &&& sanitised_id(id@).len() > 0
                    &&& sanitised_name(dir@).len() > 0
                    &&& p@.0 == self.root@
                    &&& p@.1 == seq![
                        sanitised_name(dir@),
                        DELETED_DIR@,
                        sanitised_id(id@) + "-"@ + stamp@ + ".json"@,
                    ]
                },
                Err(e) => if sanitised_id(id@).len() == 0 {
                    e@ == "that is not a valid show"@
                } else {
                    sanitised_name(dir@).len() == 0 && e@ == "that is not a valid project name"@
                },
            },
    {
        let _show = self.show_path(dir, id)?;
        let mut name = sanitise_id(id);
        name.append("-");
        name.append(stamp);
        name.append(".json");
        let mut parts: Vec<String> = Vec::new();
        parts.push(sanitise_name(dir));
        parts.push(String::from_str(DELETED_DIR));
        parts.push(name);
        let p = StorePath { root: self.root.clone(), parts };
        assert(p@.1 =~= seq![
            sanitised_name(dir@),
            DELETED_DIR@,
            sanitised_id(id@) + "-"@ + stamp@ + ".json"@,
        ]);
        Ok(p)
    }
}

/// A project after a rename: named, placed and stamped as the plan says.
pub fn renamed(project: Project, plan: &RenamePlan, now: String) -> (r: Project)
    ensures
        r.id == project.id,
        r.name@ == plan.name@,
        r.dir@ == plan.dir@,
        r.modified == now,
        r.created == project.created,
        r.notes == project.notes,
{
    Project {
        id: project.id,
        name: plan.name.clone(),
        created: project.created,
        modified: now,
        notes: project.notes,
        dir: plan.dir.clone(),
    }
}

} // verus!
