//! Character and string primitives the rest of the crate is built from.
//!
//! Each spec function states what the corresponding `char` or `str` method of
//! the standard library computes; the executable functions are proved against
//! those statements.

use vstd::prelude::*;

verus! {

/// `char::is_ascii_digit`.
pub open spec fn is_ascii_digit(c: char) -> bool {
    '0' as u32 <= c as u32 && c as u32 <= '9' as u32
}

/// `char::is_ascii_uppercase`.
pub open spec fn is_ascii_upper(c: char) -> bool {
    'A' as u32 <= c as u32 && c as u32 <= 'Z' as u32
}

/// `char::is_ascii_lowercase`.
pub open spec fn is_ascii_lower(c: char) -> bool {
    'a' as u32 <= c as u32 && c as u32 <= 'z' as u32
}

/// `char::is_ascii_alphanumeric`.
pub open spec fn is_ascii_alnum(c: char) -> bool {
    is_ascii_digit(c) || is_ascii_upper(c) || is_ascii_lower(c)
}

/// `char::to_ascii_lowercase`: A–Z become a–z, everything else is unchanged.
pub open spec fn ascii_lower(c: char) -> char {
    if is_ascii_upper(c) {
        ((c as u32) + 32) as char
    } else {
        c
    }
}

/// `char::is_control`: the Unicode general category Cc, which is exactly
/// U+0000–U+001F and U+007F–U+009F.
pub open spec fn is_control(c: char) -> bool {
    c as u32 <= 0x1F || (0x7F <= c as u32 && c as u32 <= 0x9F)
}

/// `char::is_whitespace`: the Unicode `White_Space` property.
pub open spec fn is_white_space(c: char) -> bool {
    let u = c as u32;
    ||| 0x09 <= u && u <= 0x0D
    ||| u == 0x20
    ||| u == 0x85
    ||| u == 0xA0
    ||| u == 0x1680
    ||| 0x2000 <= u && u <= 0x200A
    ||| u == 0x2028
    ||| u == 0x2029
    ||| u == 0x202F
    ||| u == 0x205F
    ||| u == 0x3000
}

/// `str::eq_ignore_ascii_case`, stated over characters.
///
/// Rust compares the UTF-8 bytes with ASCII letters folded. No byte of a
/// multi-byte character is ASCII, so that is the same as comparing the
/// characters one by one with ASCII letters folded.
pub open spec fn eq_ignore_ascii_case(a: Seq<char>, b: Seq<char>) -> bool {
    &&& a.len() == b.len()
    &&& forall|i: int| 0 <= i < a.len() ==> #[trigger] ascii_lower(a[i]) == ascii_lower(b[i])
}

/// How many characters at the front of `s` satisfy `p`.
pub open spec fn leading_count(s: Seq<char>, p: spec_fn(char) -> bool) -> nat
    decreases s.len(),
{
    if s.len() > 0 && p(s[0]) {
        1 + leading_count(s.drop_first(), p)
    } else {
        0
    }
}

/// How many characters at the back of `s` satisfy `p`.
pub open spec fn trailing_count(s: Seq<char>, p: spec_fn(char) -> bool) -> nat
    decreases s.len(),
{
    if s.len() > 0 && p(s.last()) {
        1 + trailing_count(s.drop_last(), p)
    } else {
        0
    }
}

/// `s` with the characters satisfying `p` removed from both ends, which is
/// what `str::trim_matches` does for a set of characters.
pub open spec fn strip(s: Seq<char>, p: spec_fn(char) -> bool) -> Seq<char> {
    let rest = s.skip(leading_count(s, p) as int);
    rest.take(rest.len() - trailing_count(rest, p))
}

/// `str::trim`: `s` without its leading and trailing `White_Space`.
pub open spec fn trim(s: Seq<char>) -> Seq<char> {
    strip(s, |c: char| is_white_space(c))
}

/// Every character of `s` through `ascii_lower`.
pub open spec fn ascii_lower_all(s: Seq<char>) -> Seq<char> {
    s.map_values(|c: char| ascii_lower(c))
}

/// The length below which a `String` can always take another character
/// without its byte capacity overflowing `isize`.
pub open spec fn growable(len: nat) -> bool {
    len < usize::MAX / 8
}

pub fn char_is_ascii_alnum(c: char) -> (r: bool)
    ensures
        r == is_ascii_alnum(c),
{
    let u = c as u32;
    (48 <= u && u <= 57) || (65 <= u && u <= 90) || (97 <= u && u <= 122)
}

pub fn char_is_control(c: char) -> (r: bool)
    ensures
        r == is_control(c),
{
    let u = c as u32;
    u <= 0x1F || (0x7F <= u && u <= 0x9F)
}

pub fn char_is_white_space(c: char) -> (r: bool)
    ensures
        r == is_white_space(c),
{
    let u = c as u32;
    (0x09 <= u && u <= 0x0D) || u == 0x20 || u == 0x85 || u == 0xA0 || u == 0x1680 || (0x2000
        <= u && u <= 0x200A) || u == 0x2028 || u == 0x2029 || u == 0x202F || u == 0x205F || u
        == 0x3000
}

pub fn char_ascii_lower(c: char) -> (r: char)
    ensures
        r == ascii_lower(c),
{
    let u = c as u32;
    if 65 <= u && u <= 90 {
        let b = (u + 32) as u8;
        b as char
    } else {
        c
    }
}

proof fn lemma_leading_count(s: Seq<char>, p: spec_fn(char) -> bool, k: int)
    requires
        0 <= k <= s.len(),
        forall|i: int| 0 <= i < k ==> #[trigger] p(s[i]),
        k == s.len() || !p(s[k]),
    ensures
        leading_count(s, p) == k,
    decreases k,
{
    if k > 0 {
        let t = s.drop_first();
        assert forall|i: int| 0 <= i < k - 1 implies #[trigger] p(t[i]) by {
            assert(t[i] == s[i + 1]);
        }
        if k - 1 < t.len() {
            assert(t[k - 1] == s[k]);
        }
        lemma_leading_count(t, p, k - 1);
        assert(p(s[0]));
    }
}

proof fn lemma_trailing_count(s: Seq<char>, p: spec_fn(char) -> bool, k: int)
    requires
        0 <= k <= s.len(),
        forall|i: int| s.len() - k <= i < s.len() ==> #[trigger] p(s[i]),
        k == s.len() || !p(s[s.len() - 1 - k]),
    ensures
        trailing_count(s, p) == k,
    decreases k,
{
    if k > 0 {
        let t = s.drop_last();
        assert forall|i: int| t.len() - (k - 1) <= i < t.len() implies #[trigger] p(t[i]) by {
            assert(t[i] == s[i]);
        }
        if k - 1 < t.len() {
            assert(t[t.len() - 1 - (k - 1)] == s[s.len() - 1 - k]);
        }
        lemma_trailing_count(t, p, k - 1);
        assert(p(s.last()));
    }
}

pub proof fn lemma_leading_facts(s: Seq<char>, p: spec_fn(char) -> bool)
    ensures
        leading_count(s, p) <= s.len(),
        forall|i: int| 0 <= i < leading_count(s, p) ==> #[trigger] p(s[i]),
        leading_count(s, p) < s.len() ==> !p(s[leading_count(s, p) as int]),
    decreases s.len(),
{
    if s.len() > 0 && p(s[0]) {
        let t = s.drop_first();
        lemma_leading_facts(t, p);
        assert forall|i: int| 0 <= i < leading_count(s, p) implies #[trigger] p(s[i]) by {
            if i > 0 {
                assert(s[i] == t[i - 1]);
            }
        }
        if leading_count(s, p) < s.len() {
            assert(s[leading_count(s, p) as int] == t[leading_count(t, p) as int]);
        }
    }
}

pub proof fn lemma_trailing_facts(s: Seq<char>, p: spec_fn(char) -> bool)
    ensures
        trailing_count(s, p) <= s.len(),
        forall|i: int| s.len() - trailing_count(s, p) <= i < s.len() ==> #[trigger] p(s[i]),
        trailing_count(s, p) < s.len() ==> !p(s[s.len() - 1 - trailing_count(s, p)]),
    decreases s.len(),
{
    if s.len() > 0 && p(s.last()) {
        let t = s.drop_last();
        lemma_trailing_facts(t, p);
        assert forall|i: int| s.len() - trailing_count(s, p) <= i < s.len() implies #[trigger] p(
            s[i],
        ) by {
            if i < s.len() - 1 {
                assert(s[i] == t[i]);
            }
        }
        if trailing_count(s, p) < s.len() {
            assert(s[s.len() - 1 - trailing_count(s, p)] == t[t.len() - 1 - trailing_count(t, p)]);
        }
    }
}

/// `strip` keeps a contiguous run of `s`, and what it keeps neither starts
/// nor ends with a character satisfying `p`.
pub proof fn lemma_strip_facts(s: Seq<char>, p: spec_fn(char) -> bool)
    ensures
        leading_count(s, p) + strip(s, p).len() <= s.len(),
        forall|i: int|
            0 <= i < strip(s, p).len() ==> #[trigger] strip(s, p)[i] == s[leading_count(s, p) + i],
        strip(s, p).len() > 0 ==> !p(strip(s, p)[0]) && !p(strip(s, p).last()),
{
    lemma_leading_facts(s, p);
    let l = leading_count(s, p) as int;
    let rest = s.skip(l);
    lemma_trailing_facts(rest, p);
    let u = strip(s, p);
    if u.len() > 0 {
        assert(u[0] == s[l]);
        assert(u.last() == rest[rest.len() - 1 - trailing_count(rest, p)]);
    }
}

/// Where `strip` cuts: the first kept index and one past the last.
pub proof fn lemma_strip_bounds(s: Seq<char>, p: spec_fn(char) -> bool, lo: int, hi: int)
    requires
        0 <= lo <= hi <= s.len(),
        forall|i: int| 0 <= i < lo ==> #[trigger] p(s[i]),
        forall|i: int| hi <= i < s.len() ==> #[trigger] p(s[i]),
        lo == hi ==> hi == s.len(),
        lo < hi ==> !p(s[lo]) && !p(s[hi - 1]),
    ensures
        strip(s, p) == s.subrange(lo, hi),
{
    lemma_leading_count(s, p, lo);
    let rest = s.skip(lo);
    let k = s.len() - hi;
    assert forall|i: int| rest.len() - k <= i < rest.len() implies #[trigger] p(rest[i]) by {
        assert(rest[i] == s[lo + i]);
    }
    if k < rest.len() {
        assert(rest[rest.len() - 1 - k] == s[hi - 1]);
    }
    lemma_trailing_count(rest, p, k);
    assert(strip(s, p) =~= s.subrange(lo, hi));
}

/// The characters of `s`, in order.
pub fn chars_of(s: &str) -> (r: Vec<char>)
    ensures
        r@ == s@,
{
    let n = s.unicode_len();
    let mut out: Vec<char> = Vec::new();
    let mut i: usize = 0;
    while i < n
        invariant
            n == s@.len(),
            i <= n,
            out@ == s@.subrange(0, i as int),
        decreases n - i,
    {
        out.push(s.get_char(i));
        i = i + 1;
    }
    assert(out@ =~= s@);
    out
}

/// A `String` holding exactly `v`.
pub fn string_of(v: &Vec<char>) -> (r: String)
    requires
        growable(v@.len()),
    ensures
        r@ == v@,
{
    let mut out = String::new();
    let mut i: usize = 0;
    while i < v.len()
        invariant
            growable(v@.len()),
            i <= v@.len(),
            out@ == v@.subrange(0, i as int),
        decreases v@.len() - i,
    {
        push_char(&mut out, v[i]);
        i = i + 1;
    }
    assert(out@ =~= v@);
    out
}

/// The elements `lo..hi` of `v`.
pub fn slice_chars(v: &Vec<char>, lo: usize, hi: usize) -> (r: Vec<char>)
    requires
        lo <= hi <= v@.len(),
    ensures
        r@ == v@.subrange(lo as int, hi as int),
{
    let mut out: Vec<char> = Vec::new();
    let mut i = lo;
    while i < hi
        invariant
            lo <= i <= hi <= v@.len(),
            out@ == v@.subrange(lo as int, i as int),
        decreases hi - i,
    {
        out.push(v[i]);
        i = i + 1;
    }
    out
}

/// `str::trim`, on characters.
pub fn trim_chars(v: &Vec<char>) -> (r: Vec<char>)
    ensures
        r@ == trim(v@),
{
    let (lo, hi) = trim_bounds(v);
    slice_chars(v, lo, hi)
}

/// The range of `v` that `str::trim` keeps.
pub fn trim_bounds(v: &Vec<char>) -> (r: (usize, usize))
    ensures
        r.0 <= r.1 <= v@.len(),
        trim(v@) == v@.subrange(r.0 as int, r.1 as int),
{
    let n = v.len();
    let mut lo: usize = 0;
    while lo < n && char_is_white_space(v[lo])
        invariant
            n == v@.len(),
            lo <= n,
            forall|i: int| 0 <= i < lo ==> #[trigger] is_white_space(v@[i]),
        decreases n - lo,
    {
        lo = lo + 1;
    }
    let mut hi: usize = n;
    while hi > lo && char_is_white_space(v[hi - 1])
        invariant
            n == v@.len(),
            lo <= hi <= n,
            lo < n ==> !is_white_space(v@[lo as int]),
            forall|i: int| hi <= i < n ==> #[trigger] is_white_space(v@[i]),
        decreases hi,
    {
        hi = hi - 1;
    }
    proof {
        let p = |c: char| is_white_space(c);
        assert forall|i: int| 0 <= i < lo implies #[trigger] p(v@[i]) by {}
        assert forall|i: int| hi <= i < n implies #[trigger] p(v@[i]) by {}
        lemma_strip_bounds(v@, p, lo as int, hi as int);
    }
    (lo, hi)
}

/// `String::push`. The standard library appends exactly the one character.
#[verifier::external_body]
pub(crate) fn push_char(s: &mut String, c: char)
    requires
        growable(old(s)@.len()),
    ensures
        final(s)@ == old(s)@.push(c),
{
    s.push(c);
}

/// What `str::to_lowercase` returns for a string: Unicode lower-casing,
/// which can change the number of characters.
pub uninterp spec fn lowercase(s: Seq<char>) -> Seq<char>;

/// `str::to_lowercase`. Its result depends on the string alone.
#[verifier::external_body]
pub(crate) fn to_lowercase(s: &str) -> (r: String)
    requires
        s@.len() < usize::MAX / 16,
    ensures
        r@ == lowercase(s@),
{
    s.to_lowercase()
}

/// The lower-case ASCII letters, in order.
pub const ASCII_LOWER_LETTERS: &'static str = "abcdefghijklmnopqrstuvwxyz";

/// The `k`-th lower-case ASCII letter.
fn lower_letter(k: usize) -> (r: &'static str)
    requires
        k < 26,
    ensures
        r@ == seq![((97 + k) as u32) as char],
{
    proof {
        reveal_strlit("abcdefghijklmnopqrstuvwxyz");
        assert(ASCII_LOWER_LETTERS@ =~= Seq::new(26, |j: int| ((97 + j) as u32) as char));
    }
    let r = ASCII_LOWER_LETTERS.substring_char(k, k + 1);
    assert(r@ =~= seq![((97 + k) as u32) as char]);
    r
}

/// `str::to_ascii_lowercase`: 'A' to 'Z' become 'a' to 'z', and every
/// other character is unchanged.
pub fn to_ascii_lowercase(s: &str) -> (r: String)
    ensures
        r@ == ascii_lower_all(s@),
{
    let n = s.unicode_len();
    let mut out = String::new();
    let mut i: usize = 0;
    while i < n
        invariant
            n == s@.len(),
            i <= n,
            out@ == ascii_lower_all(s@.subrange(0, i as int)),
        decreases n - i,
    {
        let c = s.get_char(i);
        let ghost before = out@;
        let u = c as u32;
        if 65 <= u && u <= 90 {
            out.append(lower_letter((u - 65) as usize));
        } else {
            out.append(s.substring_char(i, i + 1));
        }
        proof {
            assert(ascii_lower_all(s@.subrange(0, i + 1)) =~= ascii_lower_all(
                s@.subrange(0, i as int),
            ).push(ascii_lower(c)));
            assert(out@ =~= before.push(ascii_lower(c)));
        }
        i = i + 1;
    }
    assert(s@.subrange(0, n as int) =~= s@);
    out
}

/// `str::eq_ignore_ascii_case`.
pub fn str_eq_ignore_ascii_case(a: &str, b: &str) -> (r: bool)
    ensures
        r == eq_ignore_ascii_case(a@, b@),
{
    let n = a.unicode_len();
    if n != b.unicode_len() {
        return false;
    }
    let mut i: usize = 0;
    while i < n
        invariant
            n == a@.len(),
            n == b@.len(),
            i <= n,
            forall|k: int| 0 <= k < i ==> #[trigger] ascii_lower(a@[k]) == ascii_lower(b@[k]),
        decreases n - i,
    {
        if char_ascii_lower(a.get_char(i)) != char_ascii_lower(b.get_char(i)) {
            assert(ascii_lower(a@[i as int]) != ascii_lower(b@[i as int]));
            return false;
        }
        i = i + 1;
    }
    true
}

} // verus!
