//! Conversions between `str`/`String` and the character vectors that the
//! verified text routines work on.

use vstd::prelude::*;

verus! {

broadcast use vstd::string::group_string_axioms;

/// The characters of `s`, in order.
pub fn chars_of(s: &str) -> (v: Vec<char>)
    ensures
        v@ == s@,
{
    let mut v: Vec<char> = Vec::new();
    for c in it: s.chars()
        invariant
            v@ == it.seq().take(it.index() as int),
            it.seq() == s@,
    {
        v.push(c);
    }
    v
}

/// Collects characters into a `String`.
///
/// Trusted: std's `String::from_iter` over `char`s; the result holds exactly
/// the given characters, in order.
#[verifier::external_body]
pub(crate) fn string_from_chars(chars: &Vec<char>) -> (s: String)
    ensures
        s@ == chars@,
{
    String::from_iter(chars.iter())
}

/// Appends all characters of `s` to `out`.
pub fn push_str_chars(out: &mut Vec<char>, s: &str)
    ensures
        final(out)@ == old(out)@ + s@,
{
    let cs = chars_of(s);
    let mut i: usize = 0;
    while i < cs.len()
        invariant
            0 <= i <= cs@.len(),
            cs@ == s@,
            out@ == old(out)@ + cs@.take(i as int),
        decreases cs@.len() - i,
    {
        out.push(cs[i]);
        i = i + 1;
        assert(cs@.take(i as int) == cs@.take((i - 1) as int).push(cs@[i - 1]));
    }
    assert(cs@.take(cs@.len() as int) == cs@);
}

/// What `str::to_uppercase` returns for a string with these characters
/// (Unicode upper-case mapping).
pub uninterp spec fn uppercase(s: Seq<char>) -> Seq<char>;

/// Every character is ASCII.
pub open spec fn is_ascii_text(s: Seq<char>) -> bool {
    forall|i: int| 0 <= i < s.len() ==> (#[trigger] s[i] as u32) < 0x80
}

/// ASCII letters `a`-`z` made upper case, everything else kept.
pub open spec fn ascii_upper(s: Seq<char>) -> Seq<char> {
    s.map_values(|c: char| if 'a' <= c <= 'z' { ((c as u32) - 32) as char } else { c })
}

/// ASCII letters `A`-`Z` made lower case, everything else kept.
pub open spec fn ascii_lower(s: Seq<char>) -> Seq<char> {
    s.map_values(|c: char| if 'A' <= c <= 'Z' { ((c as u32) + 32) as char } else { c })
}

/// Trusted: std's `str::to_uppercase`; the result is named by `uppercase`. On
/// ASCII text the Unicode mapping is the ASCII one.
#[verifier::external_body]
pub(crate) fn to_uppercase(s: &str) -> (res: String)
    ensures
        res@ == uppercase(s@),
        is_ascii_text(s@) ==> res@ == ascii_upper(s@),
{
    s.to_uppercase()
}

/// What `str::to_lowercase` returns for a string with these characters
/// (Unicode lower-case mapping).
pub uninterp spec fn lowercase(s: Seq<char>) -> Seq<char>;

/// Trusted: std's `str::to_lowercase`; the result is named by `lowercase`. On
/// ASCII text the Unicode mapping is the ASCII one.
#[verifier::external_body]
pub(crate) fn to_lowercase(s: &str) -> (res: String)
    ensures
        res@ == lowercase(s@),
        is_ascii_text(s@) ==> res@ == ascii_lower(s@),
{
    s.to_lowercase()
}

/// A character with the Unicode `White_Space` property.
pub open spec fn is_white_space(c: char) -> bool {
    let u = c as u32;
    (0x09 <= u <= 0x0D) || u == 0x20 || u == 0x85 || u == 0xA0 || u == 0x1680 || (0x2000 <= u
        <= 0x200A) || u == 0x2028 || u == 0x2029 || u == 0x202F || u == 0x205F || u == 0x3000
}

/// How many white-space characters `s` starts with.
pub open spec fn leading_white(s: Seq<char>) -> nat
    decreases s.len(),
{
    if s.len() > 0 && is_white_space(s[0]) {
        1 + leading_white(s.drop_first())
    } else {
        0
    }
}

/// How many white-space characters `s` ends with.
pub open spec fn trailing_white(s: Seq<char>) -> nat
    decreases s.len(),
{
    if s.len() > 0 && is_white_space(s.last()) {
        1 + trailing_white(s.drop_last())
    } else {
        0
    }
}

/// The string without its leading and trailing white space.
pub open spec fn trimmed(s: Seq<char>) -> Seq<char> {
    if leading_white(s) == s.len() {
        Seq::empty()
    } else {
        s.subrange(leading_white(s) as int, s.len() - trailing_white(s))
    }
}

fn white_space(c: char) -> (res: bool)
    ensures
        res == is_white_space(c),
{
    let u = c as u32;
    (0x09 <= u && u <= 0x0D) || u == 0x20 || u == 0x85 || u == 0xA0 || u == 0x1680 || (0x2000 <= u
        && u <= 0x200A) || u == 0x2028 || u == 0x2029 || u == 0x202F || u == 0x205F || u == 0x3000
}

/// The text without its leading and trailing white space (as `str::trim`
/// removes it: the characters with the Unicode `White_Space` property).
pub fn trim(s: &str) -> (res: String)
    ensures
        res@ == trimmed(s@),
{
    let cs = chars_of(s);
    let ghost p = cs@;
    let n = cs.len();
    let mut a: usize = 0;
    assert(p.skip(0) =~= p);
    while a < n && white_space(cs[a])
        invariant
            p == cs@,
            n == p.len(),
            a <= n,
            leading_white(p) == a + leading_white(p.skip(a as int)),
        decreases n - a,
    {
        assert(p.skip(a as int).drop_first() =~= p.skip(a + 1));
        a = a + 1;
    }
    if a == n {
        return String::new();
    }
    assert(leading_white(p) == a);
    let mut b: usize = n;
    assert(p.take(n as int) =~= p);
    while b > a && white_space(cs[b - 1])
        invariant
            p == cs@,
            n == p.len(),
            a < n,
            !is_white_space(p[a as int]),
            a <= b <= n,
            b > a,
            trailing_white(p) == (n - b) + trailing_white(p.take(b as int)),
        decreases b,
    {
        assert(p.take(b as int).drop_last() =~= p.take(b - 1));
        b = b - 1;
    }
    assert(trailing_white(p) == n - b);
    let mut out: Vec<char> = Vec::new();
    let mut k: usize = a;
    while k < b
        invariant
            p == cs@,
            a <= k <= b <= n,
            n == p.len(),
            out@ =~= p.subrange(a as int, k as int),
        decreases b - k,
    {
        out.push(cs[k]);
        k = k + 1;
    }
    string_from_chars(&out)
}

/// `n` occurs in `h` as a contiguous run.
pub open spec fn has_infix(h: Seq<char>, n: Seq<char>) -> bool {
    exists|i: int| 0 <= i && i + n.len() <= h.len() && #[trigger] h.subrange(i, i + n.len()) == n
}

/// Whether `needle` occurs in `hay`.
pub fn contains_chars(hay: &Vec<char>, needle: &str) -> (res: bool)
    ensures
        res == has_infix(hay@, needle@),
{
    let n = chars_of(needle);
    if n.len() > hay.len() {
        assert forall|i: int| 0 <= i && i + n@.len() <= hay@.len() implies #[trigger] hay@.subrange(
            i,
            i + n@.len(),
        ) != n@ by {}
        return false;
    }
    let hay_len = hay.len();
    let last = hay_len - n.len();
    let mut i: usize = 0;
    while i <= last
        invariant
            n@ == needle@,
            n@.len() <= hay@.len(),
            hay_len == hay@.len(),
            last == hay@.len() - n@.len(),
            0 <= i <= last + 1,
            forall|j: int| 0 <= j < i ==> #[trigger] hay@.subrange(j, j + n@.len()) != n@,
        decreases last + 1 - i,
    {
        let mut k: usize = 0;
        let mut matching = true;
        while matching && k < n.len()
            invariant
                0 <= k <= n@.len(),
                i <= last,
                n@.len() <= hay@.len(),
                hay_len == hay@.len(),
                last == hay@.len() - n@.len(),
                forall|q: int| 0 <= q < k ==> hay@[i + q] == n@[q],
                !matching ==> k < n@.len() && hay@[i + k] != n@[k as int],
            decreases n@.len() - k, if matching { 1int } else { 0int },
        {
            if hay[i + k] == n[k] {
                k = k + 1;
            } else {
                matching = false;
            }
        }
        if k == n.len() {
            assert(hay@.subrange(i as int, i + n@.len()) =~= n@);
            return true;
        }
        assert(hay@.subrange(i as int, i + n@.len())[k as int] != n@[k as int]);
        i = i + 1;
    }
    false
}

proof fn lemma_leading_white_bound(s: Seq<char>)
    ensures
        leading_white(s) <= s.len(),
        forall|i: int| 0 <= i < leading_white(s) ==> is_white_space(#[trigger] s[i]),
        leading_white(s) < s.len() ==> !is_white_space(s[leading_white(s) as int]),
    decreases s.len(),
{
    if s.len() > 0 && is_white_space(s[0]) {
        lemma_leading_white_bound(s.drop_first());
        assert forall|i: int| 0 <= i < leading_white(s) implies is_white_space(#[trigger] s[i]) by {
            if i > 0 {
                assert(s[i] == s.drop_first()[i - 1]);
            }
        }
    }
}

/// A string trims to nothing exactly when all its characters are white space.
pub proof fn lemma_trimmed_empty(s: Seq<char>)
    ensures
        trimmed(s).len() == 0 <==> forall|i: int| 0 <= i < s.len() ==> is_white_space(#[trigger] s[i]),
{
    lemma_leading_white_bound(s);
    if leading_white(s) < s.len() {
        lemma_trailing_white_bound(s);
        assert(trimmed(s).len() > 0);
    }
}

proof fn lemma_trailing_white_bound(s: Seq<char>)
    ensures
        trailing_white(s) <= s.len(),
        leading_white(s) < s.len() ==> leading_white(s) + trailing_white(s) < s.len(),
    decreases s.len(),
{
    lemma_leading_white_bound(s);
    if s.len() > 0 && is_white_space(s.last()) {
        let d = s.drop_last();
        lemma_trailing_white_bound(d);
        lemma_leading_white_bound(d);
        if leading_white(s) < s.len() {
            lemma_leading_prefix(s, d);
        }
    }
}

/// Dropping a white-space last character does not change the leading run of
/// a string that is not all white space.
proof fn lemma_leading_prefix(s: Seq<char>, d: Seq<char>)
    requires
        s.len() > 0,
        d == s.drop_last(),
        is_white_space(s.last()),
        leading_white(s) < s.len(),
    ensures
        leading_white(d) == leading_white(s),
    decreases s.len(),
{
    lemma_leading_white_bound(s);
    if is_white_space(s[0]) {
        assert(s.len() >= 2);
        assert(d.drop_first() =~= s.drop_first().drop_last());
        assert(d[0] == s[0]);
        lemma_leading_prefix(s.drop_first(), d.drop_first());
    } else {
        assert(d.len() > 0 ==> d[0] == s[0]);
        if d.len() == 0 {
            assert(s.len() == 1);
        }
    }
}

/// `n` matches `h` at position `i`, from character `k` of `n` on.
pub open spec fn matches_from(h: Seq<char>, n: Seq<char>, i: int, k: int) -> bool
    decreases n.len() - k,
{
    if k >= n.len() {
        true
    } else {
        h[i + k] == n[k] && matches_from(h, n, i, k + 1)
    }
}

/// `n` occurs in `h` at some position `i` or later (a form of `has_infix` that
/// can be evaluated).
pub open spec fn occurs_from(h: Seq<char>, n: Seq<char>, i: int) -> bool
    decreases h.len() - i,
{
    if i < 0 || i + n.len() > h.len() {
        false
    } else {
        matches_from(h, n, i, 0) || occurs_from(h, n, i + 1)
    }
}

proof fn lemma_matches_from(h: Seq<char>, n: Seq<char>, i: int, k: int)
    requires
        0 <= i,
        i + n.len() <= h.len(),
        0 <= k <= n.len(),
    ensures
        matches_from(h, n, i, k) <==> forall|j: int| k <= j < n.len() ==> h[i + j] == n[j],
    decreases n.len() - k,
{
    if k < n.len() {
        lemma_matches_from(h, n, i, k + 1);
    }
}

proof fn lemma_occurs_from(h: Seq<char>, n: Seq<char>, i: int)
    requires
        0 <= i,
    ensures
        occurs_from(h, n, i) <==> exists|j: int| i <= j && j + n.len() <= h.len() && #[trigger] h.subrange(j, j + n.len()) == n,
    decreases h.len() - i,
{
    if i + n.len() <= h.len() {
        if i < h.len() {
            lemma_occurs_from(h, n, i + 1);
        } else {
            assert(h.subrange(i, i + n.len()) =~= n);
        }
        lemma_matches_from(h, n, i, 0);
        if matches_from(h, n, i, 0) {
            assert(h.subrange(i, i + n.len()) =~= n);
        }
        if exists|j: int| i <= j && j + n.len() <= h.len() && #[trigger] h.subrange(j, j + n.len()) == n {
            let j = choose|j: int| i <= j && j + n.len() <= h.len() && #[trigger] h.subrange(j, j + n.len()) == n;
            if j == i {
                assert forall|q: int| 0 <= q < n.len() implies h[i + q] == n[q] by {
                    assert(h.subrange(j, j + n.len())[q] == h[i + q]);
                }
            }
        }
    }
}

/// `has_infix` is `occurs_from` at 0.
pub proof fn lemma_has_infix_occurs(h: Seq<char>, n: Seq<char>)
    ensures
        has_infix(h, n) == occurs_from(h, n, 0),
{
    lemma_occurs_from(h, n, 0);
}

} // verus!
