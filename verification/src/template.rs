//! `{key}` placeholder templates, filled from a tag table.

use vstd::prelude::*;

use crate::tags::ExifTags;
use crate::text::{chars_of, push_str_chars, string_from_chars};

verus! {

/// Position of the first `}` in `s`, or `s.len()` when there is none.
pub open spec fn close_index(s: Seq<char>) -> nat
    decreases s.len(),
{
    if s.len() == 0 {
        0
    } else if s[0] == '}' {
        0
    } else {
        1 + close_index(s.drop_first())
    }
}

/// What a `{key}` placeholder becomes: the tag's text when the table has it;
/// otherwise the placeholder itself (`keep_unknown`) or nothing.
pub open spec fn placeholder_text(
    key: Seq<char>,
    tags: spec_fn(Seq<char>) -> Option<Seq<char>>,
    keep_unknown: bool,
) -> Seq<char> {
    match tags(key) {
        Some(v) => v,
        None => if keep_unknown {
            seq!['{'] + key + seq!['}']
        } else {
            Seq::empty()
        },
    }
}

/// The template read left to right: each `{` that a later `}` closes starts a
/// placeholder up to the first such `}`; a `{` that nothing closes, and every
/// other character, stands for itself.
pub open spec fn fill_template(
    t: Seq<char>,
    tags: spec_fn(Seq<char>) -> Option<Seq<char>>,
    keep_unknown: bool,
) -> Seq<char>
    decreases t.len(),
{
    if t.len() == 0 {
        Seq::empty()
    } else if t[0] == '{' {
        let rest = t.drop_first();
        let e = close_index(rest);
        if e < rest.len() {
            placeholder_text(rest.take(e as int), tags, keep_unknown) + fill_template(
                rest.skip(e + 1 as int),
                tags,
                keep_unknown,
            )
        } else {
            seq!['{'] + fill_template(rest, tags, keep_unknown)
        }
    } else {
        seq![t[0]] + fill_template(t.drop_first(), tags, keep_unknown)
    }
}

pub(crate) proof fn lemma_close_index_at(s: Seq<char>, m: int)
    requires
        0 <= m <= s.len(),
        forall|j: int| 0 <= j < m ==> s[j] != '}',
        m == s.len() || s[m] == '}',
    ensures
        close_index(s) == m,
    decreases m,
{
    if m > 0 {
        lemma_close_index_at(s.drop_first(), m - 1);
    }
}

/// Fills `template` from `tags`: a placeholder whose key the table lacks is kept
/// as it stands when `keep_unknown` holds and dropped otherwise.
pub fn fill_template_exec(template: &str, tags: &ExifTags, keep_unknown: bool) -> (res: String)
    ensures
        res@ == fill_template(template@, tags.lookup_fn(), keep_unknown),
{
    let t = chars_of(template);
    let mut out: Vec<char> = Vec::new();
    let mut pos: usize = 0;
    assert(t@.skip(0) =~= t@);
    while pos < t.len()
        invariant
            pos <= t@.len(),
            t@ == template@,
            out@ + fill_template(t@.skip(pos as int), tags.lookup_fn(), keep_unknown) == fill_template(
                t@,
                tags.lookup_fn(),
                keep_unknown,
            ),
        decreases t@.len() - pos,
    {
        let ghost tail = t@.skip(pos as int);
        assert(tail[0] == t@[pos as int]);
        assert(tail.drop_first() =~= t@.skip(pos + 1));
        if t[pos] == '{' {
            let mut end: usize = pos + 1;
            while end < t.len() && t[end] != '}'
                invariant
                    pos + 1 <= end <= t@.len(),
                    forall|j: int| pos + 1 <= j < end ==> t@[j] != '}',
                decreases t@.len() - end,
            {
                end = end + 1;
            }
            let ghost rest = t@.skip(pos + 1);
            proof {
                assert forall|j: int| 0 <= j < end - pos - 1 implies rest[j] != '}' by {
                    assert(rest[j] == t@[pos + 1 + j]);
                }
                lemma_close_index_at(rest, end - pos - 1);
            }
            if end < t.len() {
                let mut key: Vec<char> = Vec::new();
                let mut k: usize = pos + 1;
                while k < end
                    invariant
                        pos + 1 <= k <= end,
                        end < t@.len(),
                        key@ =~= t@.subrange(pos + 1, k as int),
                    decreases end - k,
                {
                    key.push(t[k]);
                    k = k + 1;
                }
                let key_s = string_from_chars(&key);
                let ghost before = out@;
                match tags.get(key_s.as_str()) {
                    Some(v) => {
                        push_str_chars(&mut out, v.as_str());
                    },
                    None => {
                        if keep_unknown {
                            out.push('{');
                            let mut q: usize = 0;
                            while q < key.len()
                                invariant
                                    0 <= q <= key@.len(),
                                    out@ =~= before + seq!['{'] + key@.take(q as int),
                                decreases key@.len() - q,
                            {
                                out.push(key[q]);
                                q = q + 1;
                            }
                            out.push('}');
                        }
                    },
                }
                proof {
                    assert(rest.take(end - pos - 1) =~= key@);
                    assert(rest.skip(end - pos) =~= t@.skip(end + 1));
                    assert(out@ =~= before + placeholder_text(key@, tags.lookup_fn(), keep_unknown));
                    assert(fill_template(tail, tags.lookup_fn(), keep_unknown) == placeholder_text(
                        key@,
                        tags.lookup_fn(),
                        keep_unknown,
                    ) + fill_template(t@.skip(end + 1), tags.lookup_fn(), keep_unknown));
                    assert(out@ + fill_template(t@.skip(end + 1), tags.lookup_fn(), keep_unknown) =~= before
                        + fill_template(tail, tags.lookup_fn(), keep_unknown));
                }
                pos = end + 1;
            } else {
                let ghost before = out@;
                out.push('{');
                proof {
                    assert(out@ + fill_template(t@.skip(pos + 1), tags.lookup_fn(), keep_unknown) =~= before
                        + fill_template(tail, tags.lookup_fn(), keep_unknown));
                }
                pos = pos + 1;
            }
        } else {
            let ghost before = out@;
            out.push(t[pos]);
            proof {
                assert(out@ + fill_template(t@.skip(pos + 1), tags.lookup_fn(), keep_unknown) =~= before
                    + fill_template(tail, tags.lookup_fn(), keep_unknown));
            }
            pos = pos + 1;
        }
    }
    assert(t@.skip(pos as int) =~= Seq::<char>::empty());
    assert(out@ + Seq::<char>::empty() =~= out@);
    string_from_chars(&out)
}

proof fn lemma_close_index_bounds(s: Seq<char>)
    ensures
        close_index(s) <= s.len(),
        close_index(s) < s.len() ==> s[close_index(s) as int] == '}',
        forall|j: int| 0 <= j < close_index(s) ==> s[j] != '}',
    decreases s.len(),
{
    if s.len() > 0 && s[0] != '}' {
        lemma_close_index_bounds(s.drop_first());
        assert forall|j: int| 0 <= j < close_index(s) implies s[j] != '}' by {
            if j > 0 {
                assert(s[j] == s.drop_first()[j - 1]);
            }
        }
    }
}

/// A template without `{` is left exactly as it is, whatever the tags.
pub proof fn lemma_fill_plain_text(
    t: Seq<char>,
    tags: spec_fn(Seq<char>) -> Option<Seq<char>>,
    keep_unknown: bool,
)
    requires
        !t.contains('{'),
    ensures
        fill_template(t, tags, keep_unknown) == t,
    decreases t.len(),
{
    if t.len() > 0 {
        assert(t[0] != '{') by {
            if t[0] == '{' {
                assert(t.contains('{'));
            }
        }
        assert(!t.drop_first().contains('{')) by {
            if t.drop_first().contains('{') {
                let j = choose|j: int| 0 <= j < t.drop_first().len() && t.drop_first()[j] == '{';
                assert(t[j + 1] == '{');
            }
        }
        lemma_fill_plain_text(t.drop_first(), tags, keep_unknown);
        assert(seq![t[0]] + t.drop_first() =~= t);
    }
}

/// With placeholders kept and a table that knows no key, the filled text is the
/// template itself.
pub proof fn lemma_fill_unknown_kept(t: Seq<char>, tags: spec_fn(Seq<char>) -> Option<Seq<char>>)
    requires
        forall|k: Seq<char>| #[trigger] tags(k) is None,
    ensures
        fill_template(t, tags, true) == t,
    decreases t.len(),
{
    if t.len() > 0 {
        if t[0] == '{' {
            let rest = t.drop_first();
            let e = close_index(rest);
            lemma_close_index_bounds(rest);
            if e < rest.len() {
                assert(tags(rest.take(e as int)) is None);
                lemma_fill_unknown_kept(rest.skip(e + 1 as int), tags);
                assert(seq!['{'] + rest.take(e as int) + seq!['}'] + rest.skip(e + 1 as int) =~= t);
            } else {
                lemma_fill_unknown_kept(rest, tags);
                assert(seq!['{'] + rest =~= t);
            }
        } else {
            lemma_fill_unknown_kept(t.drop_first(), tags);
            assert(seq![t[0]] + t.drop_first() =~= t);
        }
    }
}

} // verus!
