//! The tag table: EXIF tag names (such as `make`, `iso`) mapped to the text shown
//! for them.

use vstd::prelude::*;

verus! {

/// Value of the first entry whose key is `k`, if any.
pub open spec fn lookup(s: Seq<(Seq<char>, Seq<char>)>, k: Seq<char>) -> Option<Seq<char>>
    decreases s.len(),
{
    if s.len() == 0 {
        None
    } else if s[0].0 == k {
        Some(s[0].1)
    } else {
        lookup(s.drop_first(), k)
    }
}

/// A lookup finds the first entry with the key.
pub proof fn lemma_lookup_first(s: Seq<(Seq<char>, Seq<char>)>, k: Seq<char>, i: int)
    requires
        0 <= i < s.len(),
        s[i].0 == k,
        forall|j: int| 0 <= j < i ==> s[j].0 != k,
    ensures
        lookup(s, k) == Some(s[i].1),
    decreases i,
{
    if i > 0 {
        lemma_lookup_first(s.drop_first(), k, i - 1);
    }
}

/// A lookup of a key that no entry has finds nothing.
pub proof fn lemma_lookup_absent(s: Seq<(Seq<char>, Seq<char>)>, k: Seq<char>)
    requires
        forall|j: int| 0 <= j < s.len() ==> s[j].0 != k,
    ensures
        lookup(s, k) is None,
    decreases s.len(),
{
    if s.len() > 0 {
        lemma_lookup_absent(s.drop_first(), k);
    }
}

/// When the entries have the same keys in the same places, a lookup lands on the
/// same place in both.
proof fn lemma_lookup_same_keys(
    s: Seq<(Seq<char>, Seq<char>)>,
    t: Seq<(Seq<char>, Seq<char>)>,
    k: Seq<char>,
)
    requires
        s.len() == t.len(),
        forall|j: int| 0 <= j < s.len() ==> s[j].0 == t[j].0,
    ensures
        lookup(s, k) is Some <==> lookup(t, k) is Some,
        lookup(s, k) is Some ==> exists|i: int|
            0 <= i < s.len() && s[i].0 == k && lookup(s, k) == Some(s[i].1) && lookup(t, k) == Some(
                t[i].1,
            ) && (forall|j: int| 0 <= j < i ==> s[j].0 != k),
    decreases s.len(),
{
    if s.len() > 0 {
        lemma_lookup_same_keys(s.drop_first(), t.drop_first(), k);
        if s[0].0 == k {
            assert(forall|j: int| 0 <= j < 0 ==> s[j].0 != k);
        } else if lookup(s, k) is Some {
            let i = choose|i: int|
                0 <= i < s.drop_first().len() && s.drop_first()[i].0 == k && lookup(s.drop_first(), k)
                    == Some(s.drop_first()[i].1) && lookup(t.drop_first(), k) == Some(
                    t.drop_first()[i].1,
                ) && (forall|j: int| 0 <= j < i ==> s.drop_first()[j].0 != k);
            assert(s[i + 1].0 == k);
            assert forall|j: int| 0 <= j < i + 1 implies s[j].0 != k by {
                if j > 0 {
                    assert(s.drop_first()[j - 1] == s[j]);
                }
            }
        }
    }
}

/// Maps tag names to the text shown for them; a key occurs at most once.
#[derive(Debug, Clone)]
pub struct ExifTags {
    entries: Vec<(String, String)>,
}

impl ExifTags {
    /// The entries, as pairs of character sequences.
    pub closed spec fn pairs(&self) -> Seq<(Seq<char>, Seq<char>)> {
        self.entries@.map_values(|p: (String, String)| (p.0@, p.1@))
    }

    /// The text of tag `k`, if the table holds one.
    pub closed spec fn value_of(&self, k: Seq<char>) -> Option<Seq<char>> {
        lookup(self.pairs(), k)
    }

    /// The table as a function from tag name to text.
    pub open spec fn lookup_fn(&self) -> spec_fn(Seq<char>) -> Option<Seq<char>> {
        |k: Seq<char>| self.value_of(k)
    }

    /// An empty table.
    pub fn new() -> (res: Self)
        ensures
            forall|k: Seq<char>| res.value_of(k) is None,
            res.spec_is_empty(),
    {
        let res = ExifTags { entries: Vec::new() };
        assert forall|k: Seq<char>| res.value_of(k) is None by {
            lemma_lookup_absent(res.pairs(), k);
        }
        res
    }

    /// The table holds no tag.
    pub open spec fn spec_is_empty(&self) -> bool {
        forall|k: Seq<char>| self.value_of(k) is None
    }

    fn find(&self, key: &String) -> (res: Option<usize>)
        ensures
            res matches Some(i) ==> i < self.entries@.len() && self.pairs()[i as int].0 == key@
                && self.value_of(key@) == Some(self.pairs()[i as int].1) && (forall|j: int|
                0 <= j < i ==> self.pairs()[j].0 != key@),
            res is None ==> self.value_of(key@) is None,
    {
        let mut i: usize = 0;
        while i < self.entries.len()
            invariant
                0 <= i <= self.entries@.len(),
                forall|j: int| 0 <= j < i ==> self.pairs()[j].0 != key@,
            decreases self.entries@.len() - i,
        {
            if self.entries[i].0 == *key {
                proof {
                    lemma_lookup_first(self.pairs(), key@, i as int);
                }
                return Some(i);
            }
            i = i + 1;
        }
        proof {
            lemma_lookup_absent(self.pairs(), key@);
        }
        None
    }

    /// The text stored for `key`.
    pub fn get(&self, key: &str) -> (res: Option<&String>)
        ensures
            res matches Some(v) ==> self.value_of(key@) == Some(v@),
            res is None ==> self.value_of(key@) is None,
    {
        let k = key.to_owned();
        match self.find(&k) {
            Some(i) => Some(&self.entries[i].1),
            None => None,
        }
    }

    /// Whether the table holds a text for `key`.
    pub fn contains_key(&self, key: &str) -> (res: bool)
        ensures
            res == self.value_of(key@) is Some,
    {
        let k = key.to_owned();
        self.find(&k).is_some()
    }

    /// Whether the table holds no tag at all.
    pub fn is_empty(&self) -> (res: bool)
        ensures
            res == self.spec_is_empty(),
    {
        if self.entries.len() == 0 {
            assert forall|k: Seq<char>| self.value_of(k) is None by {
                lemma_lookup_absent(self.pairs(), k);
            }
            true
        } else {
            proof {
                let k0 = self.pairs()[0].0;
                lemma_lookup_first(self.pairs(), k0, 0);
                assert(self.value_of(k0) is Some);
            }
            false
        }
    }

    /// Sets the text of `key`, replacing the one it had.
    pub fn insert(&mut self, key: &str, value: String)
        ensures
            final(self).value_of(key@) == Some(value@),
            forall|k: Seq<char>| k != key@ ==> final(self).value_of(k) == old(self).value_of(k),
    {
        let k = key.to_owned();
        let ghost old_pairs = self.pairs();
        match self.find(&k) {
            Some(i) => {
                self.entries.set(i, (k, value));
                proof {
                    let new_pairs = self.pairs();
                    assert(new_pairs.len() == old_pairs.len());
                    assert forall|j: int| 0 <= j < new_pairs.len() implies new_pairs[j].0
                        == old_pairs[j].0 by {}
                    assert forall|kk: Seq<char>| kk != key@ implies lookup(new_pairs, kk) == lookup(
                        old_pairs,
                        kk,
                    ) by {
                        lemma_lookup_same_keys(new_pairs, old_pairs, kk);
                        if lookup(new_pairs, kk) is Some {
                            let m = choose|m: int|
                                0 <= m < new_pairs.len() && new_pairs[m].0 == kk && lookup(
                                    new_pairs,
                                    kk,
                                ) == Some(new_pairs[m].1) && lookup(old_pairs, kk) == Some(
                                    old_pairs[m].1,
                                ) && (forall|j: int| 0 <= j < m ==> new_pairs[j].0 != kk);
                            assert(m != i);
                        }
                    }
                    assert(forall|j: int| 0 <= j < i ==> old_pairs[j].0 != key@);
                    lemma_lookup_first(new_pairs, key@, i as int);
                }
            },
            None => {
                self.entries.push((k, value));
                proof {
                    let new_pairs = self.pairs();
                    assert(new_pairs == old_pairs.push((key@, value@)));
                    assert forall|j: int| 0 <= j < old_pairs.len() implies old_pairs[j].0
                        != key@ by {
                        if old_pairs[j].0 == key@ {
                            lemma_lookup_witness(old_pairs, key@, j);
                        }
                    }
                    lemma_lookup_first(new_pairs, key@, old_pairs.len() as int);
                    assert forall|kk: Seq<char>| kk != key@ implies lookup(new_pairs, kk) == lookup(
                        old_pairs,
                        kk,
                    ) by {
                        lemma_lookup_push(old_pairs, kk, (key@, value@));
                    }
                }
            },
        }
    }

    /// Sets the text of `key` only when the table holds none yet.
    pub fn insert_if_absent(&mut self, key: &str, value: String)
        ensures
            old(self).value_of(key@) is Some ==> forall|k: Seq<char>| final(self).value_of(k) == old(
                self,
            ).value_of(k),
            old(self).value_of(key@) is None ==> final(self).value_of(key@) == Some(value@),
            forall|k: Seq<char>| k != key@ ==> final(self).value_of(k) == old(self).value_of(k),
    {
        if !self.contains_key(key) {
            self.insert(key, value);
        }
    }

    /// An entry-for-entry copy.
    pub fn copy(&self) -> (res: Self)
        ensures
            forall|k: Seq<char>| res.value_of(k) == self.value_of(k),
    {
        let mut entries: Vec<(String, String)> = Vec::new();
        let mut i: usize = 0;
        while i < self.entries.len()
            invariant
                0 <= i <= self.entries@.len(),
                entries@.len() == i,
                forall|j: int| 0 <= j < i ==> (#[trigger] entries@[j]).0@ == self.entries@[j].0@ && entries@[j].1@
                    == self.entries@[j].1@,
            decreases self.entries@.len() - i,
        {
            let k = self.entries[i].0.clone();
            let v = self.entries[i].1.clone();
            entries.push((k, v));
            i = i + 1;
        }
        let res = ExifTags { entries };
        assert(res.pairs() =~= self.pairs());
        res
    }
}

/// A lookup never finds an entry that is not the first one with its key, so an
/// entry with the key implies a result.
proof fn lemma_lookup_witness(s: Seq<(Seq<char>, Seq<char>)>, k: Seq<char>, i: int)
    requires
        0 <= i < s.len(),
        s[i].0 == k,
    ensures
        lookup(s, k) is Some,
    decreases i,
{
    if s[0].0 != k {
        lemma_lookup_witness(s.drop_first(), k, i - 1);
    }
}

/// Appending an entry with another key does not change a lookup.
proof fn lemma_lookup_push(s: Seq<(Seq<char>, Seq<char>)>, k: Seq<char>, e: (Seq<char>, Seq<char>))
    requires
        e.0 != k,
    ensures
        lookup(s.push(e), k) == lookup(s, k),
    decreases s.len(),
{
    if s.len() == 0 {
        assert(s.push(e).drop_first() =~= Seq::<(Seq<char>, Seq<char>)>::empty());
    } else {
        assert(s.push(e).drop_first() == s.drop_first().push(e));
        lemma_lookup_push(s.drop_first(), k, e);
    }
}

} // verus!
