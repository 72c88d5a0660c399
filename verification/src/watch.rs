//! Folder watching: which files are picked up, when a file counts as completely
//! written, and which events are duplicates of a write already handled.
//!
//! The watcher, the threads and the clock belong to the caller; times come in as
//! milliseconds of a monotonic clock.

use vstd::prelude::*;

use crate::text::{ascii_lower, chars_of, is_ascii_text, lowercase, string_from_chars, to_lowercase};

verus! {

/// After a path has been processed, further events for it within this many
/// milliseconds belong to the same write and are ignored.
pub const DEDUP_COOLDOWN_MS: u64 = 5000;

/// Where the last component of a path starts: just after its last `/` (0
/// without one).
pub open spec fn file_name_start(p: Seq<char>) -> nat
    decreases p.len(),
{
    if p.len() == 0 {
        0
    } else if p.last() == '/' {
        p.len()
    } else {
        file_name_start(p.drop_last())
    }
}

/// The last component of a path starts within it.
pub proof fn lemma_file_name_start_bound(p: Seq<char>)
    ensures
        file_name_start(p) <= p.len(),
    decreases p.len(),
{
    if p.len() > 0 {
        lemma_file_name_start_bound(p.drop_last());
    }
}

/// The file name of a path as `Path::file_name` finds it with `/` as the
/// separator: the last component, where empty components (repeated or
/// trailing `/`) and `.` components are skipped; `None` when that component
/// is `..` or there is none (an empty path, `/`, `.`).
pub open spec fn path_file_name(p: Seq<char>) -> Option<Seq<char>>
    decreases p.len(),
{
    let start = file_name_start(p);
    let seg = p.skip(start as int);
    if seg.len() == 0 || seg == seq!['.'] {
        if start == 0 {
            None
        } else {
            proof {
                lemma_file_name_start_bound(p);
            }
            path_file_name(p.take(start - 1))
        }
    } else if seg == seq!['.', '.'] {
        None
    } else {
        Some(seg)
    }
}

/// The position of the last `.` in `s`, if any.
pub open spec fn last_dot(s: Seq<char>) -> Option<nat>
    decreases s.len(),
{
    if s.len() == 0 {
        None
    } else if s.last() == '.' {
        Some((s.len() - 1) as nat)
    } else {
        last_dot(s.drop_last())
    }
}

/// The extension of a path as `Path::extension` finds it: what follows the
/// last `.` of its file name, when that `.` does not start the name.
pub open spec fn extension_part(path: Seq<char>) -> Option<Seq<char>> {
    match path_file_name(path) {
        Some(name) => match last_dot(name) {
            Some(i) => if i > 0 {
                Some(name.skip((i + 1) as int))
            } else {
                None
            },
            None => None,
        },
        None => None,
    }
}

/// Where the file name of the path lies in its characters.
fn file_name_range(cs: &Vec<char>) -> (res: Option<(usize, usize)>)
    ensures
        res matches Some((a, b)) ==> a <= b <= cs@.len() && path_file_name(cs@) == Some(
            cs@.subrange(a as int, b as int),
        ),
        res is None ==> path_file_name(cs@) is None,
{
    let mut end: usize = cs.len();
    assert(cs@.take(end as int) =~= cs@);
    loop
        invariant
            end <= cs@.len(),
            path_file_name(cs@) == path_file_name(cs@.take(end as int)),
        decreases end,
    {
        let ghost q = cs@.take(end as int);
        let mut i: usize = end;
        while i > 0 && cs[i - 1] != '/'
            invariant
                i <= end <= cs@.len(),
                q == cs@.take(end as int),
                file_name_start(q) == file_name_start(cs@.take(i as int)),
            decreases i,
        {
            assert(cs@.take(i as int).drop_last() =~= cs@.take(i - 1));
            i = i - 1;
        }
        let start = i;
        assert(file_name_start(q) == start) by {
            if start == 0 {
                assert(cs@.take(0) =~= Seq::<char>::empty());
            } else {
                assert(cs@.take(start as int).last() == '/');
            }
        }
        let ghost seg = q.skip(start as int);
        assert(seg =~= cs@.subrange(start as int, end as int));
        let len = end - start;
        if len == 0 || (len == 1 && cs[start] == '.') {
            assert(seg.len() == 0 || seg =~= seq!['.']);
            if start == 0 {
                return None;
            }
            assert(q.take(start - 1) =~= cs@.take(start - 1));
            end = start - 1;
        } else if len == 2 && cs[start] == '.' && cs[start + 1] == '.' {
            assert(seg =~= seq!['.', '.']);
            return None;
        } else {
            assert(seg.len() != 0);
            assert(seg != seq!['.']) by {
                if seg == seq!['.'] {
                    assert(seg.len() == 1 && seg[0] == '.');
                }
            }
            assert(seg != seq!['.', '.']) by {
                if seg == seq!['.', '.'] {
                    assert(seg.len() == 2 && seg[0] == '.' && seg[1] == '.');
                }
            }
            return Some((start, end));
        }
    }
}

fn path_extension(path: &str) -> (res: Option<String>)
    ensures
        res matches Some(e) ==> extension_part(path@) == Some(e@),
        res is None ==> extension_part(path@) is None,
{
    let cs = chars_of(path);
    let ghost p = cs@;
    let (start, end) = match file_name_range(&cs) {
        Some(r) => r,
        None => return None,
    };
    let ghost name = p.subrange(start as int, end as int);
    let mut j: usize = end;
    assert(p.subrange(start as int, j as int) =~= name);
    while j > start && cs[j - 1] != '.'
        invariant
            p == cs@,
            start <= j <= end <= p.len(),
            name == p.subrange(start as int, end as int),
            last_dot(name) == last_dot(p.subrange(start as int, j as int)),
        decreases j,
    {
        assert(p.subrange(start as int, j as int).drop_last() =~= p.subrange(start as int, j - 1));
        j = j - 1;
    }
    if j == start {
        assert(p.subrange(start as int, j as int) =~= Seq::<char>::empty());
        return None;
    }
    assert(last_dot(name) == Some((j - 1 - start) as nat));
    if j - 1 == start {
        return None;
    }
    let mut ext: Vec<char> = Vec::new();
    let mut k: usize = j;
    while k < end
        invariant
            p == cs@,
            j <= k <= end <= p.len(),
            ext@ =~= p.subrange(j as int, k as int),
        decreases end - k,
    {
        ext.push(cs[k]);
        k = k + 1;
    }
    assert(name.skip(j - start) =~= p.subrange(j as int, end as int));
    Some(string_from_chars(&ext))
}

/// The extensions that the watcher processes (lower case).
pub open spec fn watched_extension(e: Seq<char>) -> bool {
    e == "jpg"@ || e == "jpeg"@ || e == "png"@ || e == "tif"@ || e == "tiff"@ || e == "webp"@ || e
        == "bmp"@
}

/// A file is watched when its extension, lower-cased, is one of the image
/// extensions.
pub open spec fn is_watched(path: Seq<char>) -> bool {
    match extension_part(path) {
        Some(e) => watched_extension(lowercase(e)),
        None => false,
    }
}

fn same(a: &String, b: &str) -> (res: bool)
    ensures
        res == (a@ == b@),
{
    let bb = b.to_owned();
    *a == bb
}

/// Whether the file at `path` has an image extension (case-insensitive).
pub fn is_watched_ext(path: &str) -> (res: bool)
    ensures
        res == is_watched(path@),
        extension_part(path@) matches Some(e) ==> (is_ascii_text(e) ==> res == watched_extension(
            ascii_lower(e),
        )),
{
    match path_extension(path) {
        Some(e) => {
            let l = to_lowercase(e.as_str());
            same(&l, "jpg") || same(&l, "jpeg") || same(&l, "png") || same(&l, "tif") || same(
                &l,
                "tiff",
            ) || same(&l, "webp") || same(&l, "bmp")
        },
        None => false,
    }
}

/// One poll of a file being written: given the size seen at the previous poll
/// and the size seen now (`None` when it could not be read), whether the file
/// is complete, and the size to remember. A file is complete when two
/// consecutive readable polls see the same size.
pub fn poll_step(last_size: Option<u64>, observed: Option<u64>) -> (res: (bool, Option<u64>))
    ensures
        res.0 == (observed is Some && last_size == observed),
        !res.0 ==> res.1 == (if observed is Some {
            observed
        } else {
            last_size
        }),
{
    match observed {
        None => (false, last_size),
        Some(size) => {
            match last_size {
                Some(l) => {
                    if l == size {
                        (true, last_size)
                    } else {
                        (false, observed)
                    }
                },
                None => (false, observed),
            }
        },
    }
}

/// Milliseconds from `t` to `now` (zero when `now` is earlier).
pub open spec fn elapsed(now: u64, t: u64) -> int {
    if now >= t {
        now - t
    } else {
        0
    }
}

pub open spec fn str_views(v: Seq<String>) -> Seq<Seq<char>> {
    v.map_values(|s: String| s@)
}

pub open spec fn entry_keys(v: Seq<(String, u64)>) -> Seq<Seq<char>> {
    v.map_values(|e: (String, u64)| e.0@)
}

/// Bookkeeping that keeps one write, which the file system reports as several
/// events, from being processed twice: the paths being processed, and the
/// paths finished recently with the time they were finished.
#[derive(Debug, Clone, Default)]
pub struct DedupState {
    active: Vec<String>,
    recently_done: Vec<(String, u64)>,
}

/// A path may be claimed when it is not being processed and was not finished
/// within the cool-down.
pub open spec fn claimable(s: DedupState, path: Seq<char>, now_ms: u64) -> bool {
    !s.active_set().contains(path) && !(s.done_map().contains_key(path) && elapsed(
        now_ms,
        s.done_map()[path],
    ) < DEDUP_COOLDOWN_MS)
}

impl DedupState {
    /// No path occurs twice in either list.
    pub closed spec fn wf(&self) -> bool {
        &&& str_views(self.active@).no_duplicates()
        &&& entry_keys(self.recently_done@).no_duplicates()
    }

    /// The paths being processed.
    pub closed spec fn active_set(&self) -> Set<Seq<char>> {
        Set::new(|k: Seq<char>| str_views(self.active@).contains(k))
    }

    /// For each path finished recently, when it was finished.
    pub closed spec fn done_map(&self) -> Map<Seq<char>, u64> {
        Map::new(
            |k: Seq<char>| entry_keys(self.recently_done@).contains(k),
            |k: Seq<char>|
                self.recently_done@[entry_keys(self.recently_done@).index_of(k)].1,
        )
    }

    /// Nothing in progress, nothing finished.
    pub fn new() -> (res: Self)
        ensures
            res.wf(),
            res.active_set() == Set::<Seq<char>>::empty(),
            res.done_map() == Map::<Seq<char>, u64>::empty(),
    {
        let res = DedupState { active: Vec::new(), recently_done: Vec::new() };
        assert(res.active_set() =~= Set::<Seq<char>>::empty());
        assert(res.done_map() =~= Map::<Seq<char>, u64>::empty());
        res
    }

    fn active_index(&self, path: &String) -> (res: Option<usize>)
        ensures
            res matches Some(i) ==> i < self.active@.len() && self.active@[i as int]@ == path@,
            res is None ==> !str_views(self.active@).contains(path@),
    {
        let mut i: usize = 0;
        while i < self.active.len()
            invariant
                0 <= i <= self.active@.len(),
                forall|j: int| 0 <= j < i ==> self.active@[j]@ != path@,
            decreases self.active@.len() - i,
        {
            if self.active[i] == *path {
                return Some(i);
            }
            i = i + 1;
        }
        assert forall|j: int| 0 <= j < str_views(self.active@).len() implies str_views(
            self.active@,
        )[j] != path@ by {}
        None
    }

    fn done_index(&self, path: &String) -> (res: Option<usize>)
        ensures
            res matches Some(i) ==> i < self.recently_done@.len() && self.recently_done@[i as int].0@
                == path@,
            res is None ==> !entry_keys(self.recently_done@).contains(path@),
    {
        let mut i: usize = 0;
        while i < self.recently_done.len()
            invariant
                0 <= i <= self.recently_done@.len(),
                forall|j: int| 0 <= j < i ==> self.recently_done@[j].0@ != path@,
            decreases self.recently_done@.len() - i,
        {
            if self.recently_done[i].0 == *path {
                return Some(i);
            }
            i = i + 1;
        }
        assert forall|j: int| 0 <= j < entry_keys(self.recently_done@).len() implies entry_keys(
            self.recently_done@,
        )[j] != path@ by {}
        None
    }

    /// Registers `path` as being processed, unless it is being processed already
    /// or was finished less than the cool-down ago; says whether it did.
    pub fn try_claim(&mut self, path: &str, now_ms: u64) -> (res: bool)
        requires
            old(self).wf(),
        ensures
            final(self).wf(),
            res == claimable(*old(self), path@, now_ms),
            res ==> final(self).active_set() == old(self).active_set().insert(path@),
            !res ==> final(self).active_set() == old(self).active_set(),
            final(self).done_map() == old(self).done_map(),
            (final(self).active_set(), final(self).done_map()) == watch_step(
                (old(self).active_set(), old(self).done_map()),
                (true, path@, now_ms),
            ),
    {
        let p = path.to_owned();
        match self.active_index(&p) {
            Some(i) => {
                assert(str_views(self.active@)[i as int] == path@);
                return false;
            },
            None => {},
        }
        match self.done_index(&p) {
            Some(i) => {
                let t = self.recently_done[i].1;
                proof {
                    let ks = entry_keys(self.recently_done@);
                    assert(ks[i as int] == path@);
                    assert(ks.contains(path@));
                    assert(ks[ks.index_of(path@)] == path@);
                    assert(ks.index_of(path@) == i);
                }
                let e: u64 = if now_ms >= t {
                    now_ms - t
                } else {
                    0
                };
                if e < DEDUP_COOLDOWN_MS {
                    return false;
                }
            },
            None => {},
        }
        let ghost old_views = str_views(self.active@);
        self.active.push(p);
        proof {
            assert(str_views(self.active@) =~= old_views.push(path@));
            assert forall|k: Seq<char>| #[trigger] str_views(self.active@).contains(k) == (old_views.contains(k) || k == path@) by {
                if old_views.contains(k) {
                    let j = choose|j: int| 0 <= j < old_views.len() && old_views[j] == k;
                    assert(str_views(self.active@)[j] == k);
                }
                if k == path@ {
                    assert(str_views(self.active@)[old_views.len() as int] == k);
                }
                if str_views(self.active@).contains(k) {
                    let j = choose|j: int| 0 <= j < str_views(self.active@).len() && str_views(self.active@)[j] == k;
                    if j < old_views.len() {
                        assert(old_views[j] == k);
                    }
                }
            }
            assert(self.active_set() =~= Set::new(|k: Seq<char>| old_views.contains(k)).insert(path@));
        }
        true
    }

    /// Marks `path` as finished at `now_ms`: it is no longer being processed, it
    /// is remembered as finished now, and records older than the cool-down are
    /// forgotten.
    pub fn mark_done(&mut self, path: &str, now_ms: u64)
        requires
            old(self).wf(),
        ensures
            final(self).wf(),
            final(self).active_set() == old(self).active_set().remove(path@),
            final(self).done_map() == Map::new(
                |k: Seq<char>|
                    k == path@ || (old(self).done_map().contains_key(k) && elapsed(
                        now_ms,
                        old(self).done_map()[k],
                    ) < DEDUP_COOLDOWN_MS),
                |k: Seq<char>|
                    if k == path@ {
                        now_ms
                    } else {
                        old(self).done_map()[k]
                    },
            ),
            (final(self).active_set(), final(self).done_map()) == watch_step(
                (old(self).active_set(), old(self).done_map()),
                (false, path@, now_ms),
            ),
    {
        let p = path.to_owned();
        let ghost old_active = self.active@;
        let mut active: Vec<String> = Vec::new();
        let mut i: usize = 0;
        while i < self.active.len()
            invariant
                0 <= i <= self.active@.len(),
                self.active@ == old_active,
                str_views(old_active).no_duplicates(),
                str_views(active@).no_duplicates(),
                forall|k: Seq<char>|
                    #[trigger] str_views(active@).contains(k) <==> (k != p@ && exists|m: int|
                        0 <= m < i && str_views(old_active)[m] == k),
            decreases self.active@.len() - i,
        {
            let ghost before = str_views(active@);
            let ghost cur = str_views(old_active)[i as int];
            if self.active[i] != p {
                let a = self.active[i].clone();
                active.push(a);
                proof {
                    assert(str_views(active@) =~= before.push(cur));
                    assert(!before.contains(cur)) by {
                        if before.contains(cur) {
                            let m = choose|m: int| 0 <= m < i && str_views(old_active)[m] == cur;
                            assert(str_views(old_active)[m] == str_views(old_active)[i as int]);
                        }
                    }
                    assert forall|k: Seq<char>| #[trigger] str_views(active@).contains(k) <==> (k != p@
                        && exists|m: int| 0 <= m < i + 1 && str_views(old_active)[m] == k) by {
                        if str_views(active@).contains(k) {
                            let j = choose|j: int| 0 <= j < str_views(active@).len() && str_views(active@)[j] == k;
                            if j < before.len() {
                                assert(before[j] == k);
                                assert(before.contains(k));
                            } else {
                                assert(str_views(old_active)[i as int] == k);
                            }
                        }
                        if k != p@ && exists|m: int| 0 <= m < i + 1 && str_views(old_active)[m] == k {
                            let m = choose|m: int| 0 <= m < i + 1 && str_views(old_active)[m] == k;
                            if m < i {
                                assert(before.contains(k));
                                let j = choose|j: int| 0 <= j < before.len() && before[j] == k;
                                assert(str_views(active@)[j] == k);
                            } else {
                                assert(str_views(active@)[before.len() as int] == k);
                            }
                        }
                    }
                }
            } else {
                proof {
                    assert forall|k: Seq<char>| #[trigger] str_views(active@).contains(k) <==> (k != p@
                        && exists|m: int| 0 <= m < i + 1 && str_views(old_active)[m] == k) by {
                        if k != p@ && exists|m: int| 0 <= m < i + 1 && str_views(old_active)[m] == k {
                            let m = choose|m: int| 0 <= m < i + 1 && str_views(old_active)[m] == k;
                            assert(m < i);
                        }
                    }
                }
            }
            i = i + 1;
        }
        let ghost old_done = self.done_map();
        let ghost old_entries = self.recently_done@;
        let mut done: Vec<(String, u64)> = Vec::new();
        let mut k: usize = 0;
        while k < self.recently_done.len()
            invariant
                0 <= k <= self.recently_done@.len(),
                self.recently_done@ == old_entries,
                entry_keys(old_entries).no_duplicates(),
                entry_keys(done@).no_duplicates(),
                old_done == Map::new(
                    |kk: Seq<char>| entry_keys(old_entries).contains(kk),
                    |kk: Seq<char>| old_entries[entry_keys(old_entries).index_of(kk)].1,
                ),
                forall|j: int| 0 <= j < done@.len() ==> done@[j].0@ != p@,
                forall|j: int|
                    0 <= j < done@.len() ==> {
                        &&& old_done.contains_key(#[trigger] done@[j].0@)
                        &&& old_done[done@[j].0@] == done@[j].1
                        &&& elapsed(now_ms, done@[j].1) < DEDUP_COOLDOWN_MS
                    },
                forall|m: int|
                    0 <= m < k && old_entries[m].0@ != p@ && elapsed(now_ms, old_entries[m].1)
                        < DEDUP_COOLDOWN_MS ==> #[trigger] entry_keys(done@).contains(
                        old_entries[m].0@,
                    ),
                forall|j: int|
                    #![trigger done@[j]]
                    0 <= j < done@.len() ==> exists|m: int|
                        0 <= m < k && #[trigger] old_entries[m].0@ == done@[j].0@,
            decreases self.recently_done@.len() - k,
        {
            let t = self.recently_done[k].1;
            let e: u64 = if now_ms >= t {
                now_ms - t
            } else {
                0
            };
            proof {
                let ks = entry_keys(old_entries);
                assert(ks[k as int] == old_entries[k as int].0@);
                assert(ks.contains(old_entries[k as int].0@));
                assert(ks[ks.index_of(old_entries[k as int].0@)] == old_entries[k as int].0@);
                assert(ks.index_of(old_entries[k as int].0@) == k);
            }
            if self.recently_done[k].0 != p && e < DEDUP_COOLDOWN_MS {
                let key = self.recently_done[k].0.clone();
                let ghost before = done@;
                done.push((key, t));
                proof {
                    assert(entry_keys(done@) =~= entry_keys(before).push(old_entries[k as int].0@));
                    assert(!entry_keys(before).contains(old_entries[k as int].0@)) by {
                        if entry_keys(before).contains(old_entries[k as int].0@) {
                            let j = choose|j: int|
                                0 <= j < entry_keys(before).len() && entry_keys(before)[j]
                                    == old_entries[k as int].0@;
                            assert(before[j].0@ == old_entries[k as int].0@);
                            let m = choose|m: int|
                                0 <= m < k && #[trigger] old_entries[m].0@ == before[j].0@;
                            assert(entry_keys(old_entries)[m] == entry_keys(old_entries)[k as int]);
                        }
                    }
                    assert forall|m: int|
                        0 <= m < k + 1 && old_entries[m].0@ != p@ && elapsed(now_ms, old_entries[m].1)
                            < DEDUP_COOLDOWN_MS implies #[trigger] entry_keys(done@).contains(
                        old_entries[m].0@,
                    ) by {
                        if m < k {
                            assert(entry_keys(before).contains(old_entries[m].0@));
                            let j = choose|j: int|
                                0 <= j < entry_keys(before).len() && entry_keys(before)[j]
                                    == old_entries[m].0@;
                            assert(entry_keys(done@)[j] == old_entries[m].0@);
                        } else {
                            assert(entry_keys(done@)[before.len() as int] == old_entries[m].0@);
                        }
                    }
                    assert forall|j: int| #![trigger done@[j]] 0 <= j < done@.len() implies exists|m: int|
                        0 <= m < k + 1 && #[trigger] old_entries[m].0@ == done@[j].0@ by {
                        if j < before.len() {
                            assert(done@[j] == before[j]);
                        } else {
                            assert(old_entries[k as int].0@ == done@[j].0@);
                        }
                    }
                }
            } else {
                proof {
                    assert forall|m: int|
                        0 <= m < k + 1 && old_entries[m].0@ != p@ && elapsed(now_ms, old_entries[m].1)
                            < DEDUP_COOLDOWN_MS implies #[trigger] entry_keys(done@).contains(
                        old_entries[m].0@,
                    ) by {}
                }
            }
            k = k + 1;
        }
        let ghost before_push = done@;
        done.push((p, now_ms));
        proof {
            assert(entry_keys(done@) =~= entry_keys(before_push).push(path@));
            assert(!entry_keys(before_push).contains(path@));
        }
        self.active = active;
        self.recently_done = done;
        proof {
            let expected = Map::new(
                |kk: Seq<char>|
                    kk == path@ || (old_done.contains_key(kk) && elapsed(now_ms, old_done[kk])
                        < DEDUP_COOLDOWN_MS),
                |kk: Seq<char>|
                    if kk == path@ {
                        now_ms
                    } else {
                        old_done[kk]
                    },
            );
            let ks = entry_keys(self.recently_done@);
            assert forall|kk: Seq<char>| #[trigger] expected.contains_key(kk) == ks.contains(kk) by {
                if kk == path@ {
                    assert(ks[ks.len() - 1] == kk);
                } else if old_done.contains_key(kk) && elapsed(now_ms, old_done[kk]) < DEDUP_COOLDOWN_MS {
                    let m = entry_keys(old_entries).index_of(kk);
                    assert(entry_keys(old_entries)[m] == kk);
                    assert(old_entries[m].0@ == kk);
                    assert(entry_keys(before_push).contains(kk));
                    let j = choose|j: int|
                        0 <= j < entry_keys(before_push).len() && entry_keys(before_push)[j] == kk;
                    assert(ks[j] == kk);
                } else if ks.contains(kk) {
                    let j = choose|j: int| 0 <= j < ks.len() && ks[j] == kk;
                    assert(j < before_push.len());
                    assert(before_push[j].0@ == kk);
                }
            }
            assert forall|kk: Seq<char>| #[trigger] expected.contains_key(kk) implies self.done_map()[kk]
                == expected[kk] by {
                assert(ks.contains(kk));
                let j = ks.index_of(kk);
                assert(ks[j] == kk);
                if kk == path@ {
                    assert(ks[ks.len() - 1] == kk);
                    assert(j == ks.len() - 1);
                } else {
                    assert(j < before_push.len());
                    assert(before_push[j].0@ == kk);
                    let m = entry_keys(old_entries).index_of(kk);
                    assert(entry_keys(old_entries)[m] == kk);
                }
            }
            assert(self.done_map() =~= expected);
            assert forall|k: Seq<char>| #[trigger] str_views(old_active).contains(k) <==> exists|m: int|
                0 <= m < old_active.len() && str_views(old_active)[m] == k by {}
            assert(self.active_set() =~= old(self).active_set().remove(path@));
        }
    }
}

/// A claimed path cannot be claimed again while it is being processed.
pub proof fn lemma_claim_blocks_while_active(s: DedupState, path: Seq<char>, now_ms: u64)
    requires
        s.active_set().contains(path),
    ensures
        !claimable(s, path, now_ms),
{
}

/// Once a path is finished at `done_ms` (and not being processed again), it can
/// be claimed exactly when the cool-down has passed.
pub proof fn lemma_claim_after_done(s: DedupState, path: Seq<char>, done_ms: u64, now_ms: u64)
    requires
        s.done_map().contains_key(path),
        s.done_map()[path] == done_ms,
        !s.active_set().contains(path),
    ensures
        claimable(s, path, now_ms) <==> elapsed(now_ms, done_ms) >= DEDUP_COOLDOWN_MS,
{
}

/// Finishing a path leaves it unclaimable for the whole cool-down that follows.
pub proof fn lemma_done_then_cooldown(before: DedupState, after: DedupState, path: Seq<char>, done_ms: u64, now_ms: u64)
    requires
        after.active_set() == before.active_set().remove(path),
        after.done_map().contains_key(path),
        after.done_map()[path] == done_ms,
        done_ms <= now_ms < done_ms + DEDUP_COOLDOWN_MS,
    ensures
        !claimable(after, path, now_ms),
{
}

/// The paths being processed after claiming, one after the other, the watched
/// paths of one file-system event.
pub open spec fn active_after(
    active: Set<Seq<char>>,
    done: Map<Seq<char>, u64>,
    paths: Seq<Seq<char>>,
    now_ms: u64,
) -> Set<Seq<char>>
    decreases paths.len(),
{
    if paths.len() == 0 {
        active
    } else {
        let a = active_after(active, done, paths.drop_last(), now_ms);
        let p = paths.last();
        if is_watched(p) && claimable_in(a, done, p, now_ms) {
            a.insert(p)
        } else {
            a
        }
    }
}

/// `claimable`, over the set of paths being processed and the finish times.
pub open spec fn claimable_in(active: Set<Seq<char>>, done: Map<Seq<char>, u64>, path: Seq<char>, now_ms: u64) -> bool {
    !active.contains(path) && !(done.contains_key(path) && elapsed(now_ms, done[path])
        < DEDUP_COOLDOWN_MS)
}

/// The paths of one event that get processed, in order: those with an image
/// extension that can be claimed when their turn comes.
pub open spec fn claimed_paths(
    active: Set<Seq<char>>,
    done: Map<Seq<char>, u64>,
    paths: Seq<Seq<char>>,
    now_ms: u64,
) -> Seq<Seq<char>>
    decreases paths.len(),
{
    if paths.len() == 0 {
        Seq::empty()
    } else {
        let prev = claimed_paths(active, done, paths.drop_last(), now_ms);
        let a = active_after(active, done, paths.drop_last(), now_ms);
        let p = paths.last();
        if is_watched(p) && claimable_in(a, done, p, now_ms) {
            prev.push(p)
        } else {
            prev
        }
    }
}

impl DedupState {
    /// The decision of the watch loop for one creation or modification event:
    /// claims, in order, each of its paths that has an image extension and is
    /// neither being processed nor in its cool-down, and returns those paths
    /// (each one is then processed, and marked done when finished).
    pub fn claim_event_paths(&mut self, paths: &Vec<String>, now_ms: u64) -> (res: Vec<String>)
        requires
            old(self).wf(),
        ensures
            final(self).wf(),
            final(self).active_set() == active_after(
                old(self).active_set(),
                old(self).done_map(),
                str_views(paths@),
                now_ms,
            ),
            final(self).done_map() == old(self).done_map(),
            str_views(res@) == claimed_paths(
                old(self).active_set(),
                old(self).done_map(),
                str_views(paths@),
                now_ms,
            ),
    {
        let ghost active0 = self.active_set();
        let ghost done0 = self.done_map();
        let mut out: Vec<String> = Vec::new();
        let mut i: usize = 0;
        while i < paths.len()
            invariant
                self.wf(),
                0 <= i <= paths@.len(),
                self.done_map() == done0,
                self.active_set() == active_after(active0, done0, str_views(paths@).take(i as int), now_ms),
                str_views(out@) == claimed_paths(active0, done0, str_views(paths@).take(i as int), now_ms),
            decreases paths@.len() - i,
        {
            let ghost pre = str_views(paths@).take(i as int);
            let ghost cur = str_views(paths@).take(i + 1);
            assert(cur.drop_last() =~= pre);
            assert(cur.last() == paths@[i as int]@);
            let p = paths[i].as_str();
            if is_watched_ext(p) {
                let claimed = self.try_claim(p, now_ms);
                if claimed {
                    out.push(paths[i].clone());
                    assert(str_views(out@) =~= str_views(out@).drop_last().push(paths@[i as int]@));
                }
            }
            i = i + 1;
        }
        assert(str_views(paths@).take(paths@.len() as int) =~= str_views(paths@));
        out
    }
}

/// The kind of a file-system event, as far as the watcher tells kinds apart.
#[derive(Clone, Copy, Debug, PartialEq, Eq, Structural)]
pub enum WatchEventKind {
    /// A file was created.
    Create,
    /// A file was modified (written, renamed, its metadata changed).
    Modify,
    /// Anything else (access, removal, unknown).
    Other,
}

/// Only creations and modifications can bring a new file to process.
pub open spec fn brings_files(kind: WatchEventKind) -> bool {
    kind is Create || kind is Modify
}

/// The claims that one creation or modification event makes: one per path
/// with an image extension, in order, at the event's time.
pub open spec fn watched_claims(paths: Seq<Seq<char>>, now_ms: u64) -> Seq<(bool, Seq<char>, u64)>
    decreases paths.len(),
{
    if paths.len() == 0 {
        Seq::empty()
    } else if is_watched(paths.last()) {
        watched_claims(paths.drop_last(), now_ms).push((true, paths.last(), now_ms))
    } else {
        watched_claims(paths.drop_last(), now_ms)
    }
}

/// The claims that an event makes: those of its watched paths for a creation
/// or modification, none for anything else.
pub open spec fn event_ops(kind: WatchEventKind, paths: Seq<Seq<char>>, now_ms: u64) -> Seq<
    (bool, Seq<char>, u64),
> {
    if brings_files(kind) {
        watched_claims(paths, now_ms)
    } else {
        Seq::empty()
    }
}

/// The state after the steps `ops`, from `st`.
pub open spec fn run_from(
    st: (Set<Seq<char>>, Map<Seq<char>, u64>),
    ops: Seq<(bool, Seq<char>, u64)>,
) -> (Set<Seq<char>>, Map<Seq<char>, u64>)
    decreases ops.len(),
{
    if ops.len() == 0 {
        st
    } else {
        watch_step(run_from(st, ops.drop_last()), ops.last())
    }
}

proof fn lemma_watched_claims_run(
    active: Set<Seq<char>>,
    done: Map<Seq<char>, u64>,
    paths: Seq<Seq<char>>,
    now_ms: u64,
)
    ensures
        run_from((active, done), watched_claims(paths, now_ms)) == (active_after(active, done, paths, now_ms), done),
    decreases paths.len(),
{
    if paths.len() > 0 {
        lemma_watched_claims_run(active, done, paths.drop_last(), now_ms);
        let w = watched_claims(paths.drop_last(), now_ms);
        if is_watched(paths.last()) {
            let v = w.push((true, paths.last(), now_ms));
            assert(v.drop_last() =~= w);
        }
    }
}

impl DedupState {
    /// The decision of the watch loop for one event: a creation or
    /// modification claims its paths as `claim_event_paths` does; any other
    /// event claims nothing and changes nothing.
    pub fn claim_event(&mut self, kind: WatchEventKind, paths: &Vec<String>, now_ms: u64) -> (res: Vec<
        String,
    >)
        requires
            old(self).wf(),
        ensures
            final(self).wf(),
            final(self).done_map() == old(self).done_map(),
            brings_files(kind) ==> final(self).active_set() == active_after(
                old(self).active_set(),
                old(self).done_map(),
                str_views(paths@),
                now_ms,
            ),
            brings_files(kind) ==> str_views(res@) == claimed_paths(
                old(self).active_set(),
                old(self).done_map(),
                str_views(paths@),
                now_ms,
            ),
            !brings_files(kind) ==> final(self).active_set() == old(self).active_set() && res@.len() == 0,
            (final(self).active_set(), final(self).done_map()) == run_from(
                (old(self).active_set(), old(self).done_map()),
                event_ops(kind, str_views(paths@), now_ms),
            ),
    {
        proof {
            lemma_watched_claims_run(self.active_set(), self.done_map(), str_views(paths@), now_ms);
        }
        match kind {
            WatchEventKind::Create | WatchEventKind::Modify => self.claim_event_paths(paths, now_ms),
            WatchEventKind::Other => Vec::new(),
        }
    }
}

// —— a whole run of the watcher ————————————————————————————————

/// The paths being processed and the finish times, after one step of a run:
/// a claim `(true, path, now)` registers the path when it may be claimed; a
/// finish `(false, path, now)` is `mark_done`.
pub open spec fn watch_step(
    st: (Set<Seq<char>>, Map<Seq<char>, u64>),
    op: (bool, Seq<char>, u64),
) -> (Set<Seq<char>>, Map<Seq<char>, u64>) {
    if op.0 {
        if claimable_in(st.0, st.1, op.1, op.2) {
            (st.0.insert(op.1), st.1)
        } else {
            st
        }
    } else {
        (
            st.0.remove(op.1),
            Map::new(
                |k: Seq<char>|
                    k == op.1 || (st.1.contains_key(k) && elapsed(op.2, st.1[k]) < DEDUP_COOLDOWN_MS),
                |k: Seq<char>|
                    if k == op.1 {
                        op.2
                    } else {
                        st.1[k]
                    },
            ),
        )
    }
}

/// The state after a run of claims and finishes, from the empty state.
pub open spec fn watch_run(ops: Seq<(bool, Seq<char>, u64)>) -> (Set<Seq<char>>, Map<Seq<char>, u64>)
    decreases ops.len(),
{
    if ops.len() == 0 {
        (Set::empty(), Map::empty())
    } else {
        watch_step(watch_run(ops.drop_last()), ops.last())
    }
}

/// Step `i` of the run is a claim that was granted (its file gets processed).
pub open spec fn granted(ops: Seq<(bool, Seq<char>, u64)>, i: int) -> bool {
    let st = watch_run(ops.take(i));
    ops[i].0 && claimable_in(st.0, st.1, ops[i].1, ops[i].2)
}

/// Step `m` of the run finishes `p`.
pub open spec fn finishes(ops: Seq<(bool, Seq<char>, u64)>, m: int, p: Seq<char>) -> bool {
    !ops[m].0 && ops[m].1 == p
}

/// The clock of a run does not go backwards.
pub open spec fn times_ordered(ops: Seq<(bool, Seq<char>, u64)>) -> bool {
    forall|a: int, b: int| 0 <= a <= b < ops.len() ==> ops[a].2 <= ops[b].2
}

proof fn lemma_run_invariant(ops: Seq<(bool, Seq<char>, u64)>, n: int)
    requires
        0 <= n <= ops.len(),
    ensures
        forall|i: int|
            0 <= i < n && #[trigger] granted(ops, i) && (forall|m: int|
                i < m < n ==> !finishes(ops, m, ops[i].1)) ==> watch_run(ops.take(n)).0.contains(
                ops[i].1,
            ),
        forall|j: int|
            0 <= j < n && !(#[trigger] ops[j]).0 && (forall|m: int| j < m < n ==> !finishes(ops, m, ops[j].1))
                ==> (watch_run(ops.take(n)).1.contains_key(ops[j].1) && watch_run(ops.take(n)).1[ops[j].1]
                == ops[j].2) || (exists|m: int| j < m < n && ops[m].2 >= ops[j].2 + DEDUP_COOLDOWN_MS),
    decreases n,
{
    if n > 0 {
        lemma_run_invariant(ops, n - 1);
        let prev = watch_run(ops.take(n - 1));
        let op = ops[n - 1];
        assert(ops.take(n).drop_last() =~= ops.take(n - 1));
        assert(ops.take(n).last() == op);
        let cur = watch_run(ops.take(n));
        assert(cur == watch_step(prev, op));
        assert forall|i: int|
            0 <= i < n && #[trigger] granted(ops, i) && (forall|m: int|
                i < m < n ==> !finishes(ops, m, ops[i].1)) implies cur.0.contains(ops[i].1) by {
            if i == n - 1 {
                assert(ops.take(i) =~= ops.take(n - 1));
            } else {
                assert(!finishes(ops, n - 1, ops[i].1));
            }
        }
        assert forall|j: int|
            0 <= j < n && !(#[trigger] ops[j]).0 && (forall|m: int| j < m < n ==> !finishes(ops, m, ops[j].1))
                implies (cur.1.contains_key(ops[j].1) && cur.1[ops[j].1] == ops[j].2) || (exists|m: int|
            j < m < n && ops[m].2 >= ops[j].2 + DEDUP_COOLDOWN_MS) by {
            if j < n - 1 {
                assert(!finishes(ops, n - 1, ops[j].1));
                if !op.0 && prev.1.contains_key(ops[j].1) && prev.1[ops[j].1] == ops[j].2 && !cur.1.contains_key(
                    ops[j].1,
                ) {
                    assert(op.2 >= ops[j].2 + DEDUP_COOLDOWN_MS);
                    assert(j < n - 1 < n);
                }
            }
        }
    }
}

/// Over a whole run, a path is never processed twice at once: between two
/// granted claims of the same path there is a finish of it.
pub proof fn lemma_no_double_processing(ops: Seq<(bool, Seq<char>, u64)>, i: int, k: int)
    requires
        0 <= i < k < ops.len(),
        granted(ops, i),
        granted(ops, k),
        ops[i].1 == ops[k].1,
    ensures
        exists|j: int| i < j < k && finishes(ops, j, ops[k].1),
{
    if forall|m: int| i < m < k ==> !finishes(ops, m, ops[i].1) {
        lemma_run_invariant(ops, k);
        assert(watch_run(ops.take(k)).0.contains(ops[i].1));
    }
}

/// Over a whole run with a clock that does not go backwards, a path is not
/// processed again within the cool-down after it was last finished.
pub proof fn lemma_cooldown_over_run(ops: Seq<(bool, Seq<char>, u64)>, j: int, k: int)
    requires
        times_ordered(ops),
        0 <= j < k < ops.len(),
        finishes(ops, j, ops[k].1),
        forall|m: int| j < m < k ==> !finishes(ops, m, ops[k].1),
        granted(ops, k),
    ensures
        ops[k].2 >= ops[j].2 + DEDUP_COOLDOWN_MS,
{
    lemma_run_invariant(ops, k);
    assert(!ops[j].0);
    let st = watch_run(ops.take(k));
    if !(st.1.contains_key(ops[j].1) && st.1[ops[j].1] == ops[j].2) {
        let m = choose|m: int| j < m < k && ops[m].2 >= ops[j].2 + DEDUP_COOLDOWN_MS;
        assert(ops[m].2 <= ops[k].2);
    }
}


/// A step of the watcher: an event `(Some(kind), paths, now)`, or the finish
/// of the processing of `paths` at `now` `(None, paths, now)`.
pub open spec fn step_ops(step: (Option<WatchEventKind>, Seq<Seq<char>>, u64)) -> Seq<(bool, Seq<char>, u64)> {
    match step.0 {
        Some(kind) => event_ops(kind, step.1, step.2),
        None => step.1.map_values(|p: Seq<char>| (false, p, step.2)),
    }
}

/// The claims and finishes of a run of watcher steps, in order.
pub open spec fn run_ops(steps: Seq<(Option<WatchEventKind>, Seq<Seq<char>>, u64)>) -> Seq<(bool, Seq<char>, u64)>
    decreases steps.len(),
{
    if steps.len() == 0 {
        Seq::empty()
    } else {
        run_ops(steps.drop_last()) + step_ops(steps.last())
    }
}

proof fn lemma_watched_claims_origin(paths: Seq<Seq<char>>, now_ms: u64)
    ensures
        forall|j: int|
            0 <= j < watched_claims(paths, now_ms).len() ==> (#[trigger] watched_claims(paths, now_ms)[j]).0
                && is_watched(watched_claims(paths, now_ms)[j].1) && paths.contains(
                watched_claims(paths, now_ms)[j].1,
            ) && watched_claims(paths, now_ms)[j].2 == now_ms,
    decreases paths.len(),
{
    if paths.len() > 0 {
        let d = paths.drop_last();
        lemma_watched_claims_origin(d, now_ms);
        let w = watched_claims(d, now_ms);
        assert forall|j: int| 0 <= j < w.len() implies paths.contains(#[trigger] w[j].1) by {
            let k = choose|k: int| 0 <= k < d.len() && d[k] == w[j].1;
            assert(paths[k] == d[k]);
        }
        assert(paths[paths.len() - 1] == paths.last());
    }
}

/// Step `step` is a creation or modification event that names `p`, which has
/// an image extension, at time `t`.
pub open spec fn from_file_event(step: (Option<WatchEventKind>, Seq<Seq<char>>, u64), p: Seq<char>, t: u64) -> bool {
    &&& step.0 matches Some(kind) && brings_files(kind)
    &&& step.1.contains(p)
    &&& is_watched(p)
    &&& t == step.2
}

/// Every claim in a run of the watcher comes from a creation or modification
/// event, for one of that event's paths that has an image extension, at the
/// event's time: no other event, and no other file, is ever processed.
pub proof fn lemma_claims_from_file_events(steps: Seq<(Option<WatchEventKind>, Seq<Seq<char>>, u64)>, i: int)
    requires
        0 <= i < run_ops(steps).len(),
        run_ops(steps)[i].0,
    ensures
        exists|s: int|
            0 <= s < steps.len() && from_file_event(#[trigger] steps[s], run_ops(steps)[i].1, run_ops(steps)[i].2),
    decreases steps.len(),
{
    let d = steps.drop_last();
    let prev = run_ops(d);
    let last = step_ops(steps.last());
    assert(run_ops(steps) == prev + last);
    if i < prev.len() {
        assert(run_ops(steps)[i] == prev[i]);
        lemma_claims_from_file_events(d, i);
        let s = choose|s: int| 0 <= s < d.len() && from_file_event(#[trigger] d[s], prev[i].1, prev[i].2);
        assert(steps[s] == d[s]);
    } else {
        let j = i - prev.len();
        assert(run_ops(steps)[i] == last[j]);
        let st = steps.last();
        assert(steps[steps.len() - 1] == st);
        match st.0 {
            Some(kind) => {
                if brings_files(kind) {
                    lemma_watched_claims_origin(st.1, st.2);
                } else {
                    assert(last.len() == 0);
                }
            },
            None => {
                assert(!last[j].0);
            },
        }
    }
}


/// Running two stretches of steps one after the other is running them
/// together.
pub proof fn lemma_run_from_concat(
    st: (Set<Seq<char>>, Map<Seq<char>, u64>),
    a: Seq<(bool, Seq<char>, u64)>,
    b: Seq<(bool, Seq<char>, u64)>,
)
    ensures
        run_from(st, a + b) == run_from(run_from(st, a), b),
    decreases b.len(),
{
    if b.len() == 0 {
        assert(a + b =~= a);
    } else {
        lemma_run_from_concat(st, a, b.drop_last());
        assert((a + b).drop_last() =~= a + b.drop_last());
        assert((a + b).last() == b.last());
    }
}

/// A run from the empty state, as `DedupState::new` starts one, is `watch_run`.
pub proof fn lemma_watch_run_from_empty(ops: Seq<(bool, Seq<char>, u64)>)
    ensures
        watch_run(ops) == run_from((Set::<Seq<char>>::empty(), Map::<Seq<char>, u64>::empty()), ops),
    decreases ops.len(),
{
    if ops.len() > 0 {
        lemma_watch_run_from_empty(ops.drop_last());
    }
}

} // verus!
