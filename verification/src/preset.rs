//! Named presets of watermark settings. A name identifies a preset: saving one
//! under an existing name replaces it.
//!
//! Reading and writing the presets file is the caller's; this module holds the
//! list operations.

use vstd::prelude::*;

use crate::position::WatermarkConfig;

verus! {

/// A named set of watermark settings, with the signature image it was made for.
#[derive(Debug, Clone)]
pub struct Preset {
    pub name: String,
    pub config: WatermarkConfig,
    pub watermark_path: Option<String>,
}

/// Index of the first preset named `name`, if any.
pub open spec fn first_named(all: Seq<Preset>, name: Seq<char>) -> Option<int>
    decreases all.len(),
{
    if all.len() == 0 {
        None
    } else if all[0].name@ == name {
        Some(0)
    } else {
        match first_named(all.drop_first(), name) {
            Some(i) => Some(i + 1),
            None => None,
        }
    }
}

/// The list after saving `p`: the first preset of the same name is replaced in
/// place; without one, `p` is appended.
pub open spec fn upserted(all: Seq<Preset>, p: Preset) -> Seq<Preset> {
    match first_named(all, p.name@) {
        Some(i) => all.update(i, p),
        None => all.push(p),
    }
}

/// The presets not named `name`, in their order.
pub open spec fn without_name(all: Seq<Preset>, name: Seq<char>) -> Seq<Preset>
    decreases all.len(),
{
    if all.len() == 0 {
        Seq::empty()
    } else if all.last().name@ == name {
        without_name(all.drop_last(), name)
    } else {
        without_name(all.drop_last(), name).push(all.last())
    }
}

proof fn lemma_first_named_at(all: Seq<Preset>, name: Seq<char>, i: int)
    requires
        0 <= i <= all.len(),
        forall|j: int| 0 <= j < i ==> all[j].name@ != name,
        i == all.len() || all[i].name@ == name,
    ensures
        first_named(all, name) == (if i < all.len() {
            Some(i)
        } else {
            None::<int>
        }),
    decreases i,
{
    if i > 0 {
        lemma_first_named_at(all.drop_first(), name, i - 1);
    }
}

proof fn lemma_first_named_props(all: Seq<Preset>, name: Seq<char>)
    ensures
        match first_named(all, name) {
            Some(i) => 0 <= i < all.len() && all[i].name@ == name && forall|j: int|
                0 <= j < i ==> all[j].name@ != name,
            None => forall|j: int| 0 <= j < all.len() ==> all[j].name@ != name,
        },
    decreases all.len(),
{
    if all.len() > 0 {
        lemma_first_named_props(all.drop_first(), name);
        if all[0].name@ != name {
            match first_named(all.drop_first(), name) {
                Some(i) => {
                    assert forall|j: int| 0 <= j < i + 1 implies all[j].name@ != name by {
                        if j > 0 {
                            assert(all[j] == all.drop_first()[j - 1]);
                        }
                    }
                },
                None => {
                    assert forall|j: int| 0 <= j < all.len() implies all[j].name@ != name by {
                        if j > 0 {
                            assert(all[j] == all.drop_first()[j - 1]);
                        }
                    }
                },
            }
        }
    }
}

/// Saves `preset` into the list: replaces the first preset of the same name, or
/// appends it.
pub fn upsert(mut list: Vec<Preset>, preset: Preset) -> (res: Vec<Preset>)
    ensures
        res@ == upserted(list@, preset),
{
    let mut i: usize = 0;
    let mut found = false;
    while i < list.len() && !found
        invariant
            0 <= i <= list@.len(),
            forall|j: int| 0 <= j < i ==> list@[j].name@ != preset.name@,
            found ==> i < list@.len() && list@[i as int].name@ == preset.name@,
        decreases list@.len() - i, if found { 0int } else { 1int },
    {
        if list[i].name == preset.name {
            found = true;
        } else {
            i = i + 1;
        }
    }
    proof {
        lemma_first_named_at(list@, preset.name@, i as int);
    }
    if found {
        list.set(i, preset);
    } else {
        list.push(preset);
    }
    list
}

/// Removes every preset named `name`; a name that no preset has leaves the
/// list as it is.
pub fn delete(mut rest: Vec<Preset>, name: &str) -> (res: Vec<Preset>)
    ensures
        res@ == without_name(rest@, name@),
{
    let n = name.to_owned();
    let mut out: Vec<Preset> = Vec::new();
    let ghost orig = rest@;
    assert(orig.take(0) + rest@ =~= orig);
    while rest.len() > 0
        invariant
            rest@.len() <= orig.len(),
            orig =~= orig.take(orig.len() - rest@.len()) + rest@,
            out@ == without_name(orig.take(orig.len() - rest@.len()), n@),
        decreases rest@.len(),
    {
        let ghost k = orig.len() - rest@.len();
        let ghost before = rest@;
        let p = rest.remove(0);
        proof {
            assert(before[0] == orig[k]);
            assert(orig.take(k + 1).drop_last() =~= orig.take(k));
            assert(orig.take(k + 1).last() == p);
            assert(orig =~= orig.take(k + 1) + rest@);
        }
        if p.name != n {
            out.push(p);
        }
    }
    assert(orig.take(orig.len() as int) =~= orig);
    out
}

/// Saving a preset keeps the list's length when the name is taken and adds one
/// otherwise; afterwards the first preset of that name is the one saved, and
/// every other position holds what it held before.
pub proof fn lemma_upsert_law(all: Seq<Preset>, p: Preset)
    ensures
        first_named(all, p.name@) is Some ==> upserted(all, p).len() == all.len(),
        first_named(all, p.name@) is None ==> upserted(all, p).len() == all.len() + 1,
        first_named(upserted(all, p), p.name@) matches Some(i) && upserted(all, p)[i] == p,
        forall|j: int|
            0 <= j < all.len() && Some(j) != first_named(all, p.name@) ==> #[trigger] upserted(
                all,
                p,
            )[j] == all[j],
{
    lemma_first_named_props(all, p.name@);
    let u = upserted(all, p);
    match first_named(all, p.name@) {
        Some(i) => {
            assert forall|j: int| 0 <= j < i implies u[j].name@ != p.name@ by {}
            lemma_first_named_at(u, p.name@, i);
        },
        None => {
            assert forall|j: int| 0 <= j < all.len() implies u[j].name@ != p.name@ by {}
            lemma_first_named_at(u, p.name@, all.len() as int);
        },
    }
}

/// After deleting a name no preset has it, and the others keep their order.
pub proof fn lemma_delete_law(all: Seq<Preset>, name: Seq<char>)
    ensures
        forall|j: int| 0 <= j < without_name(all, name).len() ==> (#[trigger] without_name(all, name)[j]).name@ != name,
        (forall|j: int| 0 <= j < all.len() ==> all[j].name@ != name) ==> without_name(all, name) == all,
    decreases all.len(),
{
    if all.len() > 0 {
        lemma_delete_law(all.drop_last(), name);
        let prev = without_name(all.drop_last(), name);
        if all.last().name@ != name {
            assert forall|j: int| 0 <= j < prev.push(all.last()).len() implies (#[trigger] prev.push(all.last())[j]).name@ != name by {
                if j < prev.len() {
                    assert(prev.push(all.last())[j] == prev[j]);
                }
            }
        }
        if forall|j: int| 0 <= j < all.len() ==> all[j].name@ != name {
            assert(forall|j: int| 0 <= j < all.drop_last().len() ==> all.drop_last()[j].name@ != name);
            assert(all.drop_last().push(all.last()) =~= all);
        }
    }
}

} // verus!
