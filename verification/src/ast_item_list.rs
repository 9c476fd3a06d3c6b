use vstd::prelude::*;
use crate::ast_items::{Component, Event, Global, ItemsCrate};

verus! {

/// The items of all crates, by crate index; the globals of the entry crate start
/// with the engine traits.
#[derive(Debug)]
pub struct ItemList<'a> {
    pub components: Vec<Vec<&'a Component>>,
    pub globals: Vec<Vec<&'a Global>>,
    pub events: Vec<Vec<&'a Event>>,
    pub traits: Vec<&'a Global>,
}

/// The items that the references of `r` point to, in order.
pub open spec fn derefs<T>(r: Seq<&T>) -> Seq<T> {
    r.map_values(|x: &T| *x)
}

fn refs_of<'a, T>(v: &'a Vec<T>) -> (r: Vec<&'a T>)
    ensures
        derefs(r@) == v@,
{
    let mut r: Vec<&'a T> = Vec::new();
    let mut i: usize = 0;
    while i < v.len()
        invariant
            i <= v.len(),
            r@.len() == i,
            derefs(r@) == v@.take(i as int),
        decreases v.len() - i,
    {
        let ghost old_r = r@;
        r.push(&v[i]);
        proof {
            assert forall|j: int| 0 <= j < i + 1 implies derefs(r@)[j] == v@.take(i + 1)[j] by {
                if j < i {
                    assert(r@[j] == old_r[j]);
                    assert(derefs(old_r)[j] == v@.take(i as int)[j]);
                }
            }
            assert(derefs(r@) =~= v@.take(i + 1));
        }
        i = i + 1;
    }
    proof {
        assert(v@.take(v@.len() as int) =~= v@);
    }
    r
}

impl<'a> ItemList<'a> {
    /// The items of `crates`, in crate order, with `traits` put before the
    /// globals of the crate with index 0.
    pub fn from(crates: &'a Vec<ItemsCrate>, traits: &'a Vec<Global>) -> (l: Self)
        ensures
            l.components@.len() == crates@.len(),
            l.globals@.len() == crates@.len(),
            l.events@.len() == crates@.len(),
            forall|i: int| 0 <= i < crates@.len() ==> #[trigger] derefs(l.components@[i]@) == crates@[i].components@,
            forall|i: int| 0 <= i < crates@.len() ==> #[trigger] derefs(l.globals@[i]@) == if crates@[i].cr_idx == 0 {
                traits@ + crates@[i].globals@
            } else {
                crates@[i].globals@
            },
            forall|i: int| 0 <= i < crates@.len() ==> #[trigger] derefs(l.events@[i]@) == crates@[i].events@,
            derefs(l.traits@) == traits@,
    {
        let mut components: Vec<Vec<&'a Component>> = Vec::new();
        let mut globals: Vec<Vec<&'a Global>> = Vec::new();
        let mut events: Vec<Vec<&'a Event>> = Vec::new();
        let mut i: usize = 0;
        while i < crates.len()
            invariant
                i <= crates@.len(),
                components@.len() == i,
                globals@.len() == i,
                events@.len() == i,
                forall|j: int| 0 <= j < i ==> #[trigger] derefs(components@[j]@) == crates@[j].components@,
                forall|j: int| 0 <= j < i ==> #[trigger] derefs(globals@[j]@) == if crates@[j].cr_idx == 0 {
                    traits@ + crates@[j].globals@
                } else {
                    crates@[j].globals@
                },
                forall|j: int| 0 <= j < i ==> #[trigger] derefs(events@[j]@) == crates@[j].events@,
            decreases crates.len() - i,
        {
            let cr = &crates[i];
            components.push(refs_of(&cr.components));
            if cr.cr_idx == 0 {
                let mut v = refs_of(traits);
                let mut g = refs_of(&cr.globals);
                v.append(&mut g);
                globals.push(v);
            } else {
                globals.push(refs_of(&cr.globals));
            }
            events.push(refs_of(&cr.events));
            i = i + 1;
        }
        ItemList { components, globals, events, traits: refs_of(traits) }
    }
}

} // verus!
