use vstd::prelude::*;
use crate::text::contains_string;

verus! {

/// The strings of `v` as a set.
pub open spec fn set_of(v: Seq<Seq<char>>) -> Set<Seq<char>> {
    v.to_set()
}

/// A list of strings holds no string twice and has exactly the strings of `v`.
pub proof fn lemma_empty_set(v: Seq<Seq<char>>)
    ensures
        (v.len() == 0) == (set_of(v) == Set::<Seq<char>>::empty()),
{
    if v.len() > 0 {
        assert(set_of(v).contains(v[0]));
    } else {
        assert(set_of(v) =~= Set::<Seq<char>>::empty());
    }
}

/// Adds `s` to `v` unless it is there already.
pub fn insert_unique(v: &mut Vec<String>, s: String)
    ensures
        set_of(final(v).deep_view()) == set_of(old(v).deep_view()).insert(s@),
        old(v).deep_view().no_duplicates() ==> final(v).deep_view().no_duplicates(),
{
    if !contains_string(v, &s) {
        let ghost old_v = v.deep_view();
        let ghost sv = s@;
        v.push(s);
        proof {
            assert(v.deep_view() =~= old_v.push(sv)) by {
                assert forall|j: int| 0 <= j < v@.len() implies v.deep_view()[j] == old_v.push(sv)[j] by {
                    if j < old_v.len() {
                        assert(v@[j] == old(v)@[j]);
                    }
                }
            }
            old_v.lemma_push_to_set_commute(sv);
            assert(set_of(v.deep_view()) =~= set_of(old_v).insert(sv));
        }
    } else {
        proof {
            assert(set_of(v.deep_view()) =~= set_of(v.deep_view()).insert(s@));
        }
    }
}

/// Adds to `a` the strings of `b` that it lacks.
pub fn union_into(a: &mut Vec<String>, b: &Vec<String>)
    ensures
        set_of(final(a).deep_view()) == set_of(old(a).deep_view()).union(set_of(b.deep_view())),
        old(a).deep_view().no_duplicates() ==> final(a).deep_view().no_duplicates(),
{
    let ghost a0 = a.deep_view();
    let mut i: usize = 0;
    while i < b.len()
        invariant
            i <= b@.len(),
            set_of(a.deep_view()) == set_of(a0).union(set_of(b.deep_view().take(i as int))),
            a0.no_duplicates() ==> a.deep_view().no_duplicates(),
        decreases b.len() - i,
    {
        insert_unique(a, b[i].clone());
        proof {
            assert(b.deep_view().take(i + 1) =~= b.deep_view().take(i as int).push(b.deep_view()[i as int]));
            b.deep_view().take(i as int).lemma_push_to_set_commute(b.deep_view()[i as int]);
            assert(set_of(b.deep_view().take(i + 1)) =~= set_of(b.deep_view().take(i as int)).insert(b.deep_view()[i as int]));
            assert(set_of(a.deep_view()) =~= set_of(a0).union(set_of(b.deep_view().take(i + 1))));
        }
        i = i + 1;
    }
    proof {
        assert(b.deep_view().take(b@.len() as int) =~= b.deep_view());
    }
}

/// The strings of `v` without repeats, as a list.
pub fn unique_strings(v: &Vec<String>) -> (r: Vec<String>)
    ensures
        set_of(r.deep_view()) == set_of(v.deep_view()),
        r.deep_view().no_duplicates(),
{
    let mut r: Vec<String> = Vec::new();
    proof {
        assert(set_of(r.deep_view()) =~= Set::<Seq<char>>::empty());
    }
    union_into(&mut r, v);
    proof {
        assert(set_of(v.deep_view()) =~= Set::<Seq<char>>::empty().union(set_of(v.deep_view())));
    }
    r
}

/// Whether no string is in both lists.
pub fn disjoint(a: &Vec<String>, b: &Vec<String>) -> (r: bool)
    ensures
        r == set_of(a.deep_view()).disjoint(set_of(b.deep_view())),
{
    let mut i: usize = 0;
    while i < a.len()
        invariant
            i <= a@.len(),
            forall|j: int| 0 <= j < i ==> !b.deep_view().contains(#[trigger] a.deep_view()[j]),
        decreases a.len() - i,
    {
        if contains_string(b, &a[i]) {
            proof {
                assert(set_of(a.deep_view()).contains(a.deep_view()[i as int]));
            }
            return false;
        }
        i = i + 1;
    }
    proof {
        assert forall|x: Seq<char>| set_of(a.deep_view()).contains(x) implies !set_of(b.deep_view()).contains(x) by {
            let j = choose|j: int| 0 <= j < a.deep_view().len() && a.deep_view()[j] == x;
        }
    }
    true
}

/// The strings of `a` that are not in `b`, in order.
pub fn minus(a: &Vec<String>, b: &Vec<String>) -> (r: Vec<String>)
    ensures
        set_of(r.deep_view()) == set_of(a.deep_view()).difference(set_of(b.deep_view())),
        a.deep_view().no_duplicates() ==> r.deep_view().no_duplicates(),
{
    let mut r: Vec<String> = Vec::new();
    let mut i: usize = 0;
    while i < a.len()
        invariant
            i <= a@.len(),
            set_of(r.deep_view()) == set_of(a.deep_view().take(i as int)).difference(set_of(b.deep_view())),
            forall|x: Seq<char>| r.deep_view().contains(x) ==> a.deep_view().take(i as int).contains(x),
            a.deep_view().no_duplicates() ==> r.deep_view().no_duplicates(),
        decreases a.len() - i,
    {
        let ghost r0 = r.deep_view();
        proof {
            assert(a.deep_view().take(i + 1) =~= a.deep_view().take(i as int).push(a.deep_view()[i as int]));
            a.deep_view().take(i as int).lemma_push_to_set_commute(a.deep_view()[i as int]);
            assert(set_of(a.deep_view().take(i + 1)) =~= set_of(a.deep_view().take(i as int)).insert(a.deep_view()[i as int]));
        }
        if !contains_string(b, &a[i]) {
            let ghost x = a.deep_view()[i as int];
            let ghost r_old = r@;
            r.push(a[i].clone());
            proof {
                assert(r.deep_view() =~= r0.push(x)) by {
                    assert forall|j: int| 0 <= j < r@.len() implies r.deep_view()[j] == r0.push(x)[j] by {
                        if j < r0.len() {
                            assert(r@[j] == r_old[j]);
                        }
                    }
                }
                if a.deep_view().no_duplicates() {
                    assert(!a.deep_view().take(i as int).contains(x)) by {
                        if a.deep_view().take(i as int).contains(x) {
                            let j = choose|j: int| 0 <= j < i && a.deep_view().take(i as int)[j] == x;
                            assert(a.deep_view()[j] == a.deep_view()[i as int]);
                        }
                    }
                    assert(!r0.contains(x));
                }
                r0.lemma_push_to_set_commute(x);
                assert(set_of(r.deep_view()) =~= set_of(a.deep_view().take(i + 1)).difference(set_of(b.deep_view())));
                assert forall|y: Seq<char>| r.deep_view().contains(y) implies a.deep_view().take(i + 1).contains(y) by {
                    if y != x {
                        assert(r0.contains(y));
                        let j = choose|j: int| 0 <= j < i && a.deep_view().take(i as int)[j] == y;
                        assert(a.deep_view().take(i + 1)[j] == y);
                    } else {
                        assert(a.deep_view().take(i + 1)[i as int] == x);
                    }
                }
            }
        } else {
            proof {
                assert(set_of(r.deep_view()) =~= set_of(a.deep_view().take(i + 1)).difference(set_of(b.deep_view())));
                assert forall|y: Seq<char>| r.deep_view().contains(y) implies a.deep_view().take(i + 1).contains(y) by {
                    let j = choose|j: int| 0 <= j < i && a.deep_view().take(i as int)[j] == y;
                    assert(a.deep_view().take(i + 1)[j] == y);
                }
            }
        }
        i = i + 1;
    }
    proof {
        assert(a.deep_view().take(a@.len() as int) =~= a.deep_view());
    }
    r
}

} // verus!
