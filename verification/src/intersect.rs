use vstd::prelude::*;

verus! {

/// No key occurs twice.
pub open spec fn distinct_keys<V>(m: Seq<(u64, V)>) -> bool {
    forall|i: int, j: int| 0 <= i < j < m.len() ==> m[i].0 != m[j].0
}

/// The value that `m` holds for `k`, if any.
pub open spec fn lookup<V>(m: Seq<(u64, V)>, k: u64) -> Option<V> {
    if exists|i: int| 0 <= i < m.len() && m[i].0 == k {
        Some(m[choose|i: int| 0 <= i < m.len() && m[i].0 == k].1)
    } else {
        None
    }
}

/// The keys of `map`, in its order (`HashMap::keys`).
pub fn get_keys<V>(map: &Vec<(u64, V)>) -> (r: Vec<u64>)
    ensures
        r@.len() == map@.len(),
        forall|i: int| 0 <= i < r@.len() ==> r@[i] == map@[i].0,
{
    let mut r: Vec<u64> = Vec::new();
    let mut i: usize = 0;
    while i < map.len()
        invariant
            i <= map@.len(),
            r@.len() == i,
            forall|j: int| 0 <= j < i ==> r@[j] == map@[j].0,
        decreases map.len() - i,
    {
        r.push(map[i].0);
        i = i + 1;
    }
    r
}

/// The entry of `m` for the `slot`-th component filled from `m_new` for every
/// key that both have, and the entries whose slot stays empty dropped.
pub open spec fn intersected(m: Seq<(u64, Seq<Option<u64>>)>, m_new: Seq<(u64, u64)>, slot: int) -> Seq<(u64, Seq<Option<u64>>)>
    decreases m.len(),
{
    if m.len() == 0 {
        seq![]
    } else {
        let r = intersected(m.drop_last(), m_new, slot);
        let (k, slots) = m.last();
        let filled = match lookup(m_new, k) {
            Some(v) => slots.update(slot, Some(v)),
            None => slots,
        };
        if filled[slot] is Some { r.push((k, filled)) } else { r }
    }
}

fn find_key(m: &Vec<(u64, u64)>, k: u64) -> (r: Option<u64>)
    requires
        distinct_keys(m@),
    ensures
        r == lookup(m@, k),
{
    let mut i: usize = 0;
    while i < m.len()
        invariant
            i <= m@.len(),
            distinct_keys(m@),
            forall|j: int| 0 <= j < i ==> m@[j].0 != k,
        decreases m.len() - i,
    {
        if m[i].0 == k {
            proof {
                let c = choose|j: int| 0 <= j < m@.len() && m@[j].0 == k;
                assert(c == i) by {
                    if c != i {
                        if c < i {
                            assert(m@[c].0 != m@[i as int].0);
                        } else {
                            assert(m@[i as int].0 != m@[c].0);
                        }
                    }
                }
            }
            return Some(m[i].1);
        }
        i = i + 1;
    }
    None
}

/// Fills the `slot`-th component of each entry of `h` whose key `h_new` has,
/// with the value `h_new` holds for it, and keeps only the entries whose
/// `slot`-th component is filled (`intersect`; entries hold value handles).
pub fn intersect(h: Vec<(u64, Vec<Option<u64>>)>, h_new: &Vec<(u64, u64)>, slot: usize) -> (r: Vec<(u64, Vec<Option<u64>>)>)
    requires
        distinct_keys(h_new@),
        forall|i: int| 0 <= i < h@.len() ==> slot < (#[trigger] h@[i]).1@.len(),
    ensures
        r@.map_values(|e: (u64, Vec<Option<u64>>)| (e.0, e.1@)) == intersected(h@.map_values(|e: (u64, Vec<Option<u64>>)| (e.0, e.1@)), h_new@, slot as int),
{
    let ghost hv = h@.map_values(|e: (u64, Vec<Option<u64>>)| (e.0, e.1@));
    let mut r: Vec<(u64, Vec<Option<u64>>)> = Vec::new();
    let mut rest = h;
    let n = rest.len();
    let mut i: usize = 0;
    let ghost h0 = rest@;
    proof {
        assert(hv.take(0) =~= Seq::<(u64, Seq<Option<u64>>)>::empty());
    }
    while rest.len() > 0
        invariant
            n == h0.len(),
            i + rest@.len() == n,
            rest@ == h0.skip(i as int),
            hv == h0.map_values(|e: (u64, Vec<Option<u64>>)| (e.0, e.1@)),
            distinct_keys(h_new@),
            forall|j: int| 0 <= j < h0.len() ==> slot < (#[trigger] h0[j]).1@.len(),
            r@.map_values(|e: (u64, Vec<Option<u64>>)| (e.0, e.1@)) == intersected(hv.take(i as int), h_new@, slot as int),
        decreases rest.len(),
    {
        let (k, mut slots) = rest.remove(0);
        proof {
            assert(h0[i as int] == (k, slots));
            assert(hv.take(i + 1).drop_last() =~= hv.take(i as int));
            assert(hv.take(i + 1).last() == (k, slots@));
            assert(slot < slots@.len());
        }
        match find_key(h_new, k) {
            Some(v) => {
                slots.set(slot, Some(v));
            },
            None => {},
        }
        if slots[slot].is_some() {
            let ghost r0 = r@;
            r.push((k, slots));
            proof {
                assert(r@.map_values(|e: (u64, Vec<Option<u64>>)| (e.0, e.1@)) =~= r0.map_values(|e: (u64, Vec<Option<u64>>)| (e.0, e.1@)).push((k, slots@)));
            }
        }
        proof {
            assert(rest@ =~= h0.skip(i + 1));
        }
        i = i + 1;
    }
    proof {
        assert(hv.take(n as int) =~= hv);
    }
    r
}

/// As `intersect`, for a map whose values are taken mutably (`intersect_mut`).
pub fn intersect_mut(h: Vec<(u64, Vec<Option<u64>>)>, h_new: &mut Vec<(u64, u64)>, slot: usize) -> (r: Vec<(u64, Vec<Option<u64>>)>)
    requires
        distinct_keys(old(h_new)@),
        forall|i: int| 0 <= i < h@.len() ==> slot < (#[trigger] h@[i]).1@.len(),
    ensures
        final(h_new)@ == old(h_new)@,
        r@.map_values(|e: (u64, Vec<Option<u64>>)| (e.0, e.1@)) == intersected(h@.map_values(|e: (u64, Vec<Option<u64>>)| (e.0, e.1@)), old(h_new)@, slot as int),
{
    intersect(h, h_new, slot)
}


/// The first position in `t` whose set is larger than `n`.
pub open spec fn len_pos(t: Seq<Seq<u64>>, n: nat, j: int) -> int
    decreases t.len() - j,
{
    if j < 0 || j >= t.len() {
        t.len() as int
    } else if t[j].len() > n {
        j
    } else {
        len_pos(t, n, j + 1)
    }
}

/// The key sets ordered by size, sets of equal size in their given order.
pub open spec fn sorted_by_len(s: Seq<Seq<u64>>) -> Seq<Seq<u64>>
    decreases s.len(),
{
    if s.len() == 0 {
        s
    } else {
        let t = sorted_by_len(s.drop_last());
        t.insert(len_pos(t, s.last().len(), 0), s.last())
    }
}

/// The keys that every set holds (none when there is no set).
pub open spec fn common_keys(s: Seq<Seq<u64>>) -> Set<u64> {
    if s.len() == 0 {
        Set::empty()
    } else {
        Set::new(|k: u64| forall|i: int| 0 <= i < s.len() ==> #[trigger] s[i].contains(k))
    }
}

proof fn lemma_len_pos_bounds(t: Seq<Seq<u64>>, n: nat, j: int)
    requires
        0 <= j <= t.len(),
    ensures
        j <= len_pos(t, n, j) <= t.len(),
    decreases t.len() - j,
{
    if j < t.len() && t[j].len() <= n {
        lemma_len_pos_bounds(t, n, j + 1);
    }
}

proof fn lemma_sorted_by_len_perm(s: Seq<Seq<u64>>)
    ensures
        sorted_by_len(s).len() == s.len(),
        forall|x: Seq<u64>| s.contains(x) <==> sorted_by_len(s).contains(x),
    decreases s.len(),
{
    if s.len() > 0 {
        let t = sorted_by_len(s.drop_last());
        lemma_sorted_by_len_perm(s.drop_last());
        let p = len_pos(t, s.last().len(), 0);
        lemma_len_pos_bounds(t, s.last().len(), 0);
        let u = t.insert(p, s.last());
        assert forall|x: Seq<u64>| s.contains(x) <==> u.contains(x) by {
            if s.contains(x) {
                let i = choose|i: int| #![trigger s[i]] 0 <= i < s.len() && s[i] == x;
                if i == s.len() - 1 {
                    assert(u[p] == x);
                } else {
                    assert(s.drop_last()[i] == x);
                    assert(s.drop_last().contains(x));
                    assert(t.contains(x));
                    let j = choose|j: int| #![trigger t[j]] 0 <= j < t.len() && t[j] == x;
                    if j < p {
                        assert(u[j] == x);
                    } else {
                        assert(u[j + 1] == x);
                    }
                }
            }
            if u.contains(x) {
                let j = choose|j: int| #![trigger u[j]] 0 <= j < u.len() && u[j] == x;
                if j == p {
                    assert(s[s.len() - 1] == x);
                } else if j < p {
                    assert(t[j] == x);
                    assert(s.drop_last().contains(x));
                    let i = choose|i: int| #![trigger s.drop_last()[i]] 0 <= i < s.drop_last().len() && s.drop_last()[i] == x;
                    assert(s[i] == x);
                } else {
                    assert(t[j - 1] == x);
                    assert(s.drop_last().contains(x));
                    let i = choose|i: int| #![trigger s.drop_last()[i]] 0 <= i < s.drop_last().len() && s.drop_last()[i] == x;
                    assert(s[i] == x);
                }
            }
        }
    }
}

fn contains_u64(v: &Vec<u64>, x: u64) -> (r: bool)
    ensures
        r == v@.contains(x),
{
    let mut i: usize = 0;
    while i < v.len()
        invariant
            i <= v@.len(),
            forall|j: int| 0 <= j < i ==> v@[j] != x,
        decreases v.len() - i,
    {
        if v[i] == x {
            assert(v@[i as int] == x);
            return true;
        }
        i = i + 1;
    }
    false
}

/// Inserts `x` into the strictly increasing `v` unless it is there.
fn insert_ordered(v: &mut Vec<u64>, x: u64)
    requires
        forall|i: int, j: int| 0 <= i < j < old(v)@.len() ==> old(v)@[i] < old(v)@[j],
    ensures
        forall|i: int, j: int| 0 <= i < j < final(v)@.len() ==> final(v)@[i] < final(v)@[j],
        final(v)@.to_set() == old(v)@.to_set().insert(x),
{
    let ghost v0 = v@;
    let mut p: usize = 0;
    while p < v.len() && v[p] < x
        invariant
            p <= v@.len(),
            v@ == v0,
            forall|i: int| 0 <= i < p ==> v@[i] < x,
        decreases v.len() - p,
    {
        p = p + 1;
    }
    if p < v.len() && v[p] == x {
        proof {
            assert(v@.to_set() =~= v0.to_set().insert(x)) by {
                assert(v0.to_set().contains(x)) by {
                    assert(v0[p as int] == x);
                }
            }
        }
        return;
    }
    v.insert(p, x);
    proof {
        assert forall|i: int, j: int| 0 <= i < j < v@.len() implies v@[i] < v@[j] by {
            if j < p {
            } else if j == p {
            } else if i < p {
                assert(v@[j] == v0[j - 1]);
                if j - 1 > p {
                    assert(v0[p as int] < v0[j - 1]);
                }
            } else if i == p {
                assert(v@[j] == v0[j - 1]);
                if j - 1 > p {
                    assert(v0[p as int] < v0[j - 1]);
                }
            } else {
                assert(v@[i] == v0[i - 1]);
                assert(v@[j] == v0[j - 1]);
            }
        }
        assert forall|y: u64| v@.to_set().contains(y) <==> v0.to_set().insert(x).contains(y) by {
            if v@.contains(y) {
                let i = choose|i: int| #![trigger v@[i]] 0 <= i < v@.len() && v@[i] == y;
                if i < p {
                    assert(v0[i] == y);
                } else if i > p {
                    assert(v0[i - 1] == y);
                }
            }
            if v0.contains(y) {
                let i = choose|i: int| #![trigger v0[i]] 0 <= i < v0.len() && v0[i] == y;
                if i < p {
                    assert(v@[i] == y);
                } else {
                    assert(v@[i + 1] == y);
                }
            }
            if y == x {
                assert(v@[p as int] == x);
            }
        }
        assert(v@.to_set() =~= v0.to_set().insert(x));
    }
}

/// Orders the key sets by size and gives the keys that all of them hold, in
/// increasing order (`intersect_keys`).
#[verifier::loop_isolation(false)]
pub fn intersect_keys(keys: &mut Vec<Vec<u64>>) -> (r: Vec<u64>)
    ensures
        final(keys)@.map_values(|v: Vec<u64>| v@) == sorted_by_len(old(keys)@.map_values(|v: Vec<u64>| v@)),
        r@.to_set() == common_keys(old(keys)@.map_values(|v: Vec<u64>| v@)),
        forall|i: int, j: int| 0 <= i < j < r@.len() ==> r@[i] < r@[j],
{
    let ghost s = old(keys)@.map_values(|v: Vec<u64>| v@);
    let mut rest: Vec<Vec<u64>> = Vec::new();
    std::mem::swap(keys, &mut rest);
    let ghost r0 = rest@;
    let mut sorted: Vec<Vec<u64>> = Vec::new();
    let n = rest.len();
    let mut i: usize = 0;
    proof {
        assert(s.take(0) =~= Seq::<Seq<u64>>::empty());
        assert(sorted@.map_values(|v: Vec<u64>| v@) =~= Seq::<Seq<u64>>::empty());
    }
    while rest.len() > 0
        invariant
            n == s.len(),
            s == r0.map_values(|v: Vec<u64>| v@),
            i + rest@.len() == n,
            rest@ == r0.skip(i as int),
            sorted@.map_values(|v: Vec<u64>| v@) == sorted_by_len(s.take(i as int)),
        decreases rest.len(),
    {
        proof {
            assert(rest@[0] == r0[i as int]);
            assert(s.take(i + 1).drop_last() =~= s.take(i as int));
            assert(s.take(i + 1).last() == r0[i as int]@);
            lemma_sorted_by_len_perm(s.take(i as int));
        }
        let x = rest.remove(0);
        let xl = x.len();
        let ghost t = sorted@.map_values(|v: Vec<u64>| v@);
        let mut p: usize = 0;
        proof {
            lemma_len_pos_bounds(t, xl as nat, 0);
        }
        while p < sorted.len() && sorted[p].len() <= xl
            invariant
                p <= sorted@.len(),
                t == sorted@.map_values(|v: Vec<u64>| v@),
                len_pos(t, xl as nat, 0) == len_pos(t, xl as nat, p as int),
            decreases sorted.len() - p,
        {
            p = p + 1;
        }
        let ghost sv = sorted@;
        sorted.insert(p, x);
        proof {
            assert(sorted@.map_values(|v: Vec<u64>| v@) =~= t.insert(p as int, x@));
            assert(rest@ =~= r0.skip(i + 1));
        }
        i = i + 1;
    }
    proof {
        assert(s.take(n as int) =~= s);
        lemma_sorted_by_len_perm(s);
    }
    *keys = sorted;
    let ghost ks = keys@.map_values(|v: Vec<u64>| v@);
    if keys.len() == 0 {
        let r: Vec<u64> = Vec::new();
        proof {
            assert(s.len() == 0);
            assert(r@.to_set() =~= Set::<u64>::empty());
        }
        return r;
    }
    // keys common to the first set and the sets after it
    let mut common: Vec<u64> = Vec::new();
    let first = &keys[0];
    let mut a: usize = 0;
    proof {
        assert(common@.to_set() =~= Set::<u64>::empty());
    }
    while a < first.len()
        invariant
            keys@.len() >= 1,
            ks == keys@.map_values(|v: Vec<u64>| v@),
            *first == keys@[0],
            a <= first@.len(),
            forall|i: int, j: int| 0 <= i < j < common@.len() ==> common@[i] < common@[j],
            forall|k: u64| common@.to_set().contains(k) <==> (first@.take(a as int).contains(k) && forall|i: int| 0 <= i < ks.len() ==> #[trigger] ks[i].contains(k)),
        decreases first.len() - a,
    {
        let k = first[a];
        let mut all = true;
        let mut b: usize = 1;
        while b < keys.len()
            invariant
                1 <= b <= keys@.len(),
                ks == keys@.map_values(|v: Vec<u64>| v@),
                all == forall|i: int| 1 <= i < b ==> #[trigger] ks[i].contains(k),
            decreases keys.len() - b,
        {
            proof {
                assert(ks[b as int] == keys@[b as int]@);
            }
            if !contains_u64(&keys[b], k) {
                all = false;
            }
            b = b + 1;
        }
        proof {
            assert(first@.take(a + 1) =~= first@.take(a as int).push(k));
            assert(ks[0] == first@);
            assert(ks[0].contains(k)) by {
                assert(first@[a as int] == k);
            }
        }
        let ghost c0 = common@;
        if all {
            insert_ordered(&mut common, k);
        }
        proof {
            assert forall|k2: u64| common@.to_set().contains(k2) <==> (first@.take(a + 1).contains(k2) && forall|i: int| 0 <= i < ks.len() ==> #[trigger] ks[i].contains(k2)) by {
                vstd::seq_lib::lemma_seq_contains_after_push(first@.take(a as int), k, k2);
                assert(c0.to_set().contains(k2) <==> (first@.take(a as int).contains(k2) && forall|i: int| 0 <= i < ks.len() ==> #[trigger] ks[i].contains(k2)));
                if k2 == k {
                    if all {
                        assert forall|i: int| 0 <= i < ks.len() implies #[trigger] ks[i].contains(k2) by {
                            if i >= 1 {
                                assert(1 <= i < keys@.len());
                            }
                        }
                        assert(common@.to_set().contains(k2));
                    } else {
                        let i = choose|i: int| #![trigger ks[i]] 1 <= i < keys@.len() && !ks[i].contains(k);
                        assert(!ks[i].contains(k2));
                    }
                }
            }
        }
        a = a + 1;
    }
    proof {
        assert(first@.take(first@.len() as int) =~= first@);
        // the common keys do not depend on the order of the sets
        assert forall|k: u64| common@.to_set().contains(k) <==> common_keys(s).contains(k) by {
            if forall|i: int| 0 <= i < ks.len() ==> #[trigger] ks[i].contains(k) {
                assert forall|i: int| 0 <= i < s.len() implies #[trigger] s[i].contains(k) by {
                    assert(s.contains(s[i]));
                    assert(ks.contains(s[i]));
                    let j = choose|j: int| #![trigger ks[j]] 0 <= j < ks.len() && ks[j] == s[i];
                    assert(ks[j].contains(k));
                }
            }
            if forall|i: int| 0 <= i < s.len() ==> #[trigger] s[i].contains(k) {
                assert forall|i: int| 0 <= i < ks.len() implies #[trigger] ks[i].contains(k) by {
                    assert(ks.contains(ks[i]));
                    assert(s.contains(ks[i]));
                    let j = choose|j: int| #![trigger s[j]] 0 <= j < s.len() && s[j] == ks[i];
                    assert(s[j].contains(k));
                }
                assert(ks[0].contains(k));
                assert(first@.contains(k));
            }
        }
        assert(common@.to_set() =~= common_keys(s));
    }
    common
}

} // verus!
