//! Grouping rocks into islands. The presentation decides which pairs of rocks touch (overlapping
//! or nearly touching circles); rocks joined by a chain of touching pairs form one island, which
//! is drawn as a single landmass.

use vstd::prelude::*;

verus! {

/// Rocks `a` and `b` touch according to one of the pairs.
pub open spec fn linked(links: Seq<(usize, usize)>, a: int, b: int) -> bool {
    exists|k: int|
        0 <= k < links.len() && ((#[trigger] links[k].0 == a && links[k].1 == b) || (links[k].0 == b
            && links[k].1 == a))
}

/// `p` steps from rock to rock across touching pairs.
pub open spec fn is_chain(links: Seq<(usize, usize)>, p: Seq<int>) -> bool {
    &&& p.len() >= 1
    &&& forall|m: int| 0 <= m < p.len() - 1 ==> #[trigger] linked(links, p[m], p[m + 1])
}

/// Rocks `a` and `b` belong to one island: a chain of touching pairs joins them.
pub open spec fn connected(links: Seq<(usize, usize)>, a: int, b: int) -> bool {
    exists|p: Seq<int>| #[trigger] is_chain(links, p) && p[0] == a && p[p.len() - 1] == b
}

/// Every pair names two of the `n` rocks.
pub open spec fn pairs_within(links: Seq<(usize, usize)>, n: int) -> bool {
    forall|k: int| 0 <= k < links.len() ==> #[trigger] links[k].0 < n && links[k].1 < n
}

/// The members of each group.
pub open spec fn members(groups: Seq<Vec<usize>>) -> Seq<Seq<usize>> {
    groups.map_values(|v: Vec<usize>| v@)
}

/// Rock `x` appears in one of the groups.
pub open spec fn listed(groups: Seq<Seq<usize>>, x: int) -> bool {
    exists|g: int, j: int| 0 <= g < groups.len() && 0 <= j < groups[g].len() && #[trigger] groups[g][j] == x
}

/// `groups` lists the islands of rocks `0..n`: every rock appears, each group is non-empty and
/// in increasing order, groups come in the order of their first rock, and two rocks share a
/// group exactly when they belong to one island.
pub open spec fn islands(groups: Seq<Seq<usize>>, links: Seq<(usize, usize)>, n: int) -> bool {
    &&& forall|g: int| 0 <= g < groups.len() ==> #[trigger] groups[g].len() > 0
    &&& forall|g: int, j: int|
        0 <= g < groups.len() && 0 <= j < groups[g].len() ==> #[trigger] groups[g][j] < n
    &&& forall|g: int, j: int, k: int|
        0 <= g < groups.len() && 0 <= j < k < groups[g].len() ==> #[trigger] groups[g][j]
            < #[trigger] groups[g][k]
    &&& forall|g: int, h: int| 0 <= g < h < groups.len() ==> #[trigger] groups[g][0] < #[trigger] groups[h][0]
    &&& forall|x: int| 0 <= x < n ==> #[trigger] listed(groups, x)
    &&& forall|g: int, j: int, h: int, k: int|
        0 <= g < groups.len() && 0 <= j < groups[g].len() && 0 <= h < groups.len() && 0 <= k
            < groups[h].len() ==> (g == h <==> connected(links, #[trigger] groups[g][j] as int, #[trigger] groups[h][k] as int))
}

proof fn lemma_linked_symmetric(links: Seq<(usize, usize)>, a: int, b: int)
    requires
        linked(links, a, b),
    ensures
        linked(links, b, a),
{
    let k = choose|k: int|
        0 <= k < links.len() && ((#[trigger] links[k].0 == a && links[k].1 == b) || (links[k].0 == b
            && links[k].1 == a));
    assert(links[k].0 == b || links[k].0 == a);
}

proof fn lemma_connected_refl(links: Seq<(usize, usize)>, a: int)
    ensures
        connected(links, a, a),
{
    let p = seq![a];
    assert(is_chain(links, p));
}

proof fn lemma_linked_connected(links: Seq<(usize, usize)>, a: int, b: int)
    requires
        linked(links, a, b),
    ensures
        connected(links, a, b),
{
    let p = seq![a, b];
    assert(linked(links, p[0], p[1]));
    assert(is_chain(links, p));
}

proof fn lemma_connected_symmetric(links: Seq<(usize, usize)>, a: int, b: int)
    requires
        connected(links, a, b),
    ensures
        connected(links, b, a),
{
    let p = choose|p: Seq<int>| #[trigger] is_chain(links, p) && p[0] == a && p[p.len() - 1] == b;
    let n = p.len();
    let q = Seq::new(n, |m: int| p[n - 1 - m]);
    assert forall|m: int| 0 <= m < q.len() - 1 implies #[trigger] linked(links, q[m], q[m + 1]) by {
        let i = n - 2 - m;
        assert(linked(links, p[i], p[i + 1]));
        lemma_linked_symmetric(links, p[i], p[i + 1]);
    }
    assert(is_chain(links, q));
}

proof fn lemma_connected_trans(links: Seq<(usize, usize)>, a: int, b: int, c: int)
    requires
        connected(links, a, b),
        connected(links, b, c),
    ensures
        connected(links, a, c),
{
    let p = choose|p: Seq<int>| #[trigger] is_chain(links, p) && p[0] == a && p[p.len() - 1] == b;
    let q = choose|q: Seq<int>| #[trigger] is_chain(links, q) && q[0] == b && q[q.len() - 1] == c;
    let r = p.drop_last() + q;
    let lp = p.len() - 1;
    assert forall|m: int| 0 <= m < r.len() - 1 implies #[trigger] linked(links, r[m], r[m + 1]) by {
        if m < lp - 1 {
            assert(linked(links, p[m], p[m + 1]));
        } else if m == lp - 1 {
            assert(linked(links, p[m], p[m + 1]));
        } else {
            assert(linked(links, q[m - lp], q[m - lp + 1]));
        }
    }
    assert(is_chain(links, r));
    if lp == 0 {
        assert(r[0] == q[0]);
    } else {
        assert(r[0] == p[0]);
    }
}

/// Every pair joins two rocks of the same label.
pub open spec fn settled(links: Seq<(usize, usize)>, label: Seq<usize>) -> bool {
    forall|k: int| 0 <= k < links.len() ==> label[#[trigger] links[k].0 as int] == label[links[k].1 as int]
}

proof fn lemma_chain_keeps_label(links: Seq<(usize, usize)>, label: Seq<usize>, p: Seq<int>)
    requires
        is_chain(links, p),
        settled(links, label),
    ensures
        label[p[0]] == label[p[p.len() - 1]],
    decreases p.len(),
{
    if p.len() > 1 {
        let q = p.drop_last();
        assert forall|m: int| 0 <= m < q.len() - 1 implies #[trigger] linked(links, q[m], q[m + 1]) by {
            assert(linked(links, p[m], p[m + 1]));
        }
        lemma_chain_keeps_label(links, label, q);
        let m = p.len() - 2;
        assert(linked(links, p[m], p[m + 1]));
        let k = choose|k: int|
            0 <= k < links.len() && ((#[trigger] links[k].0 == p[m] && links[k].1 == p[m + 1]) || (
            links[k].0 == p[m + 1] && links[k].1 == p[m]));
        assert(label[links[k].0 as int] == label[links[k].1 as int]);
    }
}

/// Sum of the labels.
pub open spec fn total(s: Seq<usize>) -> nat
    decreases s.len(),
{
    if s.len() == 0 {
        0
    } else {
        total(s.drop_last()) + s.last() as nat
    }
}

proof fn lemma_total_update(s: Seq<usize>, i: int, v: usize)
    requires
        0 <= i < s.len(),
    ensures
        total(s.update(i, v)) + s[i] == total(s) + v,
    decreases s.len(),
{
    let t = s.update(i, v);
    if i == s.len() - 1 {
        assert(t.drop_last() =~= s.drop_last());
    } else {
        assert(t.drop_last() =~= s.drop_last().update(i, v));
        lemma_total_update(s.drop_last(), i, v);
    }
}

/// Each rock's label: a rock of its own island, never above the rock itself.
pub open spec fn labelled(links: Seq<(usize, usize)>, label: Seq<usize>, n: int) -> bool {
    &&& label.len() == n
    &&& forall|i: int| 0 <= i < n ==> #[trigger] label[i] <= i && connected(links, i, label[i] as int)
}

/// Give rock `b` the smaller label of `a` when they touch.
proof fn lemma_relabel(links: Seq<(usize, usize)>, label: Seq<usize>, n: int, a: int, b: int)
    requires
        labelled(links, label, n),
        linked(links, a, b),
        0 <= a < n,
        0 <= b < n,
        label[a] < label[b],
    ensures
        labelled(links, label.update(b, label[a]), n),
        total(label.update(b, label[a])) < total(label),
{
    let nl = label.update(b, label[a]);
    assert(connected(links, a, label[a] as int));
    lemma_linked_symmetric(links, a, b);
    lemma_linked_connected(links, b, a);
    lemma_connected_trans(links, b, a, label[a] as int);
    assert forall|i: int| 0 <= i < n implies #[trigger] nl[i] <= i && connected(links, i, nl[i] as int) by {
        if i == b {
            assert(label[a] < label[b] <= b);
        }
    }
    lemma_total_update(label, b, label[a]);
}

/// The groups formed from rocks `0..x`, with the label each group stands for.
spec fn building(gs: Seq<Seq<usize>>, keys: Seq<usize>, label: Seq<usize>, x: int) -> bool {
    &&& gs.len() == keys.len()
    &&& forall|g: int| 0 <= g < gs.len() ==> #[trigger] gs[g].len() > 0
    &&& forall|g: int, j: int| 0 <= g < gs.len() && 0 <= j < gs[g].len() ==> #[trigger] gs[g][j] < x
    &&& forall|g: int, j: int, k: int|
        0 <= g < gs.len() && 0 <= j < k < gs[g].len() ==> #[trigger] gs[g][j] < #[trigger] gs[g][k]
    &&& forall|g: int, j: int|
        0 <= g < gs.len() && 0 <= j < gs[g].len() ==> label[#[trigger] gs[g][j] as int] == keys[g]
    &&& forall|g: int, h: int| 0 <= g < h < keys.len() ==> #[trigger] keys[g] != #[trigger] keys[h]
    &&& forall|g: int, h: int| 0 <= g < h < gs.len() ==> #[trigger] gs[g][0] < #[trigger] gs[h][0]
    &&& forall|y: int| 0 <= y < x ==> #[trigger] listed(gs, y)
}

proof fn lemma_join_group(gs: Seq<Seq<usize>>, keys: Seq<usize>, label: Seq<usize>, x: int, g: int)
    requires
        building(gs, keys, label, x),
        0 <= g < gs.len(),
        keys[g] == label[x],
        0 <= x < usize::MAX,
    ensures
        building(gs.update(g, gs[g].push(x as usize)), keys, label, x + 1),
{
    let ns = gs.update(g, gs[g].push(x as usize));
    assert forall|g1: int, j: int, k: int|
        0 <= g1 < ns.len() && 0 <= j < k < ns[g1].len() implies #[trigger] ns[g1][j] < #[trigger] ns[g1][k] by {
        if g1 == g && k == gs[g].len() {
            assert(gs[g][j] < x);
        } else {
            assert(gs[g1][j] < gs[g1][k]);
        }
    }
    assert forall|g1: int, h: int| 0 <= g1 < h < ns.len() implies #[trigger] ns[g1][0] < #[trigger] ns[h][0] by {
        assert(gs[g1][0] < gs[h][0]);
    }
    assert forall|y: int| 0 <= y < x + 1 implies #[trigger] listed(ns, y) by {
        if y == x {
            assert(ns[g][gs[g].len() as int] == x);
        } else {
            assert(listed(gs, y));
            let (g0, j0) = choose|g0: int, j0: int|
                0 <= g0 < gs.len() && 0 <= j0 < gs[g0].len() && #[trigger] gs[g0][j0] == y;
            assert(ns[g0][j0] == y);
        }
    }
    assert forall|g1: int, j: int| 0 <= g1 < ns.len() && 0 <= j < ns[g1].len() implies #[trigger] ns[g1][j] < x + 1 by {
        if !(g1 == g && j == gs[g].len()) {
            assert(gs[g1][j] < x);
        }
    }
    assert forall|g1: int, j: int|
        0 <= g1 < ns.len() && 0 <= j < ns[g1].len() implies label[#[trigger] ns[g1][j] as int] == keys[g1] by {
        if !(g1 == g && j == gs[g].len()) {
            assert(label[gs[g1][j] as int] == keys[g1]);
        }
    }
    assert forall|g1: int| 0 <= g1 < ns.len() implies #[trigger] ns[g1].len() > 0 by {
        assert(gs[g1].len() > 0);
    }
}

proof fn lemma_open_group(gs: Seq<Seq<usize>>, keys: Seq<usize>, label: Seq<usize>, x: int)
    requires
        building(gs, keys, label, x),
        forall|h: int| 0 <= h < keys.len() ==> #[trigger] keys[h] != label[x],
        0 <= x < usize::MAX,
    ensures
        building(gs.push(seq![x as usize]), keys.push(label[x]), label, x + 1),
{
    let ns = gs.push(seq![x as usize]);
    let nk = keys.push(label[x]);
    let last = gs.len() as int;
    assert forall|g1: int, j: int, k: int|
        0 <= g1 < ns.len() && 0 <= j < k < ns[g1].len() implies #[trigger] ns[g1][j] < #[trigger] ns[g1][k] by {
        assert(gs[g1][j] < gs[g1][k]);
    }
    assert forall|g1: int, h: int| 0 <= g1 < h < ns.len() implies #[trigger] ns[g1][0] < #[trigger] ns[h][0] by {
        if h == last {
            assert(gs[g1][0] < x);
        } else {
            assert(gs[g1][0] < gs[h][0]);
        }
    }
    assert forall|g1: int, h: int| 0 <= g1 < h < nk.len() implies #[trigger] nk[g1] != #[trigger] nk[h] by {
        if h < last {
            assert(keys[g1] != keys[h]);
        }
    }
    assert forall|y: int| 0 <= y < x + 1 implies #[trigger] listed(ns, y) by {
        if y == x {
            assert(ns[last][0] == x);
        } else {
            assert(listed(gs, y));
            let (g0, j0) = choose|g0: int, j0: int|
                0 <= g0 < gs.len() && 0 <= j0 < gs[g0].len() && #[trigger] gs[g0][j0] == y;
            assert(ns[g0][j0] == y);
        }
    }
    assert forall|g1: int, j: int| 0 <= g1 < ns.len() && 0 <= j < ns[g1].len() implies #[trigger] ns[g1][j] < x + 1 by {
        if g1 < last {
            assert(gs[g1][j] < x);
        }
    }
    assert forall|g1: int, j: int|
        0 <= g1 < ns.len() && 0 <= j < ns[g1].len() implies label[#[trigger] ns[g1][j] as int] == nk[g1] by {
        if g1 < last {
            assert(label[gs[g1][j] as int] == keys[g1]);
        }
    }
    assert forall|g1: int| 0 <= g1 < ns.len() implies #[trigger] ns[g1].len() > 0 by {
        if g1 < last {
            assert(gs[g1].len() > 0);
        }
    }
}

/// Labels that are settled across every pair and lead each rock to one of its island's rocks
/// make the groups of equal labels exactly the islands.
proof fn lemma_islands(gs: Seq<Seq<usize>>, keys: Seq<usize>, label: Seq<usize>, links: Seq<(usize, usize)>, n: int)
    requires
        building(gs, keys, label, n),
        labelled(links, label, n),
        settled(links, label),
    ensures
        islands(gs, links, n),
{
    assert forall|g: int, j: int, h: int, k: int|
        0 <= g < gs.len() && 0 <= j < gs[g].len() && 0 <= h < gs.len() && 0 <= k < gs[h].len()
            implies (g == h <==> connected(links, #[trigger] gs[g][j] as int, #[trigger] gs[h][k] as int)) by {
        let a = gs[g][j] as int;
        let b = gs[h][k] as int;
        assert(label[a] == keys[g] && label[b] == keys[h]);
        assert(a < n && b < n);
        assert(connected(links, a, label[a] as int));
        assert(connected(links, b, label[b] as int));
        if g == h {
            lemma_connected_symmetric(links, b, label[b] as int);
            lemma_connected_trans(links, a, label[a] as int, b);
        }
        if connected(links, a, b) {
            let p = choose|p: Seq<int>| #[trigger] is_chain(links, p) && p[0] == a && p[p.len() - 1] == b;
            lemma_chain_keeps_label(links, label, p);
            if g != h {
                if g < h {
                    assert(keys[g] != keys[h]);
                } else {
                    assert(keys[h] != keys[g]);
                }
            }
        }
    }
}

/// The islands of rocks `0..count`, each as the increasing list of its rocks, in the order of
/// their first rock. `links` holds the pairs of touching rocks.
pub fn clusters(count: usize, links: &Vec<(usize, usize)>) -> (groups: Vec<Vec<usize>>)
    requires
        pairs_within(links@, count as int),
    ensures
        islands(members(groups@), links@, count as int),
{
    let n = count;
    let mut label: Vec<usize> = Vec::new();
    let mut i: usize = 0;
    while i < n
        invariant
            i <= n,
            label@.len() == i,
            forall|m: int| 0 <= m < i ==> #[trigger] label@[m] == m,
        decreases n - i,
    {
        label.push(i);
        i += 1;
    }
    proof {
        assert forall|m: int| 0 <= m < n implies #[trigger] label@[m] <= m && connected(
            links@,
            m,
            label@[m] as int,
        ) by {
            lemma_connected_refl(links@, m);
        }
    }
    // Pass over the pairs until every touching pair shares the smaller of its labels.
    loop
        invariant
            pairs_within(links@, n as int),
            labelled(links@, label@, n as int),
        ensures
            settled(links@, label@),
        decreases total(label@),
    {
        let ghost start = label@;
        let mut changed = false;
        let mut k: usize = 0;
        while k < links.len()
            invariant
                k <= links@.len(),
                pairs_within(links@, n as int),
                labelled(links@, label@, n as int),
                changed ==> total(label@) < total(start),
                !changed ==> label@ == start,
                !changed ==> forall|m: int| 0 <= m < k ==> label@[#[trigger] links@[m].0 as int]
                    == label@[links@[m].1 as int],
            decreases links@.len() - k,
        {
            let (a, b) = links[k];
            proof {
                assert(links@[k as int].0 < n && links@[k as int].1 < n);
                assert(linked(links@, a as int, b as int));
            }
            let la = label[a];
            let lb = label[b];
            if la < lb {
                proof {
                    lemma_relabel(links@, label@, n as int, a as int, b as int);
                }
                label.set(b, la);
                changed = true;
            } else if lb < la {
                proof {
                    lemma_linked_symmetric(links@, a as int, b as int);
                    lemma_relabel(links@, label@, n as int, b as int, a as int);
                }
                label.set(a, lb);
                changed = true;
            }
            k += 1;
        }
        if !changed {
            break;
        }
    }
    let mut groups: Vec<Vec<usize>> = Vec::new();
    let mut keys: Vec<usize> = Vec::new();
    let mut x: usize = 0;
    proof {
        assert(members(groups@) =~= Seq::<Seq<usize>>::empty());
    }
    // Rocks in increasing order join the group of their label, or open a new one.
    while x < n
        invariant
            x <= n,
            labelled(links@, label@, n as int),
            settled(links@, label@),
            groups@.len() == keys@.len(),
            building(members(groups@), keys@, label@, x as int),
        decreases n - x,
    {
        let l = label[x];
        let mut g: usize = 0;
        while g < keys.len()
            invariant
                g <= keys@.len(),
                forall|h: int| 0 <= h < g ==> #[trigger] keys@[h] != l,
            ensures
                g <= keys@.len(),
                forall|h: int| 0 <= h < g ==> #[trigger] keys@[h] != l,
                g < keys@.len() ==> keys@[g as int] == l,
            decreases keys@.len() - g,
        {
            if keys[g] == l {
                break;
            }
            g += 1;
        }
        let ghost before = members(groups@);
        if g < keys.len() {
            let mut joined = groups[g].clone();
            proof {
                assert(joined@ =~= before[g as int]);
            }
            joined.push(x);
            groups.set(g, joined);
            proof {
                assert(members(groups@) =~= before.update(g as int, before[g as int].push(x)));
                lemma_join_group(before, keys@, label@, x as int, g as int);
            }
        } else {
            let mut single: Vec<usize> = Vec::new();
            single.push(x);
            keys.push(l);
            groups.push(single);
            proof {
                assert(single@ =~= seq![x]);
                assert(members(groups@) =~= before.push(seq![x]));
                lemma_open_group(before, keys@.drop_last(), label@, x as int);
                assert(keys@.drop_last().push(l) =~= keys@);
            }
        }
        x += 1;
    }
    proof {
        lemma_islands(members(groups@), keys@, label@, links@, n as int);
    }
    groups
}

} // verus!
