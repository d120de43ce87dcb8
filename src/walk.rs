use vstd::prelude::*;

use crate::model::{
    entry_refers, entry_refers_vault, has_bad_entry, pairs_of, refers, refers_vault, Component,
    Entry,
};

verus! {

/// What one collection yielded: its decoded pairs and what they reference.
#[derive(Debug, Clone)]
pub struct CollectionDump {
    pub id: usize,
    pub entries: Vec<(String, String)>,
    pub collections: Vec<usize>,
    pub vaults: Vec<usize>,
    /// Some key or value of the collection failed validation.
    pub failed: bool,
}

pub open spec fn pair_views(s: Seq<(String, String)>) -> Seq<(Seq<char>, Seq<char>)> {
    s.map_values(|p: (String, String)| (p.0@, p.1@))
}

/// `d` is exactly what collection `c` of `comp` yields.
pub open spec fn dump_of(comp: Component, c: int, d: CollectionDump) -> bool {
    &&& d.id == c
    &&& pair_views(d.entries@) == pairs_of(comp.collections@[c]@)
    &&& forall|x: usize| d.collections@.contains(x) <==> refers(comp, c, x)
    &&& forall|v: usize| d.vaults@.contains(v) <==> refers_vault(comp, c, v)
    &&& d.failed == has_bad_entry(comp, c)
}

fn push_all(dst: &mut Vec<usize>, src: &Vec<usize>)
    ensures
        final(dst)@ == old(dst)@ + src@,
{
    let mut i: usize = 0;
    while i < src.len()
        invariant
            i <= src@.len(),
            dst@ == old(dst)@ + src@.subrange(0, i as int),
        decreases src@.len() - i,
    {
        dst.push(src[i]);
        i = i + 1;
        assert(src@.subrange(0, i as int) == src@.subrange(0, i - 1).push(src@[i - 1]));
    }
    assert(src@.subrange(0, src@.len() as int) == src@);
}

fn contains(s: &Vec<usize>, x: usize) -> (r: bool)
    ensures
        r == s@.contains(x),
{
    let mut i: usize = 0;
    while i < s.len()
        invariant
            i <= s@.len(),
            forall|k: int| 0 <= k < i ==> s@[k] != x,
        decreases s@.len() - i,
    {
        if s[i] == x {
            return true;
        }
        i = i + 1;
    }
    false
}

/// Adds to `dst` each item of `src` that it does not hold yet.
fn insert_all(dst: &mut Vec<usize>, src: &Vec<usize>)
    requires
        old(dst)@.no_duplicates(),
    ensures
        final(dst)@.no_duplicates(),
        forall|x: usize| final(dst)@.contains(x) <==> (old(dst)@.contains(x) || src@.contains(x)),
{
    let mut i: usize = 0;
    while i < src.len()
        invariant
            i <= src@.len(),
            dst@.no_duplicates(),
            forall|x: usize|
                dst@.contains(x) <==> (old(dst)@.contains(x) || src@.subrange(0, i as int).contains(
                    x,
                )),
        decreases src@.len() - i,
    {
        let x = src[i];
        let ghost prev = dst@;
        if !contains(dst, x) {
            dst.push(x);
            proof {
                assert(dst@[prev.len() as int] == x);
                assert forall|y: usize| prev.contains(y) implies dst@.contains(y) by {
                    let k = choose|k: int| 0 <= k < prev.len() && #[trigger] prev[k] == y;
                    assert(dst@[k] == y);
                }
                assert forall|y: usize| dst@.contains(y) && y != x implies prev.contains(y) by {
                    let k = choose|k: int| 0 <= k < dst@.len() && #[trigger] dst@[k] == y;
                    assert(prev[k] == y);
                }
            }
        }
        assert(dst@.contains(x));
        assert(forall|y: usize| dst@.contains(y) <==> (prev.contains(y) || y == x));
        let ghost pre_i = i as int;
        assert(forall|y: usize|
            prev.contains(y) <==> (old(dst)@.contains(y) || src@.subrange(0, pre_i).contains(y)));
        i = i + 1;
        assert forall|y: usize|
            dst@.contains(y) <==> (old(dst)@.contains(y) || src@.subrange(0, i as int).contains(
                y,
            )) by {
            assert(prev.contains(y) <==> (old(dst)@.contains(y) || src@.subrange(0, pre_i).contains(y)));
            if src@.subrange(0, i as int).contains(y) {
                let k = choose|k: int| 0 <= k < i && #[trigger] src@.subrange(0, i as int)[k] == y;
                if k < pre_i {
                    assert(src@.subrange(0, pre_i)[k] == y);
                }
            }
            if src@.subrange(0, pre_i).contains(y) {
                let k = choose|k: int| 0 <= k < pre_i && #[trigger] src@.subrange(0, pre_i)[k] == y;
                assert(src@.subrange(0, i as int)[k] == y);
            }
            if y == x {
                assert(src@.subrange(0, i as int)[i - 1] == y);
            }
        }
    }
    assert(src@.subrange(0, src@.len() as int) == src@);
}

/// Decodes every entry of collection `c` of `comp`. A key or value that
/// failed validation sets `failed` and is skipped; the others still count.
pub fn dump_lazy_map(comp: &Component, c: usize) -> (r: CollectionDump)
    requires
        c < comp.collections@.len(),
    ensures
        dump_of(*comp, c as int, r),
{
    let es = &comp.collections[c];
    let mut entries: Vec<(String, String)> = Vec::new();
    let mut cols: Vec<usize> = Vec::new();
    let mut vaults: Vec<usize> = Vec::new();
    let mut failed = false;
    let mut e: usize = 0;
    while e < es.len()
        invariant
            es == comp.collections@[c as int],
            e <= es@.len(),
            pair_views(entries@) == pairs_of(es@.subrange(0, e as int)),
            forall|x: usize|
                cols@.contains(x) <==> exists|e2: int, j: int|
                    0 <= e2 < e && #[trigger] entry_refers(es@[e2], j, x),
            forall|v: usize|
                vaults@.contains(v) <==> exists|e2: int, j: int|
                    0 <= e2 < e && #[trigger] entry_refers_vault(es@[e2], j, v),
            failed == exists|e2: int|
                0 <= e2 < e && (#[trigger] es@[e2].key.is_none() || es@[e2].value.is_none()),
        decreases es@.len() - e,
    {
        let en: &Entry = &es[e];
        let ghost old_cols = cols@;
        let ghost old_vaults = vaults@;
        let ghost old_entries = entries@;
        let ghost old_failed = failed;
        match &en.key {
            Some(k) => {
                push_all(&mut cols, &k.collections);
                push_all(&mut vaults, &k.vaults);
            },
            None => {},
        }
        match &en.value {
            Some(v) => {
                push_all(&mut cols, &v.collections);
                push_all(&mut vaults, &v.vaults);
            },
            None => {},
        }
        match (&en.key, &en.value) {
            (Some(k), Some(v)) => {
                entries.push((k.text.clone(), v.text.clone()));
            },
            _ => {
                failed = true;
            },
        }
        proof {
            let bad_here = es@[e as int].key.is_none() || es@[e as int].value.is_none();
            assert(failed == (old_failed || bad_here));
            let now = exists|e2: int|
                0 <= e2 < e + 1 && (#[trigger] es@[e2].key.is_none() || es@[e2].value.is_none());
            assert(now == (old_failed || bad_here)) by {
                if now {
                    let e2 = choose|e2: int|
                        0 <= e2 < e + 1 && (#[trigger] es@[e2].key.is_none() || es@[e2].value.is_none());
                }
            }
            let pre = es@.subrange(0, e as int);
            let post = es@.subrange(0, e + 1);
            assert(post.drop_last() == pre);
            assert(post.last() == es@[e as int]);
            assert(pair_views(entries@) == pairs_of(post)) by {
                if en.key.is_some() && en.value.is_some() {
                    assert(pair_views(entries@) == pair_views(old_entries).push(
                        (en.key.unwrap().text@, en.value.unwrap().text@),
                    ));
                }
            }
            assert forall|x: usize|
                cols@.contains(x) <==> exists|e2: int, j: int|
                    0 <= e2 < e + 1 && #[trigger] entry_refers(es@[e2], j, x) by {
                if cols@.contains(x) && !old_cols.contains(x) {
                    let q = choose|q: int| 0 <= q < cols@.len() && #[trigger] cols@[q] == x;
                    if en.key.is_some() && old_cols.len() <= q < old_cols.len()
                        + en.key.unwrap().collections@.len() {
                        assert(entry_refers(es@[e as int], q - old_cols.len(), x));
                    } else {
                        let base = old_cols.len() + if en.key.is_some() {
                            en.key.unwrap().collections@.len()
                        } else {
                            0
                        };
                        assert(entry_refers(es@[e as int], q - base, x));
                    }
                }
                if exists|e2: int, j: int| 0 <= e2 < e + 1 && #[trigger] entry_refers(es@[e2], j, x) {
                    let (e2, j) = choose|e2: int, j: int|
                        0 <= e2 < e + 1 && #[trigger] entry_refers(es@[e2], j, x);
                    if e2 == e {
                        let base = old_cols.len() + if en.key.is_some() {
                            en.key.unwrap().collections@.len()
                        } else {
                            0
                        };
                        if en.key.is_some() && 0 <= j < en.key.unwrap().collections@.len()
                            && en.key.unwrap().collections@[j] == x {
                            assert(cols@[old_cols.len() + j] == x);
                        } else {
                            assert(cols@[base + j] == x);
                        }
                    } else {
                        assert(old_cols.contains(x));
                        let q = choose|q: int| 0 <= q < old_cols.len() && #[trigger] old_cols[q] == x;
                        assert(cols@[q] == x);
                    }
                }
            }
            assert forall|v: usize|
                vaults@.contains(v) <==> exists|e2: int, j: int|
                    0 <= e2 < e + 1 && #[trigger] entry_refers_vault(es@[e2], j, v) by {
                if vaults@.contains(v) && !old_vaults.contains(v) {
                    let q = choose|q: int| 0 <= q < vaults@.len() && #[trigger] vaults@[q] == v;
                    if en.key.is_some() && old_vaults.len() <= q < old_vaults.len()
                        + en.key.unwrap().vaults@.len() {
                        assert(entry_refers_vault(es@[e as int], q - old_vaults.len(), v));
                    } else {
                        let base = old_vaults.len() + if en.key.is_some() {
                            en.key.unwrap().vaults@.len()
                        } else {
                            0
                        };
                        assert(entry_refers_vault(es@[e as int], q - base, v));
                    }
                }
                if exists|e2: int, j: int|
                    0 <= e2 < e + 1 && #[trigger] entry_refers_vault(es@[e2], j, v) {
                    let (e2, j) = choose|e2: int, j: int|
                        0 <= e2 < e + 1 && #[trigger] entry_refers_vault(es@[e2], j, v);
                    if e2 == e {
                        let base = old_vaults.len() + if en.key.is_some() {
                            en.key.unwrap().vaults@.len()
                        } else {
                            0
                        };
                        if en.key.is_some() && 0 <= j < en.key.unwrap().vaults@.len()
                            && en.key.unwrap().vaults@[j] == v {
                            assert(vaults@[old_vaults.len() + j] == v);
                        } else {
                            assert(vaults@[base + j] == v);
                        }
                    } else {
                        assert(old_vaults.contains(v));
                        let q = choose|q: int| 0 <= q < old_vaults.len() && #[trigger] old_vaults[q] == v;
                        assert(vaults@[q] == v);
                    }
                }
            }
        }
        e = e + 1;
    }
    assert(es@.subrange(0, es@.len() as int) == es@);
    CollectionDump { id: c, entries, collections: cols, vaults, failed }
}

/// The outcome of walking every collection reachable from a set of seeds.
#[derive(Debug)]
pub struct Walk {
    /// The collections decoded, in the order they were taken from the queue.
    pub order: Vec<usize>,
    /// One dump per entry of `order`, in the same order.
    pub dumps: Vec<CollectionDump>,
    /// The discovered vaults, each once.
    pub vaults: Vec<usize>,
    /// Some reached collection was absent or held an entry that failed
    /// validation.
    pub failed: bool,
}

/// `x` is a seed or is referenced by a collection in `order`.
pub open spec fn discovered(comp: Component, seeds: Seq<usize>, order: Seq<usize>, x: usize) -> bool {
    seeds.contains(x) || exists|k: int| 0 <= k < order.len() && #[trigger] refers(comp, order[k] as int, x)
}

/// `v` is a seed vault or is referenced by a collection in `order`.
pub open spec fn vault_discovered(comp: Component, seeds: Seq<usize>, order: Seq<usize>, v: usize) -> bool {
    seeds.contains(v) || exists|k: int| 0 <= k < order.len() && #[trigger] refers_vault(comp, order[k] as int, v)
}

/// A discovered id names no collection of `comp`, or a collection in `order`
/// holds an entry that failed validation.
pub open spec fn walk_failed(comp: Component, seeds: Seq<usize>, order: Seq<usize>) -> bool {
    (exists|x: usize| discovered(comp, seeds, order, x) && x >= comp.collections@.len())
        || exists|k: int| 0 <= k < order.len() && #[trigger] has_bad_entry(comp, order[k] as int)
}

/// `r` is the result of walking `comp` from the given seeds: each existing
/// collection found is decoded exactly once, and nothing else is decoded.
pub open spec fn walk_spec(comp: Component, seed_maps: Seq<usize>, seed_vaults: Seq<usize>, r: Walk) -> bool {
    &&& r.order@.no_duplicates()
    &&& forall|k: int| 0 <= k < r.order@.len() ==> r.order@[k] < comp.collections@.len()
    &&& r.dumps@.len() == r.order@.len()
    &&& forall|k: int| 0 <= k < r.order@.len() ==> dump_of(comp, r.order@[k] as int, #[trigger] r.dumps@[k])
    &&& forall|k: int| 0 <= k < r.order@.len() ==> discovered(comp, seed_maps, r.order@, #[trigger] r.order@[k])
    &&& forall|x: usize| #![trigger r.order@.contains(x)]
        discovered(comp, seed_maps, r.order@, x) && x < comp.collections@.len() ==> r.order@.contains(x)
    &&& r.vaults@.no_duplicates()
    &&& forall|v: usize| r.vaults@.contains(v) <==> vault_discovered(comp, seed_vaults, r.order@, v)
    &&& r.failed == walk_failed(comp, seed_maps, r.order@)
    &&& seed_maps.len() == 0 ==> r.order@.len() == 0 && !r.failed
}

proof fn lemma_distinct_below(s: Seq<usize>, n: usize)
    requires
        s.no_duplicates(),
        forall|k: int| 0 <= k < s.len() ==> s[k] < n,
    ensures
        s.len() <= n,
{
    let t = s.map_values(|x: usize| x as int);
    assert(t.no_duplicates()) by {
        assert forall|a: int, b: int| 0 <= a < t.len() && 0 <= b < t.len() && a != b implies t[a] != t[b] by {
            assert(s[a] != s[b]);
        }
    }
    t.unique_seq_to_set();
    vstd::set_lib::lemma_int_range(0, n as int);
    assert forall|x: int| t.to_set().contains(x) implies vstd::set_lib::set_int_range(0, n as int).contains(x) by {
        assert(t.contains(x));
        let k = choose|k: int| 0 <= k < t.len() && #[trigger] t[k] == x;
        assert(s[k] < n);
    }
    vstd::set_lib::lemma_len_subset(t.to_set(), vstd::set_lib::set_int_range(0, n as int));
}

/// Walks, breadth first, every collection of `comp` reachable from
/// `seed_maps`, decoding each at most once. The visited check happens when an
/// id leaves the queue, so an id may be queued many times; a cycle or a shared
/// collection is decoded once. A collection that fails, or an id the component
/// does not hold, sets `failed` and the walk goes on.
pub fn walk_collections(comp: &Component, seed_maps: &Vec<usize>, seed_vaults: &Vec<usize>) -> (r: Walk)
    ensures
        walk_spec(*comp, seed_maps@, seed_vaults@, r),
{
    let n = comp.collections.len();
    let mut visited: Vec<bool> = Vec::new();
    while visited.len() < n
        invariant
            visited@.len() <= n,
            forall|k: int| 0 <= k < visited@.len() ==> !visited@[k],
        decreases n - visited@.len(),
    {
        visited.push(false);
    }
    let mut queue: Vec<usize> = Vec::new();
    push_all(&mut queue, seed_maps);
    let mut vaults: Vec<usize> = Vec::new();
    insert_all(&mut vaults, seed_vaults);
    let mut order: Vec<usize> = Vec::new();
    let mut dumps: Vec<CollectionDump> = Vec::new();
    let mut failed = false;
    let mut i: usize = 0;
    assert(forall|x: usize| queue@.contains(x) <==> seed_maps@.contains(x));
    assert(seed_maps@.len() == 0 ==> queue@.len() == 0);
    while i < queue.len()
        invariant
            n == comp.collections@.len(),
            i <= queue@.len(),
            seed_maps@.len() == 0 ==> queue@.len() == 0 && order@.len() == 0 && !failed,
            visited@.len() == n,
            forall|x: usize| x < n ==> (visited@[x as int] <==> order@.contains(x)),
            order@.no_duplicates(),
            forall|k: int| 0 <= k < order@.len() ==> order@[k] < n,
            dumps@.len() == order@.len(),
            forall|k: int| 0 <= k < order@.len() ==> dump_of(*comp, order@[k] as int, #[trigger] dumps@[k]),
            forall|x: usize| queue@.contains(x) <==> discovered(*comp, seed_maps@, order@, x),
            forall|k: int| 0 <= k < order@.len() ==> queue@.contains(#[trigger] order@[k]),
            forall|k: int| 0 <= k < i ==> (#[trigger] queue@[k] < n ==> visited@[queue@[k] as int]),
            vaults@.no_duplicates(),
            forall|v: usize| vaults@.contains(v) <==> vault_discovered(*comp, seed_vaults@, order@, v),
            failed == ((exists|k: int| 0 <= k < i && #[trigger] queue@[k] >= n)
                || exists|k: int| 0 <= k < order@.len() && #[trigger] has_bad_entry(*comp, order@[k] as int)),
        decreases n - order@.len(), queue@.len() - i,
    {
        let c = queue[i];
        if c >= n {
            failed = true;
        } else if !visited[c] {
            proof {
                lemma_distinct_below(order@.push(c), n);
            }
            let d = dump_lazy_map(comp, c);
            let ghost old_order = order@;
            let ghost old_queue = queue@;
            assert(forall|x: usize| old_queue.contains(x) ==> discovered(*comp, seed_maps@, old_order, x));
            let ghost old_vaults = vaults@;
            let ghost old_dumps = dumps@;
            visited.set(c, true);
            push_all(&mut queue, &d.collections);
            insert_all(&mut vaults, &d.vaults);
            if d.failed {
                failed = true;
            }
            order.push(c);
            dumps.push(d);
            proof {
                assert(order@[old_order.len() as int] == c);
                assert forall|k: int| 0 <= k < old_order.len() implies #[trigger] order@[k] == old_order[k] by {}
                assert forall|x: usize| x < n implies (visited@[x as int] <==> order@.contains(x)) by {
                    if x != c && order@.contains(x) {
                        let k = choose|k: int| 0 <= k < order@.len() && #[trigger] order@[k] == x;
                        assert(old_order[k] == x);
                    }
                    if old_order.contains(x) {
                        let k = choose|k: int| 0 <= k < old_order.len() && #[trigger] old_order[k] == x;
                        assert(order@[k] == x);
                    }
                }
                assert forall|k: int| 0 <= k < order@.len() implies dump_of(*comp, order@[k] as int, #[trigger] dumps@[k]) by {
                    if k < old_order.len() {
                        assert(dumps@[k] == old_dumps[k]);
                    }
                }
                assert forall|x: usize| queue@.contains(x) <==> discovered(*comp, seed_maps@, order@, x) by {
                    if queue@.contains(x) {
                        let q = choose|q: int| 0 <= q < queue@.len() && #[trigger] queue@[q] == x;
                        if q < old_queue.len() {
                            assert(old_queue[q] == x);
                            assert(old_queue.contains(x));
                            assert(discovered(*comp, seed_maps@, old_order, x));
                            if !seed_maps@.contains(x) {
                                let k = choose|k: int| 0 <= k < old_order.len() && #[trigger] refers(*comp, old_order[k] as int, x);
                                assert(refers(*comp, order@[k] as int, x));
                            }
                        } else {
                            assert(d.collections@[q - old_queue.len()] == x);
                            assert(refers(*comp, order@[old_order.len() as int] as int, x));
                        }
                    }
                    if discovered(*comp, seed_maps@, order@, x) {
                        if !seed_maps@.contains(x) {
                            let k = choose|k: int| 0 <= k < order@.len() && #[trigger] refers(*comp, order@[k] as int, x);
                            if k < old_order.len() {
                                assert(refers(*comp, old_order[k] as int, x));
                                assert(old_queue.contains(x));
                                let q = choose|q: int| 0 <= q < old_queue.len() && #[trigger] old_queue[q] == x;
                                assert(queue@[q] == x);
                            } else {
                                assert(d.collections@.contains(x));
                                let q = choose|q: int| 0 <= q < d.collections@.len() && #[trigger] d.collections@[q] == x;
                                assert(queue@[old_queue.len() + q] == x);
                            }
                        } else {
                            assert(old_queue.contains(x));
                            let q = choose|q: int| 0 <= q < old_queue.len() && #[trigger] old_queue[q] == x;
                            assert(queue@[q] == x);
                        }
                    }
                }
                assert forall|k: int| 0 <= k < order@.len() implies queue@.contains(#[trigger] order@[k]) by {
                    let x = order@[k];
                    if k < old_order.len() {
                        assert(old_queue.contains(old_order[k]));
                    } else {
                        assert(old_queue[i as int] == c);
                    }
                    assert(old_queue.contains(x));
                    let q = choose|q: int| 0 <= q < old_queue.len() && #[trigger] old_queue[q] == x;
                    assert(queue@[q] == x);
                }
                assert forall|k: int| 0 <= k < i + 1 && #[trigger] queue@[k] < n implies visited@[queue@[k] as int] by {
                    assert(queue@[k] == old_queue[k]);
                }
                assert forall|v: usize| vaults@.contains(v) <==> vault_discovered(*comp, seed_vaults@, order@, v) by {
                    if old_vaults.contains(v) && !seed_vaults@.contains(v) {
                        let k = choose|k: int| 0 <= k < old_order.len() && #[trigger] refers_vault(*comp, old_order[k] as int, v);
                        assert(refers_vault(*comp, order@[k] as int, v));
                    }
                    if d.vaults@.contains(v) {
                        assert(refers_vault(*comp, order@[old_order.len() as int] as int, v));
                    }
                    if vault_discovered(*comp, seed_vaults@, order@, v) && !seed_vaults@.contains(v) {
                        let k = choose|k: int| 0 <= k < order@.len() && #[trigger] refers_vault(*comp, order@[k] as int, v);
                        if k < old_order.len() {
                            assert(refers_vault(*comp, old_order[k] as int, v));
                        }
                    }
                }
                let bad_new = exists|k: int| 0 <= k < order@.len() && #[trigger] has_bad_entry(*comp, order@[k] as int);
                let bad_old = exists|k: int| 0 <= k < old_order.len() && #[trigger] has_bad_entry(*comp, old_order[k] as int);
                assert(bad_new == (bad_old || d.failed)) by {
                    if bad_old {
                        let k = choose|k: int| 0 <= k < old_order.len() && #[trigger] has_bad_entry(*comp, old_order[k] as int);
                        assert(has_bad_entry(*comp, order@[k] as int));
                    }
                    if bad_new {
                        let k = choose|k: int| 0 <= k < order@.len() && #[trigger] has_bad_entry(*comp, order@[k] as int);
                        if k < old_order.len() {
                            assert(has_bad_entry(*comp, old_order[k] as int));
                        }
                    }
                    if d.failed {
                        assert(has_bad_entry(*comp, order@[old_order.len() as int] as int));
                    }
                }
                assert forall|k: int| 0 <= k < i + 1 && #[trigger] queue@[k] >= n implies 0 <= k < i && old_queue[k] >= n by {
                    assert(queue@[k] == old_queue[k]);
                }
                assert forall|k: int| 0 <= k < i && #[trigger] old_queue[k] >= n implies 0 <= k < i + 1 && queue@[k] >= n by {
                    assert(queue@[k] == old_queue[k]);
                }
            }
        }
        proof {
            if c >= n {
                assert(queue@[i as int] >= n);
            }
        }
        i = i + 1;
    }
    proof {
        assert forall|x: usize| #![trigger order@.contains(x)]
            discovered(*comp, seed_maps@, order@, x) && x < n implies order@.contains(x) by {
            assert(queue@.contains(x));
            let q = choose|q: int| 0 <= q < queue@.len() && #[trigger] queue@[q] == x;
        }
        assert forall|k: int| 0 <= k < order@.len() implies discovered(*comp, seed_maps@, order@, #[trigger] order@[k]) by {
            assert(queue@.contains(order@[k]));
        }
        let lhs = exists|k: int| 0 <= k < i && #[trigger] queue@[k] >= n;
        let rhs = exists|x: usize| discovered(*comp, seed_maps@, order@, x) && x >= comp.collections@.len();
        assert(lhs == rhs) by {
            if lhs {
                let k = choose|k: int| 0 <= k < i && #[trigger] queue@[k] >= n;
                assert(queue@.contains(queue@[k]));
            }
            if rhs {
                let x = choose|x: usize| discovered(*comp, seed_maps@, order@, x) && x >= comp.collections@.len();
                assert(queue@.contains(x));
                let q = choose|q: int| 0 <= q < queue@.len() && #[trigger] queue@[q] == x;
                assert(queue@[q] >= n);
            }
        }
        assert(i == queue@.len());
        let bad = exists|k: int| 0 <= k < order@.len() && #[trigger] has_bad_entry(*comp, order@[k] as int);
        assert(failed == (lhs || bad));
        assert(failed == (rhs || bad));
        assert(failed == walk_failed(*comp, seed_maps@, order@));
    }
    Walk { order, dumps, vaults, failed }
}

} // verus!
