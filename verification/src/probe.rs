//! Parsers for what the kernel reports: mount tables, NBD names, and the tree
//! of block devices under a filesystem. None of them performs I/O.

use vstd::prelude::*;
use vstd::string::StringSliceAdditionalSpecFns;

use crate::text::{
    chars_of, digit, from_utf8_lossy, insert_ordered, join2, list_holds, parse_upto, same, show,
    split_lines, split_once, split_words, strip_prefix,
};

verus! {

broadcast use vstd::seq::group_seq_axioms;

/// What the mount table says about one mountpoint.
#[derive(Debug, PartialEq, Eq)]
pub struct MountEntry {
    pub source: String,
    pub fstype: String,
    /// The mounted block device's `major:minor`, the handle for walking its
    /// device tree.
    pub major_minor: String,
}

/// The texts of a [`MountEntry`].
pub struct Mounted {
    pub source: Seq<char>,
    pub fstype: Seq<char>,
    pub major_minor: Seq<char>,
}

impl View for MountEntry {
    type V = Mounted;

    open spec fn view(&self) -> Mounted {
        Mounted {
            source: self.source@,
            fstype: self.fstype@,
            major_minor: self.major_minor@,
        }
    }
}

// ---------- the devices under a filesystem ----------

/// How far below the start a device may lie.
pub const MAX_DEPTH: usize = 16;

/// Which devices each listed device is built on.
pub open spec fn links_of(v: Seq<(String, Vec<String>)>) -> Map<Seq<char>, Seq<Seq<char>>>
    decreases v.len(),
{
    if v.len() == 0 {
        Map::empty()
    } else {
        links_of(v.drop_first()).insert(v[0].0@, crate::text::strings(v[0].1@))
    }
}

/// The devices directly under `device`.
pub open spec fn under(links: Map<Seq<char>, Seq<Seq<char>>>, device: Seq<char>) -> Seq<Seq<char>> {
    if links.contains_key(device) {
        links[device]
    } else {
        Seq::empty()
    }
}

/// The devices still to visit once the slaves of a device at `depth` are added.
pub open spec fn deeper(slaves: Seq<Seq<char>>, depth: nat) -> Seq<(Seq<char>, nat)> {
    slaves.map_values(|s: Seq<char>| (s, depth + 1))
}

/// The leaves that a walk finds: it takes the last device to visit, skips it
/// when it was seen before or lies too deep, keeps it when nothing lies under
/// it, and goes on with what lies under it otherwise.
pub open spec fn leaves(
    links: Map<Seq<char>, Seq<Seq<char>>>,
    stack: Seq<(Seq<char>, nat)>,
    seen: Set<Seq<char>>,
) -> Set<Seq<char>>
    decreases links.dom().difference(seen).len(), stack.len(),
    when links.dom().finite()
    via leaves_ends
{
    if stack.len() == 0 {
        Set::empty()
    } else {
        let (device, depth) = stack.last();
        let rest = stack.drop_last();
        if seen.contains(device) {
            leaves(links, rest, seen)
        } else if depth > MAX_DEPTH {
            leaves(links, rest, seen.insert(device))
        } else if under(links, device).len() == 0 {
            leaves(links, rest, seen.insert(device)).insert(device)
        } else {
            leaves(links, rest + deeper(under(links, device), depth), seen.insert(device))
        }
    }
}

proof fn lemma_seen_grows(links: Map<Seq<char>, Seq<Seq<char>>>, seen: Set<Seq<char>>, d: Seq<char>)
    requires
        links.dom().finite(),
    ensures
        links.dom().difference(seen.insert(d)).len() <= links.dom().difference(seen).len(),
        links.contains_key(d) && !seen.contains(d) ==> links.dom().difference(seen.insert(d)).len()
            < links.dom().difference(seen).len(),
{
    let before = links.dom().difference(seen);
    let after = links.dom().difference(seen.insert(d));
    assert(before.finite());
    if links.contains_key(d) && !seen.contains(d) {
        assert(after =~= before.remove(d));
    } else {
        assert(after =~= before);
    }
}

#[via_fn]
proof fn leaves_ends(
    links: Map<Seq<char>, Seq<Seq<char>>>,
    stack: Seq<(Seq<char>, nat)>,
    seen: Set<Seq<char>>,
) {
    if stack.len() > 0 {
        lemma_seen_grows(links, seen, stack.last().0);
    }
}

proof fn lemma_links_finite(v: Seq<(String, Vec<String>)>)
    ensures
        links_of(v).dom().finite(),
    decreases v.len(),
{
    if v.len() > 0 {
        lemma_links_finite(v.drop_first());
    }
}

/// The position of the first entry about `name` at or after `i`.
proof fn lemma_lookup(v: Seq<(String, Vec<String>)>, i: int, name: Seq<char>)
    requires
        0 <= i <= v.len(),
        forall|k: int| 0 <= k < i ==> (#[trigger] v[k]).0@ != name,
        i < v.len() ==> v[i].0@ == name,
    ensures
        i < v.len() ==> links_of(v).contains_key(name) && links_of(v)[name]
            == crate::text::strings(v[i].1@),
        i == v.len() ==> !links_of(v).contains_key(name),
    decreases i,
{
    if i > 0 {
        let t = v.drop_first();
        assert forall|k: int| 0 <= k < i - 1 implies (#[trigger] t[k]).0@ != name by {
            assert(t[k] == v[k + 1]);
        }
        lemma_lookup(t, i - 1, name);
        assert(v[0].0@ != name);
    }
}

fn slaves_under<'a>(links: &'a [(String, Vec<String>)], name: &str) -> (r: Option<&'a Vec<String>>)
    ensures
        match r {
            Some(slaves) => crate::text::strings(slaves@) == under(links_of(links@), name@),
            None => under(links_of(links@), name@).len() == 0,
        },
{
    let mut i: usize = 0;
    while i < links.len()
        invariant
            i <= links.len(),
            forall|k: int| 0 <= k < i ==> (#[trigger] links@[k]).0@ != name@,
        decreases links.len() - i,
    {
        if same(links[i].0.as_str(), name) {
            proof {
                lemma_lookup(links@, i as int, name@);
            }
            return Some(&links[i].1);
        }
        i += 1;
    }
    proof {
        lemma_lookup(links@, i as int, name@);
    }
    None
}

/// The devices and depths behind the stack of the walk.
spec fn stack_view(v: Seq<(String, usize)>) -> Seq<(Seq<char>, nat)> {
    v.map_values(|e: (String, usize)| (e.0@, e.1 as nat))
}

/// Follow the slaves relation (device-mapper, MD) from `start` down to the
/// block devices that have none: the physical devices a filesystem's bytes end
/// up on. `slaves` lists the slaves of each device that has any. A bounded
/// depth and a set of seen devices keep a cyclic or absurd tree from looping.
/// The result is ordered and names no device twice.
pub fn resolve_leaf_devices(start: &str, slaves: &[(String, Vec<String>)]) -> (r: Vec<String>)
    ensures
        crate::text::ascending(crate::text::strings(r@)),
        crate::text::strings(r@).no_duplicates(),
        crate::text::strings(r@).to_set() == leaves(
            links_of(slaves@),
            seq![(start@, 0nat)],
            Set::empty(),
        ),
{
    let ghost links = links_of(slaves@);
    let ghost goal = leaves(links, seq![(start@, 0nat)], Set::empty());
    let mut out: Vec<String> = Vec::new();
    let mut seen: Vec<String> = Vec::new();
    let mut stack: Vec<(String, usize)> = Vec::new();
    stack.push((start.to_owned(), 0));
    proof {
        lemma_links_finite(slaves@);
        assert(stack_view(stack@) =~= seq![(start@, 0nat)]);
        assert(crate::text::strings(seen@).to_set() =~= Set::<Seq<char>>::empty());
        assert(crate::text::strings(out@).to_set() =~= Set::<Seq<char>>::empty());
        assert(crate::text::strings(out@).to_set().union(goal) =~= goal);
    }
    while stack.len() > 0
        invariant
            links == links_of(slaves@),
            links.dom().finite(),
            forall|k: int| 0 <= k < stack@.len() ==> (#[trigger] stack@[k]).1 <= MAX_DEPTH + 1,
            crate::text::ascending(crate::text::strings(out@)),
            crate::text::strings(out@).no_duplicates(),
            crate::text::strings(out@).to_set().subset_of(crate::text::strings(seen@).to_set()),
            crate::text::strings(out@).to_set().union(
                leaves(links, stack_view(stack@), crate::text::strings(seen@).to_set()),
            ) == goal,
        decreases
                links.dom().difference(crate::text::strings(seen@).to_set()).len(),
                stack@.len(),
    {
        let ghost before = stack_view(stack@);
        let ghost seen_before = crate::text::strings(seen@).to_set();
        let (device, depth) = match stack.pop() {
            Some(top) => top,
            None => return out,
        };
        let ghost name = device@;
        proof {
            assert(before.last() == (name, depth as nat));
            assert(stack_view(stack@) =~= before.drop_last());
        }
        if list_holds(&seen, device.as_str()) {
            continue ;
        }
        proof {
            lemma_seen_grows(links, seen_before, name);
        }
        let ghost seen_list = seen@;
        seen.push(device.clone());
        proof {
            assert(crate::text::strings(seen@) =~= crate::text::strings(seen_list).push(name));
            assert(crate::text::strings(seen@).to_set() =~= seen_before.insert(name)) by {
                let a = crate::text::strings(seen_list);
                let b = crate::text::strings(seen@);
                assert forall|x: Seq<char>| b.contains(x) implies a.contains(x) || x == name by {
                    let i = b.index_of(x);
                    if i < a.len() {
                        assert(a[i] == x);
                    }
                }
                assert forall|x: Seq<char>| a.contains(x) || x == name implies b.contains(x) by {
                    if a.contains(x) {
                        assert(b[a.index_of(x)] == x);
                    } else {
                        assert(b[b.len() - 1] == x);
                    }
                }
            }
        }
        if depth > MAX_DEPTH {
            continue ;
        }
        let found = slaves_under(slaves, device.as_str());
        let empty = match found {
            Some(list) => list.len() == 0,
            None => true,
        };
        proof {
            match found {
                Some(list) => {
                    assert(crate::text::strings(list@).len() == list@.len());
                },
                None => {},
            }
        }
        if empty {
            let ghost out_before = crate::text::strings(out@);
            insert_ordered(&mut out, device);
            proof {
                let k = choose|k: int|
                    0 <= k <= out_before.len() && crate::text::strings(out@)
                        == #[trigger] out_before.insert(k, name);
                let after = crate::text::strings(out@);
                assert forall|x: Seq<char>| after.contains(x) implies out_before.contains(x) || x
                    == name by {
                    let i = after.index_of(x);
                    if i < k {
                        assert(out_before[i] == x);
                    } else if i > k {
                        assert(out_before[i - 1] == x);
                    }
                }
                assert forall|x: Seq<char>| out_before.contains(x) || x == name implies
                    after.contains(x) by {
                    if out_before.contains(x) {
                        let i = out_before.index_of(x);
                        if i < k {
                            assert(after[i] == x);
                        } else {
                            assert(after[i + 1] == x);
                        }
                    } else {
                        assert(after[k] == x);
                    }
                }
                assert(after.to_set() =~= out_before.to_set().insert(name));
                assert(!out_before.contains(name)) by {
                    if out_before.contains(name) {
                        assert(out_before.to_set().contains(name));
                    }
                }
                assert(after.no_duplicates()) by {
                    assert forall|i: int, j: int|
                        0 <= i < after.len() && 0 <= j < after.len() && i != j implies after[i]
                        != after[j] by {
                        let p = if i < k {
                            i
                        } else {
                            i - 1
                        };
                        let q = if j < k {
                            j
                        } else {
                            j - 1
                        };
                        if i != k && j != k {
                            assert(out_before[p] == after[i]);
                            assert(out_before[q] == after[j]);
                        } else if i == k {
                            assert(out_before[q] == after[j]);
                        } else {
                            assert(out_before[p] == after[i]);
                        }
                    }
                }
                let tail = leaves(links, stack_view(stack@), seen_before.insert(name));
                assert(after.to_set().union(tail) =~= out_before.to_set().union(
                    tail.insert(name),
                ));
            }
        } else {
            match found {
                Some(list) => {
                    let ghost base = stack_view(stack@);
                    let mut i: usize = 0;
                    while i < list.len()
                        invariant
                            i <= list.len(),
                            depth <= MAX_DEPTH,
                            forall|k: int|
                                0 <= k < stack@.len() ==> (#[trigger] stack@[k]).1 <= MAX_DEPTH + 1,
                            stack_view(stack@) == base + deeper(
                                crate::text::strings(list@.take(i as int)),
                                depth as nat,
                            ),
                        decreases list.len() - i,
                    {
                        let ghost held = stack_view(stack@);
                        stack.push((list[i].clone(), depth + 1));
                        assert(stack_view(stack@) =~= held.push(
                            (list@[i as int]@, (depth + 1) as nat),
                        ));
                        proof {
                            let names = crate::text::strings(list@.take(i as int));
                            let more = crate::text::strings(list@.take(i + 1));
                            let word = list@[i as int]@;
                            assert(more =~= names.push(word));
                            assert(deeper(more, depth as nat) =~= deeper(names, depth as nat).push(
                                (word, depth as nat + 1),
                            ));
                            assert(stack_view(stack@) =~= base + deeper(more, depth as nat));
                        }
                        i += 1;
                    }
                    assert(list@.take(i as int) =~= list@);
                },
                None => {},
            }
        }
    }
    proof {
        assert(stack_view(stack@).len() == 0);
        assert(crate::text::strings(out@).to_set() =~= goal);
    }
    out
}

/// There are `n` steps down from `from` to `to`.
pub open spec fn reaches(
    links: Map<Seq<char>, Seq<Seq<char>>>,
    from: Seq<char>,
    to: Seq<char>,
    n: nat,
) -> bool
    decreases n,
{
    if n == 0 {
        from == to
    } else {
        exists|mid: Seq<char>|
            reaches(links, from, mid, (n - 1) as nat) && #[trigger] under(links, mid).contains(to)
    }
}

/// Every leaf that the walk names lies under the start, within the bound, and
/// has nothing under it.
pub proof fn leaves_lie_under_the_start(
    links: Map<Seq<char>, Seq<Seq<char>>>,
    start: Seq<char>,
    stack: Seq<(Seq<char>, nat)>,
    seen: Set<Seq<char>>,
    leaf: Seq<char>,
)
    requires
        links.dom().finite(),
        forall|k: int|
            0 <= k < stack.len() ==> reaches(
                links,
                start,
                (#[trigger] stack[k]).0,
                stack[k].1,
            ),
        leaves(links, stack, seen).contains(leaf),
    ensures
        under(links, leaf).len() == 0,
        exists|n: nat| n <= MAX_DEPTH && #[trigger] reaches(links, start, leaf, n),
    decreases links.dom().difference(seen).len(), stack.len(),
{
    if stack.len() > 0 {
        let (device, depth) = stack.last();
        let rest = stack.drop_last();
        lemma_seen_grows(links, seen, device);
        assert(reaches(links, start, device, depth)) by {
            assert(stack[stack.len() - 1] == stack.last());
        }
        assert(forall|k: int| 0 <= k < rest.len() ==> #[trigger] rest[k] == stack[k]);
        if seen.contains(device) {
            leaves_lie_under_the_start(links, start, rest, seen, leaf);
        } else if depth > MAX_DEPTH {
            leaves_lie_under_the_start(links, start, rest, seen.insert(device), leaf);
        } else if under(links, device).len() == 0 {
            if leaf != device {
                leaves_lie_under_the_start(links, start, rest, seen.insert(device), leaf);
            }
        } else {
            let more = rest + deeper(under(links, device), depth);
            assert forall|k: int| 0 <= k < more.len() implies reaches(
                links,
                start,
                (#[trigger] more[k]).0,
                more[k].1,
            ) by {
                if k >= rest.len() {
                    let s = under(links, device)[k - rest.len()];
                    assert(more[k] == (s, depth + 1));
                    assert(under(links, device).contains(s));
                    assert(reaches(links, start, device, ((depth + 1) - 1) as nat));
                } else {
                    assert(more[k] == rest[k]);
                }
            }
            leaves_lie_under_the_start(links, start, more, seen.insert(device), leaf);
        }
    }
}

/// The device is still to be visited.
spec fn waits(stack: Seq<(Seq<char>, nat)>, device: Seq<char>) -> bool {
    exists|k: int| 0 <= k < stack.len() && (#[trigger] stack[k]).0 == device
}

/// What lies under a seen device was seen too or is still to be visited.
spec fn settled(
    links: Map<Seq<char>, Seq<Seq<char>>>,
    stack: Seq<(Seq<char>, nat)>,
    seen: Set<Seq<char>>,
) -> bool {
    forall|d: Seq<char>, s: Seq<char>| #[trigger]
        seen.contains(d) && #[trigger] under(links, d).contains(s) ==> seen.contains(s) || waits(
            stack,
            s,
        )
}

proof fn lemma_closed(
    links: Map<Seq<char>, Seq<Seq<char>>>,
    start: Seq<char>,
    seen: Set<Seq<char>>,
    device: Seq<char>,
    n: nat,
)
    requires
        settled(links, Seq::empty(), seen),
        seen.contains(start),
        reaches(links, start, device, n),
    ensures
        seen.contains(device),
    decreases n,
{
    if n > 0 {
        let mid = choose|mid: Seq<char>|
            reaches(links, start, mid, (n - 1) as nat) && #[trigger] under(links, mid).contains(
                device,
            );
        lemma_closed(links, start, seen, mid, (n - 1) as nat);
        assert(seen.contains(mid) && under(links, mid).contains(device));
    }
}

/// The devices lead down from `start`, each under the one before it, and none
/// comes twice.
pub open spec fn route(
    links: Map<Seq<char>, Seq<Seq<char>>>,
    start: Seq<char>,
    devices: Seq<Seq<char>>,
) -> bool {
    &&& devices.len() > 0
    &&& devices[0] == start
    &&& devices.no_duplicates()
    &&& forall|i: int|
        #![trigger devices[i]]
        0 < i < devices.len() ==> under(links, devices[i - 1]).contains(devices[i])
}

/// A device of the stack lies at its depth under devices that were seen.
spec fn led_to(
    links: Map<Seq<char>, Seq<Seq<char>>>,
    start: Seq<char>,
    seen: Set<Seq<char>>,
    item: (Seq<char>, nat),
) -> bool {
    item == (start, 0nat) || exists|r: Seq<Seq<char>>| #[trigger]
        route(links, start, r) && r.len() == item.1 && (forall|i: int|
            0 <= i < r.len() ==> seen.contains(#[trigger] r[i])) && under(links, r.last()).contains(
            item.0,
        )
}

/// The route to a device of the stack that was not seen yet.
proof fn lemma_route_to(
    links: Map<Seq<char>, Seq<Seq<char>>>,
    start: Seq<char>,
    seen: Set<Seq<char>>,
    item: (Seq<char>, nat),
) -> (r: Seq<Seq<char>>)
    requires
        led_to(links, start, seen, item),
        !seen.contains(item.0),
    ensures
        route(links, start, r),
        r.len() == item.1 + 1,
        r.last() == item.0,
        forall|i: int| 0 <= i < r.len() ==> seen.insert(item.0).contains(#[trigger] r[i]),
{
    if item == (start, 0nat) {
        seq![start]
    } else {
        let above = choose|r: Seq<Seq<char>>| #[trigger]
            route(links, start, r) && r.len() == item.1 && (forall|i: int|
                0 <= i < r.len() ==> seen.contains(#[trigger] r[i])) && under(
                links,
                r.last(),
            ).contains(item.0);
        let r = above.push(item.0);
        assert forall|i: int| #![trigger r[i]] 0 < i < r.len() implies under(
            links,
            r[i - 1],
        ).contains(r[i]) by {
            assert(r[i - 1] == above[i - 1]);
            if i < above.len() {
                assert(r[i] == above[i]);
            }
        }
        assert(r[0] == above[0]);
        r
    }
}

proof fn lemma_led_further(
    links: Map<Seq<char>, Seq<Seq<char>>>,
    start: Seq<char>,
    seen: Set<Seq<char>>,
    device: Seq<char>,
    item: (Seq<char>, nat),
)
    requires
        led_to(links, start, seen, item),
    ensures
        led_to(links, start, seen.insert(device), item),
{
    if item != (start, 0nat) {
        let r = choose|r: Seq<Seq<char>>| #[trigger]
            route(links, start, r) && r.len() == item.1 && (forall|i: int|
                0 <= i < r.len() ==> seen.contains(#[trigger] r[i])) && under(
                links,
                r.last(),
            ).contains(item.0);
        assert(route(links, start, r) && r.len() == item.1);
    }
}

proof fn lemma_walk_is_complete(
    links: Map<Seq<char>, Seq<Seq<char>>>,
    start: Seq<char>,
    stack: Seq<(Seq<char>, nat)>,
    seen: Set<Seq<char>>,
    leaf: Seq<char>,
    n: nat,
)
    requires
        links.dom().finite(),
        forall|r: Seq<Seq<char>>| #[trigger] route(links, start, r) ==> r.len() <= MAX_DEPTH + 1,
        forall|k: int| 0 <= k < stack.len() ==> led_to(links, start, seen, #[trigger] stack[k]),
        seen.contains(start) || waits(stack, start),
        settled(links, stack, seen),
        reaches(links, start, leaf, n),
        under(links, leaf).len() == 0,
    ensures
        seen.contains(leaf) || leaves(links, stack, seen).contains(leaf),
    decreases links.dom().difference(seen).len(), stack.len(),
{
    if stack.len() == 0 {
        assert(stack =~= Seq::empty());
        lemma_closed(links, start, seen, leaf, n);
    } else {
        let (device, depth) = stack.last();
        let rest = stack.drop_last();
        lemma_seen_grows(links, seen, device);
        assert(stack[stack.len() - 1] == stack.last());
        assert(led_to(links, start, seen, (device, depth)));
        assert(forall|k: int| 0 <= k < rest.len() ==> #[trigger] rest[k] == stack[k]);
        assert forall|x: Seq<char>| #[trigger] waits(stack, x) implies x == device || waits(
            rest,
            x,
        ) by {
            let k = choose|k: int| 0 <= k < stack.len() && (#[trigger] stack[k]).0 == x;
            if k < rest.len() {
                assert(rest[k].0 == x);
            }
        }
        if seen.contains(device) {
            assert(settled(links, rest, seen));
            lemma_walk_is_complete(links, start, rest, seen, leaf, n);
        } else {
            let wider = seen.insert(device);
            let way = lemma_route_to(links, start, seen, (device, depth));
            assert forall|k: int| 0 <= k < rest.len() implies led_to(
                links,
                start,
                wider,
                #[trigger] rest[k],
            ) by {
                assert(rest[k] == stack[k]);
                lemma_led_further(links, start, seen, device, rest[k]);
            }
            if under(links, device).len() == 0 {
                assert(settled(links, rest, wider));
                lemma_walk_is_complete(links, start, rest, wider, leaf, n);
            } else {
                let more = rest + deeper(under(links, device), depth);
                assert forall|k: int| 0 <= k < more.len() implies led_to(
                    links,
                    start,
                    wider,
                    #[trigger] more[k],
                ) by {
                    if k >= rest.len() {
                        let s = under(links, device)[k - rest.len()];
                        assert(more[k] == (s, depth + 1));
                        assert(under(links, device).contains(s));
                        assert(route(links, start, way) && way.len() == depth + 1);
                    } else {
                        assert(more[k] == rest[k]);
                    }
                }
                assert forall|x: Seq<char>| #[trigger] waits(rest, x) implies waits(more, x) by {
                    let k = choose|k: int| 0 <= k < rest.len() && (#[trigger] rest[k]).0 == x;
                    assert(more[k] == rest[k]);
                }
                assert(settled(links, more, wider)) by {
                    assert forall|d: Seq<char>, s: Seq<char>| #[trigger]
                        wider.contains(d) && #[trigger] under(links, d).contains(s) implies wider.contains(
                        s,
                    ) || waits(more, s) by {
                        if d == device {
                            let i = under(links, device).index_of(s);
                            assert(more[rest.len() + i].0 == s);
                        } else {
                            assert(seen.contains(d) && under(links, d).contains(s));
                        }
                    }
                }
                lemma_walk_is_complete(links, start, more, wider, leaf, n);
            }
        }
    }
}

/// Where no route down from the start is longer than the bound, the walk names
/// every device under the start that has nothing under it, cycles or no cycles.
pub proof fn no_leaf_is_missed(
    links: Map<Seq<char>, Seq<Seq<char>>>,
    start: Seq<char>,
    leaf: Seq<char>,
    n: nat,
)
    requires
        links.dom().finite(),
        forall|r: Seq<Seq<char>>| #[trigger] route(links, start, r) ==> r.len() <= MAX_DEPTH + 1,
        reaches(links, start, leaf, n),
        under(links, leaf).len() == 0,
    ensures
        leaves(links, seq![(start, 0nat)], Set::empty()).contains(leaf),
{
    let stack = seq![(start, 0nat)];
    assert(stack[0].0 == start);
    assert(led_to(links, start, Set::empty(), stack[0]));
    lemma_walk_is_complete(links, start, stack, Set::empty(), leaf, n);
}

// ---------- NBD names ----------

/// The first position at or after `i` that is no digit.
pub open spec fn digits_end(s: Seq<char>, i: int) -> int
    decreases s.len() - i,
{
    if 0 <= i < s.len() && crate::text::is_digit(s[i]) {
        digits_end(s, i + 1)
    } else {
        i
    }
}

/// A partition suffix: `p` and a number.
pub open spec fn partition_suffix(s: Seq<char>) -> bool {
    s.len() > 1 && s[0] == 'p' && crate::text::all_digits(s.subrange(1, s.len() as int))
}

/// The `/dev/nbdN` that a kernel block name belongs to.
pub open spec fn nbd_device(name: Seq<char>) -> Option<Seq<char>> {
    match crate::text::after_prefix(name, "nbd"@) {
        Some(rest) => {
            let n = digits_end(rest, 0);
            let suffix = rest.subrange(n, rest.len() as int);
            if n > 0 && (suffix.len() == 0 || partition_suffix(suffix)) {
                Some("/dev/nbd"@ + rest.subrange(0, n))
            } else {
                None
            }
        },
        None => None,
    }
}

proof fn lemma_digits_end(s: Seq<char>, i: int)
    requires
        0 <= i <= s.len(),
    ensures
        i <= digits_end(s, i) <= s.len(),
    decreases s.len() - i,
{
    if i < s.len() && crate::text::is_digit(s[i]) {
        lemma_digits_end(s, i + 1);
    }
}

fn skip_digits(cs: &Vec<char>, start: usize) -> (r: usize)
    requires
        start <= cs.len(),
    ensures
        r == digits_end(cs@, start as int),
        start <= r <= cs.len(),
        forall|k: int| start <= k < r ==> crate::text::is_digit(#[trigger] cs@[k]),
        r < cs.len() ==> !crate::text::is_digit(cs@[r as int]),
{
    let mut i: usize = start;
    while i < cs.len() && digit(cs[i])
        invariant
            start <= i <= cs.len(),
            digits_end(cs@, start as int) == digits_end(cs@, i as int),
            forall|k: int| start <= k < i ==> crate::text::is_digit(#[trigger] cs@[k]),
        decreases cs.len() - i,
    {
        i += 1;
    }
    i
}

/// The `/dev/nbdN` a kernel block name belongs to: `nbd3` itself or one of its
/// partitions (`nbd3p1`). Anything else is not an NBD device.
pub fn nbd_device_of(name: &str) -> (r: Option<String>)
    ensures
        crate::text::optional(r) == nbd_device(name@),
{
    let rest = match strip_prefix(name, "nbd") {
        Some(rest) => rest,
        None => return None,
    };
    let cs = chars_of(rest);
    let n: usize = skip_digits(&cs, 0);
    if n == 0 {
        return None;
    }
    let ghost suffix = rest@.subrange(n as int, rest@.len() as int);
    let fits = if n == cs.len() {
        true
    } else if cs[n] == 'p' && cs.len() - n > 1 {
        let end: usize = skip_digits(&cs, n + 1);
        proof {
            let digits = suffix.subrange(1, suffix.len() as int);
            assert(digits =~= cs@.subrange(n + 1, cs@.len() as int));
            if end == cs.len() {
                assert forall|k: int| 0 <= k < digits.len() implies crate::text::is_digit(
                    #[trigger] digits[k],
                ) by {
                    assert(digits[k] == cs@[n + 1 + k]);
                }
            } else {
                assert(digits[end - n - 1] == cs@[end as int]);
            }
        }
        end == cs.len()
    } else {
        false
    };
    if fits {
        Some(join2("/dev/nbd", rest.substring_char(0, n)))
    } else {
        None
    }
}

/// The index of a `/dev/nbdN` device.
pub open spec fn device_index(device: Seq<char>) -> Option<nat> {
    match crate::text::after_prefix(device, "/dev/nbd"@) {
        Some(rest) => crate::text::parsed_upto(rest, u32::MAX as nat),
        None => None,
    }
}

/// Index of a `/dev/nbdN` device.
pub fn nbd_index(device: &str) -> (r: Option<u32>)
    ensures
        r matches Some(n) ==> device_index(device@) == Some(n as nat),
        r is None ==> device_index(device@) is None,
{
    match strip_prefix(device, "/dev/nbd") {
        Some(rest) => match parse_upto(rest, u32::MAX as u64) {
            Some(n) => Some(n as u32),
            None => None,
        },
        None => None,
    }
}

/// The index of a device that is free to take.
pub open spec fn free_index(entry: (String, bool)) -> Option<nat> {
    if entry.1 {
        None
    } else {
        match crate::text::after_prefix(entry.0@, "nbd"@) {
            Some(rest) => crate::text::parsed_upto(rest, u32::MAX as nat),
            None => None,
        }
    }
}

/// `n` is the lowest index of a free device.
pub open spec fn lowest_free(devices: Seq<(String, bool)>, n: nat) -> bool {
    &&& exists|i: int| 0 <= i < devices.len() && free_index(#[trigger] devices[i]) == Some(n)
    &&& forall|i: int|
        0 <= i < devices.len() ==> match free_index(#[trigger] devices[i]) {
            Some(m) => n <= m,
            None => true,
        }
}

/// Choose the lowest-numbered device that is not connected. `devices` holds
/// the kernel name, like `nbd3`, and whether the device is connected.
pub fn choose_free_nbd(devices: &[(String, bool)]) -> (r: Option<String>)
    ensures
        match r {
            Some(device) => exists|n: nat| #[trigger]
                lowest_free(devices@, n) && device@ == "/dev/nbd"@ + crate::text::decimal(n),
            None => forall|i: int|
                0 <= i < devices@.len() ==> free_index(#[trigger] devices@[i]) is None,
        },
{
    let mut best: Option<u64> = None;
    let mut i: usize = 0;
    while i < devices.len()
        invariant
            i <= devices.len(),
            best is None ==> forall|k: int|
                0 <= k < i ==> free_index(#[trigger] devices@[k]) is None,
            best matches Some(n) ==> lowest_free(devices@.take(i as int), n as nat),
        decreases devices.len() - i,
    {
        let ghost old_best = best;
        let mut found: Option<u64> = None;
        if !devices[i].1 {
            match strip_prefix(devices[i].0.as_str(), "nbd") {
                Some(rest) => {
                    found = parse_upto(rest, u32::MAX as u64);
                },
                None => {},
            }
        }
        match found {
            Some(n) => {
                let lower = match best {
                    Some(b) => n < b,
                    None => true,
                };
                if lower {
                    best = Some(n);
                }
            },
            None => {},
        }
        proof {
            let before = devices@.take(i as int);
            let after = devices@.take(i + 1);
            assert(free_index(after[i as int]) == match found {
                Some(n) => Some(n as nat),
                None => None,
            });
            assert(forall|k: int| 0 <= k < i ==> #[trigger] after[k] == before[k]);
            assert(forall|k: int| 0 <= k < i ==> #[trigger] after[k] == devices@[k]);
            match best {
                Some(n) => {
                    if found == Some(n) {
                        assert(free_index(after[i as int]) == Some(n as nat));
                    } else {
                        let w = choose|w: int|
                            0 <= w < before.len() && free_index(#[trigger] before[w]) == Some(
                                n as nat,
                            );
                        assert(free_index(after[w]) == Some(n as nat));
                    }
                    assert forall|k: int| 0 <= k < after.len() implies match free_index(
                        #[trigger] after[k],
                    ) {
                        Some(m) => n <= m,
                        None => true,
                    } by {
                        if k < i {
                            assert(after[k] == before[k]);
                        }
                    }
                    assert(lowest_free(after, n as nat));
                },
                None => {},
            }
        }
        i += 1;
    }
    assert(devices@.take(i as int) =~= devices@);
    match best {
        Some(n) => {
            let r = join2("/dev/nbd", show(n).as_str());
            assert(lowest_free(devices@, n as nat));
            Some(r)
        },
        None => None,
    }
}

// ---------- the mount table ----------

/// The value of an octal digit.
pub open spec fn octal_value(c: char) -> Option<int> {
    if '0' <= c <= '7' {
        Some(c as int - '0' as int)
    } else {
        None
    }
}

/// The byte that three characters after a backslash denote: an octal number of
/// at most 255, where a plus sign may stand for the first digit.
pub open spec fn octal_byte(a: char, b: char, c: char) -> Option<u8> {
    match (octal_value(b), octal_value(c)) {
        (Some(y), Some(z)) => if a == '+' {
            Some((y * 8 + z) as u8)
        } else {
            match octal_value(a) {
                Some(x) => if x * 64 + y * 8 + z <= 255 {
                    Some((x * 64 + y * 8 + z) as u8)
                } else {
                    None
                },
                None => None,
            }
        },
        _ => None,
    }
}

/// The byte that an escape at position `i` denotes.
pub open spec fn escape_at(s: Seq<char>, i: int) -> Option<u8> {
    if 0 <= i && i + 4 <= s.len() && s[i] == '\\' {
        octal_byte(s[i + 1], s[i + 2], s[i + 3])
    } else {
        None
    }
}

/// The bytes that the field denotes from position `i` on.
pub open spec fn unescaped_from(s: Seq<char>, i: int) -> Seq<u8>
    decreases s.len() - i,
{
    if i < 0 || i >= s.len() {
        Seq::empty()
    } else {
        match escape_at(s, i) {
            Some(b) => seq![b] + unescaped_from(s, i + 4),
            None => vstd::utf8::encode_utf8(s.subrange(i, i + 1)) + unescaped_from(s, i + 1),
        }
    }
}

/// The text that a field of the mount table stands for.
pub open spec fn unescaped(s: Seq<char>) -> Seq<char> {
    crate::text::lossy(unescaped_from(s, 0))
}

fn octal_digit(c: char) -> (r: Option<u32>)
    ensures
        r matches Some(v) ==> octal_value(c) == Some(v as int) && v <= 7,
        r is None ==> octal_value(c) is None,
{
    if '0' <= c && c <= '7' {
        Some(c as u32 - '0' as u32)
    } else {
        None
    }
}

fn escaped_byte(a: char, b: char, c: char) -> (r: Option<u8>)
    ensures
        r == octal_byte(a, b, c),
{
    match (octal_digit(b), octal_digit(c)) {
        (Some(y), Some(z)) => if a == '+' {
            Some((y * 8 + z) as u8)
        } else {
            match octal_digit(a) {
                Some(x) => if x * 64 + y * 8 + z <= 255 {
                    Some((x * 64 + y * 8 + z) as u8)
                } else {
                    None
                },
                None => None,
            }
        },
        _ => None,
    }
}

/// Decode the octal escapes that the mount table uses (`\040` for a space).
pub fn unescape(field: &str) -> (r: String)
    ensures
        r@ == unescaped(field@),
        vstd::utf8::valid_utf8(unescaped_from(field@, 0)) ==> vstd::utf8::encode_utf8(r@)
            == unescaped_from(field@, 0),
{
    let cs = chars_of(field);
    let mut out: Vec<u8> = Vec::new();
    let mut i: usize = 0;
    assert(out@ + unescaped_from(field@, 0) =~= unescaped_from(field@, 0));
    while i < cs.len()
        invariant
            cs@ == field@,
            i <= cs.len(),
            out@ + unescaped_from(field@, i as int) == unescaped_from(field@, 0),
        decreases cs.len() - i,
    {
        let ghost before = out@;
        let escape = if cs[i] == '\\' && cs.len() - i >= 4 {
            escaped_byte(cs[i + 1], cs[i + 2], cs[i + 3])
        } else {
            None
        };
        match escape {
            Some(b) => {
                out.push(b);
                assert(out@ + unescaped_from(field@, i + 4) =~= before + (seq![b]
                    + unescaped_from(field@, i + 4)));
                i += 4;
            },
            None => {
                let one = field.substring_char(i, i + 1);
                let bytes = one.as_bytes();
                out.extend_from_slice(bytes);
                proof {
                    assert(one@ == field@.subrange(i as int, i + 1));
                    assert(out@ =~= before + bytes@);
                    assert(out@ + unescaped_from(field@, i + 1) =~= before + (bytes@
                        + unescaped_from(field@, i + 1)));
                }
                i += 1;
            },
        }
    }
    assert(out@ =~= out@ + unescaped_from(field@, i as int));
    from_utf8_lossy(&out)
}

/// A field without a backslash stands for itself.
pub proof fn plain_fields_stand_for_themselves(s: Seq<char>, i: int)
    requires
        0 <= i <= s.len(),
        !s.contains('\\'),
    ensures
        unescaped_from(s, i) == vstd::utf8::encode_utf8(s.subrange(i, s.len() as int)),
    decreases s.len() - i,
{
    let rest = s.subrange(i, s.len() as int);
    if i < s.len() {
        assert(s.contains(s[i]));
        plain_fields_stand_for_themselves(s, i + 1);
        let one = s.subrange(i, i + 1);
        assert(rest.drop_first() =~= s.subrange(i + 1, s.len() as int));
        assert(one.drop_first() =~= Seq::<char>::empty());
        assert(vstd::utf8::encode_utf8(one.drop_first()) =~= Seq::<u8>::empty());
        assert(vstd::utf8::encode_utf8(one) =~= vstd::utf8::encode_scalar(s[i] as u32));
    }
}

/// What a line of the mount table says about `mountpoint`, if it is about it:
/// `id parent major:minor root mountpoint options .. - fstype source options`.
pub open spec fn line_about(line: Seq<char>, mountpoint: Seq<char>) -> Option<Mounted> {
    match crate::text::cut(line, " - "@) {
        Some((left, right)) => {
            let l = crate::text::words(left);
            let r = crate::text::words(right);
            if l.len() >= 5 && unescaped(l[4]) == mountpoint && r.len() >= 2 {
                Some(Mounted { source: unescaped(r[1]), fstype: r[0], major_minor: l[2] })
            } else {
                None
            }
        },
        None => None,
    }
}

/// The last of the first `n` lines that is about `mountpoint`.
pub open spec fn last_about(lines: Seq<Seq<char>>, mountpoint: Seq<char>, n: nat) -> Option<Mounted>
    decreases n,
{
    if n == 0 {
        None
    } else {
        match line_about(lines[n - 1], mountpoint) {
            Some(m) => Some(m),
            None => last_about(lines, mountpoint, (n - 1) as nat),
        }
    }
}

/// The view of an optional entry.
pub open spec fn entry_view(e: Option<MountEntry>) -> Option<Mounted> {
    match e {
        Some(m) => Some(m@),
        None => None,
    }
}

fn parse_line(line: &str, mountpoint: &str) -> (r: Option<MountEntry>)
    ensures
        entry_view(r) == line_about(line@, mountpoint@),
{
    let (left, right) = match split_once(line, " - ") {
        Some(parts) => parts,
        None => return None,
    };
    let l = split_words(left);
    let r = split_words(right);
    proof {
        let lw = crate::text::words(left@);
        let rw = crate::text::words(right@);
        assert(lw.len() == l@.len());
        assert(rw.len() == r@.len());
        assert(forall|k: int| 0 <= k < l@.len() ==> lw[k] == (#[trigger] l@[k])@);
        assert(forall|k: int| 0 <= k < r@.len() ==> rw[k] == (#[trigger] r@[k])@);
    }
    if l.len() < 5 || !same(unescape(l[4]).as_str(), mountpoint) || r.len() < 2 {
        return None;
    }
    Some(
        MountEntry {
            fstype: r[0].to_owned(),
            source: unescape(r[1]),
            major_minor: l[2].to_owned(),
        },
    )
}

/// Find the entry mounted exactly at `mountpoint`. When a path is mounted more
/// than once the last line wins: it is the visible mount.
pub fn parse_mountinfo(text: &str, mountpoint: &str) -> (r: Option<MountEntry>)
    ensures
        entry_view(r) == last_about(
            crate::text::lines(text@),
            mountpoint@,
            crate::text::lines(text@).len(),
        ),
{
    let lines = split_lines(text);
    let ghost all = crate::text::lines(text@);
    assert(all.len() == lines@.len());
    let mut found: Option<MountEntry> = None;
    let mut i: usize = 0;
    while i < lines.len()
        invariant
            i <= lines.len(),
            crate::text::texts(lines@) == all,
            entry_view(found) == last_about(all, mountpoint@, i as nat),
        decreases lines.len() - i,
    {
        assert(all[i as int] == lines@[i as int]@);
        match parse_line(lines[i], mountpoint) {
            Some(entry) => {
                found = Some(entry);
            },
            None => {},
        }
        i += 1;
    }
    found
}

// ---------- mount tables one after the other ----------

/// The later of two entries, where there is one.
pub open spec fn later(earlier: Option<Mounted>, late: Option<Mounted>) -> Option<Mounted> {
    match late {
        Some(m) => Some(m),
        None => earlier,
    }
}

/// What a mount table says about `mountpoint`.
pub open spec fn table_about(text: Seq<char>, mountpoint: Seq<char>) -> Option<Mounted> {
    last_about(crate::text::lines(text), mountpoint, crate::text::lines(text).len())
}

proof fn lemma_about_prefix(
    a: Seq<Seq<char>>,
    b: Seq<Seq<char>>,
    mountpoint: Seq<char>,
    n: nat,
)
    requires
        n <= a.len(),
    ensures
        last_about(a + b, mountpoint, n) == last_about(a, mountpoint, n),
    decreases n,
{
    if n > 0 {
        lemma_about_prefix(a, b, mountpoint, (n - 1) as nat);
        assert((a + b)[n - 1] == a[n - 1]);
    }
}

proof fn lemma_about_joined(
    a: Seq<Seq<char>>,
    b: Seq<Seq<char>>,
    mountpoint: Seq<char>,
    n: nat,
)
    requires
        n <= b.len(),
    ensures
        last_about(a + b, mountpoint, a.len() + n) == later(
            last_about(a, mountpoint, a.len()),
            last_about(b, mountpoint, n),
        ),
    decreases n,
{
    if n == 0 {
        lemma_about_prefix(a, b, mountpoint, a.len());
    } else {
        lemma_about_joined(a, b, mountpoint, (n - 1) as nat);
        assert((a + b)[a.len() + n - 1] == b[n - 1]);
    }
}

proof fn lemma_find_ended(s: Seq<char>, i: int)
    requires
        0 <= i <= s.len() + 1,
    ensures
        crate::text::find_from(s.push('\r'), " - "@, i) == crate::text::find_from(s, " - "@, i),
        crate::text::find_from(s, " - "@, i) matches Some(k) ==> 0 <= k && k + 3 <= s.len(),
    decreases s.len() + 1 - i,
{
    reveal_strlit(" - ");
    let t = s.push('\r');
    let pat = " - "@;
    if i <= s.len() {
        lemma_find_ended(s, i + 1);
        if i + 3 <= s.len() {
            assert(t.subrange(i, i + 3) =~= s.subrange(i, i + 3));
        } else if i + 3 == t.len() {
            assert(t.subrange(i, i + 3)[2] == '\r');
            assert(pat[2] == ' ');
        }
        assert(crate::text::stands_at(t, pat, i) == crate::text::stands_at(s, pat, i));
    } else {
        assert(crate::text::find_from(t, pat, i + 1) is None);
    }
}

proof fn lemma_white_ended(s: Seq<char>, i: int)
    requires
        0 <= i <= s.len(),
    ensures
        ({
            let p = crate::text::skip_white_from(s, i);
            let q = crate::text::skip_white_from(s.push('\r'), i);
            i <= p <= s.len() && q == if p < s.len() {
                p
            } else {
                s.len() as int + 1
            }
        }),
    decreases s.len() - i,
{
    let t = s.push('\r');
    if i < s.len() {
        assert(t[i] == s[i]);
        if crate::text::is_white(s[i]) {
            lemma_white_ended(s, i + 1);
        }
    } else {
        assert(crate::text::is_white(t[i]));
        assert(crate::text::skip_white_from(t, i + 1) == i + 1);
    }
}

proof fn lemma_word_ended(s: Seq<char>, i: int)
    requires
        0 <= i <= s.len(),
    ensures
        crate::text::skip_word_from(s.push('\r'), i) == crate::text::skip_word_from(s, i),
        i <= crate::text::skip_word_from(s, i) <= s.len(),
    decreases s.len() - i,
{
    let t = s.push('\r');
    if i < s.len() {
        assert(t[i] == s[i]);
        if !crate::text::is_white(s[i]) {
            lemma_word_ended(s, i + 1);
        }
    } else {
        assert(crate::text::is_white(t[i]));
    }
}

proof fn lemma_words_ended(s: Seq<char>, i: int)
    requires
        0 <= i <= s.len(),
    ensures
        crate::text::words_from(s.push('\r'), i) == crate::text::words_from(s, i),
    decreases s.len() - i,
{
    let t = s.push('\r');
    let start = crate::text::skip_white_from(s, i);
    lemma_white_ended(s, i);
    lemma_word_ended(s, start);
    if start < s.len() {
        let end = crate::text::skip_word_from(s, start);
        if start < end {
            lemma_words_ended(s, end);
            assert(t.subrange(start, end) =~= s.subrange(start, end));
        }
    }
}

proof fn lemma_line_ended(s: Seq<char>, mountpoint: Seq<char>)
    ensures
        line_about(s.push('\r'), mountpoint) == line_about(s, mountpoint),
{
    reveal_strlit(" - ");
    let t = s.push('\r');
    lemma_find_ended(s, 0);
    match crate::text::find_from(s, " - "@, 0) {
        Some(k) => {
            let right = s.subrange(k + 3, s.len() as int);
            assert(t.subrange(0, k) =~= s.subrange(0, k));
            assert(t.subrange(k + 3, t.len() as int) =~= right.push('\r'));
            lemma_words_ended(right, 0);
        },
        None => {},
    }
}

proof fn lemma_first_joined(a: Seq<char>, b: Seq<char>, i: int)
    requires
        0 <= i <= a.len(),
    ensures
        crate::text::first_from(a + seq!['\n'] + b, '\n', i) == crate::text::first_from(a, '\n', i),
    decreases a.len() - i,
{
    let s = a + seq!['\n'] + b;
    if i < a.len() {
        assert(s[i] == a[i]);
        if a[i] != '\n' {
            lemma_first_joined(a, b, i + 1);
        }
    } else {
        assert(s[i] == '\n');
    }
}

proof fn lemma_first_shifted(a: Seq<char>, b: Seq<char>, i: int)
    requires
        0 <= i <= b.len(),
    ensures
        crate::text::first_from(a + seq!['\n'] + b, '\n', a.len() + 1 + i) == a.len() + 1
            + crate::text::first_from(b, '\n', i),
    decreases b.len() - i,
{
    let s = a + seq!['\n'] + b;
    if i < b.len() {
        assert(s[a.len() + 1 + i] == b[i]);
        if b[i] != '\n' {
            lemma_first_shifted(a, b, i + 1);
        }
    }
}

proof fn lemma_lines_shifted(a: Seq<char>, b: Seq<char>, i: int)
    requires
        0 <= i <= b.len(),
    ensures
        crate::text::lines_from(a + seq!['\n'] + b, a.len() + 1 + i) == crate::text::lines_from(
            b,
            i,
        ),
    decreases b.len() - i,
{
    let s = a + seq!['\n'] + b;
    let base = a.len() + 1;
    let j = crate::text::first_from(b, '\n', i);
    crate::text::lemma_first_from(b, '\n', i);
    lemma_first_shifted(a, b, i);
    if i < b.len() {
        if j < b.len() {
            lemma_lines_shifted(a, b, j + 1);
            assert(s.subrange(base + i, base + j) =~= b.subrange(i, j));
        } else {
            assert(s.subrange(base + i, s.len() as int) =~= b.subrange(i, b.len() as int));
        }
    }
}

proof fn lemma_tables_joined(a: Seq<char>, b: Seq<char>, mountpoint: Seq<char>, i: int)
    requires
        0 <= i <= a.len(),
    ensures
        ({
            let all = crate::text::lines_from(a + seq!['\n'] + b, i);
            let own = crate::text::lines_from(a, i);
            last_about(all, mountpoint, all.len()) == later(
                last_about(own, mountpoint, own.len()),
                table_about(b, mountpoint),
            )
        }),
    decreases a.len() - i,
{
    let s = a + seq!['\n'] + b;
    let all = crate::text::lines_from(s, i);
    let own = crate::text::lines_from(a, i);
    let rest = crate::text::lines(b);
    let j = crate::text::first_from(a, '\n', i);
    crate::text::lemma_first_from(a, '\n', i);
    lemma_first_joined(a, b, i);
    assert(s.subrange(i, j) =~= a.subrange(i, j));
    let line = a.subrange(i, j);
    let head = seq![crate::text::without_return(line)];
    assert(all == head + crate::text::lines_from(s, j + 1));
    assert(last_about(head, mountpoint, 0) is None);
    assert(last_about(head, mountpoint, 1) == line_about(head[0], mountpoint));
    if j < a.len() {
        let below = crate::text::lines_from(a, j + 1);
        let after = crate::text::lines_from(s, j + 1);
        lemma_tables_joined(a, b, mountpoint, j + 1);
        lemma_about_joined(head, after, mountpoint, after.len());
        lemma_about_joined(head, below, mountpoint, below.len());
        assert(own == head + below);
    } else {
        lemma_lines_shifted(a, b, 0);
        lemma_about_joined(head, rest, mountpoint, rest.len());
        if line.len() > 0 && line.last() == '\r' {
            lemma_line_ended(line.drop_last(), mountpoint);
            assert(line.drop_last().push('\r') =~= line);
        }
        if i < a.len() {
            assert(own == seq![line]);
            assert(last_about(own, mountpoint, 0) is None);
            assert(last_about(own, mountpoint, 1) == line_about(line, mountpoint));
        } else {
            assert(line =~= Seq::<char>::empty());
            reveal_strlit(" - ");
            assert(crate::text::find_from(line, " - "@, 1) is None);
            assert(line_about(line, mountpoint) is None);
        }
    }
}

/// The visible mount is the last one: of two mount tables one after the other,
/// the second decides, and the first only where the second says nothing.
pub proof fn the_last_mount_wins(a: Seq<char>, b: Seq<char>, mountpoint: Seq<char>)
    ensures
        table_about(a + seq!['\n'] + b, mountpoint) == later(
            table_about(a, mountpoint),
            table_about(b, mountpoint),
        ),
{
    lemma_tables_joined(a, b, mountpoint, 0);
}

// ---------- lines of a mount table ----------

/// A line of the mount table: the fields before the lone dash and those behind
/// it, with blanks between them.
pub open spec fn mount_line(front: Seq<Seq<char>>, back: Seq<Seq<char>>) -> Seq<char> {
    crate::text::spaced(front) + " - "@ + crate::text::spaced(back)
}

/// The fields are words, and none before the dash is a dash itself.
pub open spec fn mount_fields(front: Seq<Seq<char>>, back: Seq<Seq<char>>) -> bool {
    &&& crate::text::plain_words(front)
    &&& crate::text::plain_words(back)
    &&& forall|i: int| 0 <= i < front.len() ==> #[trigger] front[i] != seq!['-']
}

/// A line of the mount table comes apart into the fields that it was made of.
pub proof fn mount_lines_come_apart(front: Seq<Seq<char>>, back: Seq<Seq<char>>)
    requires
        mount_fields(front, back),
        front.len() > 0,
    ensures
        crate::text::cut(mount_line(front, back), " - "@) == Some(
            (crate::text::spaced(front), crate::text::spaced(back)),
        ),
        crate::text::words(crate::text::spaced(front)) == front,
        crate::text::words(crate::text::spaced(back)) == back,
        crate::text::trimmed(mount_line(front, back)).len() > 0,
{
    crate::text::dashed_lines_are_cut_at_the_dash(front, crate::text::spaced(back));
    crate::text::spaced_words_read_back(front);
    crate::text::spaced_words_read_back(back);
    crate::text::spaced_words_need_no_trimming(front);
    let line = mount_line(front, back);
    reveal_strlit(" - ");
    let first = crate::text::spaced(front)[0];
    assert(line[0] == first);
    assert(crate::text::skip_white_from(line, 0) == 0);
    lemma_end_stays(line, line.len() as int);
}

proof fn lemma_end_stays(s: Seq<char>, end: int)
    requires
        0 < end <= s.len(),
        !crate::text::is_white(s[0]),
    ensures
        0 < crate::text::trim_end_at(s, end) <= end,
    decreases end,
{
    if crate::text::is_white(s[end - 1]) {
        lemma_end_stays(s, end - 1);
    }
}

/// A line of the mount table is read whatever optional fields it holds: `id
/// parent number root mountpoint options`, any further fields, a dash, and then
/// type, source and the options of the filesystem.
pub proof fn mount_lines_are_read_with_any_optional_fields(
    id: Seq<char>,
    parent: Seq<char>,
    number: Seq<char>,
    root: Seq<char>,
    point: Seq<char>,
    optional: Seq<Seq<char>>,
    fstype: Seq<char>,
    source: Seq<char>,
    rest: Seq<Seq<char>>,
    mountpoint: Seq<char>,
)
    requires
        mount_fields(
            seq![id, parent, number, root, point] + optional,
            seq![fstype, source] + rest,
        ),
    ensures
        line_about(
            mount_line(
                seq![id, parent, number, root, point] + optional,
                seq![fstype, source] + rest,
            ),
            mountpoint,
        ) == if unescaped(point) == mountpoint {
            Some(Mounted { source: unescaped(source), fstype, major_minor: number })
        } else {
            None
        },
{
    let front = seq![id, parent, number, root, point] + optional;
    let back = seq![fstype, source] + rest;
    mount_lines_come_apart(front, back);
    assert(front[4] == point && front[2] == number);
    assert(back[0] == fstype && back[1] == source);
}

/// The escapes of the mount table are undone: a blank, a tab, a line feed and a
/// backslash are written as octal numbers, everything else as itself.
pub open spec fn escaped(s: Seq<char>) -> Seq<char>
    decreases s.len(),
{
    if s.len() == 0 {
        Seq::empty()
    } else {
        (if s[0] == ' ' {
            "\\040"@
        } else if s[0] == '\t' {
            "\\011"@
        } else if s[0] == '\n' {
            "\\012"@
        } else if s[0] == '\\' {
            "\\134"@
        } else {
            seq![s[0]]
        }) + escaped(s.drop_first())
    }
}

proof fn lemma_unescaped_shift(p: Seq<char>, t: Seq<char>, i: int)
    requires
        0 <= i <= t.len(),
    ensures
        unescaped_from(p + t, p.len() + i) == unescaped_from(t, i),
    decreases t.len() - i,
{
    let s = p + t;
    let k = p.len() + i;
    if i < t.len() {
        assert(s[k] == t[i]);
        assert(forall|j: int| 0 <= j < t.len() ==> #[trigger] t[j] == s[p.len() + j]);
        assert(escape_at(s, k) == escape_at(t, i)) by {
            if i + 3 < t.len() {
                assert(s[k + 1] == t[i + 1] && s[k + 2] == t[i + 2] && s[k + 3] == t[i + 3]);
            }
        }
        if escape_at(t, i) is Some {
            lemma_unescaped_shift(p, t, i + 4);
        } else {
            lemma_unescaped_shift(p, t, i + 1);
            assert(s.subrange(k, k + 1) =~= t.subrange(i, i + 1));
        }
    }
}

/// An octal escape stands for the byte that its three digits denote.
pub proof fn octal_escapes_denote_their_byte(b: u8)
    ensures
        octal_byte(
            crate::text::digit_char((b / 64) as int),
            crate::text::digit_char((b / 8 % 8) as int),
            crate::text::digit_char((b % 8) as int),
        ) == Some(b),
{
    let x = (b / 64) as int;
    let y = (b / 8 % 8) as int;
    let z = (b % 8) as int;
    assert(0 <= x <= 7 && 0 <= y <= 7 && 0 <= z <= 7 && x * 64 + y * 8 + z == b) by (nonlinear_arith)
        requires
            x == (b / 64) as int,
            y == (b / 8 % 8) as int,
            z == (b % 8) as int,
    ;
}

/// What the mount table writes for a path stands for that path, whatever
/// blanks, tabs, line feeds and backslashes the path holds.
pub proof fn escapes_are_undone(s: Seq<char>)
    ensures
        unescaped_from(escaped(s), 0) == vstd::utf8::encode_utf8(s),
        unescaped(escaped(s)) == crate::text::lossy(vstd::utf8::encode_utf8(s)),
    decreases s.len(),
{
    if s.len() > 0 {
        let rest = s.drop_first();
        escapes_are_undone(rest);
        reveal_strlit("\\040");
        reveal_strlit("\\011");
        reveal_strlit("\\012");
        reveal_strlit("\\134");
        let c = s[0];
        let e = escaped(s);
        let tail = escaped(rest);
        let head = if c == ' ' {
            "\\040"@
        } else if c == '\t' {
            "\\011"@
        } else if c == '\n' {
            "\\012"@
        } else if c == '\\' {
            "\\134"@
        } else {
            seq![c]
        };
        assert(e == head + tail);
        lemma_unescaped_shift(head, tail, 0);
        assert(vstd::utf8::encode_utf8(s) =~= vstd::utf8::encode_scalar(c as u32)
            + vstd::utf8::encode_utf8(rest));
        if c == ' ' || c == '\t' || c == '\n' || c == '\\' {
            assert(head.len() == 4);
            assert(e[0] == head[0] && e[1] == head[1] && e[2] == head[2] && e[3] == head[3]);
            assert(escape_at(e, 0) == Some(c as u8));
            let one = seq![c];
            vstd::utf8::is_ascii_chars_encode_utf8(one);
            assert(one.drop_first() =~= Seq::<char>::empty());
            assert(vstd::utf8::encode_utf8(one.drop_first()) =~= Seq::<u8>::empty());
            assert(vstd::utf8::encode_utf8(one) =~= vstd::utf8::encode_scalar(c as u32));
            assert(one[0] == c);
            assert(vstd::utf8::encode_scalar(c as u32) =~= seq![c as u8]);
        } else {
            assert(e[0] == c);
            assert(escape_at(e, 0) is None);
            let one = e.subrange(0, 1);
            assert(one =~= seq![c]);
            assert(one.drop_first() =~= Seq::<char>::empty());
            assert(vstd::utf8::encode_utf8(one.drop_first()) =~= Seq::<u8>::empty());
            assert(vstd::utf8::encode_utf8(one) =~= vstd::utf8::encode_scalar(c as u32));
        }
    }
}

/// The number of an NBD device is told by its path, its kernel name and the
/// names of its partitions alike.
pub proof fn nbd_names_tell_their_number(n: u32, k: u32)
    ensures
        device_index("/dev/nbd"@ + crate::text::decimal(n as nat)) == Some(n as nat),
        nbd_device("nbd"@ + crate::text::decimal(n as nat)) == Some(
            "/dev/nbd"@ + crate::text::decimal(n as nat),
        ),
        nbd_device(
            "nbd"@ + (crate::text::decimal(n as nat) + "p"@ + crate::text::decimal(k as nat)),
        ) == Some("/dev/nbd"@ + crate::text::decimal(n as nat)),
{
    reveal_strlit("p");
    let a = crate::text::decimal(n as nat);
    let b = crate::text::decimal(k as nat);
    crate::text::numerals_are_read_up_to_a_limit(n as nat, u32::MAX as nat);
    crate::text::numerals_are_read_up_to_a_limit(k as nat, u32::MAX as nat);
    crate::text::prefixes_come_off("/dev/nbd"@, a);
    crate::text::prefixes_come_off("nbd"@, a);
    let whole = a + "p"@ + b;
    crate::text::prefixes_come_off("nbd"@, whole);
    lemma_digits_stop(a, 0, a.len() as int);
    assert(a.subrange(0, a.len() as int) =~= a);
    assert(forall|i: int| 0 <= i < a.len() ==> #[trigger] whole[i] == a[i]);
    assert forall|i: int| 0 <= i < a.len() implies crate::text::is_digit(#[trigger] whole[i]) by {
        assert(crate::text::is_digit(a[i]));
    }
    assert(whole[a.len() as int] == 'p');
    lemma_digits_stop(whole, 0, a.len() as int);
    assert(whole.subrange(0, a.len() as int) =~= a);
    let suffix = whole.subrange(a.len() as int, whole.len() as int);
    assert(suffix[0] == 'p');
    assert(suffix.subrange(1, suffix.len() as int) =~= b);
}

proof fn lemma_digits_stop(s: Seq<char>, i: int, end: int)
    requires
        0 <= i <= end <= s.len(),
        forall|k: int| i <= k < end ==> crate::text::is_digit(#[trigger] s[k]),
        end < s.len() ==> !crate::text::is_digit(s[end]),
    ensures
        digits_end(s, i) == end,
    decreases end - i,
{
    if i < end {
        lemma_digits_stop(s, i + 1, end);
    }
}

/// A path that names no NBD device has no number, and a name that does not
/// begin like one belongs to none.
pub proof fn other_names_have_no_number(name: Seq<char>)
    ensures
        !crate::text::starts_with(name, "/dev/nbd"@) ==> device_index(name) is None,
        !crate::text::starts_with(name, "nbd"@) ==> nbd_device(name) is None,
{
}

/// A device is free to take under its number exactly when it is not connected,
/// and the lowest number is the only choice.
pub proof fn free_devices_are_taken_by_number(
    devices: Seq<(String, bool)>,
    k: int,
    n: u32,
    m: nat,
)
    requires
        0 <= k < devices.len(),
        devices[k].0@ == "nbd"@ + crate::text::decimal(n as nat),
        lowest_free(devices, m),
    ensures
        free_index(devices[k]) == if devices[k].1 {
            None
        } else {
            Some(n as nat)
        },
        !devices[k].1 ==> m <= n,
        forall|j: nat| #[trigger] lowest_free(devices, j) ==> j == m,
{
    crate::text::numerals_are_read_up_to_a_limit(n as nat, u32::MAX as nat);
    crate::text::prefixes_come_off("nbd"@, crate::text::decimal(n as nat));
    assert(free_index(devices[k]) == if devices[k].1 {
        None
    } else {
        Some(n as nat)
    });
    assert forall|j: nat| #[trigger] lowest_free(devices, j) implies j == m by {
        let a = choose|i: int| 0 <= i < devices.len() && free_index(#[trigger] devices[i]) == Some(j);
        let b = choose|i: int| 0 <= i < devices.len() && free_index(#[trigger] devices[i]) == Some(m);
        assert(free_index(devices[a]) == Some(j) && free_index(devices[b]) == Some(m));
    }
}

/// Each listed device is linked to exactly what it is listed with.
pub proof fn listed_devices_are_linked(v: Seq<(String, Vec<String>)>, k: int)
    requires
        0 <= k < v.len(),
        forall|i: int, j: int|
            0 <= i < j < v.len() ==> (#[trigger] v[i]).0@ != (#[trigger] v[j]).0@,
    ensures
        links_of(v).contains_key(v[k].0@),
        links_of(v)[v[k].0@] == crate::text::strings(v[k].1@),
    decreases v.len(),
{
    if k > 0 {
        let rest = v.drop_first();
        assert forall|i: int, j: int| 0 <= i < j < rest.len() implies (#[trigger] rest[i]).0@ != (
        #[trigger] rest[j]).0@ by {
            assert(v[i + 1].0@ != v[j + 1].0@);
        }
        listed_devices_are_linked(rest, k - 1);
        assert(rest[k - 1] == v[k]);
        assert(v[0].0@ != v[k].0@);
    }
}

/// What goes on behind the number of an NBD device must be `p` and a number;
/// without a number it is no NBD device at all.
pub proof fn strange_names_are_no_nbd_devices(n: u32, more: Seq<char>)
    requires
        more.len() > 0,
        !crate::text::is_digit(more[0]),
    ensures
        nbd_device("nbd"@ + more) is None,
        nbd_device("nbd"@ + (crate::text::decimal(n as nat) + more)) is Some <==> more[0] == 'p'
            && more.len() > 1 && crate::text::all_digits(more.skip(1)),
{
    let a = crate::text::decimal(n as nat);
    let whole = a + more;
    crate::text::numerals_are_read_up_to_a_limit(n as nat, u32::MAX as nat);
    crate::text::prefixes_come_off("nbd"@, more);
    crate::text::prefixes_come_off("nbd"@, whole);
    lemma_digits_stop(more, 0, 0);
    assert forall|k: int| 0 <= k < a.len() implies crate::text::is_digit(#[trigger] whole[k]) by {
        assert(whole[k] == a[k]);
    }
    assert(whole[a.len() as int] == more[0]);
    lemma_digits_stop(whole, 0, a.len() as int);
    assert(whole.subrange(a.len() as int, whole.len() as int) =~= more);
    assert(more.subrange(1, more.len() as int) =~= more.skip(1));
}

} // verus!
