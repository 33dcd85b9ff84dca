//! The order in which a batch's rows are written.

use vstd::prelude::*;
use vstd::string::*;
use crate::text::{lowercase_of, same_text, to_lowercase};
use crate::tree::{kind_removes, same_opt, Detection, DetectionModel, OutboxKind};

verus! {

/// A detection takes its item away from its base place.
pub open spec fn leaves_place(d: DetectionModel) -> bool {
    (d.kind == OutboxKind::Move || d.kind == OutboxKind::Update) && (d.base matches Some(b) && (b.parent
        != d.target_parent || b.name != d.target_name))
}

/// A (parent, name) of OneDrive, compared without case as OneDrive does.
pub open spec fn place_key(parent: Option<Seq<char>>, name: Option<Seq<char>>) -> Option<
    (Seq<char>, Seq<char>),
> {
    match (parent, name) {
        (Some(p), Some(n)) => Some((p, lowercase_of(n))),
        _ => None,
    }
}

/// The place in OneDrive a detection frees.
pub open spec fn frees_place(d: DetectionModel) -> Option<(Seq<char>, Seq<char>)> {
    if kind_removes(d.kind) || leaves_place(d) {
        match d.base {
            Some(b) => place_key(b.parent, b.name),
            None => None,
        }
    } else {
        None
    }
}

/// The place in OneDrive a detection takes.
pub open spec fn takes_place(d: DetectionModel) -> Option<(Seq<char>, Seq<char>)> {
    if d.kind == OutboxKind::Mkdir || d.kind == OutboxKind::Create || leaves_place(d) {
        place_key(d.target_parent, d.target_name)
    } else {
        None
    }
}

/// What the order of the rows goes by in one detection.
#[verifier::ext_equal]
pub struct SlotModel {
    pub depth: nat,
    pub frees: Option<(Seq<char>, Seq<char>)>,
    pub takes: Option<(Seq<char>, Seq<char>)>,
}

pub open spec fn slot_of(d: DetectionModel) -> SlotModel {
    SlotModel { depth: d.rel.len(), frees: frees_place(d), takes: takes_place(d) }
}

pub open spec fn slots_of(ds: Seq<DetectionModel>) -> Seq<SlotModel> {
    Seq::new(ds.len(), |k: int| slot_of(ds[k]))
}

/// Detection `f` frees the place that detection `t` takes.
pub open spec fn makes_way(ds: Seq<SlotModel>, f: int, t: int) -> bool {
    f != t && ds[t].takes is Some && ds[f].frees == ds[t].takes
}

/// Some detection not written yet frees the place that `t` takes.
pub open spec fn is_blocked(ds: Seq<SlotModel>, order: Seq<int>, t: int) -> bool {
    exists|f: int| 0 <= f < ds.len() && !order.contains(f) && #[trigger] makes_way(ds, f, t)
}

/// `i` is not written yet and, when `free`, nothing blocks it.
pub open spec fn is_candidate(ds: Seq<SlotModel>, order: Seq<int>, free: bool, i: int) -> bool {
    !order.contains(i) && !(free && is_blocked(ds, order, i))
}

/// The shallowest candidate from `i` on, the first of equals; `best` before
/// those as shallow.
pub open spec fn shallowest(
    ds: Seq<SlotModel>,
    order: Seq<int>,
    free: bool,
    i: int,
    best: Option<int>,
) -> Option<int>
    decreases ds.len() - i,
{
    if i >= ds.len() {
        best
    } else if is_candidate(ds, order, free, i) && (best is None || ds[i].depth < ds[best->0].depth) {
        shallowest(ds, order, free, i + 1, Some(i))
    } else {
        shallowest(ds, order, free, i + 1, best)
    }
}

/// The detection written after those of `order`: the shallowest that nothing
/// blocks, in the order found; a cycle is broken at its first row.
pub open spec fn next_written(ds: Seq<SlotModel>, order: Seq<int>) -> int {
    match shallowest(ds, order, true, 0, None) {
        Some(i) => i,
        None => shallowest(ds, order, false, 0, None)->0,
    }
}

/// The order all are written in, `order` coming first.
pub open spec fn written_after(ds: Seq<SlotModel>, order: Seq<int>) -> Seq<int>
    decreases ds.len() - order.len(),
{
    if order.len() >= ds.len() {
        order
    } else {
        written_after(ds, order.push(next_written(ds, order)))
    }
}

/// The order in which detections are written.
pub open spec fn written_order(ds: Seq<SlotModel>) -> Seq<int> {
    written_after(ds, Seq::empty())
}

/// A batch's detections in the order their rows are written: every row that
/// frees a name before a row that takes it, otherwise shallowest first and in
/// the order found.
pub open spec fn in_order(ds: Seq<DetectionModel>) -> Seq<DetectionModel> {
    let order = written_order(slots_of(ds));
    Seq::new(order.len(), |k: int| ds[order[k]])
}

/// `order` names detections, each at most once.
pub open spec fn is_partial(n: nat, order: Seq<int>) -> bool {
    &&& order.no_duplicates()
    &&& forall|k: int| 0 <= k < order.len() ==> 0 <= #[trigger] order[k] < n
}

proof fn lemma_shallowest(ds: Seq<SlotModel>, order: Seq<int>, free: bool, i: int, best: Option<int>)
    requires
        0 <= i,
        best matches Some(b) ==> 0 <= b < ds.len() && is_candidate(ds, order, free, b),
    ensures
        match shallowest(ds, order, free, i, best) {
            Some(r) => 0 <= r < ds.len() && is_candidate(ds, order, free, r),
            None => best is None && forall|j: int|
                i <= j < ds.len() ==> !#[trigger] is_candidate(ds, order, free, j),
        },
    decreases ds.len() - i,
{
    if i < ds.len() {
        if is_candidate(ds, order, free, i) && (best is None || ds[i].depth < ds[best->0].depth) {
            lemma_shallowest(ds, order, free, i + 1, Some(i));
        } else {
            lemma_shallowest(ds, order, free, i + 1, best);
            if best is None && shallowest(ds, order, free, i + 1, best) is None {
                assert(!is_candidate(ds, order, free, i));
            }
        }
    }
}

/// Something is left to write while not all is written.
proof fn lemma_left(n: nat, order: Seq<int>) -> (i: int)
    requires
        is_partial(n, order),
        order.len() < n,
    ensures
        0 <= i < n,
        !order.contains(i),
{
    if forall|i: int| 0 <= i < n ==> order.contains(i) {
        let all = Seq::new(n, |i: int| i);
        assert(all.no_duplicates());
        all.unique_seq_to_set();
        order.unique_seq_to_set();
        assert(all.to_set().subset_of(order.to_set())) by {
            assert forall|x: int| all.to_set().contains(x) implies order.to_set().contains(x) by {
                assert(0 <= x < n);
                assert(order.contains(x));
            }
        }
        vstd::set_lib::lemma_len_subset(all.to_set(), order.to_set());
        assert(false);
    }
    choose|i: int| 0 <= i < n && !order.contains(i)
}

/// What is written next is in range and not written yet.
proof fn lemma_next(ds: Seq<SlotModel>, order: Seq<int>)
    requires
        is_partial(ds.len(), order),
        order.len() < ds.len(),
    ensures
        0 <= next_written(ds, order) < ds.len(),
        !order.contains(next_written(ds, order)),
        is_partial(ds.len(), order.push(next_written(ds, order))),
        (exists|i: int| 0 <= i < ds.len() && is_candidate(ds, order, true, i)) ==> !is_blocked(
            ds,
            order,
            next_written(ds, order),
        ),
{
    lemma_shallowest(ds, order, true, 0, None);
    lemma_shallowest(ds, order, false, 0, None);
    let i = lemma_left(ds.len(), order);
    assert(is_candidate(ds, order, false, i));
    let x = next_written(ds, order);
    let now = order.push(x);
    assert forall|a: int, b: int| 0 <= a < now.len() && 0 <= b < now.len() && a != b implies now[a]
        != now[b] by {
        if a == order.len() {
            assert(order.contains(order[b]));
        } else if b == order.len() {
            assert(order.contains(order[a]));
        }
    }
}

/// The order names every detection exactly once.
proof fn lemma_written(ds: Seq<SlotModel>, order: Seq<int>)
    requires
        is_partial(ds.len(), order),
        order.len() <= ds.len(),
    ensures
        is_partial(ds.len(), written_after(ds, order)),
        written_after(ds, order).len() == ds.len(),
        order.len() <= written_after(ds, order).len(),
        forall|k: int| 0 <= k < order.len() ==> written_after(ds, order)[k] == #[trigger] order[k],
    decreases ds.len() - order.len(),
{
    if order.len() < ds.len() {
        lemma_next(ds, order);
        let now = order.push(next_written(ds, order));
        lemma_written(ds, now);
        assert forall|k: int| 0 <= k < order.len() implies written_after(ds, order)[k]
            == #[trigger] order[k] by {
            assert(now[k] == order[k]);
        }
    }
}

/// Ordering loses no detection and adds none: the order names every one
/// exactly once.
pub proof fn law_order_is_a_permutation(ds: Seq<DetectionModel>)
    ensures
        written_order(slots_of(ds)).len() == ds.len(),
        written_order(slots_of(ds)).no_duplicates(),
        forall|i: int| 0 <= i < ds.len() ==> #[trigger] written_order(slots_of(ds)).contains(i),
        forall|k: int| 0 <= k < ds.len() ==> 0 <= #[trigger] written_order(slots_of(ds))[k] < ds.len(),
        in_order(ds).to_multiset() == ds.to_multiset(),
{
    lemma_written(slots_of(ds), Seq::empty());
    let order = written_order(slots_of(ds));
    assert forall|i: int| 0 <= i < ds.len() implies #[trigger] order.contains(i) by {
        if !order.contains(i) {
            let more = order.push(i);
            assert(more.no_duplicates()) by {
                assert forall|a: int, b: int|
                    0 <= a < more.len() && 0 <= b < more.len() && a != b implies more[a] != more[b] by {
                    if a == order.len() {
                        assert(order.contains(order[b]));
                    } else if b == order.len() {
                        assert(order.contains(order[a]));
                    }
                }
            }
            let all = Seq::new(ds.len(), |j: int| j);
            all.unique_seq_to_set();
            more.unique_seq_to_set();
            assert(more.to_set().subset_of(all.to_set())) by {
                assert forall|x: int| more.to_set().contains(x) implies all.to_set().contains(x) by {
                    let k = choose|k: int| 0 <= k < more.len() && more[k] == x;
                    assert(all[more[k]] == x);
                }
            }
            vstd::set_lib::lemma_len_subset(more.to_set(), all.to_set());
        }
    }
    lemma_reordered(ds, order);
}

/// Reading a sequence in another order gives the same elements.
proof fn lemma_reordered(ds: Seq<DetectionModel>, order: Seq<int>)
    requires
        order.len() == ds.len(),
        order.no_duplicates(),
        forall|k: int| 0 <= k < order.len() ==> 0 <= #[trigger] order[k] < ds.len(),
    ensures
        Seq::new(order.len(), |k: int| ds[order[k]]).to_multiset() == ds.to_multiset(),
    decreases ds.len(),
{
    broadcast use vstd::seq_lib::group_to_multiset_ensures;
    let read = Seq::new(order.len(), |k: int| ds[order[k]]);
    if ds.len() == 0 {
        assert(read =~= ds);
    } else {
        let n = ds.len() - 1;
        let last = order.last();
        // Without the last one read, what is left is read in an order too.
        let rest = ds.remove(last);
        let shifted = Seq::new(
            n as nat,
            |k: int| if order[k] > last {
                order[k] - 1
            } else {
                order[k]
            },
        );
        assert(shifted.no_duplicates()) by {
            assert forall|a: int, b: int|
                0 <= a < shifted.len() && 0 <= b < shifted.len() && a != b implies shifted[a]
                != shifted[b] by {
                assert(order[a] != order[b]);
                assert(order[a] != order[n]);
                assert(order[b] != order[n]);
            }
        }
        assert forall|k: int| 0 <= k < shifted.len() implies 0 <= #[trigger] shifted[k] < rest.len() by {
            assert(order[k] != order[n]);
            assert(0 <= order[k] < ds.len());
        }
        lemma_reordered(rest, shifted);
        let read_rest = Seq::new(shifted.len(), |k: int| rest[shifted[k]]);
        assert(read.drop_last() =~= read_rest) by {
            assert forall|k: int| 0 <= k < n implies read.drop_last()[k] == #[trigger] read_rest[k] by {
                assert(order[k] != order[n]);
            }
        }
        assert(read =~= read.drop_last().push(ds[last]));
        assert(read.to_multiset() =~= read_rest.to_multiset().insert(ds[last]));
        assert(rest.to_multiset() == ds.to_multiset().remove(ds[last]));
        assert(ds.contains(ds[last]));
        assert(ds.to_multiset().remove(ds[last]).insert(ds[last]) =~= ds.to_multiset());
    }
}

/// When no names are swapped in a circle — some ranking puts every freer below
/// its taker — every row that frees a name is written before the row that
/// takes it.
pub proof fn law_freers_come_first(ds: Seq<DetectionModel>, rank: Seq<nat>, a: int, b: int)
    requires
        rank.len() == ds.len(),
        forall|f: int, t: int|
            0 <= f < ds.len() && 0 <= t < ds.len() && #[trigger] makes_way(slots_of(ds), f, t)
                ==> rank[f] < rank[t],
        0 <= a < ds.len(),
        0 <= b < ds.len(),
        makes_way(slots_of(ds), written_order(slots_of(ds))[b], written_order(slots_of(ds))[a]),
    ensures
        b < a,
{
    let slots = slots_of(ds);
    lemma_written(slots, Seq::empty());
    let order = written_order(slots);
    if a <= b {
        let before = order.subrange(0, a);
        lemma_never_blocked(slots, rank, Seq::empty(), a);
        assert(!before.contains(order[b])) by {
            if before.contains(order[b]) {
                let k = choose|k: int| 0 <= k < before.len() && before[k] == order[b];
                assert(order[k] == order[b]);
            }
        }
        assert(is_blocked(slots, before, order[a]));
    }
}

proof fn lemma_never_blocked(ds: Seq<SlotModel>, rank: Seq<nat>, order: Seq<int>, a: int)
    requires
        rank.len() == ds.len(),
        forall|f: int, t: int|
            0 <= f < ds.len() && 0 <= t < ds.len() && #[trigger] makes_way(ds, f, t) ==> rank[f]
                < rank[t],
        is_partial(ds.len(), order),
        order.len() <= a < ds.len(),
    ensures
        !is_blocked(ds, written_after(ds, order).subrange(0, a), written_after(ds, order)[a]),
    decreases ds.len() - order.len(),
{
    lemma_next(ds, order);
    let now = order.push(next_written(ds, order));
    lemma_written(ds, order);
    lemma_written(ds, now);
    if order.len() == a {
        let i = lemma_lowest_left(ds, rank, order);
        assert(is_candidate(ds, order, true, i)) by {
            if is_blocked(ds, order, i) {
                let f = choose|f: int|
                    0 <= f < ds.len() && !order.contains(f) && #[trigger] makes_way(ds, f, i);
                assert(rank[f] < rank[i]);
            }
        }
        let all = written_after(ds, order);
        assert(all.subrange(0, a) =~= order) by {
            assert forall|k: int| 0 <= k < a implies all[k] == order[k] by {
                assert(all[k] == order[k]);
            }
        }
        assert(now[a] == all[a]);
    } else {
        lemma_never_blocked(ds, rank, now, a);
    }
}

/// The lowest-ranked detection not written yet.
proof fn lemma_lowest_left(ds: Seq<SlotModel>, rank: Seq<nat>, order: Seq<int>) -> (i: int)
    requires
        rank.len() == ds.len(),
        is_partial(ds.len(), order),
        order.len() < ds.len(),
    ensures
        0 <= i < ds.len(),
        !order.contains(i),
        forall|j: int| 0 <= j < ds.len() && !order.contains(j) ==> rank[i] <= #[trigger] rank[j],
{
    let first = lemma_left(ds.len(), order);
    lemma_lower(ds, rank, order, first)
}

proof fn lemma_lower(ds: Seq<SlotModel>, rank: Seq<nat>, order: Seq<int>, from: int) -> (i: int)
    requires
        rank.len() == ds.len(),
        0 <= from < ds.len(),
        !order.contains(from),
    ensures
        0 <= i < ds.len(),
        !order.contains(i),
        forall|j: int| 0 <= j < ds.len() && !order.contains(j) ==> rank[i] <= #[trigger] rank[j],
    decreases rank[from],
{
    if exists|j: int| 0 <= j < ds.len() && !order.contains(j) && #[trigger] rank[j] < rank[from] {
        let j = choose|j: int| 0 <= j < ds.len() && !order.contains(j) && #[trigger] rank[j] < rank[from];
        lemma_lower(ds, rank, order, j)
    } else {
        from
    }
}

/// How many detections from `f` on, not written yet, free the place that `t`
/// takes.
spec fn blockers(ds: Seq<SlotModel>, order: Seq<int>, t: int, f: int) -> nat
    decreases ds.len() - f,
{
    if f >= ds.len() {
        0
    } else if !order.contains(f) && makes_way(ds, f, t) {
        blockers(ds, order, t, f + 1) + 1
    } else {
        blockers(ds, order, t, f + 1)
    }
}

proof fn lemma_blockers(ds: Seq<SlotModel>, order: Seq<int>, t: int, f: int)
    requires
        0 <= f,
    ensures
        blockers(ds, order, t, f) > 0 <==> exists|g: int|
            f <= g < ds.len() && !order.contains(g) && #[trigger] makes_way(ds, g, t),
    decreases ds.len() - f,
{
    if f < ds.len() {
        lemma_blockers(ds, order, t, f + 1);
    }
}

proof fn lemma_blocker_written(ds: Seq<SlotModel>, order: Seq<int>, t: int, f: int, p: int)
    requires
        0 <= f,
        !order.contains(p),
    ensures
        blockers(ds, order, t, f) == blockers(ds, order.push(p), t, f) + (if f <= p < ds.len()
            && makes_way(ds, p, t) {
            1int
        } else {
            0int
        }),
    decreases ds.len() - f,
{
    if f < ds.len() {
        lemma_blocker_written(ds, order, t, f + 1, p);
        let now = order.push(p);
        assert(now.contains(f) <==> (order.contains(f) || f == p)) by {
            assert(now[order.len() as int] == p);
            if order.contains(f) {
                let k = choose|k: int| 0 <= k < order.len() && order[k] == f;
                assert(now[k] == f);
            }
            if now.contains(f) && f != p {
                let k = choose|k: int| 0 <= k < now.len() && now[k] == f;
                assert(order[k] == f);
            }
        }
    }
}

/// A place in OneDrive, its name without case.
#[derive(Debug)]
pub struct PlaceKey {
    pub parent: String,
    pub name: String,
}

/// What the order of the rows goes by in one detection: how deep it is, the
/// place it frees and the place it takes.
#[derive(Debug)]
pub struct Slot {
    pub depth: usize,
    pub frees: Option<PlaceKey>,
    pub takes: Option<PlaceKey>,
}

pub open spec fn key_model(k: Option<PlaceKey>) -> Option<(Seq<char>, Seq<char>)> {
    match k {
        Some(k) => Some((k.parent@, k.name@)),
        None => None,
    }
}

impl View for Slot {
    type V = SlotModel;

    open spec fn view(&self) -> SlotModel {
        SlotModel {
            depth: self.depth as nat,
            frees: key_model(self.frees),
            takes: key_model(self.takes),
        }
    }
}

impl DeepView for Slot {
    type V = SlotModel;

    open spec fn deep_view(&self) -> SlotModel {
        self.view()
    }
}

/// Whether a detection takes its item away from its base place.
fn moves_away(d: &Detection) -> (r: bool)
    ensures
        r == leaves_place(d@),
{
    if d.kind != OutboxKind::Move && d.kind != OutboxKind::Update {
        return false;
    }
    match &d.base {
        Some(b) => !same_opt(&b.parent, &d.target_parent) || !same_opt(&b.name, &d.target_name),
        None => false,
    }
}

fn key(parent: &Option<String>, name: &Option<String>) -> (r: Option<PlaceKey>)
    ensures
        key_model(r) == place_key(parent.deep_view(), name.deep_view()),
{
    match (parent, name) {
        (Some(parent), Some(name)) => Some(
            PlaceKey { parent: parent.clone(), name: to_lowercase(name.as_str()) },
        ),
        _ => None,
    }
}

/// The place in OneDrive a detection frees.
fn frees(d: &Detection) -> (r: Option<PlaceKey>)
    ensures
        key_model(r) == frees_place(d@),
{
    if !d.kind.removes() && !moves_away(d) {
        return None;
    }
    match &d.base {
        Some(b) => key(&b.parent, &b.name),
        None => None,
    }
}

/// The place in OneDrive a detection takes.
fn takes(d: &Detection) -> (r: Option<PlaceKey>)
    ensures
        key_model(r) == takes_place(d@),
{
    if d.kind != OutboxKind::Mkdir && d.kind != OutboxKind::Create && !moves_away(d) {
        return None;
    }
    key(&d.target_parent, &d.target_name)
}

/// What the order goes by in `d`.
pub fn slot(d: &Detection) -> (r: Slot)
    ensures
        r@ == slot_of(d@),
{
    Slot { depth: d.rel.depth(), frees: frees(d), takes: takes(d) }
}

/// Whether `f` frees the place that `t` takes.
fn way(slots: &Vec<Slot>, f: usize, t: usize) -> (r: bool)
    requires
        f < slots@.len(),
        t < slots@.len(),
    ensures
        r == makes_way(slots.deep_view(), f as int, t as int),
{
    if f == t {
        return false;
    }
    assert(slots.deep_view()[f as int] == slots@[f as int]@);
    assert(slots.deep_view()[t as int] == slots@[t as int]@);
    match (&slots[f].frees, &slots[t].takes) {
        (Some(a), Some(b)) => same_text(a.parent.as_str(), b.parent.as_str()) && same_text(
            a.name.as_str(),
            b.name.as_str(),
        ),
        _ => false,
    }
}

/// The shallowest candidate.
fn find_shallowest(
    ds: &Vec<Slot>,
    Ghost(order): Ghost<Seq<int>>,
    done: &Vec<bool>,
    before: &Vec<usize>,
    free: bool,
) -> (r: Option<usize>)
    requires
        done@.len() == ds@.len(),
        before@.len() == ds@.len(),
        forall|i: int| 0 <= i < ds@.len() ==> #[trigger] done@[i] == order.contains(i),
        forall|i: int|
            0 <= i < ds@.len() ==> #[trigger] before@[i] == blockers(ds.deep_view(), order, i, 0),
    ensures
        match r {
            Some(i) => shallowest(ds.deep_view(), order, free, 0, None) == Some(i as int) && i
                < ds@.len(),
            None => shallowest(ds.deep_view(), order, free, 0, None) is None,
        },
{
    let ghost m = ds.deep_view();
    let mut best: Option<usize> = None;
    let mut i: usize = 0;
    while i < ds.len()
        invariant
            i <= ds@.len(),
            m == ds.deep_view(),
            done@.len() == ds@.len(),
            before@.len() == ds@.len(),
            forall|j: int| 0 <= j < ds@.len() ==> #[trigger] done@[j] == order.contains(j),
            forall|j: int| 0 <= j < ds@.len() ==> #[trigger] before@[j] == blockers(m, order, j, 0),
            best matches Some(b) ==> b < ds@.len(),
            shallowest(m, order, free, 0, None) == shallowest(
                m,
                order,
                free,
                i as int,
                match best {
                    Some(b) => Some(b as int),
                    None => None,
                },
            ),
        decreases ds@.len() - i,
    {
        proof {
            lemma_blockers(m, order, i as int, 0);
            assert(m[i as int] == ds@[i as int]@);
        }
        if !done[i] && !(free && before[i] > 0) {
            assert(is_candidate(m, order, free, i as int));
            match best {
                None => best = Some(i),
                Some(b) => {
                    assert(m[b as int] == ds@[b as int]@);
                    if ds[i].depth < ds[b].depth {
                        best = Some(i);
                    }
                },
            }
        }
        i += 1;
    }
    best
}

/// The order in which the rows of `slots` are written: every row that frees a
/// name before a row that takes it, otherwise shallowest first and in the order
/// found.
pub fn order_of(slots: &Vec<Slot>) -> (r: Vec<usize>)
    ensures
        r@.len() == slots@.len(),
        forall|k: int|
            0 <= k < r@.len() ==> #[trigger] r@[k] == written_order(slots.deep_view())[k],
        written_order(slots.deep_view()).len() == r@.len(),
{
    let ghost ds = slots.deep_view();
    let n: usize = slots.len();
    let ghost mut order: Seq<int> = Seq::empty();
    let mut before: Vec<usize> = Vec::new();
    let mut done: Vec<bool> = Vec::new();
    let mut t: usize = 0;
    while t < n
        invariant
            t <= n,
            n == ds.len(),
            ds == slots.deep_view(),
            order == Seq::<int>::empty(),
            before@.len() == t,
            done@.len() == t,
            forall|j: int| 0 <= j < t ==> #[trigger] before@[j] == blockers(ds, order, j, 0),
            forall|j: int| 0 <= j < t ==> !#[trigger] done@[j],
        decreases n - t,
    {
        let mut count: usize = 0;
        let mut f: usize = n;
        while f > 0
            invariant
                f <= n,
                t < n,
                n == ds.len(),
                ds == slots.deep_view(),
                order == Seq::<int>::empty(),
                count <= n - f,
                count == blockers(ds, order, t as int, f as int),
            decreases f,
        {
            f -= 1;
            if way(slots, f, t) {
                count += 1;
            }
        }
        before.push(count);
        done.push(false);
        t += 1;
    }
    let mut picked: Vec<usize> = Vec::new();
    proof {
        lemma_written(ds, order);
    }
    while picked.len() < n
        invariant
            n == ds.len(),
            n == slots@.len(),
            ds == slots.deep_view(),
            before@.len() == n,
            done@.len() == n,
            is_partial(n as nat, order),
            picked@.len() == order.len(),
            picked@.len() <= n,
            forall|k: int| 0 <= k < order.len() ==> #[trigger] picked@[k] == order[k],
            forall|j: int| 0 <= j < n ==> #[trigger] before@[j] == blockers(ds, order, j, 0),
            forall|j: int| 0 <= j < n ==> #[trigger] done@[j] == order.contains(j),
            written_order(ds) == written_after(ds, order),
        decreases n - picked@.len(),
    {
        proof {
            lemma_next(ds, order);
            lemma_shallowest(ds, order, false, 0, None);
            let left = lemma_left(n as nat, order);
            assert(is_candidate(ds, order, false, left));
        }
        let next: usize = match find_shallowest(slots, Ghost(order), &done, &before, true) {
            Some(i) => i,
            None => match find_shallowest(slots, Ghost(order), &done, &before, false) {
                Some(i) => i,
                None => 0,
            },
        };
        let ghost was = order;
        proof {
            assert(next == next_written(ds, order));
            order = order.push(next as int);
        }
        done.set(next, true);
        picked.push(next);
        let mut t: usize = 0;
        while t < n
            invariant
                t <= n,
                n == ds.len(),
                next < n,
                ds == slots.deep_view(),
                before@.len() == n,
                order == was.push(next as int),
                !was.contains(next as int),
                forall|j: int| 0 <= j < t ==> #[trigger] before@[j] == blockers(ds, order, j, 0),
                forall|j: int| t <= j < n ==> #[trigger] before@[j] == blockers(ds, was, j, 0),
            decreases n - t,
        {
            proof {
                lemma_blocker_written(ds, was, t as int, 0, next as int);
            }
            if way(slots, next, t) {
                let b = before[t];
                before.set(t, b - 1);
            }
            t += 1;
        }
        proof {
            assert forall|j: int| 0 <= j < n implies #[trigger] done@[j] == order.contains(j) by {
                assert(order[was.len() as int] == next);
                if was.contains(j) {
                    let k = choose|k: int| 0 <= k < was.len() && was[k] == j;
                    assert(order[k] == j);
                }
                if order.contains(j) && j != next {
                    let k = choose|k: int| 0 <= k < order.len() && order[k] == j;
                    assert(was[k] == j);
                }
            }
        }
    }
    picked
}

/// A batch's detections in the order their rows are written.
pub fn ordered(detections: Vec<Detection>) -> (r: Vec<Detection>)
    ensures
        r.deep_view() == in_order(detections.deep_view()),
{
    let ghost want = slots_of(detections.deep_view());
    let mut slots: Vec<Slot> = Vec::new();
    let mut i: usize = 0;
    while i < detections.len()
        invariant
            i <= detections@.len(),
            want == slots_of(detections.deep_view()),
            slots@.len() == i,
            forall|j: int| 0 <= j < i ==> #[trigger] slots@[j]@ == want[j],
        decreases detections@.len() - i,
    {
        assert(detections.deep_view()[i as int] == detections@[i as int]@);
        slots.push(slot(&detections[i]));
        i += 1;
    }
    assert(slots.deep_view() =~= want) by {
        assert forall|j: int| 0 <= j < want.len() implies slots.deep_view()[j] == want[j] by {
            assert(slots@[j]@ == want[j]);
        }
    }
    let picked = order_of(&slots);
    proof {
        lemma_written(want, Seq::empty());
    }
    reorder(detections, &picked, Ghost(written_order(want)))
}

/// The detections in the order `picked`.
fn reorder(detections: Vec<Detection>, picked: &Vec<usize>, Ghost(order): Ghost<Seq<int>>) -> (r: Vec<Detection>)
    requires
        is_partial(detections@.len(), order),
        picked@.len() == order.len(),
        forall|k: int| 0 <= k < order.len() ==> #[trigger] picked@[k] == order[k],
    ensures
        r.deep_view() == Seq::new(order.len(), |k: int| detections.deep_view()[order[k]]),
{
    let ghost given = detections@;
    let mut slots: Vec<Option<Detection>> = Vec::new();
    for d in it: detections
        invariant
            it.seq() == given,
            slots@.len() == it.index(),
            forall|j: int| 0 <= j < slots@.len() ==> #[trigger] slots@[j] == Some(given[j]),
    {
        slots.push(Some(d));
    }
    let mut out: Vec<Detection> = Vec::new();
    let mut k: usize = 0;
    while k < picked.len()
        invariant
            k <= picked@.len(),
            is_partial(given.len(), order),
            picked@.len() == order.len(),
            forall|m: int| 0 <= m < order.len() ==> #[trigger] picked@[m] == order[m],
            slots@.len() == given.len(),
            forall|m: int| k <= m < order.len() ==> slots@[#[trigger] order[m]] == Some(given[order[m]]),
            out@.len() == k,
            forall|m: int| 0 <= m < k ==> #[trigger] out@[m] == given[order[m]],
        decreases picked@.len() - k,
    {
        let i = picked[k];
        assert(slots@[order[k as int]] == Some(given[order[k as int]]));
        let mut slot: Option<Detection> = None;
        std::mem::swap(&mut slot, &mut slots[i]);
        if let Some(d) = slot {
            out.push(d);
        }
        k += 1;
    }
    proof {
        let want = Seq::new(order.len(), |k: int| detections.deep_view()[order[k]]);
        assert forall|m: int| 0 <= m < want.len() implies #[trigger] out.deep_view()[m] == want[m] by {
            assert(out@[m] == given[order[m]]);
        }
        assert(out.deep_view() =~= want);
    }
    out
}

} // verus!
