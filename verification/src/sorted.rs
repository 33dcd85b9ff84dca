//! Sorted lists without duplicates: the order in which directories, names and
//! item ids are gone through.

use vstd::prelude::*;
use crate::path::{agree, bytes_before, bytes_lt, path_lt, same_bytes, RelPath};
use crate::text::{chars_of, same_text};
use crate::tree::FileHandle;

verus! {

/// A key with a strict total order.
pub trait Ordered: DeepView {
    spec fn below(a: Self::V, b: Self::V) -> bool;

    proof fn lemma_irreflexive(a: Self::V)
        ensures
            !Self::below(a, a),
    ;

    proof fn lemma_transitive(a: Self::V, b: Self::V, c: Self::V)
        requires
            Self::below(a, b),
            Self::below(b, c),
        ensures
            Self::below(a, c),
    ;

    proof fn lemma_total(a: Self::V, b: Self::V)
        ensures
            a == b || Self::below(a, b) || Self::below(b, a),
    ;

    fn before(&self, other: &Self) -> (r: bool)
        ensures
            r == Self::below(self.deep_view(), other.deep_view()),
    ;

    fn same(&self, other: &Self) -> (r: bool)
        ensures
            r == (self.deep_view() == other.deep_view()),
    ;
}

/// Where `a` and `b` first differ, or the end of the shorter.
proof fn lemma_first_difference<T>(a: Seq<T>, b: Seq<T>) -> (k: int)
    ensures
        agree(a, b, k),
        k < a.len() && k < b.len() ==> a[k] != b[k],
        k == a.len() || k == b.len() || a[k] != b[k],
    decreases a.len(),
{
    if a.len() == 0 {
        0
    } else {
        let k = lemma_first_difference(a.drop_last(), b);
        if k == a.len() - 1 && k < b.len() && a[k] == b[k] {
            assert(agree(a, b, k + 1));
            k + 1
        } else {
            assert(agree(a, b, k)) by {
                assert forall|j: int| 0 <= j < k implies a[j] == b[j] by {
                    assert(a.drop_last()[j] == a[j]);
                }
            }
            k
        }
    }
}

impl Ordered for Vec<u8> {
    open spec fn below(a: Seq<u8>, b: Seq<u8>) -> bool {
        bytes_lt(a, b)
    }

    proof fn lemma_irreflexive(a: Seq<u8>) {
        crate::path::lemma_bytes_lt_irreflexive(a);
        assert(Self::below(a, a) == bytes_lt(a, a));
    }

    proof fn lemma_transitive(a: Seq<u8>, b: Seq<u8>, c: Seq<u8>) {
        let i = choose|k: int|
            #[trigger] agree(a, b, k) && k < b.len() && (k == a.len() || a[k] < b[k]);
        let j = choose|k: int|
            #[trigger] agree(b, c, k) && k < c.len() && (k == b.len() || b[k] < c[k]);
        let k = if i < j {
            i
        } else {
            j
        };
        assert(agree(a, c, k)) by {
            assert forall|m: int| 0 <= m < k implies a[m] == c[m] by {
                assert(a[m] == b[m]);
                assert(b[m] == c[m]);
            }
        }
    }

    proof fn lemma_total(a: Seq<u8>, b: Seq<u8>) {
        let k = lemma_first_difference(a, b);
        assert(agree(b, a, k));
        if k == a.len() && k == b.len() {
            assert(a =~= b);
        }
    }

    fn before(&self, other: &Self) -> (r: bool) {
        proof {
            crate::path::lemma_deep_bytes(*self);
            crate::path::lemma_deep_bytes(*other);
        }
        bytes_before(self, other)
    }

    fn same(&self, other: &Self) -> (r: bool) {
        proof {
            crate::path::lemma_deep_bytes(*self);
            crate::path::lemma_deep_bytes(*other);
        }
        same_bytes(self, other)
    }
}

impl Ordered for RelPath {
    open spec fn below(a: Seq<Seq<u8>>, b: Seq<Seq<u8>>) -> bool {
        path_lt(a, b)
    }

    proof fn lemma_irreflexive(a: Seq<Seq<u8>>) {
        if path_lt(a, a) {
            let k = choose|k: int|
                #[trigger] agree(a, a, k) && k < a.len() && (k == a.len() || bytes_lt(a[k], a[k]));
            <Vec<u8> as Ordered>::lemma_irreflexive(a[k]);
        }
    }

    proof fn lemma_transitive(a: Seq<Seq<u8>>, b: Seq<Seq<u8>>, c: Seq<Seq<u8>>) {
        let i = choose|k: int|
            #[trigger] agree(a, b, k) && k < b.len() && (k == a.len() || bytes_lt(a[k], b[k]));
        let j = choose|k: int|
            #[trigger] agree(b, c, k) && k < c.len() && (k == b.len() || bytes_lt(b[k], c[k]));
        let k = if i < j {
            i
        } else {
            j
        };
        assert(agree(a, c, k)) by {
            assert forall|m: int| 0 <= m < k implies a[m] == c[m] by {
                assert(a[m] == b[m]);
                assert(b[m] == c[m]);
            }
        }
        if i == j && k < a.len() && k < b.len() {
            <Vec<u8> as Ordered>::lemma_transitive(a[k], b[k], c[k]);
        }
    }

    proof fn lemma_total(a: Seq<Seq<u8>>, b: Seq<Seq<u8>>) {
        let k = lemma_first_difference(a, b);
        assert(agree(b, a, k));
        if k == a.len() && k == b.len() {
            assert(a =~= b);
        } else if k < a.len() && k < b.len() {
            <Vec<u8> as Ordered>::lemma_total(a[k], b[k]);
        }
    }

    fn before(&self, other: &Self) -> (r: bool) {
        RelPath::before(self, other)
    }

    fn same(&self, other: &Self) -> (r: bool) {
        RelPath::same(self, other)
    }
}

impl Ordered for FileHandle {
    open spec fn below(a: Seq<u8>, b: Seq<u8>) -> bool {
        bytes_lt(a, b)
    }

    proof fn lemma_irreflexive(a: Seq<u8>) {
        crate::path::lemma_bytes_lt_irreflexive(a);
    }

    proof fn lemma_transitive(a: Seq<u8>, b: Seq<u8>, c: Seq<u8>) {
        <Vec<u8> as Ordered>::lemma_transitive(a, b, c);
    }

    proof fn lemma_total(a: Seq<u8>, b: Seq<u8>) {
        <Vec<u8> as Ordered>::lemma_total(a, b);
    }

    fn before(&self, other: &Self) -> (r: bool) {
        bytes_before(&self.bytes, &other.bytes)
    }

    fn same(&self, other: &Self) -> (r: bool) {
        FileHandle::same(self, other)
    }
}

/// `a` sorts before `b`: by code point.
pub open spec fn text_lt(a: Seq<char>, b: Seq<char>) -> bool {
    exists|k: int| #[trigger] agree(a, b, k) && k < b.len() && (k == a.len() || a[k] < b[k])
}

impl Ordered for String {
    open spec fn below(a: Seq<char>, b: Seq<char>) -> bool {
        text_lt(a, b)
    }

    proof fn lemma_irreflexive(a: Seq<char>) {
        if text_lt(a, a) {
            let k = choose|k: int|
                #[trigger] agree(a, a, k) && k < a.len() && (k == a.len() || a[k] < a[k]);
            assert(a[k] < a[k]);
        }
    }

    proof fn lemma_transitive(a: Seq<char>, b: Seq<char>, c: Seq<char>) {
        let i = choose|k: int|
            #[trigger] agree(a, b, k) && k < b.len() && (k == a.len() || a[k] < b[k]);
        let j = choose|k: int|
            #[trigger] agree(b, c, k) && k < c.len() && (k == b.len() || b[k] < c[k]);
        let k = if i < j {
            i
        } else {
            j
        };
        assert(agree(a, c, k)) by {
            assert forall|m: int| 0 <= m < k implies a[m] == c[m] by {
                assert(a[m] == b[m]);
                assert(b[m] == c[m]);
            }
        }
    }

    proof fn lemma_total(a: Seq<char>, b: Seq<char>) {
        let k = lemma_first_difference(a, b);
        assert(agree(b, a, k));
        if k == a.len() && k == b.len() {
            assert(a =~= b);
        }
    }

    fn before(&self, other: &Self) -> (r: bool) {
        let a = chars_of(self.as_str());
        let b = chars_of(other.as_str());
        let mut i: usize = 0;
        while i < a.len() && i < b.len() && a[i] == b[i]
            invariant
                agree(a@, b@, i as int),
            decreases a@.len() - i,
        {
            i += 1;
        }
        let r = i < b.len() && (i == a.len() || a[i] < b[i]);
        proof {
            assert(agree(a@, b@, i as int));
            if text_lt(a@, b@) {
                let k = choose|k: int|
                    #[trigger] agree(a@, b@, k) && k < b@.len() && (k == a@.len() || a@[k] < b@[k]);
                if k < i {
                    assert(a@[k] == b@[k]);
                }
                if k > i {
                    assert(a@[i as int] == b@[i as int]);
                }
            }
        }
        r
    }

    fn same(&self, other: &Self) -> (r: bool) {
        same_text(self.as_str(), other.as_str())
    }
}

/// `s` with `x` in its place; unchanged when `x` is in it already.
pub open spec fn inserted<K: Ordered>(s: Seq<K::V>, x: K::V) -> Seq<K::V>
    decreases s.len(),
{
    if s.len() == 0 {
        seq![x]
    } else if s[0] == x {
        s
    } else if K::below(x, s[0]) {
        seq![x] + s
    } else {
        seq![s[0]] + inserted::<K>(s.drop_first(), x)
    }
}

/// `s` with every element of `t` in its place.
pub open spec fn inserted_all<K: Ordered>(s: Seq<K::V>, t: Seq<K::V>) -> Seq<K::V>
    decreases t.len(),
{
    if t.len() == 0 {
        s
    } else {
        inserted::<K>(inserted_all::<K>(s, t.drop_last()), t.last())
    }
}

/// `s` rises strictly.
pub open spec fn rising<K: Ordered>(s: Seq<K::V>) -> bool {
    forall|i: int, j: int| 0 <= i < j < s.len() ==> K::below(#[trigger] s[i], #[trigger] s[j])
}

/// Inserting adds the element and nothing else.
pub proof fn lemma_inserted_holds<K: Ordered>(s: Seq<K::V>, x: K::V, y: K::V)
    ensures
        inserted::<K>(s, x).contains(y) <==> (s.contains(y) || y == x),
    decreases s.len(),
{
    let r = inserted::<K>(s, x);
    if s.len() == 0 {
        assert(r[0] == x);
    } else if s[0] == x {
        assert(s.contains(s[0]));
    } else if K::below(x, s[0]) {
        assert(r[0] == x);
        if s.contains(y) {
            let i = choose|i: int| 0 <= i < s.len() && s[i] == y;
            assert(r[i + 1] == y);
        }
        if r.contains(y) && y != x {
            let i = choose|i: int| 0 <= i < r.len() && r[i] == y;
            assert(s[i - 1] == y);
        }
    } else {
        let rest = s.drop_first();
        lemma_inserted_holds::<K>(rest, x, y);
        let tail = inserted::<K>(rest, x);
        assert(r =~= seq![s[0]] + tail);
        if s.contains(y) {
            let i = choose|i: int| 0 <= i < s.len() && s[i] == y;
            if i == 0 {
                assert(r[0] == y);
            } else {
                assert(rest[i - 1] == y);
            }
        }
        if tail.contains(y) {
            let i = choose|i: int| 0 <= i < tail.len() && tail[i] == y;
            assert(r[i + 1] == y);
        }
        if r.contains(y) {
            let i = choose|i: int| 0 <= i < r.len() && r[i] == y;
            if i == 0 {
                assert(s[0] == y);
            } else {
                assert(tail[i - 1] == y);
                if rest.contains(y) {
                    let j = choose|j: int| 0 <= j < rest.len() && rest[j] == y;
                    assert(s[j + 1] == y);
                }
            }
        }
    }
}

/// Inserting keeps a list rising.
pub proof fn lemma_inserted_rises<K: Ordered>(s: Seq<K::V>, x: K::V)
    requires
        rising::<K>(s),
    ensures
        rising::<K>(inserted::<K>(s, x)),
    decreases s.len(),
{
    let r = inserted::<K>(s, x);
    if s.len() == 0 || s[0] == x {
    } else if K::below(x, s[0]) {
        assert forall|i: int, j: int| 0 <= i < j < r.len() implies K::below(
            #[trigger] r[i],
            #[trigger] r[j],
        ) by {
            if i == 0 && j > 1 {
                assert(r[j] == s[j - 1]);
                K::lemma_transitive(x, s[0], s[j - 1]);
            } else if i > 0 {
                assert(r[i] == s[i - 1]);
                assert(r[j] == s[j - 1]);
            }
        }
    } else {
        K::lemma_total(x, s[0]);
        let rest = s.drop_first();
        assert(rising::<K>(rest)) by {
            assert forall|i: int, j: int| 0 <= i < j < rest.len() implies K::below(
                #[trigger] rest[i],
                #[trigger] rest[j],
            ) by {
                assert(K::below(s[i + 1], s[j + 1]));
            }
        }
        lemma_inserted_rises::<K>(rest, x);
        let tail = inserted::<K>(rest, x);
        assert forall|i: int, j: int| 0 <= i < j < r.len() implies K::below(
            #[trigger] r[i],
            #[trigger] r[j],
        ) by {
            assert(r[j] == tail[j - 1]);
            if i == 0 {
                lemma_inserted_holds::<K>(rest, x, tail[j - 1]);
                assert(tail.contains(tail[j - 1]));
                if tail[j - 1] != x {
                    let m = choose|m: int| 0 <= m < rest.len() && rest[m] == tail[j - 1];
                    assert(K::below(s[0], s[m + 1]));
                }
            } else {
                assert(r[i] == tail[i - 1]);
                assert(K::below(tail[i - 1], tail[j - 1]));
            }
        }
    }
}

/// Inserting many adds them and nothing else.
pub proof fn lemma_inserted_all_holds<K: Ordered>(s: Seq<K::V>, t: Seq<K::V>, y: K::V)
    ensures
        inserted_all::<K>(s, t).contains(y) <==> (s.contains(y) || t.contains(y)),
    decreases t.len(),
{
    if t.len() > 0 {
        let rest = t.drop_last();
        lemma_inserted_all_holds::<K>(s, rest, y);
        lemma_inserted_holds::<K>(inserted_all::<K>(s, rest), t.last(), y);
        if t.contains(y) {
            let i = choose|i: int| 0 <= i < t.len() && t[i] == y;
            if i < rest.len() {
                assert(rest[i] == y);
            }
        }
        if rest.contains(y) {
            let i = choose|i: int| 0 <= i < rest.len() && rest[i] == y;
            assert(t[i] == y);
        }
        assert(t[t.len() - 1] == t.last());
    }
}

/// Inserting many keeps a list rising.
pub proof fn lemma_inserted_all_rises<K: Ordered>(s: Seq<K::V>, t: Seq<K::V>)
    requires
        rising::<K>(s),
    ensures
        rising::<K>(inserted_all::<K>(s, t)),
    decreases t.len(),
{
    if t.len() > 0 {
        lemma_inserted_all_rises::<K>(s, t.drop_last());
        lemma_inserted_rises::<K>(inserted_all::<K>(s, t.drop_last()), t.last());
    }
}

/// In a rising list nothing after the first is the first.
proof fn lemma_rising_rest<K: Ordered>(s: Seq<K::V>, y: K::V)
    requires
        rising::<K>(s),
        s.len() > 0,
    ensures
        rising::<K>(s.drop_first()),
        s.drop_first().contains(y) <==> (s.contains(y) && y != s[0]),
{
    let rest = s.drop_first();
    assert forall|i: int, j: int| 0 <= i < j < rest.len() implies K::below(
        #[trigger] rest[i],
        #[trigger] rest[j],
    ) by {
        assert(K::below(s[i + 1], s[j + 1]));
    }
    if rest.contains(y) {
        let i = choose|i: int| 0 <= i < rest.len() && rest[i] == y;
        assert(s[i + 1] == y);
        assert(K::below(s[0], s[i + 1]));
        K::lemma_irreflexive(y);
    }
    if s.contains(y) && y != s[0] {
        let i = choose|i: int| 0 <= i < s.len() && s[i] == y;
        assert(rest[i - 1] == y);
    }
}

/// Two rising lists that hold the same are the same.
pub proof fn lemma_rising_lists_agree<K: Ordered>(s: Seq<K::V>, t: Seq<K::V>)
    requires
        rising::<K>(s),
        rising::<K>(t),
        forall|y: K::V| #[trigger] s.contains(y) <==> t.contains(y),
    ensures
        s == t,
    decreases s.len(),
{
    if s.len() == 0 {
        if t.len() > 0 {
            assert(t.contains(t[0]));
            assert(s.contains(t[0]));
        }
        assert(s =~= t);
    } else {
        assert(s.contains(s[0]));
        let j = choose|j: int| 0 <= j < t.len() && t[j] == s[0];
        assert(t.contains(t[0]));
        assert(s.contains(t[0]));
        let i = choose|i: int| 0 <= i < s.len() && s[i] == t[0];
        if j > 0 && i > 0 {
            assert(K::below(t[0], t[j]));
            assert(K::below(s[0], s[i]));
            K::lemma_transitive(s[0], t[0], s[0]);
            K::lemma_irreflexive(s[0]);
        }
        assert(s[0] == t[0]);
        assert forall|y: K::V| #[trigger] s.drop_first().contains(y) <==> t.drop_first().contains(y) by {
            lemma_rising_rest::<K>(s, y);
            lemma_rising_rest::<K>(t, y);
            assert(s.contains(y) <==> t.contains(y));
        }
        lemma_rising_rest::<K>(s, s[0]);
        lemma_rising_rest::<K>(t, t[0]);
        lemma_rising_lists_agree::<K>(s.drop_first(), t.drop_first());
        assert(s =~= seq![s[0]] + s.drop_first());
        assert(t =~= seq![t[0]] + t.drop_first());
    }
}

/// Inserting goes past everything that is neither `x` nor after it.
proof fn lemma_inserted_past<K: Ordered>(s: Seq<K::V>, x: K::V, i: int)
    requires
        0 <= i <= s.len(),
        forall|j: int| 0 <= j < i ==> s[j] != x && !K::below(x, #[trigger] s[j]),
    ensures
        inserted::<K>(s, x) == s.subrange(0, i) + inserted::<K>(s.subrange(i, s.len() as int), x),
    decreases i,
{
    if i == 0 {
        assert(s.subrange(0, 0) =~= Seq::<K::V>::empty());
        assert(s.subrange(0, s.len() as int) =~= s);
        assert(Seq::<K::V>::empty() + inserted::<K>(s, x) =~= inserted::<K>(s, x));
    } else {
        let rest = s.drop_first();
        assert(s[0] != x && !K::below(x, s[0]));
        assert forall|j: int| 0 <= j < i - 1 implies rest[j] != x && !K::below(x, #[trigger] rest[j]) by {
            assert(rest[j] == s[j + 1]);
        }
        lemma_inserted_past::<K>(rest, x, i - 1);
        assert(rest.subrange(i - 1, rest.len() as int) =~= s.subrange(i, s.len() as int));
        assert(s.subrange(0, i) =~= seq![s[0]] + rest.subrange(0, i - 1));
        assert(seq![s[0]] + (rest.subrange(0, i - 1) + inserted::<K>(
            s.subrange(i, s.len() as int),
            x,
        )) =~= s.subrange(0, i) + inserted::<K>(s.subrange(i, s.len() as int), x));
    }
}

/// Puts `x` into `list` in its place, unless it is in it already.
pub fn insert<K: Ordered>(list: &mut Vec<K>, x: K)
    ensures
        final(list).deep_view() == inserted::<K>(old(list).deep_view(), x.deep_view()),
{
    let ghost s = list.deep_view();
    let ghost v = x.deep_view();
    let mut i: usize = 0;
    while i < list.len()
        invariant
            i <= list@.len(),
            list.deep_view() == s,
            x.deep_view() == v,
            *list == *old(list),
            forall|j: int| 0 <= j < i ==> s[j] != v && !K::below(v, #[trigger] s[j]),
        ensures
            i < s.len() ==> s[i as int] != v && K::below(v, s[i as int]),
        decreases list@.len() - i,
    {
        assert(s[i as int] == list@[i as int].deep_view());
        if list[i].same(&x) {
            proof {
                lemma_inserted_past::<K>(s, v, i as int);
                let rest = s.subrange(i as int, s.len() as int);
                assert(rest[0] == v);
                assert(s.subrange(0, i as int) + rest =~= s);
            }
            return ;
        }
        if x.before(&list[i]) {
            break ;
        }
        i += 1;
    }
    proof {
        lemma_inserted_past::<K>(s, v, i as int);
        let rest = s.subrange(i as int, s.len() as int);
        if rest.len() > 0 {
            assert(rest[0] == list@[i as int].deep_view());
        } else {
            assert(rest =~= Seq::<K::V>::empty());
        }
    }
    list.insert(i, x);
    proof {
        let rest = s.subrange(i as int, s.len() as int);
        assert(list.deep_view() =~= s.subrange(0, i as int) + (seq![v] + rest));
        if rest.len() == 0 {
            assert(seq![v] + rest =~= seq![v]);
        }
    }
}

/// Whether `x` is in `list`.
pub fn contains<K: Ordered>(list: &Vec<K>, x: &K) -> (r: bool)
    ensures
        r == list.deep_view().contains(x.deep_view()),
{
    let mut i: usize = 0;
    while i < list.len()
        invariant
            i <= list@.len(),
            forall|j: int| 0 <= j < i ==> (#[trigger] list@[j]).deep_view() != x.deep_view(),
        decreases list@.len() - i,
    {
        if list[i].same(x) {
            assert(list.deep_view()[i as int] == x.deep_view());
            return true;
        }
        i += 1;
    }
    assert forall|j: int| 0 <= j < list.deep_view().len() implies list.deep_view()[j]
        != x.deep_view() by {
        assert(list@[j].deep_view() != x.deep_view());
    }
    false
}

/// `s` without `x`.
pub open spec fn without<V>(s: Seq<V>, x: V) -> Seq<V> {
    s.filter(|y: V| y != x)
}

/// A map whose keys are gone through in their order.
#[derive(Debug)]
pub struct SortedMap<K, V> {
    keys: Vec<K>,
    vals: Vec<V>,
}

impl<K: Ordered, V: DeepView> View for SortedMap<K, V> {
    type V = Map<K::V, V::V>;

    closed spec fn view(&self) -> Map<K::V, V::V> {
        let keys = self.keys.deep_view();
        Map::new(|k: K::V| keys.contains(k), |k: K::V| self.vals.deep_view()[keys.index_of(k)])
    }
}

impl<K: Ordered, V: DeepView> SortedMap<K, V> {
    /// The keys rise, and each has its value.
    pub closed spec fn wf(&self) -> bool {
        &&& self.keys@.len() == self.vals@.len()
        &&& rising::<K>(self.keys.deep_view())
    }

    /// The keys, in their order.
    pub closed spec fn keys(&self) -> Seq<K::V> {
        self.keys.deep_view()
    }

    /// Every key is in the order once, and it rises.
    pub proof fn lemma_keys(&self)
        requires
            self.wf(),
        ensures
            rising::<K>(self.keys()),
            forall|k: K::V| self@.contains_key(k) <==> #[trigger] self.keys().contains(k),
    {
    }

    /// A rising list holds each element once.
    proof fn lemma_index(s: Seq<K::V>, i: int)
        requires
            rising::<K>(s),
            0 <= i < s.len(),
        ensures
            s.contains(s[i]),
            s.index_of(s[i]) == i,
    {
        let j = s.index_of(s[i]);
        assert(s.contains(s[i]));
        assert(0 <= j < s.len() && s[j] == s[i]);
        K::lemma_irreflexive(s[i]);
        if j < i {
            assert(K::below(s[j], s[i]));
        }
        if i < j {
            assert(K::below(s[i], s[j]));
        }
    }

    pub fn new() -> (r: Self)
        ensures
            r.wf(),
            r@ == Map::<K::V, V::V>::empty(),
            r.keys() == Seq::<K::V>::empty(),
    {
        let r = SortedMap { keys: Vec::new(), vals: Vec::new() };
        assert(r.keys() =~= Seq::<K::V>::empty());
        assert(r@ =~= Map::<K::V, V::V>::empty());
        r
    }

    pub fn len(&self) -> (r: usize)
        requires
            self.wf(),
        ensures
            r == self.keys().len(),
    {
        self.keys.len()
    }

    /// The key at `i` in the order.
    pub fn key(&self, i: usize) -> (r: &K)
        requires
            self.wf(),
            i < self.keys().len(),
        ensures
            r.deep_view() == self.keys()[i as int],
    {
        &self.keys[i]
    }

    /// The value of the key at `i` in the order.
    pub fn val(&self, i: usize) -> (r: &V)
        requires
            self.wf(),
            i < self.keys().len(),
        ensures
            self@.contains_key(self.keys()[i as int]),
            r.deep_view() == self@[self.keys()[i as int]],
    {
        proof {
            Self::lemma_index(self.keys(), i as int);
        }
        &self.vals[i]
    }

    /// Where `key` is, if it is there.
    fn position(&self, key: &K) -> (r: Option<usize>)
        requires
            self.wf(),
        ensures
            match r {
                Some(i) => i < self.keys().len() && self.keys()[i as int] == key.deep_view(),
                None => !self.keys().contains(key.deep_view()),
            },
    {
        let mut i: usize = 0;
        while i < self.keys.len()
            invariant
                i <= self.keys@.len(),
                forall|j: int| 0 <= j < i ==> (#[trigger] self.keys@[j]).deep_view() != key.deep_view(),
            decreases self.keys@.len() - i,
        {
            if self.keys[i].same(key) {
                return Some(i);
            }
            i += 1;
        }
        assert forall|j: int| 0 <= j < self.keys().len() implies self.keys()[j]
            != key.deep_view() by {
            assert(self.keys@[j].deep_view() != key.deep_view());
        }
        None
    }

    pub fn contains_key(&self, key: &K) -> (r: bool)
        requires
            self.wf(),
        ensures
            r == self@.contains_key(key.deep_view()),
    {
        self.position(key).is_some()
    }

    pub fn get(&self, key: &K) -> (r: Option<&V>)
        requires
            self.wf(),
        ensures
            match r {
                Some(v) => self@.contains_key(key.deep_view()) && v.deep_view()
                    == self@[key.deep_view()],
                None => !self@.contains_key(key.deep_view()),
            },
    {
        match self.position(key) {
            Some(i) => {
                proof {
                    Self::lemma_index(self.keys(), i as int);
                }
                Some(&self.vals[i])
            },
            None => None,
        }
    }

    /// Gives `key` the value `val`.
    pub fn set(&mut self, key: K, val: V)
        requires
            old(self).wf(),
        ensures
            final(self).wf(),
            final(self)@ == old(self)@.insert(key.deep_view(), val.deep_view()),
            final(self).keys() == inserted::<K>(old(self).keys(), key.deep_view()),
    {
        let ghost before = *self;
        let ghost s = self.keys();
        let ghost k = key.deep_view();
        let ghost v = val.deep_view();
        let mut i: usize = 0;
        while i < self.keys.len()
            invariant
                i <= self.keys@.len(),
                *self == before,
                before == *old(self),
                before.wf(),
                s == before.keys(),
                key.deep_view() == k,
                val.deep_view() == v,
                forall|j: int| 0 <= j < i ==> s[j] != k && !K::below(k, #[trigger] s[j]),
            ensures
                i < s.len() ==> s[i as int] != k && K::below(k, s[i as int]),
            decreases self.keys@.len() - i,
        {
            assert(s[i as int] == self.keys@[i as int].deep_view());
            if self.keys[i].same(&key) {
                self.vals.set(i, val);
                proof {
                    lemma_inserted_past::<K>(s, k, i as int);
                    let rest = s.subrange(i as int, s.len() as int);
                    assert(rest[0] == k);
                    assert(s.subrange(0, i as int) + rest =~= s);
                    assert(self.keys() == s);
                    Self::lemma_index(s, i as int);
                    assert forall|x: K::V| s.contains(x) && x != k implies #[trigger] self@[x]
                        == before@[x] by {
                        let j = s.index_of(x);
                        assert(s[j] == x);
                        assert(self.vals.deep_view()[j] == before.vals.deep_view()[j]);
                    }
                    assert(self@ =~= before@.insert(k, v));
                }
                return ;
            }
            if key.before(&self.keys[i]) {
                break ;
            }
            i += 1;
        }
        self.keys.insert(i, key);
        self.vals.insert(i, val);
        proof {
            lemma_inserted_past::<K>(s, k, i as int);
            let rest = s.subrange(i as int, s.len() as int);
            if rest.len() == 0 {
                assert(rest =~= Seq::<K::V>::empty());
                assert(seq![k] + rest =~= seq![k]);
            }
            assert(self.keys() =~= s.subrange(0, i as int) + (seq![k] + rest));
            lemma_inserted_rises::<K>(s, k);
            let now = self.keys();
            Self::lemma_index(now, i as int);
            assert forall|x: K::V| #[trigger] now.contains(x) <==> (s.contains(x) || x == k) by {
                lemma_inserted_holds::<K>(s, k, x);
            }
            assert(!s.contains(k)) by {
                if s.contains(k) {
                    let j = choose|j: int| 0 <= j < s.len() && s[j] == k;
                    K::lemma_irreflexive(k);
                    if j > i {
                        assert(K::below(s[i as int], s[j]));
                        K::lemma_transitive(k, s[i as int], k);
                    }
                }
            }
            assert forall|x: K::V| s.contains(x) implies #[trigger] self@[x] == before@[x] by {
                let j = s.index_of(x);
                assert(s[j] == x);
                Self::lemma_index(s, j);
                if j < i {
                    assert(now[j] == x);
                    Self::lemma_index(now, j);
                    assert(self.vals.deep_view()[j] == before.vals.deep_view()[j]);
                } else {
                    assert(now[j + 1] == x);
                    Self::lemma_index(now, j + 1);
                    assert(self.vals.deep_view()[j + 1] == before.vals.deep_view()[j]);
                }
            }
            assert(self@ =~= before@.insert(k, v));
        }
    }

    /// Takes `key` out.
    pub fn unset(&mut self, key: &K)
        requires
            old(self).wf(),
        ensures
            final(self).wf(),
            final(self)@ == old(self)@.remove(key.deep_view()),
            final(self).keys() == without(old(self).keys(), key.deep_view()),
    {
        let ghost before = *self;
        let ghost s = self.keys();
        let ghost k = key.deep_view();
        match self.position(key) {
            Some(i) => {
                self.keys.remove(i);
                self.vals.remove(i);
                proof {
                    let now = self.keys();
                    assert(now =~= s.remove(i as int));
                    assert(rising::<K>(now)) by {
                        assert forall|a: int, b: int| 0 <= a < b < now.len() implies K::below(
                            #[trigger] now[a],
                            #[trigger] now[b],
                        ) by {
                            let x = if a < i {
                                a
                            } else {
                                a + 1
                            };
                            let y = if b < i {
                                b
                            } else {
                                b + 1
                            };
                            assert(K::below(s[x], s[y]));
                        }
                    }
                    Self::lemma_index(s, i as int);
                    assert forall|x: K::V| #[trigger] now.contains(x) <==> (s.contains(x) && x != k) by {
                        if now.contains(x) {
                            let j = choose|j: int| 0 <= j < now.len() && now[j] == x;
                            let m = if j < i {
                                j
                            } else {
                                j + 1
                            };
                            assert(s[m] == x);
                            Self::lemma_index(s, m);
                        }
                        if s.contains(x) && x != k {
                            let j = choose|j: int| 0 <= j < s.len() && s[j] == x;
                            let m = if j < i {
                                j
                            } else {
                                j - 1
                            };
                            assert(now[m] == x);
                        }
                    }
                    assert forall|x: K::V| now.contains(x) implies #[trigger] self@[x]
                        == before@[x] by {
                        let j = now.index_of(x);
                        assert(now[j] == x);
                        Self::lemma_index(now, j);
                        let m = if j < i {
                            j
                        } else {
                            j + 1
                        };
                        assert(s[m] == x);
                        Self::lemma_index(s, m);
                        assert(self.vals.deep_view()[j] == before.vals.deep_view()[m]);
                    }
                    assert(self@ =~= before@.remove(k));
                    lemma_filter_removes::<K>(s, k, i as int);
                }
            },
            None => {
                proof {
                    assert(self@ =~= before@.remove(k));
                    lemma_filter_keeps::<K>(s, k);
                }
            },
        }
    }
}

proof fn lemma_filter_keeps<K: Ordered>(s: Seq<K::V>, k: K::V)
    requires
        !s.contains(k),
    ensures
        without(s, k) == s,
    decreases s.len(),
{
    reveal(Seq::filter);
    if s.len() > 0 {
        assert(s.contains(s.last()));
        assert forall|x: K::V| s.drop_last().contains(x) implies s.contains(x) by {
            let j = choose|j: int| 0 <= j < s.drop_last().len() && s.drop_last()[j] == x;
            assert(s[j] == x);
        }
        lemma_filter_keeps::<K>(s.drop_last(), k);
        assert(s.drop_last().push(s.last()) =~= s);
    }
}

proof fn lemma_filter_removes<K: Ordered>(s: Seq<K::V>, k: K::V, i: int)
    requires
        rising::<K>(s),
        0 <= i < s.len(),
        s[i] == k,
    ensures
        without(s, k) == s.remove(i),
    decreases s.len(),
{
    reveal(Seq::filter);
    let init = s.drop_last();
    K::lemma_irreflexive(k);
    if i == s.len() - 1 {
        assert(!init.contains(k)) by {
            if init.contains(k) {
                let j = choose|j: int| 0 <= j < init.len() && init[j] == k;
                assert(K::below(s[j], s[i]));
            }
        }
        lemma_filter_keeps::<K>(init, k);
        assert(s.remove(i) =~= init);
    } else {
        assert(rising::<K>(init)) by {
            assert forall|a: int, b: int| 0 <= a < b < init.len() implies K::below(
                #[trigger] init[a],
                #[trigger] init[b],
            ) by {
                assert(K::below(s[a], s[b]));
            }
        }
        lemma_filter_removes::<K>(init, k, i);
        assert(K::below(s[i], s.last()));
        assert(s.remove(i) =~= init.remove(i).push(s.last()));
    }
}

} // verus!
