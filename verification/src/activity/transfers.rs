//! The downloads under way.

use vstd::prelude::*;

verus! {

/// One download under way.
#[derive(Debug)]
pub struct Transfer {
    /// Its full path.
    pub path: String,
    /// Bytes done.
    pub done: u64,
    /// Bytes in all.
    pub total: u64,
}

#[verifier::ext_equal]
pub struct TransferModel {
    pub path: Seq<char>,
    pub done: u64,
    pub total: u64,
}

impl View for Transfer {
    type V = TransferModel;

    open spec fn view(&self) -> TransferModel {
        TransferModel { path: self.path@, done: self.done, total: self.total }
    }
}

impl DeepView for Transfer {
    type V = TransferModel;

    open spec fn deep_view(&self) -> TransferModel {
        self.view()
    }
}

impl Clone for Transfer {
    fn clone(&self) -> (r: Self)
        ensures
            r@ == self@,
    {
        Transfer { path: self.path.clone(), done: self.done, total: self.total }
    }
}

/// The downloads once the one of `path` has started under `id`.
pub open spec fn started(all: Map<u64, TransferModel>, id: u64, path: Seq<char>, total: u64) -> Map<
    u64,
    TransferModel,
> {
    all.insert(id, TransferModel { path, done: 0, total })
}

/// The downloads once `id` has got `done` of `total` bytes, and whether that
/// changes anything.
pub open spec fn progressed(all: Map<u64, TransferModel>, id: u64, done: u64, total: u64) -> (
    Map<u64, TransferModel>,
    bool,
) {
    if all.contains_key(id) && (all[id].done != done || all[id].total != total) {
        (all.insert(id, TransferModel { done, total, ..all[id] }), true)
    } else {
        (all, false)
    }
}

/// How far a reader is that was at `at`, with `before` bytes in its buffer, once
/// there are `after`: nothing where nothing was read.
pub open spec fn reading_on(at: u64, before: usize, after: usize) -> Option<u64> {
    if after > before {
        Some((at + (after - before)) as u64)
    } else {
        None
    }
}

/// Every download under way, by the number it was given when it started.
pub struct Transfers {
    next: u64,
    all: Vec<(u64, Transfer)>,
}

impl View for Transfers {
    type V = Map<u64, TransferModel>;

    closed spec fn view(&self) -> Map<u64, TransferModel> {
        Map::new(
            |id: u64| exists|k: int| 0 <= k < self.all@.len() && (#[trigger] self.all@[k]).0 == id,
            |id: u64|
                self.all@[choose|k: int| 0 <= k < self.all@.len() && (#[trigger] self.all@[k]).0 == id].1@,
        )
    }
}

impl Transfers {
    /// The numbers rise, and the next one is new.
    pub closed spec fn wf(&self) -> bool {
        &&& forall|i: int, j: int|
            0 <= i < j < self.all@.len() ==> (#[trigger] self.all@[i]).0 < (#[trigger] self.all@[j]).0
        &&& forall|i: int| 0 <= i < self.all@.len() ==> (#[trigger] self.all@[i]).0 < self.next
    }

    /// The number the next download is given.
    pub closed spec fn upcoming(&self) -> u64 {
        self.next
    }

    /// The numbers of the downloads under way, oldest first.
    pub closed spec fn ids(&self) -> Seq<u64> {
        Seq::new(self.all@.len(), |k: int| self.all@[k].0)
    }

    proof fn lemma_entry(&self, k: int)
        requires
            self.wf(),
            0 <= k < self.all@.len(),
        ensures
            self@.contains_key(self.all@[k].0),
            self@[self.all@[k].0] == self.all@[k].1@,
    {
        let id = self.all@[k].0;
        let m = choose|m: int| 0 <= m < self.all@.len() && (#[trigger] self.all@[m]).0 == id;
        assert(self.all@[k].0 == id);
        assert(m == k);
    }

    pub fn new() -> (r: Self)
        ensures
            r.wf(),
            r@ == Map::<u64, TransferModel>::empty(),
            r.upcoming() == 0,
    {
        let r = Transfers { next: 0, all: Vec::new() };
        assert(r@ =~= Map::<u64, TransferModel>::empty());
        r
    }

    /// Whether a number is left for one more download.
    pub fn room(&self) -> (r: bool)
        ensures
            r == (self.upcoming() < u64::MAX),
    {
        self.next < u64::MAX
    }

    /// A download of `path`, `total` bytes as far as is known yet, under a
    /// number of its own.
    pub fn start(&mut self, path: String, total: u64) -> (id: u64)
        requires
            old(self).wf(),
            old(self).upcoming() < u64::MAX,
        ensures
            final(self).wf(),
            id == old(self).upcoming(),
            final(self).upcoming() == id + 1,
            !old(self)@.contains_key(id),
            final(self)@ == old(self)@.insert(id, TransferModel { path: path@, done: 0, total }),
            final(self)@ == started(old(self)@, id, path@, total),
            final(self).ids() == old(self).ids().push(id),
    {
        let id = self.next;
        self.all.push((id, Transfer { path, done: 0, total }));
        self.next = id + 1;
        proof {
            let n = old(self).all@.len() as int;
            self.lemma_entry(n);
            assert forall|x: u64| #[trigger] self@.contains_key(x) == old(self)@.insert(
                id,
                TransferModel { path: path@, done: 0, total },
            ).contains_key(x) by {
                if old(self)@.contains_key(x) {
                    let k = choose|k: int| 0 <= k < n && (#[trigger] old(self).all@[k]).0 == x;
                    assert(self.all@[k].0 == x);
                }
                if self@.contains_key(x) && x != id {
                    let k = choose|k: int| 0 <= k < n + 1 && (#[trigger] self.all@[k]).0 == x;
                    assert(old(self).all@[k].0 == x);
                }
            }
            assert forall|x: u64| #[trigger] self@.contains_key(x) && x != id implies self@[x]
                == old(self)@[x] by {
                let k = choose|k: int| 0 <= k < n + 1 && (#[trigger] self.all@[k]).0 == x;
                self.lemma_entry(k);
                assert(old(self).all@[k].0 == x);
                old(self).lemma_entry(k);
            }
            assert(self@ =~= old(self)@.insert(id, TransferModel { path: path@, done: 0, total }));
            assert(self.ids() =~= old(self).ids().push(id));
        }
        id
    }

    /// Every download under way, oldest first.
    pub fn list(&self) -> (r: Vec<Transfer>)
        requires
            self.wf(),
        ensures
            r@.len() == self.ids().len(),
            forall|k: int| 0 <= k < r@.len() ==> (#[trigger] r@[k])@ == self@[self.ids()[k]],
            forall|id: u64| self@.contains_key(id) <==> #[trigger] self.ids().contains(id),
            forall|i: int, j: int|
                0 <= i < j < r@.len() ==> #[trigger] self.ids()[i] < #[trigger] self.ids()[j],
    {
        let mut out: Vec<Transfer> = Vec::new();
        let mut i: usize = 0;
        while i < self.all.len()
            invariant
                self.wf(),
                i <= self.all@.len(),
                out@.len() == i,
                forall|k: int| 0 <= k < i ==> (#[trigger] out@[k])@ == self.all@[k].1@,
            decreases self.all@.len() - i,
        {
            out.push(self.all[i].1.clone());
            i += 1;
        }
        proof {
            assert forall|k: int| 0 <= k < out@.len() implies (#[trigger] out@[k])@
                == self@[self.ids()[k]] by {
                self.lemma_entry(k);
            }
            assert forall|id: u64| self@.contains_key(id) <==> #[trigger] self.ids().contains(id) by {
                if self@.contains_key(id) {
                    let k = choose|k: int| 0 <= k < self.all@.len() && (#[trigger] self.all@[k]).0 == id;
                    assert(self.ids()[k] == id);
                }
                if self.ids().contains(id) {
                    let k = choose|k: int| 0 <= k < self.ids().len() && self.ids()[k] == id;
                    assert(self.all@[k].0 == id);
                }
            }
        }
        out
    }

    fn position(&self, id: u64) -> (r: Option<usize>)
        requires
            self.wf(),
        ensures
            match r {
                Some(k) => k < self.all@.len() && self.all@[k as int].0 == id,
                None => !self@.contains_key(id),
            },
    {
        let mut i: usize = 0;
        while i < self.all.len()
            invariant
                i <= self.all@.len(),
                forall|k: int| 0 <= k < i ==> (#[trigger] self.all@[k]).0 != id,
            decreases self.all@.len() - i,
        {
            if self.all[i].0 == id {
                return Some(i);
            }
            i += 1;
        }
        None
    }

    /// Download `id` is `done` bytes into `total`; whether that is news. One
    /// that has ended stays ended.
    pub fn progress(&mut self, id: u64, done: u64, total: u64) -> (changed: bool)
        requires
            old(self).wf(),
        ensures
            final(self).wf(),
            final(self).upcoming() == old(self).upcoming(),
            final(self).ids() == old(self).ids(),
            changed == (old(self)@.contains_key(id) && (old(self)@[id].done != done
                || old(self)@[id].total != total)),
            final(self)@ == if changed {
                old(self)@.insert(id, TransferModel { done, total, ..old(self)@[id] })
            } else {
                old(self)@
            },
            (final(self)@, changed) == progressed(old(self)@, id, done, total),
    {
        let k = match self.position(id) {
            None => return false,
            Some(k) => k,
        };
        proof {
            self.lemma_entry(k as int);
        }
        if self.all[k].1.done == done && self.all[k].1.total == total {
            return false;
        }
        let path = self.all[k].1.path.clone();
        self.all.set(k, (id, Transfer { path, done, total }));
        proof {
            assert forall|x: u64| #[trigger] self@.contains_key(x) == old(self)@.contains_key(x) by {
                if old(self)@.contains_key(x) {
                    let j = choose|j: int|
                        0 <= j < old(self).all@.len() && (#[trigger] old(self).all@[j]).0 == x;
                    assert(self.all@[j].0 == x);
                }
                if self@.contains_key(x) {
                    let j = choose|j: int| 0 <= j < self.all@.len() && (#[trigger] self.all@[j]).0 == x;
                    assert(old(self).all@[j].0 == x);
                }
            }
            assert(self.wf());
            assert forall|x: u64| #[trigger] self@.contains_key(x) implies self@[x] == (if x == id {
                TransferModel { done, total, ..old(self)@[id] }
            } else {
                old(self)@[x]
            }) by {
                let j = choose|j: int| 0 <= j < self.all@.len() && (#[trigger] self.all@[j]).0 == x;
                self.lemma_entry(j);
                assert(old(self).all@[j].0 == x);
                old(self).lemma_entry(j);
                if x == id {
                    assert(j == k);
                }
            }
            assert(self@ =~= old(self)@.insert(id, TransferModel { done, total, ..old(self)@[id] }));
            assert(self.ids() =~= old(self).ids());
        }
        true
    }

    /// Download `id` has ended, however it did; whether it was under way.
    pub fn remove(&mut self, id: u64) -> (r: bool)
        requires
            old(self).wf(),
        ensures
            final(self).wf(),
            final(self).upcoming() == old(self).upcoming(),
            r == old(self)@.contains_key(id),
            final(self)@ == old(self)@.remove(id),
    {
        let k = match self.position(id) {
            None => {
                assert(self@ =~= old(self)@.remove(id));
                return false;
            },
            Some(k) => k,
        };
        proof {
            self.lemma_entry(k as int);
        }
        let _ = self.all.remove(k);
        proof {
            assert forall|j: int| 0 <= j < self.all@.len() implies #[trigger] self.all@[j] == (if j < k {
                old(self).all@[j]
            } else {
                old(self).all@[j + 1]
            }) by {}
            assert(self.wf());
            assert forall|x: u64| #[trigger] self@.contains_key(x) == old(self)@.remove(
                id,
            ).contains_key(x) by {
                if old(self)@.contains_key(x) && x != id {
                    let j = choose|j: int|
                        0 <= j < old(self).all@.len() && (#[trigger] old(self).all@[j]).0 == x;
                    if j < k {
                        assert(self.all@[j].0 == x);
                    } else {
                        assert(self.all@[j - 1].0 == x);
                    }
                }
                if self@.contains_key(x) {
                    let j = choose|j: int| 0 <= j < self.all@.len() && (#[trigger] self.all@[j]).0 == x;
                    if j < k {
                        assert(old(self).all@[j].0 == x);
                    } else {
                        assert(old(self).all@[j + 1].0 == x);
                    }
                }
            }
            assert forall|x: u64| #[trigger] self@.contains_key(x) implies self@[x] == old(self)@[x] by {
                let j = choose|j: int| 0 <= j < self.all@.len() && (#[trigger] self.all@[j]).0 == x;
                self.lemma_entry(j);
                if j < k {
                    old(self).lemma_entry(j);
                } else {
                    old(self).lemma_entry(j + 1);
                }
            }
            assert(self@ =~= old(self)@.remove(id));
        }
        true
    }

    /// How big download `id` is, as far as its source has said; 0 once it has
    /// ended.
    pub fn total(&self, id: u64) -> (r: u64)
        requires
            self.wf(),
        ensures
            r == if self@.contains_key(id) {
                self@[id].total
            } else {
                0
            },
    {
        match self.position(id) {
            None => 0,
            Some(k) => {
                proof {
                    self.lemma_entry(k as int);
                }
                self.all[k].1.total
            },
        }
    }
}

/// How far a download is once a read that began with `before` bytes in its
/// buffer ended with `after`; nothing when nothing was read.
pub fn read_on(at: u64, before: usize, after: usize) -> (r: Option<u64>)
    requires
        before <= after,
        at + (after - before) <= u64::MAX,
    ensures
        r == if after > before {
            Some((at + (after - before)) as u64)
        } else {
            None
        },
        r == reading_on(at, before, after),
{
    if after > before {
        Some(at + (after - before) as u64)
    } else {
        None
    }
}

} // verus!
