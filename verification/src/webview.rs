//! Collections of webviews: one webview per computation key, recomputed on demand.

use vstd::prelude::*;
use crate::text::{str_eq, texts};

verus! {

/// What getting the webview of a key involves.
#[derive(Clone, Copy, Debug, PartialEq, Eq, Structural)]
pub enum GetPlan {
    /// Compute, create a webview, fill it and start its worker.
    Create,
    /// Compute again and refresh the existing webview.
    Recompute,
    /// Hand out the existing webview as it is.
    Reuse,
}

/// A key without a webview gets a new one; an existing webview is refreshed only when the
/// caller forces it.
pub fn raw_get_plan(present: bool, force: bool) -> (p: GetPlan)
    ensures
        p == (if !present {
            GetPlan::Create
        } else if force {
            GetPlan::Recompute
        } else {
            GetPlan::Reuse
        }),
{
    if !present {
        GetPlan::Create
    } else if force {
        GetPlan::Recompute
    } else {
        GetPlan::Reuse
    }
}

/// Whether a webview whose worker finished is dropped from the collection: only when the
/// collection still holds that same webview under the key, not a newer one.
pub fn forget_on_finish(entry_id: Option<u64>, finished_id: u64) -> (r: bool)
    ensures
        r == (entry_id == Some(finished_id)),
{
    match entry_id {
        Some(id) => id == finished_id,
        None => false,
    }
}

/// The webviews of a collection: for each key, the id of its webview.
pub struct WebviewIndex {
    entries: Vec<(String, u64)>,
}

impl WebviewIndex {
    /// The webview id of each key.
    pub closed spec fn map(&self) -> Map<Seq<char>, u64> {
        Map::new(
            |k: Seq<char>| exists|i: int| 0 <= i < self.entries@.len() && (#[trigger] self.entries@[i]).0@ == k,
            |k: Seq<char>| self.entries@[self.position(k)].1,
        )
    }

    /// Where `k` stands in the entries.
    closed spec fn position(&self, k: Seq<char>) -> int {
        choose|i: int| 0 <= i < self.entries@.len() && (#[trigger] self.entries@[i]).0@ == k
    }

    /// No key stands twice.
    pub closed spec fn wf(&self) -> bool {
        forall|i: int, j: int|
            0 <= i < j < self.entries@.len() ==> (#[trigger] self.entries@[i]).0@ != (#[trigger] self.entries@[j]).0@
    }

    /// An empty collection.
    pub fn new() -> (w: WebviewIndex)
        ensures
            w.wf(),
            w.map() == Map::<Seq<char>, u64>::empty(),
    {
        let w = WebviewIndex { entries: Vec::new() };
        assert(w.map() =~= Map::<Seq<char>, u64>::empty());
        w
    }

    /// The entry of `key`, if any.
    fn find(&self, key: &str) -> (r: Option<usize>)
        requires
            self.wf(),
        ensures
            r matches Some(i) ==> i < self.entries@.len() && self.entries@[i as int].0@ == key@,
            r is None ==> forall|i: int| 0 <= i < self.entries@.len() ==> (#[trigger] self.entries@[i]).0@ != key@,
    {
        let mut i: usize = 0;
        while i < self.entries.len()
            invariant
                i <= self.entries@.len(),
                forall|j: int| 0 <= j < i ==> (#[trigger] self.entries@[j]).0@ != key@,
            decreases self.entries@.len() - i,
        {
            if str_eq(self.entries[i].0.as_str(), key) {
                return Some(i);
            }
            i += 1;
        }
        None
    }

    /// The position of `k` is the entry that holds it.
    proof fn lemma_position(&self, i: int)
        requires
            self.wf(),
            0 <= i < self.entries@.len(),
        ensures
            self.map().contains_key(self.entries@[i].0@),
            self.map()[self.entries@[i].0@] == self.entries@[i].1,
    {
        let k = self.entries@[i].0@;
        assert(self.map().contains_key(k));
        let p = self.position(k);
        if p != i {
            if p < i {
                assert(self.entries@[p].0@ != self.entries@[i].0@);
            } else {
                assert(self.entries@[i].0@ != self.entries@[p].0@);
            }
        }
    }

    /// The webview id of `key`, if it has a webview.
    pub fn get(&self, key: &str) -> (r: Option<u64>)
        requires
            self.wf(),
        ensures
            r == (if self.map().contains_key(key@) { Some(self.map()[key@]) } else { None::<u64> }),
    {
        match self.find(key) {
            Some(i) => {
                proof {
                    self.lemma_position(i as int);
                }
                Some(self.entries[i].1)
            },
            None => {
                assert(!self.map().contains_key(key@));
                None
            },
        }
    }

    /// What getting the webview of `key` involves.
    pub fn plan(&self, key: &str, force: bool) -> (p: GetPlan)
        requires
            self.wf(),
        ensures
            p == (if !self.map().contains_key(key@) {
                GetPlan::Create
            } else if force {
                GetPlan::Recompute
            } else {
                GetPlan::Reuse
            }),
    {
        let present = self.get(key).is_some();
        raw_get_plan(present, force)
    }

    /// Record the webview created for `key`. A key whose creation failed is never recorded.
    pub fn insert_created(&mut self, key: &str, handle: u64)
        requires
            old(self).wf(),
        ensures
            final(self).wf(),
            final(self).map() == old(self).map().insert(key@, handle),
    {
        match self.find(key) {
            Some(i) => {
                let k = self.entries[i].0.clone();
                self.entries.set(i, (k, handle));
                proof {
                    assert forall|a: int, b: int| 0 <= a < b < self.entries@.len() implies
                        (#[trigger] self.entries@[a]).0@ != (#[trigger] self.entries@[b]).0@ by {
                        assert(old(self).entries@[a].0@ != old(self).entries@[b].0@);
                    }
                    assert forall|x: Seq<char>| #[trigger] self.map().contains_key(x) == old(self).map().insert(key@, handle).contains_key(x) by {
                        if self.map().contains_key(x) {
                            let j = choose|j: int| 0 <= j < self.entries@.len() && (#[trigger] self.entries@[j]).0@ == x;
                            assert(old(self).entries@[j].0@ == x);
                        }
                        if old(self).map().contains_key(x) {
                            let j = choose|j: int| 0 <= j < old(self).entries@.len() && (#[trigger] old(self).entries@[j]).0@ == x;
                            assert(self.entries@[j].0@ == x);
                        }
                        if x == key@ {
                            assert(self.entries@[i as int].0@ == x);
                        }
                    }
                    assert forall|x: Seq<char>| #[trigger] self.map().contains_key(x) implies self.map()[x] == old(self).map().insert(key@, handle)[x] by {
                        let j = choose|j: int| 0 <= j < self.entries@.len() && (#[trigger] self.entries@[j]).0@ == x;
                        self.lemma_position(j);
                        if x != key@ {
                            old(self).lemma_position(j);
                        } else {
                            assert(j == i);
                        }
                    }
                    assert(self.map() =~= old(self).map().insert(key@, handle));
                }
            },
            None => {
                self.entries.push((key.to_owned(), handle));
                proof {
                    let n = old(self).entries@.len() as int;
                    assert forall|a: int, b: int| 0 <= a < b < self.entries@.len() implies
                        (#[trigger] self.entries@[a]).0@ != (#[trigger] self.entries@[b]).0@ by {
                        if b < n {
                            assert(old(self).entries@[a].0@ != old(self).entries@[b].0@);
                        } else {
                            assert(self.entries@[a] == old(self).entries@[a]);
                        }
                    }
                    assert forall|x: Seq<char>| #[trigger] self.map().contains_key(x) == old(self).map().insert(key@, handle).contains_key(x) by {
                        if self.map().contains_key(x) {
                            let j = choose|j: int| 0 <= j < self.entries@.len() && (#[trigger] self.entries@[j]).0@ == x;
                            if j < n {
                                assert(old(self).entries@[j].0@ == x);
                            }
                        }
                        if old(self).map().contains_key(x) {
                            let j = choose|j: int| 0 <= j < old(self).entries@.len() && (#[trigger] old(self).entries@[j]).0@ == x;
                            assert(self.entries@[j].0@ == x);
                        }
                        if x == key@ {
                            assert(self.entries@[n].0@ == x);
                        }
                    }
                    assert forall|x: Seq<char>| #[trigger] self.map().contains_key(x) implies self.map()[x] == old(self).map().insert(key@, handle)[x] by {
                        let j = choose|j: int| 0 <= j < self.entries@.len() && (#[trigger] self.entries@[j]).0@ == x;
                        self.lemma_position(j);
                        if j < n {
                            assert(self.entries@[j] == old(self).entries@[j]);
                            old(self).lemma_position(j);
                        }
                    }
                    assert(self.map() =~= old(self).map().insert(key@, handle));
                }
            },
        }
    }

    /// The worker of the webview `handle` of `key` finished: the key is dropped only when it
    /// still holds that webview, not a newer one. Whether it was dropped is returned.
    pub fn finished(&mut self, key: &str, handle: u64) -> (dropped: bool)
        requires
            old(self).wf(),
        ensures
            final(self).wf(),
            dropped == (old(self).map().contains_key(key@) && old(self).map()[key@] == handle),
            final(self).map() == (if dropped { old(self).map().remove(key@) } else { old(self).map() }),
    {
        match self.find(key) {
            Some(i) => {
                proof {
                    self.lemma_position(i as int);
                }
                if self.entries[i].1 == handle {
                    let ghost old_entries = self.entries@;
                    self.entries.remove(i);
                    proof {
                        assert forall|a: int, b: int| 0 <= a < b < self.entries@.len() implies
                            (#[trigger] self.entries@[a]).0@ != (#[trigger] self.entries@[b]).0@ by {
                            let a0 = if a < i { a } else { a + 1 };
                            let b0 = if b < i { b } else { b + 1 };
                            assert(self.entries@[a] == old_entries[a0]);
                            assert(self.entries@[b] == old_entries[b0]);
                            assert(old_entries[a0].0@ != old_entries[b0].0@);
                        }
                        assert forall|x: Seq<char>| #[trigger] self.map().contains_key(x) == old(self).map().remove(key@).contains_key(x) by {
                            if self.map().contains_key(x) {
                                let j = choose|j: int| 0 <= j < self.entries@.len() && (#[trigger] self.entries@[j]).0@ == x;
                                let j0 = if j < i { j } else { j + 1 };
                                assert(self.entries@[j] == old_entries[j0]);
                                assert(old_entries[j0].0@ != old_entries[i as int].0@);
                            }
                            if old(self).map().contains_key(x) && x != key@ {
                                let j = choose|j: int| 0 <= j < old_entries.len() && (#[trigger] old_entries[j]).0@ == x;
                                assert(j != i);
                                let j1 = if j < i { j } else { j - 1 };
                                assert(self.entries@[j1] == old_entries[j]);
                            }
                        }
                        assert forall|x: Seq<char>| #[trigger] self.map().contains_key(x) implies self.map()[x] == old(self).map().remove(key@)[x] by {
                            let j = choose|j: int| 0 <= j < self.entries@.len() && (#[trigger] self.entries@[j]).0@ == x;
                            self.lemma_position(j);
                            let j0 = if j < i { j } else { j + 1 };
                            assert(self.entries@[j] == old_entries[j0]);
                            old(self).lemma_position(j0);
                        }
                        assert(self.map() =~= old(self).map().remove(key@));
                    }
                    true
                } else {
                    false
                }
            },
            None => {
                assert(!old(self).map().contains_key(key@));
                false
            },
        }
    }

    /// The keys in the order in which their webviews were created.
    pub closed spec fn order(&self) -> Seq<Seq<char>> {
        self.entries@.map_values(|e: (String, u64)| e.0@)
    }

    /// The webview that is currently active, given for each key of [`Self::keys`], in that
    /// order, whether its webview is active: the first active one, `None` when none is.
    pub fn find_active(&self, active: &Vec<bool>) -> (r: Option<u64>)
        requires
            self.wf(),
            active@.len() == self.order().len(),
        ensures
            r matches Some(h) ==> exists|i: int|
                0 <= i < active@.len() && active@[i] && (forall|j: int| 0 <= j < i ==> !active@[j])
                    && h == self.map()[#[trigger] self.order()[i]],
            r is None ==> forall|i: int| 0 <= i < active@.len() ==> !active@[i],
    {
        let mut i: usize = 0;
        while i < active.len()
            invariant
                self.wf(),
                i <= active@.len(),
                active@.len() == self.entries@.len(),
                forall|j: int| 0 <= j < i ==> !active@[j],
            decreases active@.len() - i,
        {
            if active[i] {
                proof {
                    self.lemma_position(i as int);
                    assert(self.order()[i as int] == self.entries@[i as int].0@);
                }
                return Some(self.entries[i].1);
            }
            i += 1;
        }
        None
    }

    /// The keys that have a webview, to refresh them all.
    pub fn keys(&self) -> (ks: Vec<String>)
        requires
            self.wf(),
        ensures
            texts(ks@) == self.order(),
            forall|k: Seq<char>| self.map().contains_key(k) <==> exists|i: int| 0 <= i < ks@.len() && (#[trigger] ks@[i])@ == k,
            forall|i: int, j: int| 0 <= i < j < ks@.len() ==> (#[trigger] ks@[i])@ != (#[trigger] ks@[j])@,
    {
        let mut ks: Vec<String> = Vec::new();
        let mut i: usize = 0;
        while i < self.entries.len()
            invariant
                i <= self.entries@.len(),
                ks@.len() == i,
                forall|j: int| 0 <= j < i ==> (#[trigger] ks@[j])@ == self.entries@[j].0@,
            decreases self.entries@.len() - i,
        {
            ks.push(self.entries[i].0.clone());
            i += 1;
        }
        proof {
            assert(texts(ks@) =~= self.order());
            assert forall|k: Seq<char>| self.map().contains_key(k) implies exists|i: int| 0 <= i < ks@.len() && (#[trigger] ks@[i])@ == k by {
                let j = choose|j: int| 0 <= j < self.entries@.len() && (#[trigger] self.entries@[j]).0@ == k;
                assert(ks@[j]@ == k);
            }
            assert forall|k: Seq<char>| (exists|i: int| 0 <= i < ks@.len() && (#[trigger] ks@[i])@ == k) implies self.map().contains_key(k) by {
                let j = choose|j: int| 0 <= j < ks@.len() && (#[trigger] ks@[j])@ == k;
                assert(self.entries@[j].0@ == k);
            }
            assert forall|a: int, b: int| 0 <= a < b < ks@.len() implies (#[trigger] ks@[a])@ != (#[trigger] ks@[b])@ by {
                assert(self.entries@[a].0@ != self.entries@[b].0@);
            }
        }
        ks
    }
}

/// The slot of a webview of which there is at most one.
pub struct WebviewSlot {
    current: Option<u64>,
}

impl WebviewSlot {
    /// The id of the open webview, if any.
    pub closed spec fn current(&self) -> Option<u64> {
        self.current
    }

    /// No webview is open.
    pub fn new() -> (s: WebviewSlot)
        ensures
            s.current() is None,
    {
        WebviewSlot { current: None }
    }

    /// The webview to hand out: the open one, or `None` when one has to be created.
    pub fn handle(&self) -> (r: Option<u64>)
        ensures
            r == self.current(),
    {
        self.current
    }

    /// Record the webview just created.
    pub fn install(&mut self, id: u64)
        ensures
            final(self).current() == Some(id),
    {
        self.current = Some(id);
    }

    /// The webview's worker finished: the next request creates a new one.
    pub fn manager_finished(&mut self)
        ensures
            final(self).current() is None,
    {
        self.current = None;
    }
}

} // verus!
