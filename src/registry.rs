//! Generation-checked registry of the simulated bodies.
//!
//! Each body is known to game code by a [`BodyHandle`]: a slot index and the
//! generation that slot had when the body was registered. Freeing a slot bumps
//! its generation, so a handle is never issued twice and a stale handle never
//! resolves to a later body. Each entry keeps the body's semantic tag and the
//! simulation engine's own identifiers for the body and for its one collider.
use vstd::prelude::*;
use crate::object_data::ObjectData;

verus! {

/// An identifier issued by the simulation engine, as its raw parts.
#[derive(PartialEq, Eq, Structural, Debug, Clone, Copy)]
pub struct EngineId {
    pub index: usize,
    pub generation: u64,
}

/// An opaque, stable handle to a registered body.
#[derive(PartialEq, Eq, Structural, Debug, Clone, Copy, Hash)]
pub struct BodyHandle {
    pub index: usize,
    pub generation: u64,
}

/// What the registry knows of one body.
#[derive(PartialEq, Eq, Structural, Debug, Clone, Copy)]
pub struct BodyEntry {
    pub tag: ObjectData,
    pub body: EngineId,
    pub collider: EngineId,
}

#[derive(Clone, Copy)]
struct Slot {
    generation: u64,
    entry: Option<BodyEntry>,
}

pub struct BodyRegistry {
    slots: Vec<Slot>,
    issued: Ghost<Set<BodyHandle>>,
}

/// The live body whose collider is `c`, if there is one.
pub open spec fn owner_of(live: Map<BodyHandle, BodyEntry>, c: EngineId) -> Option<BodyHandle> {
    if exists|o: BodyHandle| live.contains_key(o) && live[o].collider == c {
        Some(choose|o: BodyHandle| live.contains_key(o) && live[o].collider == c)
    } else {
        None
    }
}

/// The collision result for body `h` touching the collider `c`: both tags,
/// `h`'s first, and the handle of the other body. `None` when `h` is not live
/// or `c` belongs to no live body.
pub open spec fn contact_of(live: Map<BodyHandle, BodyEntry>, h: BodyHandle, c: EngineId) -> Option<
    ((ObjectData, ObjectData), BodyHandle),
> {
    if live.contains_key(h) && owner_of(live, c) is Some {
        let o = owner_of(live, c)->Some_0;
        Some(((live[h].tag, live[o].tag), o))
    } else {
        None
    }
}

/// Some live body already uses the engine body `b` or the collider `c`.
pub open spec fn ids_in_use(live: Map<BodyHandle, BodyEntry>, b: EngineId, c: EngineId) -> bool {
    exists|o: BodyHandle| live.contains_key(o) && (live[o].body == b || live[o].collider == c)
}

impl View for BodyRegistry {
    type V = Map<BodyHandle, BodyEntry>;

    closed spec fn view(&self) -> Map<BodyHandle, BodyEntry> {
        Map::new(
            |h: BodyHandle| self.live_at(h),
            |h: BodyHandle| self.slots@[h.index as int].entry->Some_0,
        )
    }
}

impl BodyRegistry {
    spec fn live_at(&self, h: BodyHandle) -> bool {
        &&& h.index < self.slots@.len()
        &&& self.slots@[h.index as int].generation == h.generation
        &&& self.slots@[h.index as int].entry is Some
    }

    /// Every handle this registry has ever issued.
    pub closed spec fn issued(&self) -> Set<BodyHandle> {
        self.issued@
    }

    /// No handle is left to issue: every slot index is taken, and each slot
    /// holds a body or has used up its generations.
    pub closed spec fn exhausted(&self) -> bool {
        &&& self.slots@.len() == usize::MAX
        &&& forall|i: int|
            0 <= i < self.slots@.len() ==> !((#[trigger] self.slots@[i]).entry is None
                && self.slots@[i].generation < u64::MAX)
    }

    pub closed spec fn wf(&self) -> bool {
        &&& self.slots@.len() <= usize::MAX
        &&& forall|h: BodyHandle| #[trigger]
            self.issued@.contains(h) ==> h.index < self.slots@.len()
                && h.generation <= self.slots@[h.index as int].generation
        &&& forall|h: BodyHandle| #[trigger]
            self.issued@.contains(h) && h.generation == self.slots@[h.index as int].generation
                && self.slots@[h.index as int].entry is None ==> h.generation == u64::MAX
        &&& forall|i: int|
            0 <= i < self.slots@.len() && (#[trigger] self.slots@[i]).entry is Some
                ==> self.issued@.contains(
                BodyHandle { index: i as usize, generation: self.slots@[i].generation },
            )
        &&& forall|i: int, j: int|
            0 <= i < self.slots@.len() && 0 <= j < self.slots@.len() && i != j
                && (#[trigger] self.slots@[i]).entry is Some && (#[trigger] self.slots@[j]).entry is Some
                ==> self.slots@[i].entry->Some_0.body != self.slots@[j].entry->Some_0.body
                && self.slots@[i].entry->Some_0.collider != self.slots@[j].entry->Some_0.collider
    }

    /// Every live handle was issued, and no two live bodies share an engine
    /// body or a collider.
    pub proof fn lemma_wf_live(&self)
        requires
            self.wf(),
        ensures
            forall|h: BodyHandle| self@.contains_key(h) ==> #[trigger] self.issued().contains(h),
            forall|a: BodyHandle, b: BodyHandle|
                #[trigger] self@.contains_key(a) && #[trigger] self@.contains_key(b) && a != b
                    ==> self@[a].body != self@[b].body && self@[a].collider != self@[b].collider,
    {
        assert forall|h: BodyHandle| self@.contains_key(h) implies #[trigger] self.issued().contains(h) by {
            assert(self.slots@[h.index as int].entry is Some);
        }
        assert forall|a: BodyHandle, b: BodyHandle|
            #[trigger] self@.contains_key(a) && #[trigger] self@.contains_key(b) && a != b
            implies self@[a].body != self@[b].body && self@[a].collider != self@[b].collider by {
            assert(self.slots@[a.index as int].entry is Some);
            assert(self.slots@[b.index as int].entry is Some);
        }
    }

    /// An empty registry.
    pub fn new() -> (r: BodyRegistry)
        ensures
            r.wf(),
            r@ == Map::<BodyHandle, BodyEntry>::empty(),
            r.issued() == Set::<BodyHandle>::empty(),
    {
        let r = BodyRegistry { slots: Vec::new(), issued: Ghost(Set::empty()) };
        assert(r@ =~= Map::<BodyHandle, BodyEntry>::empty());
        r
    }

    /// Whether `h` names a live body.
    pub fn contains(&self, h: BodyHandle) -> (r: bool)
        ensures
            r == self@.contains_key(h),
    {
        h.index < self.slots.len() && self.slots[h.index].generation == h.generation
            && self.slots[h.index].entry.is_some()
    }

    /// The entry of the live body `h`; `None` for a handle that was never
    /// issued or whose body has been removed.
    pub fn entry(&self, h: BodyHandle) -> (r: Option<BodyEntry>)
        ensures
            r == (if self@.contains_key(h) {
                Some(self@[h])
            } else {
                None
            }),
    {
        if self.contains(h) {
            self.slots[h.index].entry
        } else {
            None
        }
    }

    /// The live body whose collider is `c`, if any.
    pub fn owner_of(&self, c: EngineId) -> (r: Option<BodyHandle>)
        requires
            self.wf(),
        ensures
            r == owner_of(self@, c),
    {
        let mut i: usize = 0;
        while i < self.slots.len()
            invariant
                self.wf(),
                i <= self.slots@.len(),
                forall|k: int|
                    0 <= k < i && (#[trigger] self.slots@[k]).entry is Some
                        ==> self.slots@[k].entry->Some_0.collider != c,
            decreases self.slots@.len() - i,
        {
            let slot = self.slots[i];
            match slot.entry {
                Some(e) => {
                    if e.collider == c {
                        let h = BodyHandle { index: i, generation: slot.generation };
                        proof {
                            assert(self@.contains_key(h));
                            self.lemma_wf_live();
                            let o = choose|o: BodyHandle|
                                self@.contains_key(o) && self@[o].collider == c;
                            assert(o == h);
                        }
                        return Some(h);
                    }
                },
                None => {},
            }
            i = i + 1;
        }
        proof {
            assert forall|o: BodyHandle| self@.contains_key(o) implies self@[o].collider != c by {
                assert(self.slots@[o.index as int].entry is Some);
            }
        }
        None
    }

    /// The collision result for body `h` touching collider `c`.
    pub fn contact(&self, h: BodyHandle, c: EngineId) -> (r: Option<
        ((ObjectData, ObjectData), BodyHandle),
    >)
        requires
            self.wf(),
        ensures
            r == contact_of(self@, h, c),
    {
        match self.entry(h) {
            Some(e) => match self.owner_of(c) {
                Some(o) => {
                    let other = self.slots[o.index].entry.unwrap();
                    Some(((e.tag, other.tag), o))
                },
                None => None,
            },
            None => None,
        }
    }

    /// Registers a body with its tag and the engine's identifiers for the body
    /// and its collider, and returns a handle that was never issued before.
    /// Refused (`None`) when a live body already uses either identifier, since
    /// a body holds exactly one collider, or when no handle is left to issue.
    /// Every other body keeps its entry.
    pub fn register(&mut self, tag: ObjectData, body: EngineId, collider: EngineId) -> (r: Option<
        BodyHandle,
    >)
        requires
            old(self).wf(),
        ensures
            final(self).wf(),
            r is None <==> ids_in_use(old(self)@, body, collider) || old(self).exhausted(),
            r is None ==> final(self)@ == old(self)@ && final(self).issued() == old(self).issued(),
            r matches Some(h) ==> {
                &&& !old(self).issued().contains(h)
                &&& !old(self)@.contains_key(h)
                &&& final(self)@ == old(self)@.insert(h, BodyEntry { tag, body, collider })
                &&& final(self).issued() == old(self).issued().insert(h)
            },
            forall|k: BodyHandle|
                old(self)@.contains_key(k) ==> final(self)@.contains_key(k) && #[trigger] final(self)@[k] == old(self)@[k],
    {
        let mut i: usize = 0;
        while i < self.slots.len()
            invariant
                *self == *old(self),
                self.wf(),
                i <= self.slots@.len(),
                forall|k: int|
                    0 <= k < i && (#[trigger] self.slots@[k]).entry is Some
                        ==> self.slots@[k].entry->Some_0.body != body
                        && self.slots@[k].entry->Some_0.collider != collider,
            decreases self.slots@.len() - i,
        {
            match self.slots[i].entry {
                Some(e) => {
                    if e.body == body || e.collider == collider {
                        proof {
                            let o = BodyHandle { index: i, generation: self.slots@[i as int].generation };
                            assert(self@.contains_key(o));
                        }
                        return None;
                    }
                },
                None => {},
            }
            i = i + 1;
        }
        proof {
            assert forall|o: BodyHandle| self@.contains_key(o) implies !(self@[o].body == body
                || self@[o].collider == collider) by {
                assert(self.slots@[o.index as int].entry is Some);
            }
        }
        let entry = BodyEntry { tag, body, collider };
        let ghost before = *self;
        let mut j: usize = 0;
        while j < self.slots.len()
            invariant
                *self == before,
                before == *old(self),
                before.wf(),
                entry == (BodyEntry { tag, body, collider }),
                !ids_in_use(before@, body, collider),
                j <= self.slots@.len(),
                forall|k: int|
                    0 <= k < j ==> !((#[trigger] self.slots@[k]).entry is None
                        && self.slots@[k].generation < u64::MAX),
            decreases self.slots@.len() - j,
        {
            if self.slots[j].entry.is_none() && self.slots[j].generation < u64::MAX {
                let h = BodyHandle { index: j, generation: self.slots[j].generation };
                self.slots.set(j, Slot { generation: h.generation, entry: Some(entry) });
                self.issued = Ghost(self.issued@.insert(h));
                proof {
                    assert(!before.exhausted()) by {
                        assert(before.slots@[j as int].entry is None);
                    }
                    assert(!before.issued@.contains(h));
                    assert(!before@.contains_key(h));
                    assert(self@ =~= before@.insert(h, entry));
                    self.lemma_register_wf(before, h, entry);
                }
                return Some(h);
            }
            j = j + 1;
        }
        if self.slots.len() == usize::MAX {
            return None;
        }
        let h = BodyHandle { index: self.slots.len(), generation: 0 };
        self.slots.push(Slot { generation: 0, entry: Some(entry) });
        self.issued = Ghost(self.issued@.insert(h));
        proof {
            assert(!before.issued@.contains(h));
            assert(!before@.contains_key(h));
            assert(self@ =~= before@.insert(h, entry));
            self.lemma_register_wf(before, h, entry);
        }
        Some(h)
    }

    proof fn lemma_register_wf(&self, before: BodyRegistry, h: BodyHandle, entry: BodyEntry)
        requires
            before.wf(),
            !before.issued@.contains(h),
            !ids_in_use(before@, entry.body, entry.collider),
            h.index < self.slots@.len(),
            self.slots@.len() <= usize::MAX,
            self.slots@.len() >= before.slots@.len(),
            self.slots@[h.index as int] == (Slot { generation: h.generation, entry: Some(entry) }),
            forall|k: int|
                0 <= k < self.slots@.len() && k != h.index ==> k < before.slots@.len()
                    && #[trigger] self.slots@[k] == before.slots@[k],
            h.index < before.slots@.len() ==> before.slots@[h.index as int].generation == h.generation,
            self.issued@ == before.issued@.insert(h),
        ensures
            self.wf(),
    {
        assert forall|i: int, j: int|
            0 <= i < self.slots@.len() && 0 <= j < self.slots@.len() && i != j
                && (#[trigger] self.slots@[i]).entry is Some && (#[trigger] self.slots@[j]).entry is Some
                implies self.slots@[i].entry->Some_0.body != self.slots@[j].entry->Some_0.body
                && self.slots@[i].entry->Some_0.collider != self.slots@[j].entry->Some_0.collider by {
            if i == h.index {
                assert(self.slots@[j] == before.slots@[j]);
                let o = BodyHandle { index: j as usize, generation: before.slots@[j].generation };
                assert(before@.contains_key(o));
            } else if j == h.index {
                assert(self.slots@[i] == before.slots@[i]);
                let o = BodyHandle { index: i as usize, generation: before.slots@[i].generation };
                assert(before@.contains_key(o));
            } else {
                assert(self.slots@[i] == before.slots@[i]);
                assert(self.slots@[j] == before.slots@[j]);
            }
        }
        assert forall|g: BodyHandle| #[trigger] self.issued@.contains(g) implies g.index
            < self.slots@.len() && g.generation <= self.slots@[g.index as int].generation by {
            if g != h {
                assert(before.issued@.contains(g));
            }
        }
        assert forall|i: int|
            0 <= i < self.slots@.len() && (#[trigger] self.slots@[i]).entry is Some
                implies self.issued@.contains(
                BodyHandle { index: i as usize, generation: self.slots@[i].generation },
            ) by {
            if i != h.index {
                assert(self.slots@[i] == before.slots@[i]);
            }
        }
        assert forall|g: BodyHandle| #[trigger]
            self.issued@.contains(g) && g.generation == self.slots@[g.index as int].generation
                && self.slots@[g.index as int].entry is None implies g.generation == u64::MAX by {
            assert(g != h);
            assert(before.issued@.contains(g));
        }
    }

    /// Removes the body `h` and returns its entry; `None`, with nothing
    /// changed, when `h` is not live. Afterwards `h` never resolves again, and
    /// every other body keeps its entry.
    pub fn unregister(&mut self, h: BodyHandle) -> (r: Option<BodyEntry>)
        requires
            old(self).wf(),
        ensures
            final(self).wf(),
            r == (if old(self)@.contains_key(h) {
                Some(old(self)@[h])
            } else {
                None
            }),
            final(self)@ == old(self)@.remove(h),
            !final(self)@.contains_key(h),
            final(self).issued() == old(self).issued(),
            forall|k: BodyHandle|
                old(self)@.contains_key(k) && k != h ==> final(self)@.contains_key(k) && #[trigger] final(self)@[k] == old(self)@[k],
    {
        if !self.contains(h) {
            proof {
                assert(self@ =~= self@.remove(h));
            }
            return None;
        }
        let ghost before = *self;
        let e = self.slots[h.index].entry;
        let g = if h.generation < u64::MAX {
            h.generation + 1
        } else {
            h.generation
        };
        self.slots.set(h.index, Slot { generation: g, entry: None });
        proof {
            assert(self@ =~= before@.remove(h));
            assert forall|i: int, j: int|
                0 <= i < self.slots@.len() && 0 <= j < self.slots@.len() && i != j
                    && (#[trigger] self.slots@[i]).entry is Some && (#[trigger] self.slots@[j]).entry is Some
                    implies self.slots@[i].entry->Some_0.body != self.slots@[j].entry->Some_0.body
                    && self.slots@[i].entry->Some_0.collider != self.slots@[j].entry->Some_0.collider by {
                assert(before.slots@[i] == self.slots@[i]);
                assert(before.slots@[j] == self.slots@[j]);
            }
            assert forall|k: BodyHandle| #[trigger]
                self.issued@.contains(k) && k.generation == self.slots@[k.index as int].generation
                    && self.slots@[k.index as int].entry is None implies k.generation == u64::MAX by {
                if k.index == h.index && h.generation < u64::MAX {
                    assert(k.generation <= h.generation);
                }
            }
        }
        e
    }

    /// The collision results for body `h` against each collider in `others`,
    /// in the same order. `None` when `h` is not live or some collider in
    /// `others` belongs to no live body.
    pub fn collisions(&self, h: BodyHandle, others: &Vec<EngineId>) -> (r: Option<
        Vec<((ObjectData, ObjectData), BodyHandle)>,
    >)
        requires
            self.wf(),
        ensures
            r is Some <==> self@.contains_key(h) && forall|i: int|
                0 <= i < others@.len() ==> (#[trigger] owner_of(self@, others@[i])) is Some,
            r matches Some(v) ==> v@.len() == others@.len() && forall|i: int|
                0 <= i < others@.len() ==> #[trigger] v@[i] == contact_of(
                    self@,
                    h,
                    others@[i],
                )->Some_0,
    {
        if !self.contains(h) {
            return None;
        }
        let mut out: Vec<((ObjectData, ObjectData), BodyHandle)> = Vec::new();
        let mut i: usize = 0;
        while i < others.len()
            invariant
                self.wf(),
                self@.contains_key(h),
                i <= others@.len(),
                out@.len() == i,
                forall|k: int| 0 <= k < i ==> (#[trigger] owner_of(self@, others@[k])) is Some,
                forall|k: int|
                    0 <= k < i ==> #[trigger] out@[k] == contact_of(self@, h, others@[k])->Some_0,
            decreases others@.len() - i,
        {
            match self.contact(h, others[i]) {
                Some(c) => {
                    out.push(c);
                },
                None => {
                    return None;
                },
            }
            i = i + 1;
        }
        Some(out)
    }

    /// Contacts read the same from both sides: for live bodies `a` and `b`,
    /// `a` touching `b`'s collider gives `a`'s and `b`'s tags with `b` as the
    /// other body, and `b` touching `a`'s collider gives the mirrored pair
    /// with `a` as the other body.
    pub proof fn lemma_contact_symmetric(&self, a: BodyHandle, b: BodyHandle)
        requires
            self.wf(),
            self@.contains_key(a),
            self@.contains_key(b),
        ensures
            contact_of(self@, a, self@[b].collider) == Some(((self@[a].tag, self@[b].tag), b)),
            contact_of(self@, b, self@[a].collider) == Some(((self@[b].tag, self@[a].tag), a)),
    {
        self.lemma_wf_live();
        self.lemma_owner_unique(a);
        self.lemma_owner_unique(b);
    }

    /// The owner of a live body's collider is that body.
    pub proof fn lemma_owner_unique(&self, a: BodyHandle)
        requires
            self.wf(),
            self@.contains_key(a),
        ensures
            owner_of(self@, self@[a].collider) == Some(a),
    {
        self.lemma_wf_live();
        let c = self@[a].collider;
        assert(self@.contains_key(a) && self@[a].collider == c);
        let o = choose|o: BodyHandle| self@.contains_key(o) && self@[o].collider == c;
        assert(o == a);
    }

    /// Tags never change: when every body that lives in both `before` and
    /// `after` kept its entry (as `register` and `unregister` guarantee), a
    /// collision result of `h` against collider `c` in `before` is returned
    /// unchanged in `after` for as long as both bodies live.
    pub proof fn lemma_contact_stable(before: &BodyRegistry, after: &BodyRegistry, h: BodyHandle, c: EngineId)
        requires
            before.wf(),
            after.wf(),
            forall|k: BodyHandle|
                before@.contains_key(k) && after@.contains_key(k) ==> #[trigger] after@[k] == before@[k],
            contact_of(before@, h, c) is Some,
            after@.contains_key(h),
            after@.contains_key(owner_of(before@, c)->Some_0),
        ensures
            contact_of(after@, h, c) == contact_of(before@, h, c),
    {
        let o = owner_of(before@, c)->Some_0;
        before.lemma_owner_unique(o);
        after.lemma_owner_unique(o);
        assert(after@[o] == before@[o]);
        assert(after@[h] == before@[h]);
    }
}

} // verus!
