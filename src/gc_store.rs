//! The heap of tables, and its mark-and-sweep collector.
use vstd::prelude::*;
use crate::values::{Value, GcKey};
use crate::table::UserTable;
use crate::function::FunctionImpl;

verus! {

/// Whether `v` refers to the table `y`: directly, or as a function whose
/// closure holds that frame.
pub open spec fn value_refs(v: Value, closures: Seq<FunctionImpl>, y: u64) -> bool {
    match v {
        Value::Table(k) => k.id == y,
        Value::FunctionDef(f) => f.id < closures.len() && exists|j: int|
            0 <= j < closures[f.id as int].closure@.len() && (
            #[trigger] closures[f.id as int].closure@[j]).id == y,
        _ => false,
    }
}

/// Whether the table `t` refers to `y`: in a key, a value or its metatable.
pub open spec fn table_refs(t: UserTable, closures: Seq<FunctionImpl>, y: u64) -> bool {
    ||| t.meta == Some(GcKey { id: y })
    ||| exists|i: int|
        0 <= i < t.entries@.len() && (value_refs((#[trigger] t.entries@[i]).0, closures, y)
            || value_refs(t.entries@[i].1, closures, y))
}

/// Count of unmarked slots.
pub open spec fn unmarked(m: Seq<bool>) -> nat
    decreases m.len(),
{
    if m.len() == 0 {
        0
    } else {
        unmarked(m.drop_last()) + if m.last() {
            0nat
        } else {
            1nat
        }
    }
}

proof fn lemma_unmarked_update(m: Seq<bool>, i: int)
    requires
        0 <= i < m.len(),
        !m[i],
    ensures
        unmarked(m.update(i, true)) + 1 == unmarked(m),
    decreases m.len(),
{
    let u = m.update(i, true);
    if i == m.len() - 1 {
        assert(u.drop_last() == m.drop_last());
    } else {
        assert(u.drop_last() == m.drop_last().update(i, true));
        lemma_unmarked_update(m.drop_last(), i);
    }
}

pub open spec fn marked_set(m: Seq<bool>) -> Set<u64> {
    Set::new(|h: u64| h < m.len() && m[h as int])
}

/// A collection never leaves a dangling handle behind: when the heap after
/// it holds exactly what was reachable before, every live root survives,
/// and a surviving table that referred to a live table still finds it.
pub proof fn lemma_collect_keeps_references(
    before: GcStore,
    after: GcStore,
    closures: Seq<FunctionImpl>,
    roots: Seq<GcKey>,
    x: u64,
    y: u64,
)
    requires
        forall|h: u64| #[trigger] after.live(h) == before.reachable(closures, roots, h),
    ensures
        forall|i: int| 0 <= i < roots.len() && before.live(#[trigger] roots[i].id) ==> after.live(roots[i].id),
        after.live(x) && before.edge(closures, x, y) ==> after.live(y),
{
    assert forall|i: int| 0 <= i < roots.len() && before.live(#[trigger] roots[i].id) implies after.live(roots[i].id) by {
        assert forall|t: Set<u64>| #[trigger] before.closed(closures, roots, t) implies t.contains(roots[i].id) by {}
    }
    if after.live(x) && before.edge(closures, x, y) {
        assert forall|t: Set<u64>| #[trigger] before.closed(closures, roots, t) implies t.contains(y) by {
            assert(t.contains(x));
        }
    }
}

pub struct GcStore {
    pub slots: Vec<Option<UserTable>>,
}

/// Marks the live slot `y` if it is not yet marked, and queues it.
fn mark(slots: &Vec<Option<UserTable>>, marked: &mut Vec<bool>, work: &mut Vec<u64>, y: u64)
    requires
        old(marked)@.len() == slots@.len(),
    ensures
        final(marked)@.len() == slots@.len(),
        if y < slots@.len() && slots@[y as int] is Some && !old(marked)@[y as int] {
            &&& final(marked)@ == old(marked)@.update(y as int, true)
            &&& final(work)@ == old(work)@.push(y)
        } else {
            &&& final(marked)@ == old(marked)@
            &&& final(work)@ == old(work)@
        },
{
    if y < slots.len() as u64 {
        let i = y as usize;
        if slots[i].is_some() && !marked[i] {
            marked.set(i, true);
            work.push(y);
        }
    }
}

impl GcStore {
    /// The facts that the marking loops keep: `ms` holds the queued slots and
    /// those whose references are all marked, and lies inside every closed set.
    pub open spec fn mark_inv(
        &self,
        closures: Seq<FunctionImpl>,
        roots: Seq<GcKey>,
        m: Seq<bool>,
        work: Seq<u64>,
        cur: Option<u64>,
    ) -> bool {
        let ms = marked_set(m);
        &&& m.len() == self.slots@.len()
        &&& forall|h: u64| #[trigger] ms.contains(h) ==> self.live(h)
        &&& forall|j: int| 0 <= j < work.len() ==> ms.contains(#[trigger] work[j])
        &&& forall|a: int, b: int| 0 <= a < b < work.len() ==> #[trigger] work[a] != #[trigger] work[b]
        &&& forall|j: int| 0 <= j < work.len() ==> Some(#[trigger] work[j]) != cur
        &&& forall|x: u64, y: u64|
            ms.contains(x) && !work.contains(x) && Some(x) != cur && #[trigger] self.edge(closures, x, y)
                ==> ms.contains(y)
        &&& forall|t: Set<u64>| #[trigger] self.closed(closures, roots, t) ==> ms.subset_of(t)
        &&& cur is Some ==> ms.contains(cur.unwrap())
    }

    pub open spec fn live(&self, h: u64) -> bool {
        h < self.slots@.len() && self.slots@[h as int] is Some
    }

    /// Every table in the heap is well formed.
    pub open spec fn wf(&self) -> bool {
        forall|i: int| 0 <= i < self.slots@.len() && (#[trigger] self.slots@[i]) is Some
            ==> self.slots@[i].unwrap().wf()
    }

    pub open spec fn table(&self, h: u64) -> UserTable {
        self.slots@[h as int].unwrap()
    }

    /// A reference from the live table `x` to the live table `y`.
    pub open spec fn edge(&self, closures: Seq<FunctionImpl>, x: u64, y: u64) -> bool {
        &&& self.live(x)
        &&& self.live(y)
        &&& table_refs(self.table(x), closures, y)
    }

    /// `s` holds the live roots and everything that its members refer to.
    pub open spec fn closed(&self, closures: Seq<FunctionImpl>, roots: Seq<GcKey>, s: Set<u64>) -> bool {
        &&& forall|i: int| 0 <= i < roots.len() && self.live(#[trigger] roots[i].id) ==> s.contains(roots[i].id)
        &&& forall|x: u64, y: u64| s.contains(x) && #[trigger] self.edge(closures, x, y) ==> s.contains(y)
    }

    /// `h` is live and lies in every set closed from the roots.
    pub open spec fn reachable(&self, closures: Seq<FunctionImpl>, roots: Seq<GcKey>, h: u64) -> bool {
        &&& self.live(h)
        &&& forall|s: Set<u64>| #[trigger] self.closed(closures, roots, s) ==> s.contains(h)
    }

    pub fn new() -> (r: GcStore)
        ensures
            r.wf(),
            r.slots@.len() == 0,
    {
        GcStore { slots: Vec::new() }
    }

    /// Puts `value` in a fresh slot; `None` when no handle is left.
    pub fn store(&mut self, value: UserTable) -> (r: Option<GcKey>)
        requires
            old(self).wf(),
            value.wf(),
        ensures
            final(self).wf(),
            match r {
                Some(k) => {
                    &&& !old(self).live(k.id)
                    &&& k.id == old(self).slots@.len()
                    &&& final(self).slots@ == old(self).slots@.push(Some(value))
                },
                None => final(self).slots@ == old(self).slots@,
            },
            old(self).slots@.len() < u64::MAX && old(self).slots@.len() < usize::MAX ==> r is Some,
    {
        let n = self.slots.len();
        if n as u64 >= u64::MAX || n >= usize::MAX {
            return None;
        }
        self.slots.push(Some(value));
        Some(GcKey { id: n as u64 })
    }

    /// The table behind `key`, if it is live.
    pub fn get_value(&self, key: GcKey) -> (r: Option<&UserTable>)
        ensures
            match r {
                Some(t) => self.live(key.id) && *t == self.table(key.id),
                None => !self.live(key.id),
            },
    {
        if key.id >= self.slots.len() as u64 {
            return None;
        }
        let i = key.id as usize;
        match &self.slots[i] {
            Some(t) => Some(t),
            None => None,
        }
    }

    /// `t[k] = v` on the live table `key`; `false` if it is not live.
    pub fn modify_value(&mut self, key: GcKey, k: Value, v: Value) -> (r: bool)
        requires
            old(self).wf(),
            !(k is Nil),
        ensures
            final(self).wf(),
            r == old(self).live(key.id),
            final(self).slots@.len() == old(self).slots@.len(),
            forall|h: u64| #[trigger] final(self).live(h) == old(self).live(h),
            forall|h: int| 0 <= h < old(self).slots@.len() && h != key.id ==> #[trigger] final(self).slots@[h]
                == old(self).slots@[h],
            r ==> {
                &&& final(self).table(key.id).get_spec(k) == v
                &&& final(self).table(key.id).meta == old(self).table(key.id).meta
                &&& forall|o: Value| !crate::values::value_eq(o, k) ==>
                    #[trigger] final(self).table(key.id).get_spec(o) == old(self).table(key.id).get_spec(o)
            },
    {
        if key.id >= self.slots.len() as u64 {
            return false;
        }
        let i = key.id as usize;
        match &mut self.slots[i] {
            Some(t) => {
                t.set(k, v);
                true
            },
            None => false,
        }
    }

    /// Marks the slots that `v` refers to, as a reference from `x`.
    fn mark_value(
        &self,
        closures: &Vec<FunctionImpl>,
        roots: Ghost<Seq<GcKey>>,
        x: u64,
        v: &Value,
        marked: &mut Vec<bool>,
        work: &mut Vec<u64>,
    )
        requires
            self.mark_inv(closures@, roots@, old(marked)@, old(work)@, Some(x)),
            self.live(x),
            forall|y: u64| value_refs(*v, closures@, y) ==> table_refs(self.table(x), closures@, y),
        ensures
            self.mark_inv(closures@, roots@, final(marked)@, final(work)@, Some(x)),
            unmarked(final(marked)@) * 2 + final(work)@.len() <= unmarked(old(marked)@) * 2 + old(work)@.len(),
            forall|y: u64| #[trigger] marked_set(old(marked)@).contains(y) ==> marked_set(final(marked)@).contains(y),
            forall|y: u64| value_refs(*v, closures@, y) && self.live(y) ==> #[trigger] marked_set(final(marked)@).contains(y),
    {
        match v {
            Value::Table(k) => {
                assert(value_refs(*v, closures@, k.id));
                self.mark_one(closures, roots, x, k.id, marked, work);
            },
            Value::FunctionDef(f) => {
                if f.id < closures.len() {
                    let frames = &closures[f.id].closure;
                    let mut j: usize = 0;
                    while j < frames.len()
                        invariant
                            j <= frames@.len(),
                            *frames == closures@[f.id as int].closure,
                            f.id < closures@.len(),
                            *v == Value::FunctionDef(*f),
                            self.mark_inv(closures@, roots@, marked@, work@, Some(x)),
                            self.live(x),
                            forall|y: u64| value_refs(*v, closures@, y) ==> table_refs(self.table(x), closures@, y),
                            unmarked(marked@) * 2 + work@.len() <= unmarked(old(marked)@) * 2 + old(work)@.len(),
                            forall|y: u64| #[trigger] marked_set(old(marked)@).contains(y) ==> marked_set(marked@).contains(y),
                            forall|q: int| 0 <= q < j && self.live(frames@[q].id) ==> #[trigger] marked_set(marked@).contains(frames@[q].id),
                        decreases frames@.len() - j,
                    {
                        proof {
                            assert(value_refs(*v, closures@, frames@[j as int].id));
                        }
                        let ghost m1 = marked@;
                        self.mark_one(closures, roots, x, frames[j].id, marked, work);
                        proof {
                            assert forall|q: int| 0 <= q < j + 1 && self.live(frames@[q].id) implies
                                #[trigger] marked_set(marked@).contains(frames@[q].id) by {
                                if q < j {
                                    assert(marked_set(m1).contains(frames@[q].id));
                                }
                            }
                            assert forall|y: u64| #[trigger] marked_set(old(marked)@).contains(y) implies
                                marked_set(marked@).contains(y) by {
                                assert(marked_set(m1).contains(y));
                            }
                        }
                        j = j + 1;
                    }
                    proof {
                        assert forall|y: u64| value_refs(*v, closures@, y) && self.live(y) implies
                            #[trigger] marked_set(marked@).contains(y) by {
                            let q = choose|q: int| 0 <= q < frames@.len() && (#[trigger] frames@[q]).id == y;
                            assert(frames@[q].id == y);
                        }
                    }
                }
            },
            _ => {},
        }
    }

    /// Marks `y`, a reference from `x`.
    fn mark_one(
        &self,
        closures: &Vec<FunctionImpl>,
        roots: Ghost<Seq<GcKey>>,
        x: u64,
        y: u64,
        marked: &mut Vec<bool>,
        work: &mut Vec<u64>,
    )
        requires
            self.mark_inv(closures@, roots@, old(marked)@, old(work)@, Some(x)),
            self.live(x),
            table_refs(self.table(x), closures@, y),
        ensures
            self.mark_inv(closures@, roots@, final(marked)@, final(work)@, Some(x)),
            unmarked(final(marked)@) * 2 + final(work)@.len() <= unmarked(old(marked)@) * 2 + old(work)@.len(),
            forall|z: u64| #[trigger] marked_set(old(marked)@).contains(z) ==> marked_set(final(marked)@).contains(z),
            self.live(y) ==> marked_set(final(marked)@).contains(y),
    {
        let ghost m0 = marked@;
        let ghost w0 = work@;
        mark(&self.slots, marked, work, y);
        proof {
            let ms0 = marked_set(m0);
            let ms = marked_set(marked@);
            if y < self.slots@.len() && self.slots@[y as int] is Some && !m0[y as int] {
                lemma_unmarked_update(m0, y as int);
                assert(ms =~= ms0.insert(y));
                assert(self.edge(closures@, x, y));
                assert forall|t: Set<u64>| #[trigger] self.closed(closures@, roots@, t) implies ms.subset_of(t) by {
                    assert(ms0.subset_of(t));
                    assert(ms0.contains(x));
                }
                assert forall|j: int| 0 <= j < work@.len() implies ms.contains(#[trigger] work@[j]) by {
                    if j < w0.len() {
                        assert(work@[j] == w0[j]);
                    }
                }
                assert forall|a: int, b: int| 0 <= a < b < work@.len() implies #[trigger] work@[a] != #[trigger] work@[b] by {
                    if b == w0.len() {
                        assert(ms0.contains(w0[a]));
                    }
                }
                assert forall|x1: u64, y1: u64|
                    ms.contains(x1) && !work@.contains(x1) && Some(x1) != Some(x) && #[trigger] self.edge(closures@, x1, y1)
                        implies ms.contains(y1) by {
                    if x1 != y {
                        assert(ms0.contains(x1));
                        if w0.contains(x1) {
                            let j = choose|j: int| 0 <= j < w0.len() && w0[j] == x1;
                            assert(work@[j] == x1);
                        }
                    } else {
                        assert(work@[work@.len() - 1] == y);
                    }
                }
            } else {
                assert(ms =~= ms0);
            }
        }
    }

    /// Removes every table that is not reachable from `roots`, following
    /// references through keys, values, metatables and the frames of
    /// function closures.
    pub fn collect_garbage(&mut self, roots: &Vec<GcKey>, closures: &Vec<FunctionImpl>)
        requires
            old(self).wf(),
        ensures
            final(self).wf(),
            final(self).slots@.len() == old(self).slots@.len(),
            forall|h: u64| #[trigger] final(self).live(h) == old(self).reachable(closures@, roots@, h),
            forall|h: u64| #[trigger] final(self).live(h) ==> final(self).table(h) == old(self).table(h),
    {
        let n = self.slots.len();
        let mut marked: Vec<bool> = Vec::new();
        while marked.len() < n
            invariant
                marked@.len() <= n,
                n == self.slots@.len(),
                forall|i: int| 0 <= i < marked@.len() ==> !(#[trigger] marked@[i]),
            decreases n - marked@.len(),
        {
            marked.push(false);
        }
        let mut work: Vec<u64> = Vec::new();
        proof {
            assert(marked_set(marked@) =~= Set::empty());
        }
        let mut r: usize = 0;
        while r < roots.len()
            invariant
                r <= roots@.len(),
                self.mark_inv(closures@, roots@, marked@, work@, None),
                forall|h: u64| #[trigger] marked_set(marked@).contains(h) ==> work@.contains(h),
                forall|q: int| 0 <= q < r && self.live(roots@[q].id) ==> #[trigger] marked_set(marked@).contains(roots@[q].id),
            decreases roots@.len() - r,
        {
            let ghost m0 = marked@;
            let ghost w0 = work@;
            mark(&self.slots, &mut marked, &mut work, roots[r].id);
            proof {
                let y = roots@[r as int].id;
                let ms0 = marked_set(m0);
                let ms = marked_set(marked@);
                if y < self.slots@.len() && self.slots@[y as int] is Some && !m0[y as int] {
                    assert(ms =~= ms0.insert(y));
                    assert forall|t: Set<u64>| #[trigger] self.closed(closures@, roots@, t) implies ms.subset_of(t) by {
                        assert(ms0.subset_of(t));
                    }
                    assert forall|j: int| 0 <= j < work@.len() implies ms.contains(#[trigger] work@[j]) by {
                        if j < w0.len() {
                            assert(work@[j] == w0[j]);
                        }
                    }
                    assert forall|a: int, b: int| 0 <= a < b < work@.len() implies #[trigger] work@[a] != #[trigger] work@[b] by {
                        if b == w0.len() {
                            assert(ms0.contains(w0[a]));
                        }
                    }
                    assert forall|h: u64| #[trigger] ms.contains(h) implies work@.contains(h) by {
                        if h == y {
                            assert(work@[w0.len() as int] == y);
                        } else {
                            assert(ms0.contains(h));
                            let j = choose|j: int| 0 <= j < w0.len() && w0[j] == h;
                            assert(work@[j] == h);
                        }
                    }
                } else {
                    assert(ms =~= ms0);
                }
            }
            r = r + 1;
        }
        while work.len() > 0
            invariant
                self.wf(),
                self.mark_inv(closures@, roots@, marked@, work@, None),
                forall|q: int| 0 <= q < roots@.len() && self.live(roots@[q].id) ==> #[trigger] marked_set(marked@).contains(roots@[q].id),
            decreases unmarked(marked@) * 2 + work@.len(),
        {
            let ghost m_start = marked@;
            let ghost w_start = work@;
            let x = work.pop().unwrap();
            proof {
                assert(work@ == w_start.drop_last());
                assert forall|j: int| 0 <= j < work@.len() implies Some(#[trigger] work@[j]) != Some(x) by {
                    assert(work@[j] == w_start[j]);
                }
                assert forall|x1: u64, y1: u64|
                    marked_set(marked@).contains(x1) && !work@.contains(x1) && Some(x1) != Some(x)
                        && #[trigger] self.edge(closures@, x1, y1) implies marked_set(marked@).contains(y1) by {
                    if w_start.contains(x1) {
                        let j = choose|j: int| 0 <= j < w_start.len() && w_start[j] == x1;
                        assert(j != w_start.len() - 1);
                        assert(work@[j] == x1);
                    }
                }
            }
            proof {
                assert(x == w_start[w_start.len() - 1]);
                assert(marked_set(marked@).contains(x));
                assert(self.live(x));
                assert(self.slots@[x as int] is Some);
            }
            let slot_count = self.slots.len();
            assert((x as int) < slot_count as int);
            let xi = x as usize;
            let t = match &self.slots[xi] {
                Some(t) => t,
                None => {
                    assert(false);
                    continue;
                },
            };
            assert(*t == self.table(x));
            let ghost m_meta = marked@;
            if let Some(mk) = t.meta {
                self.mark_one(closures, Ghost(roots@), x, mk.id, &mut marked, &mut work);
            }
            proof {
                assert forall|q: int| 0 <= q < roots@.len() && self.live(roots@[q].id) implies
                    #[trigger] marked_set(marked@).contains(roots@[q].id) by {
                    assert(marked_set(m_meta).contains(roots@[q].id));
                }
            }
            let mut i: usize = 0;
            while i < t.entries.len()
                invariant
                    self.wf(),
                    self.live(x),
                    *t == self.table(x),
                    i <= t.entries@.len(),
                    self.mark_inv(closures@, roots@, marked@, work@, Some(x)),
                    forall|q: int| 0 <= q < roots@.len() && self.live(roots@[q].id) ==> #[trigger] marked_set(marked@).contains(roots@[q].id),
                    unmarked(marked@) * 2 + work@.len() < unmarked(m_start) * 2 + w_start.len(),
                    t.meta is Some && self.live(t.meta.unwrap().id) ==> marked_set(marked@).contains(t.meta.unwrap().id),
                    forall|q: int, y: u64| 0 <= q < i && self.live(y) && (value_refs((#[trigger] t.entries@[q]).0, closures@, y)
                        || value_refs(t.entries@[q].1, closures@, y)) ==> #[trigger] marked_set(marked@).contains(y),
                decreases t.entries@.len() - i,
            {
                let ghost m1 = marked@;
                proof {
                    assert forall|y: u64| value_refs(t.entries@[i as int].0, closures@, y) implies
                        table_refs(self.table(x), closures@, y) by {
                        assert(t.entries@[i as int] == self.table(x).entries@[i as int]);
                    }
                    assert forall|y: u64| value_refs(t.entries@[i as int].1, closures@, y) implies
                        table_refs(self.table(x), closures@, y) by {
                        assert(t.entries@[i as int] == self.table(x).entries@[i as int]);
                    }
                }
                self.mark_value(closures, Ghost(roots@), x, &t.entries[i].0, &mut marked, &mut work);
                let ghost m2 = marked@;
                self.mark_value(closures, Ghost(roots@), x, &t.entries[i].1, &mut marked, &mut work);
                proof {
                    assert forall|z: u64| #[trigger] marked_set(m1).contains(z) implies marked_set(marked@).contains(z) by {
                        assert(marked_set(m2).contains(z));
                    }
                    assert forall|q: int| 0 <= q < roots@.len() && self.live(roots@[q].id) implies
                        #[trigger] marked_set(marked@).contains(roots@[q].id) by {
                        assert(marked_set(m1).contains(roots@[q].id));
                    }
                    if t.meta is Some && self.live(t.meta.unwrap().id) {
                        assert(marked_set(m1).contains(t.meta.unwrap().id));
                    }
                    assert forall|q: int, y: u64| 0 <= q < i + 1 && self.live(y) && (value_refs((#[trigger] t.entries@[q]).0, closures@, y)
                        || value_refs(t.entries@[q].1, closures@, y)) implies #[trigger] marked_set(marked@).contains(y) by {
                        if q < i {
                            assert(marked_set(m1).contains(y));
                        } else if value_refs(t.entries@[q].0, closures@, y) {
                            assert(marked_set(m2).contains(y));
                        }
                    }
                }
                i = i + 1;
            }
            proof {
                assert forall|x1: u64, y1: u64|
                    marked_set(marked@).contains(x1) && !work@.contains(x1) && Some(x1) != None::<u64>
                        && #[trigger] self.edge(closures@, x1, y1) implies marked_set(marked@).contains(y1) by {
                    if x1 == x {
                        if t.meta != Some(GcKey { id: y1 }) {
                            let q = choose|q: int| 0 <= q < t.entries@.len() && (value_refs((#[trigger] t.entries@[q]).0, closures@, y1)
                                || value_refs(t.entries@[q].1, closures@, y1));
                        }
                    }
                }
            }
        }
        proof {
            let ms = marked_set(marked@);
            assert(self.closed(closures@, roots@, ms));
        }
        let ghost old_self = *self;
        let mut i: usize = 0;
        while i < n
            invariant
                n == self.slots@.len(),
                n == old_self.slots@.len(),
                n == marked@.len(),
                i <= n,
                old_self.wf(),
                forall|j: int| 0 <= j < i ==> #[trigger] self.slots@[j] == if marked@[j] { old_self.slots@[j] } else { None },
                forall|j: int| i <= j < n ==> #[trigger] self.slots@[j] == old_self.slots@[j],
            decreases n - i,
        {
            if !marked[i] {
                self.slots.set(i, None);
            }
            i = i + 1;
        }
        proof {
            let ms = marked_set(marked@);
            assert forall|h: u64| #[trigger] self.live(h) == old_self.reachable(closures@, roots@, h) by {
                if self.live(h) {
                    assert(ms.contains(h));
                    assert forall|t: Set<u64>| #[trigger] old_self.closed(closures@, roots@, t) implies t.contains(h) by {
                        assert(ms.subset_of(t));
                    }
                }
                if old_self.reachable(closures@, roots@, h) {
                    assert(old_self.closed(closures@, roots@, ms));
                }
            }
            assert forall|j: int| 0 <= j < self.slots@.len() && (#[trigger] self.slots@[j]) is Some implies
                self.slots@[j].unwrap().wf() by {
                assert(old_self.slots@[j] is Some);
            }
        }
    }

    /// Sets the metatable of the live table `key`; `false` if it is not live.
    pub fn set_meta(&mut self, key: GcKey, meta: Option<GcKey>) -> (r: bool)
        requires
            old(self).wf(),
        ensures
            final(self).wf(),
            r == old(self).live(key.id),
            final(self).slots@.len() == old(self).slots@.len(),
            forall|h: u64| #[trigger] final(self).live(h) == old(self).live(h),
            forall|h: int| 0 <= h < old(self).slots@.len() && h != key.id ==> #[trigger] final(self).slots@[h]
                == old(self).slots@[h],
            r ==> final(self).table(key.id).meta == meta,
            r ==> final(self).table(key.id).entries@ == old(self).table(key.id).entries@,
    {
        if key.id >= self.slots.len() as u64 {
            return false;
        }
        let i = key.id as usize;
        match &mut self.slots[i] {
            Some(t) => {
                t.meta = meta;
                true
            },
            None => false,
        }
    }
}

} // verus!
