//! Tables: finite maps from values to values, with an optional metatable.
use vstd::prelude::*;
use crate::values::{Value, GcKey, value_eq};

verus! {

/// A table holds its entries as a list of distinct keys with their values.
/// A key is never `nil`.  An entry may hold `nil`: scope frames use such an
/// entry for a declared local whose value is `nil`.
pub struct UserTable {
    pub entries: Vec<(Value, Value)>,
    pub meta: Option<GcKey>,
}

/// Position of the entry for `k` in `s`, if there is one.
pub open spec fn find_in(s: Seq<(Value, Value)>, k: Value) -> Option<int>
    decreases s.len(),
{
    if s.len() == 0 {
        None
    } else if value_eq(s.last().0, k) {
        Some(s.len() - 1)
    } else {
        find_in(s.drop_last(), k)
    }
}

proof fn lemma_find_in(s: Seq<(Value, Value)>, k: Value)
    ensures
        match find_in(s, k) {
            Some(i) => 0 <= i < s.len() && value_eq(s[i].0, k),
            None => forall|j: int| 0 <= j < s.len() ==> !value_eq(#[trigger] s[j].0, k),
        },
    decreases s.len(),
{
    if s.len() > 0 {
        let t = s.drop_last();
        lemma_find_in(t, k);
        if !value_eq(s.last().0, k) && find_in(t, k) is None {
            assert forall|j: int| 0 <= j < s.len() implies !value_eq(#[trigger] s[j].0, k) by {
                if j < s.len() - 1 {
                    assert(s[j] == t[j]);
                    assert(!value_eq(t[j].0, k));
                }
            }
        }
    }
}

proof fn lemma_find_in_unique(s: Seq<(Value, Value)>, k: Value, i: int)
    requires
        0 <= i < s.len(),
        value_eq(s[i].0, k),
        forall|a: int, b: int|
            0 <= a < s.len() && 0 <= b < s.len() && a != b ==> !value_eq(
                #[trigger] s[a].0,
                #[trigger] s[b].0,
            ),
    ensures
        find_in(s, k) == Some(i),
{
    lemma_find_in(s, k);
    match find_in(s, k) {
        Some(j) => {
            if j != i {
                lemma_value_eq_trans(s[j].0, k, s[i].0);
            }
        },
        None => {},
    }
}

/// `value_eq` is an equivalence.
pub proof fn lemma_value_eq_trans(a: Value, b: Value, c: Value)
    ensures
        value_eq(a, a),
        value_eq(a, b) ==> value_eq(b, a),
        value_eq(a, b) && value_eq(b, c) ==> value_eq(a, c),
{
}

/// Keys that are equal as values find the same entry.
pub proof fn lemma_lookup_respects_eq(s: Seq<(Value, Value)>, a: Value, b: Value)
    requires
        value_eq(a, b),
    ensures
        find_in(s, a) == find_in(s, b),
        lookup(s, a) == lookup(s, b),
    decreases s.len(),
{
    if s.len() > 0 {
        lemma_value_eq_trans(s.last().0, a, b);
        lemma_value_eq_trans(s.last().0, b, a);
        lemma_value_eq_trans(a, b, b);
        lemma_lookup_respects_eq(s.drop_last(), a, b);
    }
}

/// Position of the entry whose key is the string `text`, if any.
pub open spec fn text_find(s: Seq<(Value, Value)>, text: Seq<char>) -> Option<int>
    decreases s.len(),
{
    if s.len() == 0 {
        None
    } else if s.last().0 is String && s.last().0->String_0@ == text {
        Some(s.len() - 1)
    } else {
        text_find(s.drop_last(), text)
    }
}

/// What `s` holds at the string key `text`, with `nil` for a missing key.
pub open spec fn text_lookup(s: Seq<(Value, Value)>, text: Seq<char>) -> Value {
    match text_find(s, text) {
        Some(i) => s[i].1,
        None => Value::Nil,
    }
}

/// A string key finds the entry of its text.
pub proof fn lemma_text_lookup(s: Seq<(Value, Value)>, k: Value)
    requires
        k is String,
    ensures
        find_in(s, k) == text_find(s, k->String_0@),
        lookup(s, k) == text_lookup(s, k->String_0@),
    decreases s.len(),
{
    if s.len() > 0 {
        lemma_text_lookup(s.drop_last(), k);
    }
}

/// No two entries have equal keys, and no key is `nil`.
pub open spec fn distinct_keys(s: Seq<(Value, Value)>) -> bool {
    &&& forall|a: int, b: int|
        0 <= a < s.len() && 0 <= b < s.len() && a != b ==> !value_eq(#[trigger] s[a].0, #[trigger] s[b].0)
    &&& forall|a: int| 0 <= a < s.len() ==> !(#[trigger] s[a].0 is Nil)
}

/// The entries after `t[k] = v`: the entry for `k` is replaced, or added
/// at the end.
pub open spec fn assign(s: Seq<(Value, Value)>, k: Value, v: Value) -> Seq<(Value, Value)> {
    match find_in(s, k) {
        Some(i) => s.update(i, (k, v)),
        None => s.push((k, v)),
    }
}

/// Reading a key just assigned gives the assigned value; every other key
/// reads as before; the keys stay distinct.
pub proof fn lemma_assign_then_lookup(old_entries: Seq<(Value, Value)>, k: Value, v: Value)
    requires
        distinct_keys(old_entries),
        !(k is Nil),
    ensures
        lookup(assign(old_entries, k, v), k) == v,
        forall|o: Value| !value_eq(o, k) ==> #[trigger] lookup(assign(old_entries, k, v), o) == lookup(old_entries, o),
        distinct_keys(assign(old_entries, k, v)),
{
    lemma_find_in(old_entries, k);
    match find_in(old_entries, k) {
        Some(i) => {
            let s = assign(old_entries, k, v);
            lemma_value_eq_trans(old_entries[i].0, k, k);
            lemma_value_eq_trans(k, old_entries[i].0, k);
            assert forall|a: int, b: int|
                0 <= a < s.len() && 0 <= b < s.len() && a != b implies !value_eq(
                    #[trigger] s[a].0,
                    #[trigger] s[b].0,
                ) by {
                if a == i {
                    lemma_value_eq_trans(k, old_entries[i].0, s[b].0);
                    lemma_value_eq_trans(old_entries[i].0, k, s[b].0);
                    lemma_value_eq_trans(s[b].0, k, old_entries[i].0);
                }
                if b == i {
                    lemma_value_eq_trans(s[a].0, k, old_entries[i].0);
                    lemma_value_eq_trans(old_entries[i].0, k, s[a].0);
                }
            }
            lemma_find_in_unique(s, k, i);
            assert forall|o: Value| !value_eq(o, k) implies #[trigger] lookup(s, o)
                == lookup(old_entries, o) by {
                lemma_find_in(s, o);
                lemma_find_in(old_entries, o);
                match find_in(old_entries, o) {
                    Some(j) => {
                        if j == i {
                            lemma_value_eq_trans(old_entries[j].0, o, k);
                            lemma_value_eq_trans(o, old_entries[j].0, k);
                        }
                        lemma_find_in_unique(s, o, j);
                    },
                    None => {
                        match find_in(s, o) {
                            Some(a) => {
                                if a == i {
                                    lemma_value_eq_trans(o, k, k);
                                    lemma_value_eq_trans(k, o, o);
                                }
                            },
                            None => {},
                        }
                    },
                }
            }
        },
        None => {
            let s = assign(old_entries, k, v);
            assert(s.drop_last() == old_entries);
            assert forall|a: int, b: int|
                0 <= a < s.len() && 0 <= b < s.len() && a != b implies !value_eq(
                    #[trigger] s[a].0,
                    #[trigger] s[b].0,
                ) by {
                if a == s.len() - 1 {
                    assert(s[b] == old_entries[b]);
                    lemma_value_eq_trans(s[b].0, k, k);
                }
                if b == s.len() - 1 {
                    assert(s[a] == old_entries[a]);
                    lemma_value_eq_trans(s[a].0, k, k);
                }
            }
            assert(value_eq(k, k));
            assert forall|o: Value| !value_eq(o, k) implies #[trigger] lookup(s, o)
                == lookup(old_entries, o) by {
                lemma_value_eq_trans(o, k, k);
                lemma_value_eq_trans(k, o, o);
                assert(s.last().0 == k);
                assert(find_in(s, o) == find_in(old_entries, o));
                lemma_find_in(old_entries, o);
                if let Some(j) = find_in(old_entries, o) {
                    assert(s[j] == old_entries[j]);
                }
            }
        },
    }
}

impl UserTable {
    /// Keys are distinct and not nil.
    pub open spec fn wf(&self) -> bool {
        distinct_keys(self.entries@)
    }

    /// What `t[k]` holds, with `nil` for a missing key.
    pub open spec fn get_spec(&self, k: Value) -> Value {
        lookup(self.entries@, k)
    }

    pub fn new() -> (r: UserTable)
        ensures
            r.wf(),
            r.entries@.len() == 0,
            r.meta is None,
            forall|k: Value| (#[trigger] r.get_spec(k)) is Nil,
    {
        UserTable { entries: Vec::new(), meta: None }
    }

    fn find(&self, k: &Value) -> (r: Option<usize>)
        ensures
            match r {
                Some(i) => find_in(self.entries@, *k) == Some(i as int) && i < self.entries@.len(),
                None => find_in(self.entries@, *k) is None,
            },
    {
        proof {
            lemma_find_in(self.entries@, *k);
            assert(self.entries@.take(self.entries@.len() as int) == self.entries@);
        }
        let mut i = self.entries.len();
        while i > 0
            invariant
                i <= self.entries@.len(),
                find_in(self.entries@, *k) == find_in(self.entries@.take(i as int), *k),
            decreases i,
        {
            let ghost t = self.entries@.take(i as int);
            if self.entries[i - 1].0.equals(k) {
                assert(t.last() == self.entries@[i - 1]);
                return Some(i - 1);
            }
            assert(t.drop_last() == self.entries@.take(i - 1));
            i = i - 1;
        }
        None
    }

    /// Whether `k` has an entry.
    pub fn contains(&self, k: &Value) -> (r: bool)
        ensures
            r == (find_in(self.entries@, *k) is Some),
    {
        self.find(k).is_some()
    }

    /// What `t[k]` holds, with `nil` for a missing key.
    pub fn get(&self, k: &Value) -> (r: Value)
        ensures
            r == self.get_spec(*k),
    {
        proof {
            lemma_find_in(self.entries@, *k);
        }
        match self.find(k) {
            Some(i) => {
                let r = self.entries[i].1.copy();
                assert(find_in(self.entries@, *k) == Some(i as int));
                r
            },
            None => Value::Nil,
        }
    }

    /// `t[k] = v`: the entry for `k` now holds `v`.
    pub fn set(&mut self, k: Value, v: Value)
        requires
            old(self).wf(),
            !(k is Nil),
        ensures
            final(self).entries@ == assign(old(self).entries@, k, v),
            final(self).wf(),
            final(self).meta == old(self).meta,
            final(self).get_spec(k) == v,
            forall|o: Value| !value_eq(o, k) ==> #[trigger] final(self).get_spec(o) == old(self).get_spec(o),
    {
        proof {
            lemma_assign_then_lookup(self.entries@, k, v);
        }
        match self.find(&k) {
            Some(i) => {
                self.entries.set(i, (k, v));
            },
            None => {
                self.entries.push((k, v));
            },
        }
    }
}

/// What the entry list `s` holds for `k`, with `nil` for a missing key.
pub open spec fn lookup(s: Seq<(Value, Value)>, k: Value) -> Value {
    match find_in(s, k) {
        Some(i) => s[i].1,
        None => Value::Nil,
    }
}

} // verus!
