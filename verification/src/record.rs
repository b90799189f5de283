//! A search result record: field names mapped to field values.
//!
//! Entries keep the order in which their names first arrived; storing under
//! a name that is present overwrites it, so no name occurs twice.

use vstd::prelude::*;

verus! {

/// One field of a record, by its view: the field's name and its value.
pub type Field = (Seq<char>, Seq<char>);

/// Index of the first entry of `s` whose name is `k`, or -1 when there is none.
pub open spec fn key_index(s: Seq<Field>, k: Seq<char>) -> int
    decreases s.len(),
{
    if s.len() == 0 {
        -1
    } else if s[0].0 == k {
        0
    } else {
        let r = key_index(s.drop_first(), k);
        if r < 0 {
            -1
        } else {
            r + 1
        }
    }
}

/// The value stored under `k` in `s`, if any.
pub open spec fn lookup(s: Seq<Field>, k: Seq<char>) -> Option<Seq<char>> {
    if key_index(s, k) >= 0 {
        Some(s[key_index(s, k)].1)
    } else {
        None
    }
}

/// No name occurs twice in `s`.
pub open spec fn unique_keys(s: Seq<Field>) -> bool {
    forall|i: int, j: int| 0 <= i < j < s.len() ==> s[i].0 != s[j].0
}

/// `s` after storing `v` under `k`: the entry with that name is overwritten
/// in place, or a new entry is appended.
pub open spec fn insert_field(s: Seq<Field>, k: Seq<char>, v: Seq<char>) -> Seq<Field> {
    if key_index(s, k) >= 0 {
        s.update(key_index(s, k), (k, v))
    } else {
        s.push((k, v))
    }
}

/// `s` without the entry named `k`.
pub open spec fn remove_field(s: Seq<Field>, k: Seq<char>) -> Seq<Field> {
    if key_index(s, k) >= 0 {
        s.remove(key_index(s, k))
    } else {
        s
    }
}

/// The entries of `s` whose names are in `names`, in their order.
pub open spec fn keep_names(s: Seq<Field>, names: Seq<Seq<char>>) -> Seq<Field>
    decreases s.len(),
{
    if s.len() == 0 {
        Seq::empty()
    } else if names.contains(s.last().0) {
        keep_names(s.drop_last(), names).push(s.last())
    } else {
        keep_names(s.drop_last(), names)
    }
}

/// The names of the fields in `s`, in order.
pub open spec fn names_of(s: Seq<Field>) -> Seq<Seq<char>> {
    s.map_values(|f: Field| f.0)
}

/// Facts about `key_index`: it is in range, it points at the first entry
/// named `k`, and it is -1 exactly when no entry has that name.
pub proof fn lemma_key_index(s: Seq<Field>, k: Seq<char>)
    ensures
        -1 <= key_index(s, k) < s.len(),
        key_index(s, k) >= 0 ==> s[key_index(s, k)].0 == k,
        forall|j: int| 0 <= j < key_index(s, k) ==> s[j].0 != k,
        key_index(s, k) < 0 ==> forall|j: int| 0 <= j < s.len() ==> s[j].0 != k,
    decreases s.len(),
{
    if s.len() > 0 && s[0].0 != k {
        lemma_key_index(s.drop_first(), k);
        assert forall|j: int| 0 <= j < s.len() && (key_index(s, k) < 0 || j < key_index(s, k))
            implies s[j].0 != k by {
            if j > 0 {
                assert(s[j] == s.drop_first()[j - 1]);
            }
        }
    }
}

/// Reading a field back after storing it gives the stored value, and the
/// other fields are unchanged (as a map's `insert` and `get`).
pub proof fn law_insert_then_lookup(s: Seq<Field>, k: Seq<char>, v: Seq<char>, other: Seq<char>)
    requires
        other != k,
    ensures
        lookup(insert_field(s, k, v), k) == Some(v),
        lookup(insert_field(s, k, v), other) == lookup(s, other),
{
    let g = insert_field(s, k, v);
    lemma_key_index(s, k);
    lemma_key_index(s, other);
    lemma_key_index(g, k);
    lemma_key_index(g, other);
    if key_index(s, k) >= 0 {
        let i = key_index(s, k);
        assert(g[i].0 == k);
        assert forall|j: int| 0 <= j < g.len() && j != i implies g[j] == s[j] by {}
        if key_index(s, other) >= 0 {
            assert(g[key_index(s, other)].0 == other);
        }
        if key_index(g, other) >= 0 {
            assert(s[key_index(g, other)].0 == other);
        }
    } else {
        assert(g[s.len() as int].0 == k);
        assert forall|j: int| 0 <= j < s.len() implies g[j] == s[j] by {}
        if key_index(s, other) >= 0 {
            assert(g[key_index(s, other)].0 == other);
        }
        if key_index(g, other) >= 0 && key_index(g, other) < s.len() {
            assert(s[key_index(g, other)].0 == other);
        }
    }
}

/// Removing a field leaves no field of that name when names are unique, and
/// the other fields are unchanged.
pub proof fn law_remove_then_lookup(s: Seq<Field>, k: Seq<char>, other: Seq<char>)
    requires
        unique_keys(s),
        other != k,
    ensures
        lookup(remove_field(s, k), k) is None,
        lookup(remove_field(s, k), other) == lookup(s, other),
{
    let g = remove_field(s, k);
    lemma_key_index(s, k);
    lemma_key_index(s, other);
    lemma_key_index(g, k);
    lemma_key_index(g, other);
    if key_index(s, k) >= 0 {
        let i = key_index(s, k);
        assert forall|j: int| 0 <= j < g.len() implies g[j] == (if j < i {
            s[j]
        } else {
            s[j + 1]
        }) by {}
        if key_index(g, k) >= 0 {
            let j = key_index(g, k);
            if j >= i {
                assert(s[j + 1].0 == k);
                assert(s[i].0 == k);
            }
        }
        if key_index(s, other) >= 0 {
            let m = key_index(s, other);
            if m < i {
                assert(g[m].0 == other);
            } else {
                assert(m != i);
                assert(g[m - 1].0 == other);
            }
        }
        if key_index(g, other) >= 0 {
            let j = key_index(g, other);
            if j < i {
                assert(s[j].0 == other);
            } else {
                assert(s[j + 1].0 == other);
            }
        }
    }
}

/// Storing and removing a field keep names unique.
pub proof fn law_names_stay_unique(s: Seq<Field>, k: Seq<char>, v: Seq<char>)
    requires
        unique_keys(s),
    ensures
        unique_keys(insert_field(s, k, v)),
        unique_keys(remove_field(s, k)),
{
    lemma_key_index(s, k);
}

/// Keeping the fields of some names keeps exactly the entries with those
/// names, so names stay unique and nothing is added.
pub proof fn law_keep_names(s: Seq<Field>, names: Seq<Seq<char>>)
    ensures
        forall|f: Field| keep_names(s, names).contains(f) <==> (s.contains(f) && names.contains(f.0)),
        unique_keys(s) ==> unique_keys(keep_names(s, names)),
        keep_names(s, names).len() <= s.len(),
    decreases s.len(),
{
    if s.len() > 0 {
        let p = s.drop_last();
        law_keep_names(p, names);
        assert forall|f: Field| s.contains(f) <==> (p.contains(f) || f == s.last()) by {
            if s.contains(f) {
                let i = choose|i: int| 0 <= i < s.len() && s[i] == f;
                if i < s.len() - 1 {
                    assert(p[i] == f);
                }
            }
            if p.contains(f) {
                let i = choose|i: int| 0 <= i < p.len() && p[i] == f;
                assert(s[i] == f);
            }
            if f == s.last() {
                assert(s[s.len() - 1] == f);
            }
        }
        let kp = keep_names(p, names);
        if names.contains(s.last().0) {
            assert forall|f: Field| kp.push(s.last()).contains(f) <==> (kp.contains(f) || f
                == s.last()) by {
                if kp.push(s.last()).contains(f) {
                    let i = choose|i: int|
                        0 <= i < kp.push(s.last()).len() && kp.push(s.last())[i] == f;
                    if i < kp.len() {
                        assert(kp[i] == f);
                    }
                }
                if kp.contains(f) {
                    let i = choose|i: int| 0 <= i < kp.len() && kp[i] == f;
                    assert(kp.push(s.last())[i] == f);
                }
                if f == s.last() {
                    assert(kp.push(s.last())[kp.len() as int] == f);
                }
            }
            if unique_keys(s) {
                assert(unique_keys(p)) by {
                    assert forall|i: int, j: int| 0 <= i < j < p.len() implies p[i].0
                        != p[j].0 by {
                        assert(p[i] == s[i] && p[j] == s[j]);
                    }
                }
                assert forall|i: int, j: int|
                    0 <= i < j < kp.push(s.last()).len() implies kp.push(s.last())[i].0
                    != kp.push(s.last())[j].0 by {
                    if j == kp.len() {
                        assert(kp.contains(kp[i]));
                        assert(p.contains(kp[i]));
                        let m = choose|m: int| 0 <= m < p.len() && p[m] == kp[i];
                        assert(s[m] == p[m]);
                    } else {
                        assert(kp.push(s.last())[i] == kp[i]);
                        assert(kp.push(s.last())[j] == kp[j]);
                    }
                }
            }
        } else {
            if unique_keys(s) {
                assert forall|i: int, j: int| 0 <= i < j < p.len() implies p[i].0 != p[j].0 by {
                    assert(p[i] == s[i] && p[j] == s[j]);
                }
            }
        }
    }
}

/// A set of named fields, such as one search hit.
#[derive(Debug)]
pub struct Record {
    entries: Vec<(String, String)>,
}

impl View for Record {
    type V = Seq<Field>;

    closed spec fn view(&self) -> Seq<Field> {
        self.entries@.map_values(|p: (String, String)| (p.0@, p.1@))
    }
}

/// Whether two strings hold the same characters.
pub fn same_text(a: &str, b: &str) -> (r: bool)
    ensures
        r == (a@ == b@),
{
    let x = String::from_str(a);
    let y = String::from_str(b);
    x == y
}

impl Record {
    /// No name occurs twice among the entries.
    #[verifier::type_invariant]
    pub open spec fn names_unique(self) -> bool {
        unique_keys(self@)
    }

    proof fn lemma_view(&self)
        ensures
            self@.len() == self.entries@.len(),
            forall|i: int|
                0 <= i < self@.len() ==> #[trigger] self@[i] == (
                self.entries@[i].0@,
                self.entries@[i].1@,
            ),
    {
    }

    /// An empty record.
    pub fn new() -> (r: Record)
        ensures
            r@ == Seq::<Field>::empty(),
            unique_keys(r@),
    {
        let entries: Vec<(String, String)> = Vec::new();
        proof {
            let e = entries@.map_values(|p: (String, String)| (p.0@, p.1@));
            assert(e =~= Seq::<Field>::empty());
        }
        Record { entries }
    }


    /// The number of fields.
    pub fn len(&self) -> (n: usize)
        ensures
            n == self@.len(),
    {
        self.entries.len()
    }

    /// The name and value of the field at `i`.
    pub fn field_at(&self, i: usize) -> (f: (String, String))
        requires
            i < self@.len(),
        ensures
            (f.0@, f.1@) == self@[i as int],
    {
        let (k, v) = &self.entries[i];
        (k.clone(), v.clone())
    }

    /// The position of the field named `key`, if there is one.
    pub fn position(&self, key: &str) -> (r: Option<usize>)
        ensures
            match r {
                Some(i) => key_index(self@, key@) == i && i < self@.len(),
                None => key_index(self@, key@) < 0,
            },
    {
        proof {
            self.lemma_view();
        }
        let n = self.entries.len();
        proof {
            lemma_key_index(self@, key@);
        }
        for i in 0..n
            invariant
                n == self@.len(),
                n == self.entries@.len(),
                -1 <= key_index(self@, key@) < n,
                forall|j: int| 0 <= j < key_index(self@, key@) ==> self@[j].0 != key@,
                key_index(self@, key@) >= 0 ==> self@[key_index(self@, key@)].0 == key@,
                key_index(self@, key@) < 0 ==> forall|j: int| 0 <= j < n ==> self@[j].0 != key@,
                forall|j: int| 0 <= j < i ==> self@[j].0 != key@,
        {
            let (k, _) = &self.entries[i];
            assert(self@[i as int].0 == k@);
            if same_text(k.as_str(), key) {
                return Some(i);
            }
        }
        None
    }

    /// The value of the field named `key`, if there is one.
    pub fn get(&self, key: &str) -> (r: Option<String>)
        ensures
            match r {
                Some(v) => lookup(self@, key@) == Some(v@),
                None => lookup(self@, key@) is None,
            },
    {
        proof {
            self.lemma_view();
        }
        match self.position(key) {
            Some(i) => {
                let (_, v) = &self.entries[i];
                Some(v.clone())
            },
            None => None,
        }
    }

    /// Stores `value` under `key`, overwriting an existing field of that name.
    pub fn insert(&mut self, key: String, value: String)
        ensures
            final(self)@ == insert_field(old(self)@, key@, value@),
            unique_keys(final(self)@),
    {
        let ghost k = key@;
        let ghost v = value@;
        proof {
            use_type_invariant(&*self);
            self.lemma_view();
            law_names_stay_unique(self@, k, v);
        }
        let pos = self.position(key.as_str());
        let mut entries: Vec<(String, String)> = Vec::new();
        std::mem::swap(&mut entries, &mut self.entries);
        match pos {
            Some(i) => {
                entries.set(i, (key, value));
            },
            None => {
                entries.push((key, value));
            },
        }
        proof {
            let e = entries@.map_values(|p: (String, String)| (p.0@, p.1@));
            assert(e =~= insert_field(old(self)@, k, v));
        }
        self.entries = entries;
    }

    /// Removes the field named `key` and returns its value; no field of that
    /// name is left.
    pub fn remove(&mut self, key: &str) -> (r: Option<String>)
        ensures
            final(self)@ == remove_field(old(self)@, key@),
            unique_keys(final(self)@),
            lookup(final(self)@, key@) is None,
            match r {
                Some(v) => lookup(old(self)@, key@) == Some(v@),
                None => lookup(old(self)@, key@) is None,
            },
    {
        proof {
            use_type_invariant(&*self);
            self.lemma_view();
            law_names_stay_unique(self@, key@, Seq::empty());
            assert(key@.push(' ').len() != key@.len());
            law_remove_then_lookup(self@, key@, key@.push(' '));
        }
        match self.position(key) {
            Some(i) => {
                let mut entries: Vec<(String, String)> = Vec::new();
                std::mem::swap(&mut entries, &mut self.entries);
                let (_, v) = entries.remove(i);
                proof {
                    let e = entries@.map_values(|p: (String, String)| (p.0@, p.1@));
                    assert(e =~= remove_field(old(self)@, key@));
                }
                self.entries = entries;
                Some(v)
            },
            None => None,
        }
    }

    /// A copy of this record.
    pub fn copy(&self) -> (r: Record)
        ensures
            r@ == self@,
            unique_keys(r@),
    {
        let mut entries: Vec<(String, String)> = Vec::new();
        let n = self.entries.len();
        proof {
            use_type_invariant(self);
            self.lemma_view();
        }
        for i in 0..n
            invariant
                n == self.entries@.len(),
                entries@.len() == i,
                forall|j: int|
                    0 <= j < i ==> (#[trigger] entries@[j].0@, entries@[j].1@) == self@[j],
        {
            let ghost prev = entries@;
            let (k, v) = &self.entries[i];
            let k2 = k.clone();
            let v2 = v.clone();
            assert(k2@ == k@ && v2@ == v@);
            assert(self@[i as int] == (k@, v@));
            entries.push((k2, v2));
            assert forall|j: int| 0 <= j < i + 1 implies (#[trigger] entries@[j].0@, entries@[j].1@)
                == self@[j] by {
                if j < i {
                    assert(entries@[j] == prev[j]);
                }
            }
        }
        proof {
            let e = entries@.map_values(|p: (String, String)| (p.0@, p.1@));
            assert(e =~= self@);
        }
        Record { entries }
    }

    /// The fields whose names are in `names`, in their order.
    pub fn keep_names(&self, names: &Vec<String>) -> (r: Record)
        ensures
            r@ == keep_names(self@, crate::text::views(names@)),
            unique_keys(r@),
    {
        let ghost ns = crate::text::views(names@);
        let mut out: Vec<(String, String)> = Vec::new();
        let n = self.entries.len();
        proof {
            use_type_invariant(self);
            self.lemma_view();
            law_keep_names(self@, ns);
        }
        for i in 0..n
            invariant
                n == self@.len(),
                n == self.entries@.len(),
                ns == crate::text::views(names@),
                out@.map_values(|p: (String, String)| (p.0@, p.1@)) == keep_names(
                    self@.take(i as int),
                    ns,
                ),
        {
            let (k, v) = &self.entries[i];
            assert(self@.take(i + 1).drop_last() == self@.take(i as int));
            assert(self@.take(i + 1).last() == (k@, v@));
            if contains_text(names, k.as_str()) {
                out.push((k.clone(), v.clone()));
                assert(out@.map_values(|p: (String, String)| (p.0@, p.1@)) =~= keep_names(
                    self@.take(i as int),
                    ns,
                ).push((k@, v@)));
            }
        }
        assert(self@.take(n as int) == self@);
        Record { entries: out }
    }
}

/// Whether `key` is one of `names`.
pub fn contains_text(names: &Vec<String>, key: &str) -> (r: bool)
    ensures
        r == crate::text::views(names@).contains(key@),
{
    let ghost ns = crate::text::views(names@);
    let n = names.len();
    for i in 0..n
        invariant
            n == names@.len(),
            ns == crate::text::views(names@),
            forall|j: int| 0 <= j < i ==> ns[j] != key@,
    {
        if same_text(names[i].as_str(), key) {
            assert(ns[i as int] == key@);
            return true;
        }
    }
    false
}

} // verus!
