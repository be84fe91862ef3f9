//! Temperatures by sensor name: a map with string keys, kept as a vector of
//! entries sorted by name (the order of `String`), so that no name occurs twice.
use vstd::prelude::*;
use crate::text::{chars_eq, chars_of};

verus! {

/// The map that the entries denote, later entries taking precedence.
pub open spec fn entries_map(s: Seq<(String, i32)>) -> Map<Seq<char>, i32>
    decreases s.len(),
{
    if s.len() == 0 {
        Map::empty()
    } else {
        entries_map(s.drop_last()).insert(s.last().0@, s.last().1)
    }
}

/// No name occurs twice.
pub open spec fn distinct_names(s: Seq<(String, i32)>) -> bool {
    forall|i: int, j: int| 0 <= i < s.len() && 0 <= j < s.len() && i != j ==> s[i].0@ != s[j].0@
}

/// An entry of a list with distinct names is what the map holds for its name.
pub proof fn lemma_entries_map_has(s: Seq<(String, i32)>, i: int)
    requires
        distinct_names(s),
        0 <= i < s.len(),
    ensures
        entries_map(s).contains_key(s[i].0@),
        entries_map(s)[s[i].0@] == s[i].1,
    decreases s.len(),
{
    if i < s.len() - 1 {
        let p = s.drop_last();
        assert(p[i] == s[i]);
        lemma_entries_map_has(p, i);
        assert(s.last() == s[s.len() - 1]);
    }
}

/// A name that no entry has is not in the map.
pub proof fn lemma_entries_map_lacks(s: Seq<(String, i32)>, k: Seq<char>)
    requires
        forall|i: int| 0 <= i < s.len() ==> s[i].0@ != k,
    ensures
        !entries_map(s).contains_key(k),
    decreases s.len(),
{
    if s.len() > 0 {
        let p = s.drop_last();
        assert forall|i: int| 0 <= i < p.len() implies p[i].0@ != k by {
            assert(p[i] == s[i]);
        }
        lemma_entries_map_lacks(p, k);
        assert(s.last() == s[s.len() - 1]);
    }
}

/// Replacing an entry by one of the same name updates the map at that name.
pub proof fn lemma_entries_map_update(s: Seq<(String, i32)>, j: int, e: (String, i32))
    requires
        0 <= j < s.len(),
        e.0@ == s[j].0@,
        distinct_names(s),
    ensures
        entries_map(s.update(j, e)) == entries_map(s).insert(e.0@, e.1),
    decreases s.len(),
{
    let t = s.update(j, e);
    if j == s.len() - 1 {
        assert(t.drop_last() =~= s.drop_last());
        assert(entries_map(t) =~= entries_map(s).insert(e.0@, e.1));
    } else {
        let p = s.drop_last();
        assert(t.drop_last() =~= p.update(j, e));
        assert(distinct_names(p)) by {
            assert forall|a: int, b: int|
                0 <= a < p.len() && 0 <= b < p.len() && a != b implies p[a].0@ != p[b].0@ by {
                assert(p[a] == s[a] && p[b] == s[b]);
            }
        }
        lemma_entries_map_update(p, j, e);
        assert(s.last() == s[s.len() - 1]);
        assert(t.last() == s.last());
        assert(s.last().0@ != e.0@);
        assert(entries_map(t) =~= entries_map(s).insert(e.0@, e.1));
    }
}

/// `a` comes before `b` in the order of `String`: character by character,
/// a proper prefix first.
pub open spec fn name_lt(a: Seq<char>, b: Seq<char>) -> bool
    decreases a.len(),
{
    if a.len() == 0 {
        b.len() > 0
    } else if b.len() == 0 {
        false
    } else if a[0] != b[0] {
        a[0] < b[0]
    } else {
        name_lt(a.drop_first(), b.drop_first())
    }
}

/// The entries are sorted by name, each name coming strictly before the next.
pub open spec fn sorted_names(s: Seq<(String, i32)>) -> bool {
    forall|i: int, j: int| 0 <= i < j < s.len() ==> name_lt(#[trigger] s[i].0@, #[trigger] s[j].0@)
}

/// No name comes before itself.
pub proof fn lemma_name_lt_irreflexive(a: Seq<char>)
    ensures
        !name_lt(a, a),
    decreases a.len(),
{
    if a.len() > 0 {
        lemma_name_lt_irreflexive(a.drop_first());
    }
}

/// The order of names is transitive.
pub proof fn lemma_name_lt_transitive(a: Seq<char>, b: Seq<char>, c: Seq<char>)
    requires
        name_lt(a, b),
        name_lt(b, c),
    ensures
        name_lt(a, c),
    decreases a.len(),
{
    if a.len() > 0 && b.len() > 0 && c.len() > 0 && a[0] == b[0] && b[0] == c[0] {
        lemma_name_lt_transitive(a.drop_first(), b.drop_first(), c.drop_first());
    }
}

/// Of two different names, one comes before the other.
pub proof fn lemma_name_lt_total(a: Seq<char>, b: Seq<char>)
    requires
        a != b,
    ensures
        name_lt(a, b) || name_lt(b, a),
    decreases a.len(),
{
    if a.len() > 0 && b.len() > 0 && a[0] == b[0] {
        if a.drop_first() == b.drop_first() {
            assert(a =~= seq![a[0]] + a.drop_first());
            assert(b =~= seq![b[0]] + b.drop_first());
        }
        lemma_name_lt_total(a.drop_first(), b.drop_first());
    } else if a.len() == 0 && b.len() == 0 {
        assert(a =~= b);
    }
}

/// Entries sorted by name have distinct names.
pub proof fn lemma_sorted_distinct(s: Seq<(String, i32)>)
    requires
        sorted_names(s),
    ensures
        distinct_names(s),
{
    assert forall|i: int, j: int| 0 <= i < s.len() && 0 <= j < s.len() && i != j implies s[i].0@
        != s[j].0@ by {
        if i < j {
            assert(name_lt(s[i].0@, s[j].0@));
        } else {
            assert(name_lt(s[j].0@, s[i].0@));
        }
        lemma_name_lt_irreflexive(s[i].0@);
    }
}

/// Inserting an entry whose name no entry has adds that name to the map.
pub proof fn lemma_entries_map_insert_at(s: Seq<(String, i32)>, i: int, e: (String, i32))
    requires
        distinct_names(s),
        0 <= i <= s.len(),
        forall|j: int| 0 <= j < s.len() ==> s[j].0@ != e.0@,
    ensures
        entries_map(s.insert(i, e)) == entries_map(s).insert(e.0@, e.1),
{
    let t = s.insert(i, e);
    assert(distinct_names(t)) by {
        assert forall|a: int, b: int| 0 <= a < t.len() && 0 <= b < t.len() && a != b implies t[a].0@
            != t[b].0@ by {
            let sa = if a < i { a } else { a - 1 };
            let sb = if b < i { b } else { b - 1 };
            if a != i && b != i {
                assert(t[a] == s[sa] && t[b] == s[sb]);
            } else if a == i {
                assert(t[b] == s[sb]);
            } else {
                assert(t[a] == s[sa]);
            }
        }
    }
    let m = entries_map(t);
    let target = entries_map(s).insert(e.0@, e.1);
    assert forall|k: Seq<char>| #[trigger] m.contains_key(k) == target.contains_key(k) && (m.contains_key(
        k,
    ) ==> m[k] == target[k]) by {
        if k == e.0@ {
            assert(t[i] == e);
            lemma_entries_map_has(t, i);
        } else if exists|j: int| 0 <= j < s.len() && s[j].0@ == k {
            let j = choose|j: int| 0 <= j < s.len() && s[j].0@ == k;
            lemma_entries_map_has(s, j);
            let tj = if j < i { j } else { j + 1 };
            assert(t[tj] == s[j]);
            lemma_entries_map_has(t, tj);
        } else {
            lemma_entries_map_lacks(s, k);
            assert forall|j: int| 0 <= j < t.len() implies t[j].0@ != k by {
                if j < i {
                    assert(t[j] == s[j]);
                } else if j > i {
                    assert(t[j] == s[j - 1]);
                }
            }
            lemma_entries_map_lacks(t, k);
        }
    }
    assert(m =~= target);
}

/// Whether `a` comes before `b` in the order of names.
fn names_lt(a: &Vec<char>, b: &Vec<char>) -> (r: bool)
    ensures
        r == name_lt(a@, b@),
{
    let mut i: usize = 0;
    assert(a@.skip(0) =~= a@ && b@.skip(0) =~= b@);
    while i < a.len() && i < b.len()
        invariant
            i <= a.len(),
            i <= b.len(),
            name_lt(a@, b@) == name_lt(a@.skip(i as int), b@.skip(i as int)),
        decreases a.len() - i,
    {
        if a[i] != b[i] {
            return a[i] < b[i];
        }
        assert(a@.skip(i as int).drop_first() =~= a@.skip(i + 1));
        assert(b@.skip(i as int).drop_first() =~= b@.skip(i + 1));
        i += 1;
    }
    i == a.len() && i < b.len()
}

/// Temperatures in °C by sensor name.
pub struct TempMap {
    entries: Vec<(String, i32)>,
}

impl TempMap {
    #[verifier::type_invariant]
    spec fn names_sorted(self) -> bool {
        sorted_names(self.entries@)
    }

    /// The temperatures by name.
    pub closed spec fn view(&self) -> Map<Seq<char>, i32> {
        entries_map(self.entries@)
    }

    /// An empty map.
    pub fn new() -> (m: Self)
        ensures
            m.view() == Map::<Seq<char>, i32>::empty(),
    {
        TempMap { entries: Vec::new() }
    }

    /// Sets the temperature of `name`, replacing an earlier one.
    pub fn insert(&mut self, name: String, value: i32)
        ensures
            final(self).view() == old(self).view().insert(name@, value),
    {
        proof {
            use_type_invariant(&*self);
            lemma_sorted_distinct(self.entries@);
        }
        let key = chars_of(name.as_str());
        let mut i: usize = 0;
        while i < self.entries.len()
            invariant
                i <= self.entries.len(),
                key@ == name@,
                self.entries@ == old(self).entries@,
                sorted_names(self.entries@),
                distinct_names(self.entries@),
                forall|j: int| 0 <= j < i ==> name_lt(#[trigger] self.entries@[j].0@, name@),
            decreases self.entries.len() - i,
        {
            let here = chars_of(self.entries[i].0.as_str());
            if chars_eq(&here, &key) {
                let ghost old_entries = self.entries@;
                proof {
                    lemma_entries_map_update(old_entries, i as int, (name, value));
                }
                let mut entries = Vec::new();
                std::mem::swap(&mut entries, &mut self.entries);
                entries.set(i, (name, value));
                assert(sorted_names(entries@)) by {
                    assert forall|a: int, b: int| 0 <= a < b < entries@.len() implies name_lt(
                        #[trigger] entries@[a].0@,
                        #[trigger] entries@[b].0@,
                    ) by {
                        assert(name_lt(old_entries[a].0@, old_entries[b].0@));
                    }
                }
                self.entries = entries;
                return ;
            }
            if names_lt(&key, &here) {
                let ghost old_entries = self.entries@;
                proof {
                    assert forall|j: int| 0 <= j < old_entries.len() implies old_entries[j].0@
                        != name@ by {
                        if j < i {
                            assert(name_lt(old_entries[j].0@, name@));
                            lemma_name_lt_irreflexive(name@);
                        } else if j > i {
                            assert(name_lt(old_entries[i as int].0@, old_entries[j].0@));
                            lemma_name_lt_transitive(name@, old_entries[i as int].0@, old_entries[j].0@);
                            lemma_name_lt_irreflexive(name@);
                        } else {
                            lemma_name_lt_irreflexive(name@);
                        }
                    }
                    lemma_entries_map_insert_at(old_entries, i as int, (name, value));
                }
                let mut entries = Vec::new();
                std::mem::swap(&mut entries, &mut self.entries);
                entries.insert(i, (name, value));
                assert(sorted_names(entries@)) by {
                    assert forall|a: int, b: int| 0 <= a < b < entries@.len() implies name_lt(
                        #[trigger] entries@[a].0@,
                        #[trigger] entries@[b].0@,
                    ) by {
                        if b < i {
                            assert(name_lt(old_entries[a].0@, old_entries[b].0@));
                        } else if b == i {
                            assert(name_lt(old_entries[a].0@, name@));
                        } else if a < i {
                            assert(name_lt(old_entries[a].0@, old_entries[b - 1].0@));
                        } else if a == i {
                            if b - 1 > i {
                                assert(name_lt(old_entries[i as int].0@, old_entries[b - 1].0@));
                                lemma_name_lt_transitive(
                                    name@,
                                    old_entries[i as int].0@,
                                    old_entries[b - 1].0@,
                                );
                            }
                        } else {
                            assert(name_lt(old_entries[a - 1].0@, old_entries[b - 1].0@));
                        }
                    }
                }
                self.entries = entries;
                return ;
            }
            proof {
                lemma_name_lt_total(self.entries@[i as int].0@, name@);
            }
            i += 1;
        }
        let ghost old_entries = self.entries@;
        proof {
            assert forall|j: int| 0 <= j < old_entries.len() implies old_entries[j].0@ != name@ by {
                assert(name_lt(old_entries[j].0@, name@));
                lemma_name_lt_irreflexive(name@);
            }
            lemma_entries_map_insert_at(old_entries, old_entries.len() as int, (name, value));
            assert(old_entries.insert(old_entries.len() as int, (name, value)) =~= old_entries.push(
                (name, value),
            ));
        }
        let mut entries = Vec::new();
        std::mem::swap(&mut entries, &mut self.entries);
        entries.push((name, value));
        assert(sorted_names(entries@)) by {
            assert forall|a: int, b: int| 0 <= a < b < entries@.len() implies name_lt(
                #[trigger] entries@[a].0@,
                #[trigger] entries@[b].0@,
            ) by {
                if b < old_entries.len() {
                    assert(name_lt(old_entries[a].0@, old_entries[b].0@));
                } else {
                    assert(name_lt(old_entries[a].0@, name@));
                }
            }
        }
        self.entries = entries;
    }

    /// The temperature of `name`, if it has one.
    pub fn get(&self, name: &str) -> (r: Option<i32>)
        ensures
            r == (if self.view().contains_key(name@) {
                Some(self.view()[name@])
            } else {
                None
            }),
    {
        proof {
            use_type_invariant(self);
            lemma_sorted_distinct(self.entries@);
        }
        let key = chars_of(name);
        let mut i: usize = 0;
        while i < self.entries.len()
            invariant
                i <= self.entries.len(),
                key@ == name@,
                distinct_names(self.entries@),
                forall|j: int| 0 <= j < i ==> self.entries@[j].0@ != name@,
            decreases self.entries.len() - i,
        {
            let here = chars_of(self.entries[i].0.as_str());
            if chars_eq(&here, &key) {
                proof {
                    lemma_entries_map_has(self.entries@, i as int);
                }
                return Some(self.entries[i].1);
            }
            i += 1;
        }
        proof {
            lemma_entries_map_lacks(self.entries@, name@);
        }
        None
    }

    /// The number of names.
    pub fn len(&self) -> (n: usize)
        ensures
            n == self.view().len(),
    {
        proof {
            use_type_invariant(self);
            lemma_sorted_distinct(self.entries@);
            lemma_entries_map_len(self.entries@);
        }
        self.entries.len()
    }

    /// The entries, each name once, sorted by name (the order of `String`).
    pub fn entries(&self) -> (r: &Vec<(String, i32)>)
        ensures
            sorted_names(r@),
            distinct_names(r@),
            entries_map(r@) == self.view(),
    {
        proof {
            use_type_invariant(self);
            lemma_sorted_distinct(self.entries@);
        }
        &self.entries
    }
}

/// A list with distinct names maps as many names as it has entries.
pub proof fn lemma_entries_map_len(s: Seq<(String, i32)>)
    requires
        distinct_names(s),
    ensures
        entries_map(s).dom().finite(),
        entries_map(s).len() == s.len(),
    decreases s.len(),
{
    if s.len() > 0 {
        let p = s.drop_last();
        assert(distinct_names(p)) by {
            assert forall|a: int, b: int|
                0 <= a < p.len() && 0 <= b < p.len() && a != b implies p[a].0@ != p[b].0@ by {
                assert(p[a] == s[a] && p[b] == s[b]);
            }
        }
        lemma_entries_map_len(p);
        assert forall|i: int| 0 <= i < p.len() implies p[i].0@ != s.last().0@ by {
            assert(p[i] == s[i]);
            assert(s.last() == s[s.len() - 1]);
        }
        lemma_entries_map_lacks(p, s.last().0@);
    }
}

/// What a read gives back of a write: after the temperature of `name` is set
/// to `value`, reading `name` gives `value`, and every other name reads as
/// before.
pub proof fn law_read_after_write(m: TempMap, name: Seq<char>, value: i32, other: Seq<char>)
    requires
        other != name,
    ensures
        m.view().insert(name, value).contains_key(name),
        m.view().insert(name, value)[name] == value,
        m.view().insert(name, value).contains_key(other) == m.view().contains_key(other),
        m.view().contains_key(other) ==> m.view().insert(name, value)[other] == m.view()[other],
{
}

} // verus!
