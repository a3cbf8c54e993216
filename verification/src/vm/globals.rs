use vstd::prelude::*;

use crate::value::{Value, ValueView};

verus! {

/// The global variables: names bound to values, each name once.
pub(crate) struct Globals {
    pub(crate) entries: Vec<(String, Value)>,
}

/// No name is bound twice.
pub open spec fn unique_names(s: Seq<(String, Value)>) -> bool {
    forall|i: int, j: int| 0 <= i < j < s.len() ==> s[i].0@ != s[j].0@
}

/// The bindings as a map from names to values.
pub open spec fn table_view(s: Seq<(String, Value)>) -> Map<Seq<char>, ValueView> {
    Map::new(
        |k: Seq<char>| exists|i: int| 0 <= i < s.len() && s[i].0@ == k,
        |k: Seq<char>| s[choose|i: int| 0 <= i < s.len() && s[i].0@ == k].1@,
    )
}

pub proof fn lemma_table_at(s: Seq<(String, Value)>, i: int)
    requires
        unique_names(s),
        0 <= i < s.len(),
    ensures
        table_view(s).contains_key(s[i].0@),
        table_view(s)[s[i].0@] == s[i].1@,
{
    let k = s[i].0@;
    assert(exists|j: int| 0 <= j < s.len() && s[j].0@ == k);
    let j = choose|j: int| 0 <= j < s.len() && s[j].0@ == k;
    if j != i {
        if j < i {
            assert(s[j].0@ != s[i].0@);
        } else {
            assert(s[i].0@ != s[j].0@);
        }
    }
}

impl Globals {
    pub(crate) fn new() -> (g: Globals)
        ensures
            g.entries@ == Seq::<(String, Value)>::empty(),
    {
        Globals { entries: Vec::new() }
    }

    /// Binds `name` to `value`, replacing an earlier binding of the name.
    pub(crate) fn insert(&mut self, name: String, value: Value)
        requires
            unique_names(old(self).entries@),
        ensures
            unique_names(final(self).entries@),
            table_view(final(self).entries@) == table_view(old(self).entries@).insert(name@, value@),
    {
        let n = self.entries.len();
        let mut i: usize = 0;
        while i < n
            invariant
                n == self.entries@.len(),
                self.entries@ == old(self).entries@,
                unique_names(self.entries@),
                0 <= i <= n,
                forall|j: int| 0 <= j < i ==> self.entries@[j].0@ != name@,
            decreases n - i,
        {
            if self.entries[i].0 == name {
                let ghost s = self.entries@;
                let ghost v = value@;
                self.entries.set(i, (name, value));
                proof {
                    let t = self.entries@;
                    assert forall|a: int, b: int| 0 <= a < b < t.len() implies t[a].0@ != t[b].0@ by {
                        assert(s[a].0@ != s[b].0@);
                    }
                    assert forall|k: Seq<char>| #[trigger] table_view(t).contains_key(k)
                        == table_view(s).insert(s[i as int].0@, v).contains_key(k) by {
                        if k == s[i as int].0@ {
                            assert(t[i as int].0@ == k);
                        }
                        if table_view(s).insert(s[i as int].0@, v).contains_key(k) && k != s[i as int].0@ {
                            let j = choose|j: int| 0 <= j < s.len() && s[j].0@ == k;
                            assert(t[j].0@ == k);
                        }
                        if table_view(t).contains_key(k) {
                            let j = choose|j: int| 0 <= j < t.len() && t[j].0@ == k;
                            assert(s[j].0@ == k);
                        }
                    }
                    assert forall|k: Seq<char>| #[trigger] table_view(t).contains_key(k) implies
                        table_view(t)[k] == table_view(s).insert(s[i as int].0@, v)[k] by {
                        let j = choose|j: int| 0 <= j < t.len() && t[j].0@ == k;
                        lemma_table_at(t, j);
                        if j != i {
                            lemma_table_at(s, j);
                        }
                    }
                    assert(table_view(t) =~= table_view(s).insert(s[i as int].0@, v));
                }
                return;
            }
            i = i + 1;
        }
        let ghost s = self.entries@;
        let ghost v = value@;
        let ghost k0 = name@;
        self.entries.push((name, value));
        proof {
            let t = self.entries@;
            assert forall|a: int, b: int| 0 <= a < b < t.len() implies t[a].0@ != t[b].0@ by {
                if b < s.len() {
                    assert(s[a].0@ != s[b].0@);
                }
            }
            assert forall|k: Seq<char>| #[trigger] table_view(t).contains_key(k)
                == table_view(s).insert(k0, v).contains_key(k) by {
                if table_view(s).insert(k0, v).contains_key(k) {
                    if k == k0 {
                        assert(t[s.len() as int].0@ == k);
                    } else {
                        let j = choose|j: int| 0 <= j < s.len() && s[j].0@ == k;
                        assert(t[j].0@ == k);
                    }
                }
                if table_view(t).contains_key(k) && k != k0 {
                    let j = choose|j: int| 0 <= j < t.len() && t[j].0@ == k;
                    assert(s[j].0@ == k);
                }
            }
            assert forall|k: Seq<char>| #[trigger] table_view(t).contains_key(k) implies
                table_view(t)[k] == table_view(s).insert(k0, v)[k] by {
                let j = choose|j: int| 0 <= j < t.len() && t[j].0@ == k;
                lemma_table_at(t, j);
                if j < s.len() {
                    lemma_table_at(s, j);
                }
            }
            assert(table_view(t) =~= table_view(s).insert(k0, v));
        }
    }
    /// The position of the binding of `name`, if it is bound.
    pub(crate) fn find(&self, name: &String) -> (r: Option<usize>)
        requires
            unique_names(self.entries@),
        ensures
            r matches Some(i) ==> i < self.entries@.len() && self.entries@[i as int].0@ == name@,
            r is None <==> !table_view(self.entries@).contains_key(name@),
            r matches Some(i) ==> table_view(self.entries@)[name@] == self.entries@[i as int].1@,
    {
        let n = self.entries.len();
        for i in 0..n
            invariant
                n == self.entries@.len(),
                unique_names(self.entries@),
                forall|j: int| 0 <= j < i ==> self.entries@[j].0@ != name@,
        {
            if self.entries[i].0 == *name {
                proof {
                    lemma_table_at(self.entries@, i as int);
                }
                return Some(i);
            }
        }
        proof {
            if table_view(self.entries@).contains_key(name@) {
                let j = choose|j: int| 0 <= j < self.entries@.len() && self.entries@[j].0@ == name@;
                assert(self.entries@[j].0@ != name@);
            }
        }
        None
    }

    /// The value bound to `name`.
    pub(crate) fn get(&self, i: usize) -> (v: &Value)
        requires
            i < self.entries@.len(),
        ensures
            *v == self.entries@[i as int].1,
    {
        &self.entries[i].1
    }
}

} // verus!
