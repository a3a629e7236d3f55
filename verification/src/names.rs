//! Sets of names, kept in the order in which they were first added.
use vstd::prelude::*;
use crate::text::str_eq;

verus! {

/// A set of names; each name occurs once, in the order it was added.
pub struct NameSet {
    pub names: Vec<String>,
}

/// The characters of each name, in order.
pub open spec fn chars_of(v: Seq<String>) -> Seq<Seq<char>> {
    v.map_values(|s: String| s@)
}

impl View for NameSet {
    type V = Seq<Seq<char>>;

    open spec fn view(&self) -> Seq<Seq<char>> {
        chars_of(self.names@)
    }
}

/// No name occurs twice.
pub open spec fn distinct_names(s: Seq<Seq<char>>) -> bool {
    forall|i: int, j: int| 0 <= i < j < s.len() ==> #[trigger] s[i] != #[trigger] s[j]
}

/// The names after adding `name`: appended when absent, unchanged otherwise.
pub open spec fn with_name(s: Seq<Seq<char>>, name: Seq<char>) -> Seq<Seq<char>> {
    if s.contains(name) {
        s
    } else {
        s.push(name)
    }
}

/// The names after taking `name` out, the others in order.
pub open spec fn without_name(s: Seq<Seq<char>>, name: Seq<char>) -> Seq<Seq<char>>
    decreases s.len(),
{
    if s.len() == 0 {
        seq![]
    } else {
        let rest = without_name(s.drop_last(), name);
        if s.last() == name {
            rest
        } else {
            rest.push(s.last())
        }
    }
}

impl NameSet {
    /// No names.
    pub fn new() -> (r: NameSet)
        ensures
            r@ == Seq::<Seq<char>>::empty(),
    {
        let r = NameSet { names: Vec::new() };
        assert(r@ =~= Seq::<Seq<char>>::empty());
        r
    }

    /// Whether `name` is in the set.
    pub fn contains(&self, name: &str) -> (r: bool)
        ensures
            r == self@.contains(name@),
    {
        let mut i: usize = 0;
        while i < self.names.len()
            invariant
                i <= self.names@.len(),
                forall|k: int| 0 <= k < i ==> self@[k] != name@,
            decreases self.names@.len() - i,
        {
            if str_eq(self.names[i].as_str(), name) {
                assert(self@[i as int] == name@);
                return true;
            }
            i = i + 1;
        }
        false
    }

    /// Adds `name`.
    pub fn insert(&mut self, name: &String)
        requires
            distinct_names(old(self)@),
        ensures
            final(self)@ == with_name(old(self)@, name@),
            distinct_names(final(self)@),
    {
        if !self.contains(name.as_str()) {
            let ghost before = self@;
            self.names.push(name.clone());
            assert(self@ =~= before.push(name@));
            assert forall|i: int, j: int| 0 <= i < j < self@.len() implies #[trigger] self@[i]
                != #[trigger] self@[j] by {
                if j == self@.len() - 1 {
                    assert(before[i] == self@[i]);
                    assert(before.contains(before[i]));
                }
            }
        }
    }

    /// Takes `name` out.
    pub fn remove(&mut self, name: &str)
        requires
            distinct_names(old(self)@),
        ensures
            final(self)@ == without_name(old(self)@, name@),
            distinct_names(final(self)@),
    {
        let ghost before = self@;
        let mut kept: Vec<String> = Vec::new();
        let mut i: usize = 0;
        while i < self.names.len()
            invariant
                i <= self.names@.len(),
                before == self@,
                chars_of(kept@) == without_name(before.subrange(0, i as int), name@),
            decreases self.names@.len() - i,
        {
            proof {
                let s = before.subrange(0, i + 1);
                assert(s.drop_last() =~= before.subrange(0, i as int));
                assert(s.last() == before[i as int]);
            }
            if !str_eq(self.names[i].as_str(), name) {
                let ghost k0 = kept@;
                kept.push(self.names[i].clone());
                assert(chars_of(kept@) =~= chars_of(k0).push(before[i as int]));
            }
            i = i + 1;
        }
        proof {
            assert(before.subrange(0, before.len() as int) =~= before);
        }
        self.names = kept;
        proof {
            lemma_without_name_distinct(before, name@);
        }
    }
}

/// A name set acts as a set: after adding a name it holds it, after taking
/// a name out it does not, and other names are kept either way.
pub proof fn lemma_name_set_laws(s: Seq<Seq<char>>, name: Seq<char>, other: Seq<char>)
    requires
        other != name,
    ensures
        with_name(s, name).contains(name),
        !without_name(s, name).contains(name),
        with_name(s, name).contains(other) == s.contains(other),
        without_name(s, name).contains(other) == s.contains(other),
    decreases s.len(),
{
    lemma_without_name_within(s, name, name);
    lemma_without_name_within(s, name, other);
    if !s.contains(name) {
        assert(s.push(name)[s.len() as int] == name);
        if s.push(name).contains(other) {
            let w = choose|w: int| 0 <= w < s.push(name).len() && s.push(name)[w] == other;
            assert(s[w] == other);
        }
        if s.contains(other) {
            let w = choose|w: int| 0 <= w < s.len() && s[w] == other;
            assert(s.push(name)[w] == other);
        }
    }
    if s.len() > 0 {
        lemma_name_set_laws(s.drop_last(), name, other);
        if s.contains(other) {
            let w = choose|w: int| 0 <= w < s.len() && s[w] == other;
            if w < s.len() - 1 {
                assert(s.drop_last()[w] == other);
                let rest = without_name(s.drop_last(), name);
                let v = choose|v: int| 0 <= v < rest.len() && rest[v] == other;
                if s.last() != name {
                    assert(rest.push(s.last())[v] == other);
                }
            } else {
                assert(s.last() == other);
                let rest = without_name(s.drop_last(), name);
                assert(rest.push(s.last())[rest.len() as int] == other);
            }
        }
    }
}

proof fn lemma_without_name_within(s: Seq<Seq<char>>, name: Seq<char>, x: Seq<char>)
    ensures
        without_name(s, name).contains(x) ==> s.contains(x) && x != name,
    decreases s.len(),
{
    if s.len() > 0 {
        lemma_without_name_within(s.drop_last(), name, x);
        let rest = without_name(s.drop_last(), name);
        if without_name(s, name).contains(x) {
            let w = choose|w: int| 0 <= w < without_name(s, name).len() && without_name(s, name)[w] == x;
            if w < rest.len() {
                assert(rest[w] == x);
                let v = choose|v: int| 0 <= v < s.drop_last().len() && s.drop_last()[v] == x;
                assert(s[v] == x);
            } else {
                assert(s[s.len() - 1] == x);
            }
        }
    }
}

proof fn lemma_without_name_distinct(s: Seq<Seq<char>>, name: Seq<char>)
    requires
        distinct_names(s),
    ensures
        distinct_names(without_name(s, name)),
    decreases s.len(),
{
    if s.len() > 0 {
        let init = s.drop_last();
        assert forall|i: int, j: int| 0 <= i < j < init.len() implies #[trigger] init[i]
            != #[trigger] init[j] by {
            assert(init[i] == s[i] && init[j] == s[j]);
        }
        lemma_without_name_distinct(init, name);
        let rest = without_name(init, name);
        let f = without_name(s, name);
        if s.last() != name {
            assert forall|i: int, j: int| 0 <= i < j < f.len() implies #[trigger] f[i] != #[trigger] f[j] by {
                if j == f.len() - 1 {
                    assert(f[i] == rest[i]);
                    assert(rest.contains(rest[i]));
                    lemma_without_name_within(init, name, rest[i]);
                    let w = choose|w: int| 0 <= w < init.len() && init[w] == rest[i];
                    assert(s[w] == init[w]);
                } else {
                    assert(f[i] == rest[i] && f[j] == rest[j]);
                }
            }
        }
    }
}

} // verus!
