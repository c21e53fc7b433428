use vstd::prelude::*;

use crate::text::same_text;

verus! {

/// The values that one match captured, each under the name of its parameter.
#[derive(Debug)]
pub struct RouteParameters {
    entries: Vec<(String, String)>,
}

/// The map that a list of entries describes, a later entry taking the place of
/// an earlier one with the same name.
pub open spec fn entries_map(s: Seq<(String, String)>) -> Map<Seq<char>, Seq<char>>
    decreases s.len(),
{
    if s.len() == 0 {
        Map::empty()
    } else {
        entries_map(s.drop_last()).insert(s.last().0@, s.last().1@)
    }
}

/// No two entries carry the same name.
pub open spec fn names_unique(s: Seq<(String, String)>) -> bool {
    forall|i: int, j: int| 0 <= i < j < s.len() ==> s[i].0@ != s[j].0@
}

/// With unique names, the map holds exactly the names of the entries, each
/// with the value of its entry, and has one key per entry.
pub proof fn lemma_entries_map(s: Seq<(String, String)>)
    requires
        names_unique(s),
    ensures
        entries_map(s).dom().finite(),
        entries_map(s).len() == s.len(),
        forall|i: int|
            0 <= i < s.len() ==> #[trigger] entries_map(s).contains_key(s[i].0@)
                && entries_map(s)[s[i].0@] == s[i].1@,
        forall|k: Seq<char>|
            #[trigger] entries_map(s).contains_key(k) ==> exists|i: int|
                0 <= i < s.len() && s[i].0@ == k,
    decreases s.len(),
{
    if s.len() > 0 {
        let t = s.drop_last();
        lemma_entries_map(t);
        let last = s.last();
        assert forall|i: int| 0 <= i < t.len() implies #[trigger] t[i].0@ != last.0@ by {
            assert(s[i] == t[i]);
        }
        assert(!entries_map(t).contains_key(last.0@));
        assert forall|i: int|
            0 <= i < s.len() implies #[trigger] entries_map(s).contains_key(s[i].0@)
                && entries_map(s)[s[i].0@] == s[i].1@ by {
            if i < t.len() {
                assert(s[i] == t[i]);
            }
        }
        assert forall|k: Seq<char>| #[trigger] entries_map(s).contains_key(k) implies exists|
            i: int,
        | 0 <= i < s.len() && s[i].0@ == k by {
            if k != last.0@ {
                let i = choose|i: int| 0 <= i < t.len() && t[i].0@ == k;
                assert(s[i] == t[i]);
            } else {
                assert(s[s.len() - 1].0@ == k);
            }
        }
    }
}

impl View for RouteParameters {
    type V = Map<Seq<char>, Seq<char>>;

    closed spec fn view(&self) -> Map<Seq<char>, Seq<char>> {
        entries_map(self.entries@)
    }
}

impl RouteParameters {
    /// Well-formed: no name appears twice.
    #[verifier::type_invariant]
    pub closed spec fn wf(&self) -> bool {
        names_unique(self.entries@)
    }

    /// No parameters at all.
    pub fn new() -> (r: RouteParameters)
        ensures
            r@ == Map::<Seq<char>, Seq<char>>::empty(),
    {
        RouteParameters { entries: Vec::new() }
    }

    /// The number of parameters.
    pub fn len(&self) -> (r: usize)
        ensures
            r == self@.len(),
    {
        proof {
            use_type_invariant(self);
        }
        proof {
            lemma_entries_map(self.entries@);
        }
        self.entries.len()
    }

    /// Whether there are no parameters.
    pub fn is_empty(&self) -> (r: bool)
        ensures
            r == (self@.len() == 0),
    {
        proof {
            use_type_invariant(self);
        }
        self.len() == 0
    }

    /// The position of the entry named `name`, if there is one.
    fn position(&self, name: &str) -> (r: Option<usize>)
        ensures
            match r {
                Some(i) => i < self.entries@.len() && self.entries@[i as int].0@ == name@,
                None => !self@.contains_key(name@),
            },
    {
        proof {
            use_type_invariant(self);
        }
        proof {
            lemma_entries_map(self.entries@);
        }
        let mut i: usize = 0;
        while i < self.entries.len()
            invariant
                i <= self.entries@.len(),
                forall|j: int| 0 <= j < i ==> self.entries@[j].0@ != name@,
            decreases self.entries@.len() - i,
        {
            if same_text(self.entries[i].0.as_str(), name) {
                return Some(i);
            }
            i = i + 1;
        }
        None
    }

    /// The value captured for the parameter `name`, if it has one.
    pub fn get(&self, name: &str) -> (r: Option<&String>)
        ensures
            match r {
                Some(v) => self@.contains_key(name@) && v@ == self@[name@],
                None => !self@.contains_key(name@),
            },
    {
        proof {
            use_type_invariant(self);
        }
        proof {
            lemma_entries_map(self.entries@);
        }
        match self.position(name) {
            Some(i) => {
                assert(entries_map(self.entries@).contains_key(self.entries@[i as int].0@));
                Some(&self.entries[i].1)
            },
            None => None,
        }
    }

    /// Records `value` for the parameter `name`, in place of any earlier value.
    pub fn insert(&mut self, name: String, value: String)
        ensures
            final(self)@ == old(self)@.insert(name@, value@),
    {
        proof {
            use_type_invariant(&*self);
        }
        let ghost before = self.entries@;
        proof {
            lemma_entries_map(before);
        }
        let found = self.position(name.as_str());
        let mut entries: Vec<(String, String)> = Vec::new();
        std::mem::swap(&mut self.entries, &mut entries);
        match found {
            Some(i) => {
                let ghost new_name = name@;
                let ghost new_value = value@;
                entries.set(i, (name, value));
                let ghost after = entries@;
                assert(before[i as int].0@ == new_name);
                assert(after[i as int].0@ == new_name && after[i as int].1@ == new_value);
                assert(names_unique(after)) by {
                    assert forall|a: int, b: int| 0 <= a < b < after.len() implies after[a].0@
                        != after[b].0@ by {
                        assert(after[a].0@ == before[a].0@);
                        assert(after[b].0@ == before[b].0@);
                    }
                }
                proof {
                    lemma_entries_map(after);
                    assert(entries_map(after) =~= entries_map(before).insert(name@, value@)) by {
                        assert forall|k: Seq<char>| #[trigger]
                            entries_map(after).contains_key(k) implies entries_map(
                            before,
                        ).insert(name@, value@).contains_key(k) by {
                            let j = choose|j: int| 0 <= j < after.len() && after[j].0@ == k;
                            if j != i {
                                assert(before[j] == after[j]);
                            }
                        }
                        assert forall|k: Seq<char>| #[trigger]
                            entries_map(before).insert(name@, value@).contains_key(k)
                            implies entries_map(after).contains_key(k)
                            && entries_map(after)[k] == entries_map(before).insert(
                            name@,
                            value@,
                        )[k] by {
                            if k == name@ {
                                assert(after[i as int].0@ == k);
                            } else {
                                let j = choose|j: int| 0 <= j < before.len() && before[j].0@ == k;
                                assert(j != i);
                                assert(before[j] == after[j]);
                                assert(entries_map(after).contains_key(after[j].0@));
                            }
                        }
                    }
                }
            },
            None => {
                entries.push((name, value));
                let ghost after = entries@;
                assert(after.drop_last() =~= before);
                assert forall|a: int, b: int| 0 <= a < b < after.len() implies after[a].0@
                    != after[b].0@ by {
                    if b == after.len() - 1 {
                        assert(before[a] == after[a]);
                        assert(entries_map(before).contains_key(before[a].0@));
                    } else {
                        assert(before[a] == after[a]);
                        assert(before[b] == after[b]);
                    }
                }
            },
        }
        std::mem::swap(&mut self.entries, &mut entries);
    }
}

} // verus!
