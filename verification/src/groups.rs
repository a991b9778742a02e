//! Named groups of machine ids, for running a command on several machines at once.

use vstd::prelude::*;
use crate::interactiv::same_text;

verus! {

/// The groups that a list of entries defines: each entry sets its name's ids,
/// a later entry overriding an earlier one of the same name.
pub open spec fn groups_of(v: Seq<(String, Vec<usize>)>) -> Map<Seq<char>, Seq<usize>>
    decreases v.len(),
{
    if v.len() == 0 {
        Map::empty()
    } else {
        groups_of(v.drop_last()).insert(v.last().0@, v.last().1@)
    }
}

/// Named groups of machine ids.
pub struct Groups {
    entries: Vec<(String, Vec<usize>)>,
}

impl View for Groups {
    type V = Map<Seq<char>, Seq<usize>>;

    closed spec fn view(&self) -> Map<Seq<char>, Seq<usize>> {
        groups_of(self.entries@)
    }
}

/// Adding an entry whose name no earlier entry has.
proof fn lemma_groups_of_push(v: Seq<(String, Vec<usize>)>, e: (String, Vec<usize>))
    ensures
        groups_of(v.push(e)) == groups_of(v).insert(e.0@, e.1@),
{
    assert(v.push(e).drop_last() =~= v);
}

/// The names that a list of entries defines.
proof fn lemma_groups_of_names(v: Seq<(String, Vec<usize>)>, name: Seq<char>)
    ensures
        groups_of(v).contains_key(name) <==> exists|i: int| 0 <= i < v.len() && (#[trigger] v[i]).0@ == name,
    decreases v.len(),
{
    if v.len() > 0 {
        lemma_groups_of_names(v.drop_last(), name);
        if groups_of(v).contains_key(name) && v.last().0@ != name {
            let i = choose|i: int| 0 <= i < v.len() - 1 && (#[trigger] v.drop_last()[i]).0@ == name;
            assert(v[i] == v.drop_last()[i]);
        }
        if exists|i: int| 0 <= i < v.len() && (#[trigger] v[i]).0@ == name {
            let i = choose|i: int| 0 <= i < v.len() && (#[trigger] v[i]).0@ == name;
            if i < v.len() - 1 {
                assert(v.drop_last()[i] == v[i]);
            }
        }
    }
}

impl Groups {
    /// No group.
    pub fn new() -> (r: Self)
        ensures
            r@ == Map::<Seq<char>, Seq<usize>>::empty(),
    {
        Groups { entries: Vec::new() }
    }

    /// The ids of the group with this name, if there is one.
    pub fn get(&self, name: &str) -> (r: Option<&Vec<usize>>)
        ensures
            match r {
                Some(ids) => self@.contains_key(name@) && self@[name@] == ids@,
                None => !self@.contains_key(name@),
            },
    {
        let mut i = self.entries.len();
        while i > 0
            invariant
                i <= self.entries@.len(),
                forall|j: int| i <= j < self.entries@.len() ==> (#[trigger] self.entries@[j]).0@ != name@,
            decreases i,
        {
            i = i - 1;
            if same_text(self.entries[i].0.as_str(), name) {
                proof {
                    self.lemma_last_of_name(i as int, name@);
                }
                return Some(&self.entries[i].1);
            }
        }
        proof {
            lemma_groups_of_names(self.entries@, name@);
        }
        None
    }

    /// The entry at `i` is the last of its name, so it gives the group's ids.
    proof fn lemma_last_of_name(&self, i: int, name: Seq<char>)
        requires
            0 <= i < self.entries@.len(),
            self.entries@[i].0@ == name,
            forall|j: int| i < j < self.entries@.len() ==> (#[trigger] self.entries@[j]).0@ != name,
        ensures
            self@.contains_key(name),
            self@[name] == self.entries@[i].1@,
    {
        lemma_last_entry(self.entries@, i, name);
    }

    /// Sets the ids of the group with this name (replacing the ids it had).
    pub fn insert(&mut self, name: String, ids: Vec<usize>)
        ensures
            final(self)@ == old(self)@.insert(name@, ids@),
    {
        self.remove(name.as_str());
        let ghost before = self.entries@;
        let ghost key = name@;
        let ghost value = ids@;
        self.entries.push((name, ids));
        proof {
            lemma_groups_of_push(before, self.entries@.last());
        }
        assert(self@ =~= old(self)@.insert(key, value));
    }

    /// Removes the group with this name; tells whether there was one.
    pub fn remove(&mut self, name: &str) -> (r: bool)
        ensures
            r == old(self)@.contains_key(name@),
            final(self)@ == old(self)@.remove(name@),
    {
        let ghost v = self.entries@;
        let mut found = false;
        let mut j: usize = 0;
        let ghost mut k: int = 0;
        assert(v.take(0) =~= Seq::<(String, Vec<usize>)>::empty());
        assert(self.entries@ =~= without_name(v.take(0), name@) + v.skip(0));
        while j < self.entries.len()
            invariant
                0 <= k <= v.len(),
                v == old(self).entries@,
                j == without_name(v.take(k), name@).len(),
                self.entries@ == without_name(v.take(k), name@) + v.skip(k),
                found == exists|i: int| 0 <= i < k && (#[trigger] v[i]).0@ == name@,
            decreases self.entries@.len() - j,
        {
            proof {
                lemma_without_name_len(v.take(k), name@);
            }
            assert(self.entries@[j as int] == v[k]);
            let ghost next = v.take(k + 1);
            assert(next.drop_last() =~= v.take(k));
            assert(next.last() == v[k]);
            if same_text(self.entries[j].0.as_str(), name) {
                self.entries.remove(j);
                found = true;
                assert(self.entries@ =~= without_name(next, name@) + v.skip(k + 1));
            } else {
                assert(self.entries@ =~= without_name(next, name@) + v.skip(k + 1));
                j = j + 1;
                proof {
                    if exists|i: int| 0 <= i < k + 1 && (#[trigger] v[i]).0@ == name@ {
                        let i = choose|i: int| 0 <= i < k + 1 && (#[trigger] v[i]).0@ == name@;
                        assert(i < k);
                    }
                }
            }
            proof {
                k = k + 1;
            }
        }
        proof {
            lemma_without_name_len(v.take(k), name@);
            assert(k == v.len());
            assert(v.take(k) =~= v);
            assert(self.entries@ =~= without_name(v, name@));
            lemma_without_name(v, name@);
            lemma_groups_of_names(v, name@);
        }
        found
    }
}

/// The entries whose name is not `name`, in order.
pub open spec fn without_name(v: Seq<(String, Vec<usize>)>, name: Seq<char>) -> Seq<(String, Vec<usize>)>
    decreases v.len(),
{
    if v.len() == 0 {
        Seq::empty()
    } else {
        let w = without_name(v.drop_last(), name);
        if v.last().0@ == name {
            w
        } else {
            w.push(v.last())
        }
    }
}

proof fn lemma_without_name_len(v: Seq<(String, Vec<usize>)>, name: Seq<char>)
    ensures
        without_name(v, name).len() <= v.len(),
    decreases v.len(),
{
    if v.len() > 0 {
        lemma_without_name_len(v.drop_last(), name);
    }
}

/// Dropping the entries of a name drops that name's group and keeps the others.
proof fn lemma_without_name(v: Seq<(String, Vec<usize>)>, name: Seq<char>)
    ensures
        groups_of(without_name(v, name)) == groups_of(v).remove(name),
    decreases v.len(),
{
    if v.len() > 0 {
        lemma_without_name(v.drop_last(), name);
        let w = without_name(v.drop_last(), name);
        if v.last().0@ == name {
            assert(groups_of(v).remove(name) =~= groups_of(v.drop_last()).remove(name));
        } else {
            lemma_groups_of_push(w, v.last());
            assert(groups_of(v).remove(name) =~= groups_of(v.drop_last()).remove(name).insert(
                v.last().0@,
                v.last().1@,
            ));
        }
    } else {
        assert(groups_of(v).remove(name) =~= groups_of(v));
    }
}

/// The last entry of a name gives that name's ids.
proof fn lemma_last_entry(v: Seq<(String, Vec<usize>)>, i: int, name: Seq<char>)
    requires
        0 <= i < v.len(),
        v[i].0@ == name,
        forall|j: int| i < j < v.len() ==> (#[trigger] v[j]).0@ != name,
    ensures
        groups_of(v).contains_key(name),
        groups_of(v)[name] == v[i].1@,
    decreases v.len(),
{
    if i < v.len() - 1 {
        lemma_last_entry(v.drop_last(), i, name);
        assert(v.drop_last()[i] == v[i]);
    }
}

} // verus!
