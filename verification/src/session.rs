use vstd::prelude::*;

verus! {

// Session memory: the two sets accumulated over one list-application run —
// the catalog identifiers the operator has picked at least once, and the set
// names picked at least once. It lives for one run only and is never
// persisted.

/// The views of a sequence of strings, as a set.
pub open spec fn views_of(s: Seq<String>) -> Set<Seq<char>> {
    s.map_values(|x: String| x@).to_set()
}

/// The mathematical image of the session memory: two sets of strings.
#[verifier::ext_equal]
pub struct MemoryModel {
    pub ids: Set<Seq<char>>,
    pub sets: Set<Seq<char>>,
}

pub struct SessionMemory {
    pub chosen_ids: Vec<String>,
    pub chosen_sets: Vec<String>,
}

impl View for SessionMemory {
    type V = MemoryModel;

    open spec fn view(&self) -> MemoryModel {
        MemoryModel { ids: views_of(self.chosen_ids@), sets: views_of(self.chosen_sets@) }
    }
}

fn vec_has_string(v: &Vec<String>, x: &String) -> (r: bool)
    ensures
        r == views_of(v@).contains(x@),
{
    let mut i: usize = 0;
    while i < v.len()
        invariant
            i <= v@.len(),
            forall|j: int| 0 <= j < i ==> v@[j]@ != x@,
        decreases v@.len() - i,
    {
        if v[i].eq(x) {
            assert(v@.map_values(|y: String| y@)[i as int] == x@);
            return true;
        }
        i += 1;
    }
    proof {
        let m = v@.map_values(|z: String| z@);
        if m.contains(x@) {
            let j = choose|j: int| 0 <= j < m.len() && #[trigger] m[j] == x@;
            assert(v@[j]@ == x@);
        }
    }
    false
}

proof fn lemma_views_push(s: Seq<String>, x: String)
    ensures
        views_of(s.push(x)) == views_of(s).insert(x@),
{
    let m = s.map_values(|z: String| z@);
    let mp = s.push(x).map_values(|z: String| z@);
    assert(mp =~= m.push(x@));
    assert forall|y: Seq<char>| mp.to_set().contains(y) <==> m.to_set().insert(x@).contains(
        y,
    ) by {
        if mp.contains(y) {
            let j = choose|j: int| 0 <= j < mp.len() && #[trigger] mp[j] == y;
            if j < m.len() {
                assert(m[j] == y);
            } else {
                assert(y == x@);
            }
        }
        if m.contains(y) {
            let j = choose|j: int| 0 <= j < m.len() && #[trigger] m[j] == y;
            assert(mp[j] == y);
        }
        if y == x@ {
            assert(mp[m.len() as int] == y);
        }
    }
    assert(views_of(s.push(x)) =~= views_of(s).insert(x@));
}

impl SessionMemory {
    /// A fresh, empty memory, created at the start of one run.
    pub fn new() -> (m: SessionMemory)
        ensures
            m@.ids == Set::<Seq<char>>::empty(),
            m@.sets == Set::<Seq<char>>::empty(),
    {
        let m = SessionMemory { chosen_ids: Vec::new(), chosen_sets: Vec::new() };
        proof {
            assert(m@.ids =~= Set::<Seq<char>>::empty());
            assert(m@.sets =~= Set::<Seq<char>>::empty());
        }
        m
    }

    /// Has this catalog identifier been picked before in this run?
    pub fn contains_id(&self, id: &String) -> (r: bool)
        ensures
            r == self@.ids.contains(id@),
    {
        vec_has_string(&self.chosen_ids, id)
    }

    /// Has this set name been picked before in this run?
    pub fn contains_set(&self, set_name: &String) -> (r: bool)
        ensures
            r == self@.sets.contains(set_name@),
    {
        vec_has_string(&self.chosen_sets, set_name)
    }

    /// Records one operator choice: the chosen candidate's identifier and set
    /// name join the session's preference sets. This is the only mutation of
    /// the session memory.
    pub fn record_choice(&mut self, id: &String, set_name: &String)
        ensures
            final(self)@.ids == old(self)@.ids.insert(id@),
            final(self)@.sets == old(self)@.sets.insert(set_name@),
    {
        proof {
            lemma_views_push(self.chosen_ids@, *id);
            lemma_views_push(self.chosen_sets@, *set_name);
        }
        self.chosen_ids.push(id.clone());
        self.chosen_sets.push(set_name.clone());
    }
}

} // verus!
