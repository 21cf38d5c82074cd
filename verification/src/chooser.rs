use vstd::prelude::*;

use crate::candidate::{models_of, Candidate, CandidateModel};
use crate::rank::{rank_candidates, ranked};
use crate::session::SessionMemory;

verus! {

// Interactive disambiguation, as a stepped state machine: the candidates are
// ranked once, an initial page of up to ten is revealed, and each operator
// answer either reveals the next page, is ignored, or picks one candidate.
// The blocking prompt itself lives outside the library; callers feed the
// answers in.

/// How many candidates one page reveals.
pub open spec fn page_len() -> int {
    10
}

/// The number revealed after one more page.
pub open spec fn next_shown(shown: int, total: int) -> int {
    if shown + page_len() < total {
        shown + page_len()
    } else {
        total
    }
}

pub struct Chooser {
    pub cards: Vec<Candidate>,
    pub shown: usize,
}

impl Chooser {
    pub open spec fn wf(&self) -> bool {
        self.shown <= self.cards@.len()
    }

    pub open spec fn models(&self) -> Seq<CandidateModel> {
        models_of(self.cards@)
    }

    /// Starts a disambiguation over the given pool: ranks it under the
    /// session memory and reveals the first page.
    pub fn begin(cards: Vec<Candidate>, m: &SessionMemory) -> (c: Chooser)
        ensures
            c.wf(),
            ranked(m@, c.models()),
            c.models().to_multiset() == models_of(cards@).to_multiset(),
            c.shown == next_shown(0, c.models().len() as int),
    {
        let r = rank_candidates(cards, m);
        let shown: usize = if r.len() < 10 {
            r.len()
        } else {
            10
        };
        Chooser { cards: r, shown }
    }

    /// How many candidates are revealed so far.
    pub fn shown_count(&self) -> (n: usize)
        ensures
            n == self.shown,
    {
        self.shown
    }

    /// Are there candidates not yet revealed?
    pub fn has_more(&self) -> (b: bool)
        ensures
            b == (self.shown < self.cards@.len()),
    {
        self.shown < self.cards.len()
    }

    /// One revealed candidate, for presentation.
    pub fn shown_card(&self, i: usize) -> (c: &Candidate)
        requires
            self.wf(),
            i < self.shown,
        ensures
            c@ == self.models()[i as int],
    {
        &self.cards[i]
    }

    /// One operator answer. 0 reveals the next page; an answer beyond the
    /// revealed range does nothing; a 1-based index into the revealed
    /// candidates picks that candidate and records the choice in the session
    /// memory — the only mutation of the memory.
    pub fn answer(&mut self, value: usize, m: &mut SessionMemory) -> (r: Option<Candidate>)
        requires
            old(self).wf(),
        ensures
            final(self).wf(),
            final(self).cards@ == old(self).cards@,
            value == 0 ==> r is None && final(self).shown == next_shown(
                old(self).shown as int,
                old(self).models().len() as int,
            ) && *final(m) == *old(m),
            value > old(self).shown ==> r is None && *final(self) == *old(self) && *final(m)
                == *old(m),
            1 <= value <= old(self).shown ==> {
                &&& final(self).shown == old(self).shown
                &&& r matches Some(c) && c@ == old(self).models()[value - 1]
                &&& final(m)@.ids == old(m)@.ids.insert(old(self).models()[value - 1].id)
                &&& final(m)@.sets == old(m)@.sets.insert(old(self).models()[value - 1].set_name)
            },
    {
        if value == 0 {
            let total = self.cards.len();
            if total - self.shown > 10 {
                self.shown = self.shown + 10;
            } else {
                self.shown = total;
            }
            None
        } else if value > self.shown {
            None
        } else {
            let c = self.cards[value - 1].duplicate();
            m.record_choice(&c.id, &c.set_name);
            Some(c)
        }
    }
}

} // verus!
