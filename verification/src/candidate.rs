use vstd::prelude::*;

verus! {

/// One catalog candidate for an input token: the displayed name, the catalog
/// identifier, the source uri, the set name, the promotional flag, and the
/// fuzzy-match score (0 for an exact match; lower is closer).
pub struct Candidate {
    pub name: String,
    pub id: String,
    pub uri: String,
    pub set_name: String,
    pub promo: bool,
    pub score: usize,
}

/// The mathematical image of a `Candidate`.
#[verifier::ext_equal]
pub struct CandidateModel {
    pub name: Seq<char>,
    pub id: Seq<char>,
    pub uri: Seq<char>,
    pub set_name: Seq<char>,
    pub promo: bool,
    pub score: int,
}

impl View for Candidate {
    type V = CandidateModel;

    open spec fn view(&self) -> CandidateModel {
        CandidateModel {
            name: self.name@,
            id: self.id@,
            uri: self.uri@,
            set_name: self.set_name@,
            promo: self.promo,
            score: self.score as int,
        }
    }
}

/// The models of a sequence of candidates.
pub open spec fn models_of(s: Seq<Candidate>) -> Seq<CandidateModel> {
    s.map_values(|c: Candidate| c@)
}

impl Candidate {
    /// A copy with the same model.
    pub fn duplicate(&self) -> (r: Candidate)
        ensures
            r@ == self@,
    {
        Candidate {
            name: self.name.clone(),
            id: self.id.clone(),
            uri: self.uri.clone(),
            set_name: self.set_name.clone(),
            promo: self.promo,
            score: self.score,
        }
    }
}

} // verus!
