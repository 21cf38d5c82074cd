use vstd::multiset::Multiset;
use vstd::prelude::*;
use vstd::seq_lib::group_seq_properties;

use crate::candidate::{models_of, Candidate, CandidateModel};
use crate::session::{MemoryModel, SessionMemory};
use crate::text::{lemma_lex_le_antisym, lemma_lex_le_total, lemma_lex_le_trans, lex_le, str_lex_le};

verus! {

// The ranking order used to present ambiguous candidates: candidates whose
// identifier was already picked this run come first; among the rest, those
// whose set name was already picked; remaining ties go by match score
// ascending, then display name, then set name, with uri and the promo flag
// as final tiebreaks so that the order is total.

/// `a` ranks at or before `b` under the session memory `m`. Ties after the
/// stated keys are broken by uri and the promo flag, so that the presented
/// order is a deterministic total order.
pub open spec fn pref_le(m: MemoryModel, a: CandidateModel, b: CandidateModel) -> bool {
    let ai = m.ids.contains(a.id);
    let bi = m.ids.contains(b.id);
    let asn = m.sets.contains(a.set_name);
    let bsn = m.sets.contains(b.set_name);
    if ai != bi {
        ai
    } else if asn != bsn {
        asn
    } else if a.score != b.score {
        a.score < b.score
    } else if a.name != b.name {
        lex_le(a.name, b.name)
    } else if a.set_name != b.set_name {
        lex_le(a.set_name, b.set_name)
    } else if a.uri != b.uri {
        lex_le(a.uri, b.uri)
    } else if a.promo != b.promo {
        !a.promo
    } else {
        true
    }
}

pub proof fn lemma_pref_le_refl(m: MemoryModel, a: CandidateModel)
    ensures
        pref_le(m, a, a),
{
}

pub proof fn lemma_pref_le_total(m: MemoryModel, a: CandidateModel, b: CandidateModel)
    ensures
        pref_le(m, a, b) || pref_le(m, b, a),
{
    lemma_lex_le_total(a.name, b.name);
    lemma_lex_le_total(a.set_name, b.set_name);
    lemma_lex_le_total(a.uri, b.uri);
}

pub proof fn lemma_pref_le_trans(
    m: MemoryModel,
    a: CandidateModel,
    b: CandidateModel,
    c: CandidateModel,
)
    requires
        pref_le(m, a, b),
        pref_le(m, b, c),
    ensures
        pref_le(m, a, c),
{
    if m.ids.contains(a.id) == m.ids.contains(b.id) && m.ids.contains(b.id) == m.ids.contains(
        c.id,
    ) && m.sets.contains(a.set_name) == m.sets.contains(b.set_name) && m.sets.contains(
        b.set_name,
    ) == m.sets.contains(c.set_name) && a.score == b.score && b.score == c.score {
        if a.name != b.name && b.name != c.name {
            lemma_lex_le_trans(a.name, b.name, c.name);
            if a.name == c.name {
                lemma_lex_le_antisym(a.name, b.name);
            }
        } else if a.name == b.name && b.name == c.name {
            if a.set_name != b.set_name && b.set_name != c.set_name {
                lemma_lex_le_trans(a.set_name, b.set_name, c.set_name);
                if a.set_name == c.set_name {
                    lemma_lex_le_antisym(a.set_name, b.set_name);
                }
            } else if a.set_name == b.set_name && b.set_name == c.set_name {
                if a.uri != b.uri && b.uri != c.uri {
                    lemma_lex_le_trans(a.uri, b.uri, c.uri);
                    if a.uri == c.uri {
                        lemma_lex_le_antisym(a.uri, b.uri);
                    }
                }
            }
        }
    }
}

/// The sequence is ranked: earlier entries rank at or before later ones.
pub open spec fn ranked(m: MemoryModel, s: Seq<CandidateModel>) -> bool {
    forall|i: int, j: int| 0 <= i <= j < s.len() ==> pref_le(m, #[trigger] s[i], #[trigger] s[j])
}

/// Sorts the candidates by the session ranking order. The result holds
/// exactly the candidates given (as a multiset), in ranked order.
pub fn rank_candidates(cards: Vec<Candidate>, m: &SessionMemory) -> (r: Vec<Candidate>)
    ensures
        models_of(r@).to_multiset() == models_of(cards@).to_multiset(),
        ranked(m@, models_of(r@)),
{
    broadcast use group_seq_properties;

    let ghost orig = models_of(cards@).to_multiset();
    let mut src = cards;
    let mut out: Vec<Candidate> = Vec::new();
    proof {
        assert(models_of(out@) =~= Seq::<CandidateModel>::empty());
        assert(models_of(out@).to_multiset().add(models_of(src@).to_multiset()) =~= orig);
    }
    while src.len() > 0
        invariant
            models_of(out@).to_multiset().add(models_of(src@).to_multiset()) == orig,
            ranked(m@, models_of(out@)),
            forall|i: int, j: int|
                0 <= i < out@.len() && 0 <= j < src@.len() ==> pref_le(
                    m@,
                    #[trigger] out@[i]@,
                    #[trigger] src@[j]@,
                ),
        decreases src@.len(),
    {
        let mut best: usize = 0;
        let mut k: usize = 1;
        proof {
            lemma_pref_le_refl(m@, src@[0]@);
        }
        while k < src.len()
            invariant
                src@.len() > 0,
                best < k,
                k <= src@.len(),
                forall|j: int| 0 <= j < k ==> pref_le(m@, src@[best as int]@, #[trigger] src@[j]@),
            decreases src@.len() - k,
        {
            if !pref_le_exec(m, &src[best], &src[k]) {
                proof {
                    lemma_pref_le_total(m@, src@[best as int]@, src@[k as int]@);
                    assert forall|j: int| 0 <= j < k + 1 implies pref_le(
                        m@,
                        src@[k as int]@,
                        #[trigger] src@[j]@,
                    ) by {
                        if j < k {
                            lemma_pref_le_trans(m@, src@[k as int]@, src@[best as int]@, src@[j]@);
                        } else {
                            lemma_pref_le_refl(m@, src@[k as int]@);
                        }
                    }
                }
                best = k;
            } else {
                proof {
                    lemma_pref_le_refl(m@, src@[k as int]@);
                    assert forall|j: int| 0 <= j < k + 1 implies pref_le(
                        m@,
                        src@[best as int]@,
                        #[trigger] src@[j]@,
                    ) by {
                        if j == k {
                            lemma_pref_le_trans(m@, src@[best as int]@, src@[best as int]@, src@[j]@);
                        }
                    }
                }
            }
            k += 1;
        }
        let ghost old_src = src@;
        let ghost old_out = out@;
        let c = src.remove(best);
        proof {
            assert(models_of(old_src).to_multiset() =~= models_of(old_src).remove(
                best as int,
            ).to_multiset().insert(c@)) by {
                models_of(old_src).to_multiset_ensures();
                assert(models_of(old_src)[best as int] == c@);
            }
            assert(models_of(src@) =~= models_of(old_src).remove(best as int));
        }
        out.push(c);
        proof {
            assert(models_of(out@) =~= models_of(old_out).push(c@));
            models_of(old_out).to_multiset_ensures();
            assert(models_of(out@).to_multiset() =~= models_of(old_out).to_multiset().insert(c@));
            assert(models_of(out@).to_multiset().add(models_of(src@).to_multiset()) =~= orig);
            // the appended minimum keeps the prefix ranked, and stays at or
            // before everything still unsorted
            assert forall|i: int, j: int| 0 <= i <= j < models_of(out@).len() implies pref_le(
                m@,
                models_of(out@)[i],
                models_of(out@)[j],
            ) by {
                if j < old_out.len() {
                } else if i < old_out.len() {
                    assert(pref_le(m@, old_out[i]@, old_src[best as int]@));
                } else {
                    lemma_pref_le_refl(m@, c@);
                }
            }
            assert forall|i: int, j: int|
                0 <= i < out@.len() && 0 <= j < src@.len() implies pref_le(
                m@,
                #[trigger] out@[i]@,
                #[trigger] src@[j]@,
            ) by {
                let jj = if j < best { j } else { j + 1 };
                assert(src@[j] == old_src[jj]);
                if i < old_out.len() {
                    assert(pref_le(m@, out@[i]@, old_src[jj]@));
                } else {
                    assert(out@[i]@ == old_src[best as int]@);
                    assert(pref_le(m@, old_src[best as int]@, old_src[jj]@));
                }
            }
        }
    }
    proof {
        assert(models_of(src@) =~= Seq::<CandidateModel>::empty());
        assert(models_of(out@).to_multiset().add(Multiset::<CandidateModel>::empty()) =~= models_of(
            out@,
        ).to_multiset());
    }
    out
}

/// Executable comparison realizing `pref_le`.
pub fn pref_le_exec(m: &SessionMemory, a: &Candidate, b: &Candidate) -> (r: bool)
    ensures
        r == pref_le(m@, a@, b@),
{
    let ai = m.contains_id(&a.id);
    let bi = m.contains_id(&b.id);
    if ai != bi {
        return ai;
    }
    let asn = m.contains_set(&a.set_name);
    let bsn = m.contains_set(&b.set_name);
    if asn != bsn {
        return asn;
    }
    if a.score != b.score {
        return a.score < b.score;
    }
    if !a.name.eq(&b.name) {
        return str_lex_le(a.name.as_str(), b.name.as_str());
    }
    if !a.set_name.eq(&b.set_name) {
        return str_lex_le(a.set_name.as_str(), b.set_name.as_str());
    }
    if !a.uri.eq(&b.uri) {
        return str_lex_le(a.uri.as_str(), b.uri.as_str());
    }
    if a.promo != b.promo {
        return !a.promo;
    }
    true
}

/// Session bias: once some candidate in a ranked pool carries an identifier
/// the operator has already picked this run, the first-ranked candidate also
/// carries an already-picked identifier — a remembered choice can only be
/// displaced by another remembered choice.
pub proof fn lemma_session_bias(m: MemoryModel, s: Seq<CandidateModel>, i: int)
    requires
        ranked(m, s),
        0 <= i < s.len(),
        m.ids.contains(s[i].id),
    ensures
        m.ids.contains(s[0].id),
{
    assert(pref_le(m, s[0], s[i]));
}

} // verus!
