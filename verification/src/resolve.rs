use vstd::prelude::*;
use vstd::string::*;

use crate::candidate::{models_of, Candidate, CandidateModel};

verus! {

// The pure heart of the candidate resolver: choosing between the exact and
// the fuzzy lookup results, and joining two independently fuzzy-matched face
// names into double-faced candidates.

/// The models of `s` with every match score forced to 0, as exact matches
/// are scored.
pub open spec fn zero_scored(s: Seq<CandidateModel>) -> Seq<CandidateModel> {
    s.map_values(|c: CandidateModel| CandidateModel { score: 0, ..c })
}

/// Chooses the candidate set for a token from its exact and fuzzy lookup
/// results: any exact match pre-empts all fuzzy ones, and exact candidates
/// carry score 0; only when the exact lookup found nothing do the fuzzy
/// results stand. The two are never mixed.
pub fn select_candidates(exact: Vec<Candidate>, fuzzy: Vec<Candidate>) -> (r: Vec<Candidate>)
    ensures
        exact@.len() > 0 ==> models_of(r@) == zero_scored(models_of(exact@)),
        exact@.len() == 0 ==> models_of(r@) == models_of(fuzzy@),
{
    if exact.len() > 0 {
        let mut r: Vec<Candidate> = Vec::new();
        let mut i: usize = 0;
        proof {
            assert(models_of(r@) =~= zero_scored(models_of(exact@)).take(0));
        }
        while i < exact.len()
            invariant
                i <= exact@.len(),
                models_of(r@) == zero_scored(models_of(exact@)).take(i as int),
            decreases exact@.len() - i,
        {
            let mut c = exact[i].duplicate();
            c.score = 0;
            proof {
                assert(c@ =~= (CandidateModel { score: 0, ..exact@[i as int]@ }));
                assert(zero_scored(models_of(exact@))[i as int] == (CandidateModel {
                    score: 0,
                    ..exact@[i as int]@
                }));
            }
            let ghost old_r = r@;
            r.push(c);
            proof {
                assert(r@ == old_r.push(c));
                assert(models_of(old_r).len() == old_r.len());
                assert(models_of(old_r) == zero_scored(models_of(exact@)).take(i as int));
                assert(zero_scored(models_of(exact@)).len() == exact@.len());
                assert(old_r.len() == i as int);
                let zs = zero_scored(models_of(exact@));
                assert forall|k: int| 0 <= k < i + 1 implies models_of(r@)[k] == zs.take(
                    i + 1,
                )[k] by {
                    if k < i {
                        assert(r@[k] == old_r[k]);
                        assert(models_of(old_r)[k] == zs.take(i as int)[k]);
                    } else {
                        assert(r@[k] == c);
                    }
                }
                assert(models_of(r@) =~= zs.take(i + 1));
            }
            i += 1;
        }
        proof {
            assert(zero_scored(models_of(exact@)).take(i as int) =~= zero_scored(
                models_of(exact@),
            ));
        }
        r
    } else {
        fuzzy
    }
}

/// Exact pre-emption: when a token has at least one exact match, every
/// candidate selected for it is one of the exact matches (with its score
/// forced to 0) — no fuzzy-only match ever joins the set.
pub proof fn lemma_exact_preemption(exact: Seq<CandidateModel>, r: Seq<CandidateModel>, k: int)
    requires
        exact.len() > 0,
        r == zero_scored(exact),
        0 <= k < r.len(),
    ensures
        exists|i: int|
            0 <= i < exact.len() && r[k] == (CandidateModel { score: 0, ..#[trigger] exact[i] }),
{
    assert(r[k] == (CandidateModel { score: 0, ..exact[k] }));
}

/// One flattened row of the face-name fuzzy lookup for one half of a
/// double-faced token: a matched vocabulary word, its distance score, and
/// one catalog identifier carrying that face name.
pub struct FaceRow {
    pub word: String,
    pub score: usize,
    pub id: String,
}

#[verifier::ext_equal]
pub struct FaceRowModel {
    pub word: Seq<char>,
    pub score: int,
    pub id: Seq<char>,
}

impl View for FaceRow {
    type V = FaceRowModel;

    open spec fn view(&self) -> FaceRowModel {
        FaceRowModel { word: self.word@, score: self.score as int, id: self.id@ }
    }
}

pub open spec fn face_models_of(s: Seq<FaceRow>) -> Seq<FaceRowModel> {
    s.map_values(|x: FaceRow| x@)
}

/// A joined double-faced candidate before its catalog metadata is attached:
/// the shared identifier, the two face names joined by the separator, and
/// the mean of the two distance scores.
pub struct DuoMatch {
    pub id: String,
    pub name: String,
    pub score: usize,
}

#[verifier::ext_equal]
pub struct DuoModel {
    pub id: Seq<char>,
    pub name: Seq<char>,
    pub score: int,
}

impl View for DuoMatch {
    type V = DuoModel;

    open spec fn view(&self) -> DuoModel {
        DuoModel { id: self.id@, name: self.name@, score: self.score as int }
    }
}

pub open spec fn duo_models_of(s: Seq<DuoMatch>) -> Seq<DuoModel> {
    s.map_values(|x: DuoMatch| x@)
}

/// Two face rows join when they name the same catalog identifier through two
/// different face names.
pub open spec fn duo_pair_ok(x: FaceRowModel, y: FaceRowModel) -> bool {
    x.id == y.id && x.word != y.word
}

/// The joined candidate of two matching face rows: the display name is the
/// two face names joined by the separator, the score the mean (rounded down)
/// of the two distances.
pub open spec fn duo_of(x: FaceRowModel, y: FaceRowModel) -> DuoModel {
    DuoModel { id: x.id, name: x.word + " // "@ + y.word, score: (x.score + y.score) / 2 }
}

pub open spec fn join_one(x: FaceRowModel, b: Seq<FaceRowModel>) -> Seq<DuoModel>
    decreases b.len(),
{
    if b.len() == 0 {
        Seq::empty()
    } else {
        (if duo_pair_ok(x, b[0]) {
            seq![duo_of(x, b[0])]
        } else {
            Seq::empty()
        }) + join_one(x, b.skip(1))
    }
}

/// All joined candidates of the two halves' face rows, one per pair of rows
/// that shares an identifier across two different face names.
pub open spec fn duo_join(a: Seq<FaceRowModel>, b: Seq<FaceRowModel>) -> Seq<DuoModel>
    decreases a.len(),
{
    if a.len() == 0 {
        Seq::empty()
    } else {
        join_one(a[0], b) + duo_join(a.skip(1), b)
    }
}

proof fn lemma_join_one_snoc(x: FaceRowModel, b: Seq<FaceRowModel>, j: int)
    requires
        0 <= j < b.len(),
    ensures
        join_one(x, b.take(j + 1)) == join_one(x, b.take(j)) + (if duo_pair_ok(x, b[j]) {
            seq![duo_of(x, b[j])]
        } else {
            Seq::<DuoModel>::empty()
        }),
    decreases j,
{
    if j == 0 {
        assert(b.take(1) =~= seq![b[0]]);
        assert(b.take(1).skip(1) =~= Seq::<FaceRowModel>::empty());
        assert(b.take(0) =~= Seq::<FaceRowModel>::empty());
        assert(join_one(x, b.take(0)) =~= Seq::<DuoModel>::empty());
        assert(join_one(x, b.take(1)) =~= join_one(x, b.take(0)) + (if duo_pair_ok(x, b[0]) {
            seq![duo_of(x, b[0])]
        } else {
            Seq::<DuoModel>::empty()
        }));
    } else {
        lemma_join_one_snoc(x, b.skip(1), j - 1);
        assert(b.take(j + 1).skip(1) =~= b.skip(1).take(j));
        assert(b.take(j).skip(1) =~= b.skip(1).take(j - 1));
        assert(b.skip(1)[j - 1] == b[j]);
        assert(join_one(x, b.take(j + 1)) =~= join_one(x, b.take(j)) + (if duo_pair_ok(
            x,
            b[j],
        ) {
            seq![duo_of(x, b[j])]
        } else {
            Seq::<DuoModel>::empty()
        }));
    }
}

proof fn lemma_duo_join_snoc(a: Seq<FaceRowModel>, b: Seq<FaceRowModel>, i: int)
    requires
        0 <= i < a.len(),
    ensures
        duo_join(a.take(i + 1), b) == duo_join(a.take(i), b) + join_one(a[i], b),
    decreases i,
{
    if i == 0 {
        assert(a.take(1) =~= seq![a[0]]);
        assert(a.take(1).skip(1) =~= Seq::<FaceRowModel>::empty());
        assert(a.take(0) =~= Seq::<FaceRowModel>::empty());
        assert(duo_join(a.take(1), b) =~= duo_join(a.take(0), b) + join_one(a[0], b));
    } else {
        lemma_duo_join_snoc(a.skip(1), b, i - 1);
        assert(a.take(i + 1).skip(1) =~= a.skip(1).take(i));
        assert(a.take(i).skip(1) =~= a.skip(1).take(i - 1));
        assert(a.skip(1)[i - 1] == a[i]);
        assert(duo_join(a.take(i + 1), b) =~= duo_join(a.take(i), b) + join_one(a[i], b));
    }
}

/// Joins the face rows of the two halves of a double-faced token: one
/// candidate per pair of rows sharing a catalog identifier across two
/// different face names, with the joined display name and the mean score.
pub fn pair_faces(a: &Vec<FaceRow>, b: &Vec<FaceRow>) -> (r: Vec<DuoMatch>)
    ensures
        duo_models_of(r@) == duo_join(face_models_of(a@), face_models_of(b@)),
{
    let ghost am = face_models_of(a@);
    let ghost bm = face_models_of(b@);
    let mut r: Vec<DuoMatch> = Vec::new();
    proof {
        assert(am.take(0) =~= Seq::<FaceRowModel>::empty());
        assert(duo_models_of(r@) =~= duo_join(am.take(0), bm));
    }
    let mut i: usize = 0;
    while i < a.len()
        invariant
            i <= a@.len(),
            am == face_models_of(a@),
            bm == face_models_of(b@),
            duo_models_of(r@) == duo_join(am.take(i as int), bm),
        decreases a@.len() - i,
    {
        let mut j: usize = 0;
        proof {
            assert(bm.take(0) =~= Seq::<FaceRowModel>::empty());
            assert(duo_models_of(r@) =~= duo_join(am.take(i as int), bm) + join_one(
                am[i as int],
                bm.take(0),
            ));
        }
        while j < b.len()
            invariant
                i < a@.len(),
                j <= b@.len(),
                am == face_models_of(a@),
                bm == face_models_of(b@),
                duo_models_of(r@) == duo_join(am.take(i as int), bm) + join_one(
                    am[i as int],
                    bm.take(j as int),
                ),
            decreases b@.len() - j,
        {
            let xi = &a[i];
            let yj = &b[j];
            let ghost before = duo_models_of(r@);
            if xi.id.eq(&yj.id) && !xi.word.eq(&yj.word) {
                let mut name = xi.word.clone();
                name.append(" // ");
                name.append(yj.word.as_str());
                let half1 = xi.score / 2;
                let half2 = yj.score / 2;
                let rem = (xi.score % 2 + yj.score % 2) / 2;
                let score = half1 + half2 + rem;
                proof {
                    assert(score == (xi.score + yj.score) / 2) by (nonlinear_arith)
                        requires
                            half1 == xi.score / 2 && half2 == yj.score / 2 && rem == (xi.score % 2
                                + yj.score % 2) / 2 && score == half1 + half2 + rem && xi.score
                                >= 0 && yj.score >= 0,
                    ;
                }
                let d = DuoMatch { id: xi.id.clone(), name, score };
                proof {
                    assert(d@ == duo_of(am[i as int], bm[j as int]));
                }
                r.push(d);
                proof {
                    assert(duo_models_of(r@) =~= before + seq![duo_of(am[i as int], bm[j as int])]);
                }
            }
            proof {
                lemma_join_one_snoc(am[i as int], bm, j as int);
                assert(duo_pair_ok(am[i as int], bm[j as int]) == (xi.id@ == yj.id@ && xi.word@
                    != yj.word@));
                assert(duo_models_of(r@) =~= duo_join(am.take(i as int), bm) + join_one(
                    am[i as int],
                    bm.take(j + 1),
                ));
            }
            j += 1;
        }
        proof {
            lemma_duo_join_snoc(am, bm, i as int);
            assert(bm.take(b@.len() as int) =~= bm);
            assert(duo_models_of(r@) =~= duo_join(am.take(i + 1), bm));
        }
        i += 1;
    }
    proof {
        assert(am.take(a@.len() as int) =~= am);
    }
    r
}

/// Every joined double-faced candidate comes from a pair of face rows that
/// shares one catalog identifier across two different face names — and every
/// such pair yields its joined candidate.
pub proof fn lemma_duo_join_membership(a: Seq<FaceRowModel>, b: Seq<FaceRowModel>, d: DuoModel)
    ensures
        duo_join(a, b).contains(d) <==> exists|i: int, j: int|
            0 <= i < a.len() && 0 <= j < b.len() && duo_pair_ok(#[trigger] a[i], #[trigger] b[j])
                && d == duo_of(a[i], b[j]),
    decreases a.len(),
{
    if a.len() == 0 {
        assert(!duo_join(a, b).contains(d));
    } else {
        lemma_join_one_membership(a[0], b, d);
        lemma_duo_join_membership(a.skip(1), b, d);
        let tail = duo_join(a.skip(1), b);
        let head = join_one(a[0], b);
        if duo_join(a, b).contains(d) {
            let k = choose|k: int| 0 <= k < duo_join(a, b).len() && duo_join(a, b)[k] == d;
            if k < head.len() {
                assert(head.contains(d));
            } else {
                assert(tail[k - head.len()] == d);
                assert(tail.contains(d));
                let (i2, j2): (int, int) = choose|i2: int, j2: int|
                    0 <= i2 < a.skip(1).len() && 0 <= j2 < b.len() && duo_pair_ok(
                        #[trigger] a.skip(1)[i2],
                        #[trigger] b[j2],
                    ) && d == duo_of(a.skip(1)[i2], b[j2]);
                assert(a[i2 + 1] == a.skip(1)[i2]);
                assert(duo_pair_ok(a[i2 + 1], b[j2]) && d == duo_of(a[i2 + 1], b[j2]));
            }
        }
        if exists|i: int, j: int|
            0 <= i < a.len() && 0 <= j < b.len() && duo_pair_ok(#[trigger] a[i], #[trigger] b[j])
                && d == duo_of(a[i], b[j]) {
            let (i, j): (int, int) = choose|i: int, j: int|
                0 <= i < a.len() && 0 <= j < b.len() && duo_pair_ok(
                    #[trigger] a[i],
                    #[trigger] b[j],
                ) && d == duo_of(a[i], b[j]);
            if i == 0 {
                assert(head.contains(d));
                let k = choose|k: int| 0 <= k < head.len() && head[k] == d;
                assert(duo_join(a, b)[k] == d);
            } else {
                assert(a.skip(1)[i - 1] == a[i]);
                assert(duo_pair_ok(a.skip(1)[i - 1], b[j]) && d == duo_of(a.skip(1)[i - 1], b[j]));
                assert(tail.contains(d));
                let k = choose|k: int| 0 <= k < tail.len() && tail[k] == d;
                assert(duo_join(a, b)[head.len() + k] == d);
            }
        }
    }
}

proof fn lemma_join_one_membership(x: FaceRowModel, b: Seq<FaceRowModel>, d: DuoModel)
    ensures
        join_one(x, b).contains(d) <==> exists|j: int|
            0 <= j < b.len() && duo_pair_ok(x, #[trigger] b[j]) && d == duo_of(x, b[j]),
    decreases b.len(),
{
    if b.len() == 0 {
    } else {
        lemma_join_one_membership(x, b.skip(1), d);
        let head: Seq<DuoModel> = if duo_pair_ok(x, b[0]) {
            seq![duo_of(x, b[0])]
        } else {
            Seq::empty()
        };
        let tail = join_one(x, b.skip(1));
        if join_one(x, b).contains(d) {
            let k = choose|k: int| 0 <= k < join_one(x, b).len() && join_one(x, b)[k] == d;
            if k < head.len() {
                assert(duo_pair_ok(x, b[0]) && d == duo_of(x, b[0]));
            } else {
                assert(tail[k - head.len()] == d);
                assert(tail.contains(d));
                let j2 = choose|j2: int|
                    0 <= j2 < b.skip(1).len() && duo_pair_ok(x, #[trigger] b.skip(1)[j2]) && d
                        == duo_of(x, b.skip(1)[j2]);
                assert(b[j2 + 1] == b.skip(1)[j2]);
            }
        }
        if exists|j: int| 0 <= j < b.len() && duo_pair_ok(x, #[trigger] b[j]) && d == duo_of(
            x,
            b[j],
        ) {
            let j = choose|j: int|
                0 <= j < b.len() && duo_pair_ok(x, #[trigger] b[j]) && d == duo_of(x, b[j]);
            if j == 0 {
                assert(join_one(x, b)[0] == d);
            } else {
                assert(b.skip(1)[j - 1] == b[j]);
                assert(duo_pair_ok(x, b.skip(1)[j - 1]) && d == duo_of(x, b.skip(1)[j - 1]));
                assert(tail.contains(d));
                let k = choose|k: int| 0 <= k < tail.len() && tail[k] == d;
                assert(join_one(x, b)[head.len() + k] == d);
            }
        }
    }
}

} // verus!
