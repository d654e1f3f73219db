//! Calibration of the decision threshold: the cutoff on the first output
//! channel that maximises F1 against the sign of the target.

use crate::scalar::Scalar;
use vstd::prelude::*;

verus! {

/// The number of equal steps from the lowest to the highest prediction; the
/// scan tries the `STEPS + 1` thresholds at their ends.
pub const STEPS: usize = 50;

/// What the calibrator knows of one validation sample: the first output of
/// the network for it, and the first entry of its target.
#[derive(Clone, Copy, Debug, PartialEq, Eq, Structural)]
pub struct Scored {
    pub prediction: Scalar,
    pub target: Scalar,
}

impl Scored {
    /// A sample is positive when its target is greater than zero.
    pub open spec fn spec_is_positive(self) -> bool {
        self.target.spec_gt(Scalar::spec_zero())
    }

    /// The sample is called positive at threshold `t` when its prediction is
    /// at least `t`.
    pub open spec fn spec_is_flagged(self, t: Scalar) -> bool {
        self.prediction.spec_ge(t)
    }

    /// Whether the sample's label is positive.
    #[verifier::when_used_as_spec(spec_is_positive)]
    pub fn is_positive(self) -> (r: bool)
        ensures
            r == self.spec_is_positive(),
    {
        self.target.gt(Scalar::zero())
    }

    /// Whether threshold `t` calls the sample positive.
    #[verifier::when_used_as_spec(spec_is_flagged)]
    pub fn is_flagged(self, t: Scalar) -> (r: bool)
        ensures
            r == self.spec_is_flagged(t),
    {
        self.prediction.ge(t)
    }
}

/// How many of the first `n` samples are flagged as `flagged` says at
/// threshold `t` and labelled as `positive` says.
pub open spec fn count(samples: Seq<Scored>, t: Scalar, flagged: bool, positive: bool, n: nat) -> nat
    decreases n,
{
    if n == 0 {
        0
    } else {
        let s = samples[n - 1];
        let here: nat = if s.spec_is_flagged(t) == flagged && s.spec_is_positive() == positive {
            1
        } else {
            0
        };
        count(samples, t, flagged, positive, (n - 1) as nat) + here
    }
}

/// A fraction of counts, standing for the number `num / den`.
#[derive(Clone, Copy, Debug, PartialEq, Eq, Structural)]
pub struct Ratio {
    pub num: u128,
    pub den: u128,
}

impl Ratio {
    /// A fraction has a denominator that is not zero.
    pub open spec fn wf(self) -> bool {
        self.den > 0
    }

    /// The fraction `0 / 1`.
    pub open spec fn spec_zero() -> Ratio {
        Ratio { num: 0, den: 1 }
    }

    /// `self > other` as numbers.
    pub open spec fn spec_gt(self, other: Ratio) -> bool {
        self.num * other.den > other.num * self.den
    }

    /// The fraction `0 / 1`.
    #[verifier::when_used_as_spec(spec_zero)]
    pub fn zero() -> (r: Ratio)
        ensures
            r == Ratio::spec_zero(),
    {
        Ratio { num: 0, den: 1 }
    }
}

/// Greater-than on fractions is transitive through not-less-than: from
/// `a > b` and `b >= c` follows `a > c`.
pub proof fn lemma_gt_ge(a: Ratio, b: Ratio, c: Ratio)
    requires
        a.wf(),
        b.wf(),
        c.wf(),
        a.spec_gt(b),
        !c.spec_gt(b),
    ensures
        a.spec_gt(c),
{
    let (an, ad) = (a.num as int, a.den as int);
    let (bn, bd) = (b.num as int, b.den as int);
    let (cn, cd) = (c.num as int, c.den as int);
    assert(an * cd > cn * ad) by (nonlinear_arith)
        requires
            ad > 0,
            bd > 0,
            cd > 0,
            an >= 0,
            bn >= 0,
            cn >= 0,
            an * bd > bn * ad,
            cn * bd <= bn * cd,
    {
        assert((an * bd) * cd > (bn * ad) * cd);
        assert((cn * bd) * ad <= (bn * cd) * ad);
        assert((bn * ad) * cd == (bn * cd) * ad);
        assert((an * cd) * bd == (an * bd) * cd);
        assert((cn * ad) * bd == (cn * bd) * ad);
        assert((an * cd) * bd > (cn * ad) * bd);
    }
}

/// The outcome of one threshold on a set of samples. True negatives are not
/// counted: no score here reads them.
#[derive(Clone, Copy, Debug, PartialEq, Eq, Structural)]
pub struct Confusion {
    /// Flagged and positive.
    pub true_pos: usize,
    /// Flagged but not positive.
    pub false_pos: usize,
    /// Positive but not flagged.
    pub false_neg: usize,
}

impl Confusion {
    /// The three counts are of disjoint samples of one vector, so their sum
    /// is a length.
    pub open spec fn wf(self) -> bool {
        self.true_pos + self.false_pos + self.false_neg <= usize::MAX
    }

    /// Precision: the share of the flagged samples that are positive, and
    /// zero where none is flagged.
    pub open spec fn precision(self) -> Ratio {
        if self.true_pos + self.false_pos == 0 {
            Ratio::spec_zero()
        } else {
            Ratio { num: self.true_pos as u128, den: (self.true_pos + self.false_pos) as u128 }
        }
    }

    /// Recall: the share of the positive samples that are flagged, and zero
    /// where none is positive.
    pub open spec fn recall(self) -> Ratio {
        if self.true_pos + self.false_neg == 0 {
            Ratio::spec_zero()
        } else {
            Ratio { num: self.true_pos as u128, den: (self.true_pos + self.false_neg) as u128 }
        }
    }

    /// F1, the harmonic mean of precision and recall, and zero where both
    /// are zero: `2 tp / (2 tp + fp + fn)`.
    pub open spec fn spec_f1(self) -> Ratio {
        if self.true_pos == 0 {
            Ratio::spec_zero()
        } else {
            Ratio {
                num: (2 * self.true_pos) as u128,
                den: (2 * self.true_pos + self.false_pos + self.false_neg) as u128,
            }
        }
    }

    /// Whether the F1 of `self` is strictly greater than that of `other`.
    pub open spec fn spec_beats(self, other: Confusion) -> bool {
        self.spec_f1().spec_gt(other.spec_f1())
    }

    /// The F1 of the counts, as a fraction.
    #[verifier::when_used_as_spec(spec_f1)]
    pub fn f1(self) -> (r: Ratio)
        ensures
            r == self.spec_f1(),
            r.wf(),
    {
        if self.true_pos == 0 {
            Ratio::zero()
        } else {
            let tp: u128 = self.true_pos as u128;
            Ratio { num: 2 * tp, den: 2 * tp + self.false_pos as u128 + self.false_neg as u128 }
        }
    }

    /// Whether the F1 of `self` is strictly greater than that of `other`.
    ///
    /// With `tp > 0` on both sides, `2 tp / (2 tp + e)` grows as `e / tp`
    /// falls, where `e = fp + fn`: the comparison multiplies out to
    /// `tp * e' > tp' * e`.
    #[verifier::when_used_as_spec(spec_beats)]
    pub fn beats(self, other: Confusion) -> (r: bool)
        requires
            self.wf(),
            other.wf(),
        ensures
            r == self.spec_beats(other),
    {
        if self.true_pos == 0 {
            assert(0 * other.spec_f1().den == 0);
            false
        } else if other.true_pos == 0 {
            assert(0 * self.spec_f1().den == 0);
            assert(self.spec_f1().num * 1 > 0);
            true
        } else {
            let a: u128 = self.true_pos as u128;
            let p: u128 = (self.false_pos + self.false_neg) as u128;
            let c: u128 = other.true_pos as u128;
            let q: u128 = (other.false_pos + other.false_neg) as u128;
            assert(a * q <= 0xffff_ffff_ffff_ffff * 0xffff_ffff_ffff_ffff) by (nonlinear_arith)
                requires
                    0 <= a <= 0xffff_ffff_ffff_ffff,
                    0 <= q <= 0xffff_ffff_ffff_ffff,
            ;
            assert(c * p <= 0xffff_ffff_ffff_ffff * 0xffff_ffff_ffff_ffff) by (nonlinear_arith)
                requires
                    0 <= c <= 0xffff_ffff_ffff_ffff,
                    0 <= p <= 0xffff_ffff_ffff_ffff,
            ;
            assert(((2 * a) * (2 * c + q) > (2 * c) * (2 * a + p)) == (a * q > c * p))
                by (nonlinear_arith);
            assert(self.spec_f1().num == 2 * a && self.spec_f1().den == 2 * a + p);
            assert(other.spec_f1().num == 2 * c && other.spec_f1().den == 2 * c + q);
            a * q > c * p
        }
    }
}

/// F1 is the harmonic mean `2 P R / (P + R)` of precision `P` and recall `R`
/// where their sum is not zero, and zero where it is.
pub proof fn lemma_f1_is_harmonic_mean(c: Confusion)
    ensures
        c.spec_f1().wf(),
        c.precision().num + c.recall().num == 0 ==> c.spec_f1() == Ratio::spec_zero(),
        c.precision().num + c.recall().num > 0 ==> c.spec_f1().num * (c.precision().num
            * c.recall().den + c.recall().num * c.precision().den) == (2 * c.precision().num
            * c.recall().num) * c.spec_f1().den,
{
    let tp = c.true_pos as int;
    let a = c.true_pos + c.false_pos;
    let b = c.true_pos + c.false_neg;
    if tp > 0 {
        assert((2 * tp) * (tp * b + tp * a) == (2 * tp * tp) * (2 * tp + c.false_pos
            + c.false_neg)) by (nonlinear_arith)
            requires
                a == tp + c.false_pos,
                b == tp + c.false_neg,
        ;
    }
}

/// The counts of threshold `t` over all of `samples`.
pub open spec fn tally(samples: Seq<Scored>, t: Scalar) -> Confusion {
    Confusion {
        true_pos: count(samples, t, true, true, samples.len()) as usize,
        false_pos: count(samples, t, true, false, samples.len()) as usize,
        false_neg: count(samples, t, false, true, samples.len()) as usize,
    }
}

/// The three counts are of disjoint samples: together they are at most `n`.
pub proof fn lemma_counts_bounded(samples: Seq<Scored>, t: Scalar, n: nat)
    ensures
        count(samples, t, true, true, n) + count(samples, t, true, false, n) + count(
            samples,
            t,
            false,
            true,
            n,
        ) <= n,
    decreases n,
{
    if n > 0 {
        lemma_counts_bounded(samples, t, (n - 1) as nat);
    }
}

/// Counts the samples by what threshold `t` says of them and what their
/// labels say.
pub fn tally_at(samples: &Vec<Scored>, t: Scalar) -> (r: Confusion)
    ensures
        r == tally(samples@, t),
        r.wf(),
{
    let mut true_pos: usize = 0;
    let mut false_pos: usize = 0;
    let mut false_neg: usize = 0;
    let mut i: usize = 0;
    while i < samples.len()
        invariant
            i <= samples.len(),
            true_pos == count(samples@, t, true, true, i as nat),
            false_pos == count(samples@, t, true, false, i as nat),
            false_neg == count(samples@, t, false, true, i as nat),
        decreases samples.len() - i,
    {
        proof {
            lemma_counts_bounded(samples@, t, (i + 1) as nat);
        }
        let s = samples[i];
        let flagged = s.is_flagged(t);
        let positive = s.is_positive();
        if flagged && positive {
            true_pos = true_pos + 1;
        } else if flagged {
            false_pos = false_pos + 1;
        } else if positive {
            false_neg = false_neg + 1;
        }
        i = i + 1;
    }
    proof {
        lemma_counts_bounded(samples@, t, samples@.len());
    }
    Confusion { true_pos, false_pos, false_neg }
}

/// The counts of each candidate threshold, in the candidates' order.
pub open spec fn tallies(samples: Seq<Scored>, candidates: Seq<Scalar>) -> Seq<Confusion> {
    Seq::new(candidates.len(), |i: int| tally(samples, candidates[i]))
}

/// Whether entry `i` is the one a scan of the first `n` entries keeps: its
/// F1 is not zero, it is strictly greater than every F1 before it, and no F1
/// after it is greater.
pub open spec fn leads(ts: Seq<Confusion>, n: int, i: int) -> bool {
    &&& 0 <= i < n <= ts.len()
    &&& ts[i].true_pos > 0
    &&& forall|j: int| 0 <= j < i ==> ts[i].spec_beats(#[trigger] ts[j])
    &&& forall|j: int| i < j < n ==> !(#[trigger] ts[j]).spec_beats(ts[i])
}

/// Whether none of the first `n` entries has an F1 above zero.
pub open spec fn all_zero(ts: Seq<Confusion>, n: int) -> bool {
    forall|j: int| 0 <= j < n ==> (#[trigger] ts[j]).true_pos == 0
}

/// At most one entry leads.
pub proof fn lemma_leader_unique(ts: Seq<Confusion>, n: int, i: int, j: int)
    requires
        leads(ts, n, i),
        leads(ts, n, j),
    ensures
        i == j,
{
    if i < j {
        assert(ts[j].spec_beats(ts[i]));
    } else if j < i {
        assert(ts[i].spec_beats(ts[j]));
    }
}

/// Scans the candidates in order and keeps the first whose F1 is the
/// highest, if any F1 is above zero: a later candidate replaces the kept one
/// only where its F1 is strictly greater.
pub fn scan(samples: &Vec<Scored>, candidates: &Vec<Scalar>) -> (r: Option<(usize, Confusion)>)
    ensures
        match r {
            Some((i, c)) => leads(
                tallies(samples@, candidates@),
                candidates.len() as int,
                i as int,
            ) && c == tally(samples@, candidates@[i as int]),
            None => all_zero(tallies(samples@, candidates@), candidates.len() as int),
        },
{
    let ghost ts = tallies(samples@, candidates@);
    let mut best: Option<(usize, Confusion)> = None;
    let mut k: usize = 0;
    while k < candidates.len()
        invariant
            k <= candidates.len(),
            ts == tallies(samples@, candidates@),
            match best {
                Some((i, c)) => leads(ts, k as int, i as int) && c == ts[i as int] && c.wf(),
                None => all_zero(ts, k as int),
            },
        decreases candidates.len() - k,
    {
        let c = tally_at(samples, candidates[k]);
        assert(c == ts[k as int]);
        match best {
            None => {
                if c.true_pos > 0 {
                    assert forall|j: int| 0 <= j < k implies c.spec_beats(#[trigger] ts[j]) by {
                        assert(0 * c.spec_f1().den == 0);
                        assert(c.spec_f1().num * 1 > 0);
                    }
                    assert(leads(ts, k + 1, k as int));
                    best = Some((k, c));
                } else {
                    assert(all_zero(ts, k + 1));
                }
            },
            Some((i, held)) => {
                if c.beats(held) {
                    assert(c.true_pos > 0) by {
                        if c.true_pos == 0 {
                            assert(0 * held.spec_f1().den == 0);
                        }
                    }
                    assert forall|j: int| 0 <= j < k implies c.spec_beats(#[trigger] ts[j]) by {
                        lemma_f1_is_harmonic_mean(ts[j]);
                        lemma_f1_is_harmonic_mean(held);
                        lemma_f1_is_harmonic_mean(c);
                        if j < i {
                            assert(held.spec_beats(ts[j]));
                            lemma_gt_ge(c.spec_f1(), held.spec_f1(), ts[j].spec_f1());
                        } else if j > i {
                            assert(!ts[j].spec_beats(held));
                            lemma_gt_ge(c.spec_f1(), held.spec_f1(), ts[j].spec_f1());
                        }
                    }
                    assert(leads(ts, k + 1, k as int));
                    best = Some((k, c));
                } else {
                    assert forall|j: int| i < j < k + 1 implies !(#[trigger] ts[j]).spec_beats(
                        ts[i as int],
                    ) by {
                        if j == k {
                            assert(!c.spec_beats(held));
                        }
                    }
                    assert(leads(ts, k + 1, i as int));
                }
            },
        }
        k = k + 1;
    }
    best
}

/// The lowest prediction among the first `n` samples, as a running minimum
/// that starts at the largest finite number: a prediction replaces the held
/// value only where it is strictly less, so a NaN never enters and of equal
/// values the first stays.
pub open spec fn lowest(samples: Seq<Scored>, n: nat) -> Scalar
    decreases n,
{
    if n == 0 {
        Scalar::spec_max()
    } else {
        let held = lowest(samples, (n - 1) as nat);
        if samples[n - 1].prediction.spec_lt(held) {
            samples[n - 1].prediction
        } else {
            held
        }
    }
}

/// The highest prediction among the first `n` samples, as a running maximum
/// that starts at the smallest finite number.
pub open spec fn highest(samples: Seq<Scored>, n: nat) -> Scalar
    decreases n,
{
    if n == 0 {
        Scalar::spec_min()
    } else {
        let held = highest(samples, (n - 1) as nat);
        if samples[n - 1].prediction.spec_gt(held) {
            samples[n - 1].prediction
        } else {
            held
        }
    }
}

/// The running minimum is a number, is at most the largest finite number and
/// at most every prediction that is a number, and is either that cap or one
/// of the predictions. The running maximum mirrors it.
pub proof fn lemma_range_bounds(samples: Seq<Scored>, n: nat)
    requires
        n <= samples.len(),
    ensures
        lowest(samples, n).spec_le(Scalar::spec_max()),
        highest(samples, n).spec_ge(Scalar::spec_min()),
        forall|i: int| 0 <= i < n ==> !(#[trigger] samples[i]).prediction.spec_lt(lowest(samples, n)),
        forall|i: int| 0 <= i < n ==> !(#[trigger] samples[i]).prediction.spec_gt(highest(samples, n)),
        lowest(samples, n) == Scalar::spec_max() || exists|i: int|
            0 <= i < n && (#[trigger] samples[i]).prediction == lowest(samples, n),
        highest(samples, n) == Scalar::spec_min() || exists|i: int|
            0 <= i < n && (#[trigger] samples[i]).prediction == highest(samples, n),
    decreases n,
{
    if n > 0 {
        lemma_range_bounds(samples, (n - 1) as nat);
        let last = samples[n - 1];
        if lowest(samples, n) != Scalar::spec_max() {
            if last.prediction.spec_lt(lowest(samples, (n - 1) as nat)) {
                assert(last.prediction == lowest(samples, n));
            } else {
                let i = choose|i: int|
                    0 <= i < n - 1 && (#[trigger] samples[i]).prediction == lowest(
                        samples,
                        (n - 1) as nat,
                    );
                assert(samples[i].prediction == lowest(samples, n));
            }
        }
        if highest(samples, n) != Scalar::spec_min() {
            if last.prediction.spec_gt(highest(samples, (n - 1) as nat)) {
                assert(last.prediction == highest(samples, n));
            } else {
                let i = choose|i: int|
                    0 <= i < n - 1 && (#[trigger] samples[i]).prediction == highest(
                        samples,
                        (n - 1) as nat,
                    );
                assert(samples[i].prediction == highest(samples, n));
            }
        }
    }
}

/// The lowest and the highest prediction, in this order.
pub fn prediction_range(samples: &Vec<Scored>) -> (r: (Scalar, Scalar))
    ensures
        r.0 == lowest(samples@, samples@.len()),
        r.1 == highest(samples@, samples@.len()),
{
    let mut low = Scalar::max();
    let mut high = Scalar::min();
    let mut i: usize = 0;
    while i < samples.len()
        invariant
            i <= samples.len(),
            low == lowest(samples@, i as nat),
            high == highest(samples@, i as nat),
        decreases samples.len() - i,
    {
        let p = samples[i].prediction;
        if p.lt(low) {
            low = p;
        }
        if p.gt(high) {
            high = p;
        }
        i = i + 1;
    }
    (low, high)
}

/// What calibration returns: the threshold and the F1 it reaches.
#[derive(Clone, Copy, Debug, PartialEq, Eq, Structural)]
pub struct Calibration {
    pub threshold: Scalar,
    pub f1: Ratio,
}

/// Whether a spread between the highest and the lowest prediction is too
/// small to scan: it is less than the margin.
pub open spec fn spec_is_degenerate(spread: Scalar) -> bool {
    spread.spec_lt(Scalar::spec_margin())
}

/// Whether a spread is too small to scan.
#[verifier::when_used_as_spec(spec_is_degenerate)]
pub fn is_degenerate(spread: Scalar) -> (r: bool)
    ensures
        r == spec_is_degenerate(spread),
{
    spread.lt(Scalar::margin())
}

/// What `best_threshold_f1` returns for the given samples, spread and
/// candidates.
///
/// Without samples it is zero with an F1 of zero. With a degenerate spread,
/// or where no candidate reaches an F1 above zero, it is the lowest
/// prediction with an F1 of zero. Otherwise it is the candidate that leads,
/// with its F1.
pub open spec fn is_calibration(
    samples: Seq<Scored>,
    spread: Scalar,
    candidates: Seq<Scalar>,
    r: Calibration,
) -> bool {
    let ts = tallies(samples, candidates);
    if samples.len() == 0 {
        r == (Calibration { threshold: Scalar::spec_zero(), f1: Ratio::spec_zero() })
    } else if spec_is_degenerate(spread) || all_zero(ts, candidates.len() as int) {
        r == (Calibration {
            threshold: lowest(samples, samples.len()),
            f1: Ratio::spec_zero(),
        })
    } else {
        exists|i: int| #[trigger]
            leads(ts, candidates.len() as int, i) && r == (Calibration {
                threshold: candidates[i],
                f1: ts[i].spec_f1(),
            })
    }
}

/// Finds the cutoff on the predictions that maximises F1 against the labels.
///
/// `spread` is the absolute difference of the highest and the lowest
/// prediction, and `candidates` are the thresholds to try, from the lowest
/// prediction to the highest in `STEPS` equal steps; the caller computes both
/// from `prediction_range`. With a degenerate spread no candidate is looked
/// at.
pub fn best_threshold_f1(
    samples: &Vec<Scored>,
    spread: Scalar,
    candidates: &Vec<Scalar>,
) -> (r: Calibration)
    ensures
        is_calibration(samples@, spread, candidates@, r),
{
    if samples.len() == 0 {
        return Calibration { threshold: Scalar::zero(), f1: Ratio::zero() };
    }
    let (low, _high) = prediction_range(samples);
    if is_degenerate(spread) {
        return Calibration { threshold: low, f1: Ratio::zero() };
    }
    match scan(samples, candidates) {
        None => Calibration { threshold: low, f1: Ratio::zero() },
        Some((i, c)) => {
            let ghost ts = tallies(samples@, candidates@);
            assert(!all_zero(ts, candidates.len() as int)) by {
                assert(ts[i as int].true_pos > 0);
            }
            Calibration { threshold: candidates[i], f1: c.f1() }
        },
    }
}

/// Whether threshold `t` flags exactly the positive samples.
pub open spec fn separates(samples: Seq<Scored>, t: Scalar) -> bool {
    forall|i: int|
        0 <= i < samples.len() ==> (#[trigger] samples[i]).spec_is_flagged(t)
            == samples[i].spec_is_positive()
}

/// A count is zero exactly where none of the samples falls under it.
pub proof fn lemma_count_zero(samples: Seq<Scored>, t: Scalar, flagged: bool, positive: bool, n: nat)
    requires
        n <= samples.len(),
    ensures
        count(samples, t, flagged, positive, n) == 0 <==> forall|i: int|
            0 <= i < n ==> !((#[trigger] samples[i]).spec_is_flagged(t) == flagged
                && samples[i].spec_is_positive() == positive),
    decreases n,
{
    if n > 0 {
        lemma_count_zero(samples, t, flagged, positive, (n - 1) as nat);
        if count(samples, t, flagged, positive, n) != 0 && count(
            samples,
            t,
            flagged,
            positive,
            (n - 1) as nat,
        ) == 0 {
            assert(samples[n - 1].spec_is_flagged(t) == flagged && samples[n - 1].spec_is_positive()
                == positive);
        }
    }
}

/// A threshold separates the samples exactly where it makes no false
/// positive and no false negative.
pub proof fn lemma_separates_iff_no_error(samples: Seq<Scored>, t: Scalar)
    requires
        samples.len() <= usize::MAX,
    ensures
        separates(samples, t) <==> tally(samples, t).false_pos == 0 && tally(
            samples,
            t,
        ).false_neg == 0,
{
    lemma_count_zero(samples, t, true, false, samples.len());
    lemma_count_zero(samples, t, false, true, samples.len());
    lemma_counts_bounded(samples, t, samples.len());
}

/// Perfect separation wins: where the spread is not degenerate and some
/// candidate flags exactly the positive samples, of which there is at least
/// one, calibration returns an F1 of one, and the threshold it returns is a
/// candidate that separates the samples too.
pub proof fn lemma_separating_candidate_wins(
    samples: Seq<Scored>,
    spread: Scalar,
    candidates: Seq<Scalar>,
    r: Calibration,
    k: int,
)
    requires
        samples.len() <= usize::MAX,
        is_calibration(samples, spread, candidates, r),
        !spec_is_degenerate(spread),
        0 <= k < candidates.len(),
        separates(samples, candidates[k]),
        exists|i: int| 0 <= i < samples.len() && (#[trigger] samples[i]).spec_is_positive(),
    ensures
        r.f1.num == r.f1.den,
        r.f1.num > 0,
        exists|i: int|
            0 <= i < candidates.len() && r.threshold == #[trigger] candidates[i] && separates(
                samples,
                candidates[i],
            ),
{
    let ts = tallies(samples, candidates);
    let n = candidates.len() as int;
    let p = choose|i: int| 0 <= i < samples.len() && (#[trigger] samples[i]).spec_is_positive();
    lemma_separates_iff_no_error(samples, candidates[k]);
    lemma_counts_bounded(samples, candidates[k], samples.len());
    assert(ts[k].true_pos > 0) by {
        lemma_count_zero(samples, candidates[k], true, true, samples.len());
        assert(samples[p].spec_is_flagged(candidates[k]) && samples[p].spec_is_positive());
    }
    assert(!all_zero(ts, n));
    let i = choose|i: int| #[trigger]
        leads(ts, n, i) && r == (Calibration { threshold: candidates[i], f1: ts[i].spec_f1() });
    lemma_counts_bounded(samples, candidates[i], samples.len());
    assert(!ts[k].spec_beats(ts[i])) by {
        if k < i {
            assert(ts[i].spec_beats(ts[k]));
        }
    }
    let a = ts[i].true_pos as int;
    let e = ts[i].false_pos + ts[i].false_neg;
    let c = ts[k].true_pos as int;
    assert(e == 0) by (nonlinear_arith)
        requires
            a > 0,
            c > 0,
            e >= 0,
            !((2 * c) * (2 * a + e) > (2 * a) * (2 * c)),
    ;
    lemma_separates_iff_no_error(samples, candidates[i]);
}

/// Where the lowest prediction is below the cap, no prediction before the
/// first one that holds it is as low: the running minimum is the first of
/// the lowest predictions.
pub proof fn lemma_lowest_is_first(samples: Seq<Scored>, n: nat, i: int)
    requires
        n <= samples.len(),
        0 <= i < n,
        samples[i].prediction.spec_lt(Scalar::spec_max()),
        forall|j: int| 0 <= j < n ==> samples[i].prediction.spec_le((#[trigger] samples[j]).prediction),
        forall|j: int| 0 <= j < i ==> samples[i].prediction.spec_lt((#[trigger] samples[j]).prediction),
    ensures
        lowest(samples, n) == samples[i].prediction,
    decreases n,
{
    lemma_range_bounds(samples, (n - 1) as nat);
    if i < n - 1 {
        lemma_lowest_is_first(samples, (n - 1) as nat, i);
        assert(samples[i].prediction.spec_le(samples[n - 1].prediction));
    } else {
        let held = lowest(samples, (n - 1) as nat);
        if held != Scalar::spec_max() {
            let j = choose|j: int| 0 <= j < n - 1 && (#[trigger] samples[j]).prediction == held;
            assert(samples[i].prediction.spec_lt(samples[j].prediction));
        }
    }
}

} // verus!
