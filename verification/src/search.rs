//! The search for the kernel bandwidth of one point.
//!
//! The bandwidth starts at one and is doubled, halved or moved to the middle
//! of the bracket found so far, depending on how the perplexity it yields
//! compares with the target. Every value the search can reach is a dyadic
//! rational with a short numerator, so the search is carried out exactly, in
//! integers.

use vstd::arithmetic::power2::*;
use vstd::prelude::*;

verus! {

/// The number of times the perplexity is measured at most.
pub const MAX_EVALUATIONS: u32 = 50;

/// The model counts bandwidths in units of `2^-RESOLUTION`.
pub const RESOLUTION: u32 = 50;

/// The largest numerator of a bandwidth that the search tries: `2^50`.
pub const MAX_MANTISSA: u64 = 0x4_0000_0000_0000;

/// How the perplexity measured at a bandwidth compares with the target.
#[derive(Clone, Copy, Debug, PartialEq, Eq, Structural)]
pub enum Verdict {
    /// It exceeds the target by more than the tolerance: the bandwidth is too small.
    Above,
    /// It falls short of the target by more than the tolerance: the bandwidth is too large.
    Below,
    /// Neither: the bandwidth is accepted.
    Within,
}

/// The dyadic rational `mantissa / 2^shift`.
#[derive(Clone, Copy, Debug, PartialEq, Eq, Structural)]
pub struct Dyadic {
    pub mantissa: u64,
    pub shift: u32,
}

impl Dyadic {
    /// The value times `2^places`, a whole number when `shift <= places`.
    pub open spec fn scaled(self, places: nat) -> nat
        recommends
            self.shift <= places,
    {
        self.mantissa as nat * pow2((places - self.shift) as nat)
    }

    /// The value in units of `2^-RESOLUTION`.
    pub open spec fn units(self) -> nat
        recommends
            self.shift <= RESOLUTION,
    {
        self.scaled(RESOLUTION as nat)
    }

    /// A bandwidth that the search may try: positive, with at most
    /// `RESOLUTION` binary places and a numerator of at most `2^50`. Such a
    /// value fits a double-precision number without rounding.
    pub open spec fn is_candidate(self) -> bool {
        0 < self.mantissa <= MAX_MANTISSA && self.shift <= RESOLUTION
    }
}

/// The state of a search, with every bandwidth in units of `2^-RESOLUTION`.
pub struct SearchModel {
    /// The bandwidth to try next, or the answer once the search is over.
    pub beta: nat,
    /// The largest bandwidth found too small so far.
    pub lower: Option<nat>,
    /// The smallest bandwidth found too large so far.
    pub upper: Option<nat>,
    /// How often the perplexity has been measured.
    pub evaluations: nat,
    /// Whether a measurement fell within the tolerance.
    pub converged: bool,
}

impl SearchModel {
    /// The search is over: a bandwidth was accepted, or the measurements are used up.
    pub open spec fn is_done(self) -> bool {
        self.converged || self.evaluations >= MAX_EVALUATIONS
    }

    /// The bandwidth lies strictly inside the bracket, and exactly where the
    /// doubling, halving and bisecting steps put it.
    pub open spec fn bracketed(self) -> bool {
        &&& self.beta > 0
        &&& match (self.lower, self.upper) {
            (None, None) => self.beta == pow2(RESOLUTION as nat),
            (Some(l), None) => 0 < l && self.beta == 2 * l,
            (None, Some(u)) => 2 * self.beta == u,
            (Some(l), Some(u)) => 0 < l < self.beta < u && 2 * self.beta == l + u,
        }
    }
}

/// The state before the first measurement: the bandwidth is one, with no bracket.
pub open spec fn start() -> SearchModel {
    SearchModel {
        beta: pow2(RESOLUTION as nat),
        lower: None,
        upper: None,
        evaluations: 0,
        converged: false,
    }
}

/// The state after the perplexity at `s.beta` was measured and judged.
///
/// A bandwidth found too small becomes the lower end of the bracket, and the
/// next one is the middle of the bracket, or twice as large while there is no
/// upper end. A bandwidth found too large becomes the upper end, and the next
/// one is the middle of the bracket, or half as large while there is no lower
/// end. A search that is over stays as it is.
pub open spec fn advance(s: SearchModel, verdict: Verdict) -> SearchModel {
    if s.is_done() {
        s
    } else {
        match verdict {
            Verdict::Above => SearchModel {
                beta: match s.upper {
                    Some(u) => (s.beta + u) / 2,
                    None => 2 * s.beta,
                },
                lower: Some(s.beta),
                upper: s.upper,
                evaluations: s.evaluations + 1,
                converged: false,
            },
            Verdict::Below => SearchModel {
                beta: match s.lower {
                    Some(l) => (s.beta + l) / 2,
                    None => s.beta / 2,
                },
                lower: s.lower,
                upper: Some(s.beta),
                evaluations: s.evaluations + 1,
                converged: false,
            },
            Verdict::Within => SearchModel {
                beta: s.beta,
                lower: s.lower,
                upper: s.upper,
                evaluations: s.evaluations + 1,
                converged: true,
            },
        }
    }
}

/// The state after the verdicts `verdicts` came in, in this order.
pub open spec fn run(verdicts: Seq<Verdict>) -> SearchModel
    decreases verdicts.len(),
{
    if verdicts.len() == 0 {
        start()
    } else {
        advance(run(verdicts.drop_last()), verdicts.last())
    }
}

/// `2^e` for `e <= 50` is at most `MAX_MANTISSA`, and positive.
proof fn lemma_pow2_small(e: nat)
    requires
        e <= 50,
    ensures
        0 < pow2(e) <= MAX_MANTISSA,
{
    lemma_pow2_pos(e);
    lemma2_to64_rest();
    if e < 50 {
        lemma_pow2_strictly_increases(e, 50);
    }
}

/// Doubling the numerator and adding a binary place leaves the value as it
/// is; keeping the numerator and adding a binary place halves it.
proof fn lemma_rescale(m: nat, shift: nat)
    requires
        shift < RESOLUTION,
    ensures
        (2 * m) * pow2((RESOLUTION - shift - 1) as nat) == m * pow2((RESOLUTION - shift) as nat),
        2 * (m * pow2((RESOLUTION - shift - 1) as nat)) == m * pow2((RESOLUTION - shift) as nat),
{
    let p = pow2((RESOLUTION - shift - 1) as nat);
    lemma_pow2_unfold((RESOLUTION - shift) as nat);
    assert((2 * m) * p == m * (2 * p)) by (nonlinear_arith);
    assert(2 * (m * p) == m * (2 * p)) by (nonlinear_arith);
}

/// The units of a sum of numerators at one shift.
proof fn lemma_units_add(a: nat, b: nat, p: nat)
    ensures
        (a + b) * p == a * p + b * p,
{
    assert((a + b) * p == a * p + b * p) by (nonlinear_arith);
}

/// The order of two numerators at one shift is the order of their values.
proof fn lemma_units_order(a: nat, b: nat, p: nat)
    requires
        a < b,
        0 < p,
    ensures
        a * p < b * p,
{
    assert(a * p < b * p) by (nonlinear_arith)
        requires
            a < b,
            0 < p,
    ;
}

/// A search in progress.
///
/// The bandwidth and the ends of the bracket are kept as numerators over one
/// common power of two.
#[derive(Clone, Copy, Debug)]
pub struct BetaSearch {
    beta: u64,
    lower: Option<u64>,
    upper: Option<u64>,
    shift: u32,
    evaluations: u32,
    converged: bool,
}

impl BetaSearch {
    /// The value of the numerator `m` at this search's shift, in units.
    spec fn units_of(&self, m: u64) -> nat {
        m as nat * pow2((RESOLUTION - self.shift) as nat)
    }

    /// The state of the search, in units of `2^-RESOLUTION`.
    pub closed spec fn view(&self) -> SearchModel {
        SearchModel {
            beta: self.units_of(self.beta),
            lower: match self.lower {
                Some(l) => Some(self.units_of(l)),
                None => None,
            },
            upper: match self.upper {
                Some(u) => Some(self.units_of(u)),
                None => None,
            },
            evaluations: self.evaluations as nat,
            converged: self.converged,
        }
    }

    /// The numerators are short, ordered, and placed as the steps of the
    /// search place them.
    pub closed spec fn wf(&self) -> bool {
        &&& self.evaluations <= MAX_EVALUATIONS
        &&& (self.converged ==> self.evaluations >= 1)
        &&& self.shift <= self.steps()
        &&& 0 < self.beta <= pow2(self.steps())
        &&& match (self.lower, self.upper) {
            (None, None) => self.beta == 1 && self.shift == 0,
            (Some(l), None) => 0 < l && self.beta == 2 * l,
            (None, Some(u)) => 2 * self.beta == u && u <= pow2(self.steps()),
            (Some(l), Some(u)) => 0 < l < self.beta < u && 2 * self.beta == l + u && u <= pow2(
                self.steps(),
            ),
        }
    }

    /// The number of doubling, halving and bisecting steps taken.
    spec fn steps(&self) -> nat {
        if self.converged {
            (self.evaluations - 1) as nat
        } else {
            self.evaluations as nat
        }
    }

    /// A search before its first measurement.
    pub fn new() -> (search: BetaSearch)
        ensures
            search.wf(),
            search@ == start(),
    {
        proof {
            lemma2_to64();
        }
        BetaSearch { beta: 1, lower: None, upper: None, shift: 0, evaluations: 0, converged: false }
    }

    /// Whether the search is over.
    pub fn is_done(&self) -> (done: bool)
        ensures
            done == self@.is_done(),
    {
        self.converged || self.evaluations >= MAX_EVALUATIONS
    }

    /// How often the perplexity has been measured.
    pub fn evaluations(&self) -> (count: u32)
        ensures
            count == self@.evaluations,
    {
        self.evaluations
    }

    /// Whether a measurement fell within the tolerance.
    pub fn converged(&self) -> (yes: bool)
        ensures
            yes == self@.converged,
    {
        self.converged
    }

    /// The bandwidth that `beta` returns.
    pub closed spec fn candidate(&self) -> Dyadic {
        Dyadic { mantissa: self.beta, shift: self.shift }
    }

    /// The bandwidth to try next, or the answer once the search is over.
    pub fn beta(&self) -> (beta: Dyadic)
        requires
            self.wf(),
        ensures
            beta == self.candidate(),
            beta.is_candidate(),
            beta.units() == self@.beta,
    {
        proof {
            lemma_pow2_small(self.steps());
        }
        Dyadic { mantissa: self.beta, shift: self.shift }
    }

    /// The largest bandwidth found too small so far, if there is one.
    pub fn lower_bound(&self) -> (bound: Option<Dyadic>)
        requires
            self.wf(),
        ensures
            bound is Some <==> self@.lower is Some,
            bound matches Some(l) ==> l.is_candidate() && self@.lower == Some(l.units()),
    {
        proof {
            lemma_pow2_small(self.steps());
        }
        match self.lower {
            Some(l) => Some(Dyadic { mantissa: l, shift: self.shift }),
            None => None,
        }
    }

    /// The smallest bandwidth found too large so far, if there is one.
    pub fn upper_bound(&self) -> (bound: Option<Dyadic>)
        requires
            self.wf(),
        ensures
            bound is Some <==> self@.upper is Some,
            bound matches Some(u) ==> u.is_candidate() && self@.upper == Some(u.units()),
    {
        proof {
            lemma_pow2_small(self.steps());
        }
        match self.upper {
            Some(u) => Some(Dyadic { mantissa: u, shift: self.shift }),
            None => None,
        }
    }

    /// Takes in the verdict on the perplexity measured at `self.beta()`.
    pub fn step(&mut self, verdict: Verdict)
        requires
            old(self).wf(),
            !old(self)@.is_done(),
        ensures
            final(self).wf(),
            final(self)@ == advance(old(self)@, verdict),
            verdict == Verdict::Within ==> final(self).candidate() == old(self).candidate(),
    {
        proof {
            lemma_pow2_small(self.steps());
            self.lemma_stepped(verdict);
        }
        match verdict {
            Verdict::Above => {
                match self.upper {
                    Some(u) => {
                        self.lower = Some(2 * self.beta);
                        self.upper = Some(2 * u);
                        self.beta = self.beta + u;
                        self.shift = self.shift + 1;
                    },
                    None => {
                        self.lower = Some(self.beta);
                        self.beta = 2 * self.beta;
                    },
                }
            },
            Verdict::Below => {
                match self.lower {
                    Some(l) => {
                        self.upper = Some(2 * self.beta);
                        self.lower = Some(2 * l);
                        self.beta = self.beta + l;
                        self.shift = self.shift + 1;
                    },
                    None => {
                        self.upper = Some(2 * self.beta);
                        self.shift = self.shift + 1;
                    },
                }
            },
            Verdict::Within => {
                self.converged = true;
            },
        }
        self.evaluations = self.evaluations + 1;
        assert(*self == old(self).stepped(verdict));
    }

    /// The search after one more verdict, numerator by numerator.
    spec fn stepped(self, verdict: Verdict) -> BetaSearch {
        let evaluations = (self.evaluations + 1) as u32;
        let deeper = (self.shift + 1) as u32;
        match verdict {
            Verdict::Above => match self.upper {
                Some(u) => BetaSearch {
                    beta: (self.beta + u) as u64,
                    lower: Some((2 * self.beta) as u64),
                    upper: Some((2 * u) as u64),
                    shift: deeper,
                    evaluations,
                    converged: false,
                },
                None => BetaSearch {
                    beta: (2 * self.beta) as u64,
                    lower: Some(self.beta),
                    upper: None,
                    shift: self.shift,
                    evaluations,
                    converged: false,
                },
            },
            Verdict::Below => match self.lower {
                Some(l) => BetaSearch {
                    beta: (self.beta + l) as u64,
                    lower: Some((2 * l) as u64),
                    upper: Some((2 * self.beta) as u64),
                    shift: deeper,
                    evaluations,
                    converged: false,
                },
                None => BetaSearch {
                    beta: self.beta,
                    lower: None,
                    upper: Some((2 * self.beta) as u64),
                    shift: deeper,
                    evaluations,
                    converged: false,
                },
            },
            Verdict::Within => BetaSearch {
                beta: self.beta,
                lower: self.lower,
                upper: self.upper,
                shift: self.shift,
                evaluations,
                converged: true,
            },
        }
    }

    /// One more verdict keeps the numerators well formed, and moves the
    /// values as the model says.
    proof fn lemma_stepped(self, verdict: Verdict)
        requires
            self.wf(),
            !self@.is_done(),
        ensures
            self.stepped(verdict).wf(),
            self.stepped(verdict)@ == advance(self@, verdict),
    {
        let m = self.beta as nat;
        let shift = self.shift as nat;
        lemma_pow2_small(self.steps());
        lemma_pow2_small(self.steps() + 1);
        lemma_pow2_unfold(self.steps() + 1);
        match verdict {
            Verdict::Above => match self.upper {
                Some(u) => {
                    lemma_rescale(m, shift);
                    lemma_rescale(u as nat, shift);
                    lemma_units_add(m, u as nat, pow2((RESOLUTION - shift - 1) as nat));
                },
                None => {
                    lemma_units_add(m, m, pow2((RESOLUTION - shift) as nat));
                },
            },
            Verdict::Below => match self.lower {
                Some(l) => {
                    lemma_rescale(m, shift);
                    lemma_rescale(l as nat, shift);
                    lemma_units_add(m, l as nat, pow2((RESOLUTION - shift - 1) as nat));
                },
                None => {
                    lemma_rescale(m, shift);
                },
            },
            Verdict::Within => {},
        }
    }

    /// A well-formed search has its bandwidth where the model's bracket puts it.
    proof fn lemma_wf_bracketed(self)
        requires
            self.wf(),
        ensures
            self@.bracketed(),
    {
        let p = pow2((RESOLUTION - self.shift) as nat);
        let m = self.beta as nat;
        lemma_pow2_small(self.steps());
        lemma_pow2_pos((RESOLUTION - self.shift) as nat);
        lemma_units_order(0, m, p);
        match (self.lower, self.upper) {
            (None, None) => {
                assert(1 * p == p) by (nonlinear_arith);
            },
            (Some(l), None) => {
                lemma_units_order(0, l as nat, p);
                lemma_units_add(l as nat, l as nat, p);
            },
            (None, Some(u)) => {
                lemma_units_add(m, m, p);
            },
            (Some(l), Some(u)) => {
                lemma_units_order(0, l as nat, p);
                lemma_units_order(l as nat, m, p);
                lemma_units_order(m, u as nat, p);
                lemma_units_add(m, m, p);
                lemma_units_add(l as nat, u as nat, p);
            },
        }
    }

    /// Whatever verdicts come in, some well-formed search stands for the
    /// state they lead to.
    proof fn lemma_reachable(verdicts: Seq<Verdict>) -> (search: BetaSearch)
        ensures
            search.wf(),
            search@ == run(verdicts),
        decreases verdicts.len(),
    {
        if verdicts.len() == 0 {
            lemma2_to64();
            BetaSearch {
                beta: 1,
                lower: None,
                upper: None,
                shift: 0,
                evaluations: 0,
                converged: false,
            }
        } else {
            let before = Self::lemma_reachable(verdicts.drop_last());
            if before@.is_done() {
                before
            } else {
                before.lemma_stepped(verdicts.last());
                before.stepped(verdicts.last())
            }
        }
    }
}

/// The `i`-th bandwidth in `asked` is the one that the search tries after the
/// first `i` verdicts in `told`, and `judge` gave the `i`-th verdict on it.
pub open spec fn answered<F: Fn(Dyadic) -> Verdict>(
    judge: F,
    asked: Seq<Dyadic>,
    told: Seq<Verdict>,
    i: int,
) -> bool {
    &&& !run(told.take(i)).is_done()
    &&& asked[i].is_candidate()
    &&& asked[i].units() == run(told.take(i)).beta
    &&& call_ensures(judge, (asked[i],), told[i])
}

/// `asked` and `told` record a search that put its questions to `judge`.
pub open spec fn is_record<F: Fn(Dyadic) -> Verdict>(
    judge: F,
    asked: Seq<Dyadic>,
    told: Seq<Verdict>,
) -> bool {
    &&& asked.len() == told.len()
    &&& forall|i: int| 0 <= i < asked.len() ==> #[trigger] answered(judge, asked, told, i)
}

/// Runs a search to its end: measures the perplexity at one bandwidth after
/// another, as `judge` reports it, until a bandwidth is accepted or
/// `MAX_EVALUATIONS` measurements are used up. The answer is the `beta` of
/// the search returned, accepted or not.
pub fn search_beta<F: Fn(Dyadic) -> Verdict>(judge: F) -> (search: BetaSearch)
    requires
        forall|beta: Dyadic| beta.is_candidate() ==> call_requires(judge, (beta,)),
    ensures
        search.wf(),
        search@.is_done(),
        search@.converged ==> call_ensures(judge, (search.candidate(),), Verdict::Within),
        exists|asked: Seq<Dyadic>, told: Seq<Verdict>|
            is_record(judge, asked, told) && search@ == run(told),
{
    let mut search = BetaSearch::new();
    let ghost mut asked: Seq<Dyadic> = Seq::empty();
    let ghost mut told: Seq<Verdict> = Seq::empty();
    while !search.is_done()
        invariant
            forall|beta: Dyadic| beta.is_candidate() ==> call_requires(judge, (beta,)),
            search.wf(),
            search@ == run(told),
            is_record(judge, asked, told),
            search@.converged ==> call_ensures(judge, (search.candidate(),), Verdict::Within),
        decreases MAX_EVALUATIONS - search@.evaluations,
    {
        let beta = search.beta();
        let verdict = judge(beta);
        search.step(verdict);
        proof {
            let longer = told.push(verdict);
            assert(longer.drop_last() =~= told);
            assert(longer.take(told.len() as int) =~= told);
            assert forall|i: int| 0 <= i < asked.len() + 1 implies #[trigger] answered(
                judge,
                asked.push(beta),
                longer,
                i,
            ) by {
                if i < asked.len() {
                    assert(answered(judge, asked, told, i));
                    assert(longer.take(i) =~= told.take(i));
                }
            }
            asked = asked.push(beta);
            told = longer;
        }
    }
    search
}

/// Whatever verdicts come in, the bandwidth stays positive and strictly
/// inside the bracket: twice the lower end while there is no upper one, half
/// the upper end while there is no lower one, and the exact middle once there
/// are both. No doubling, halving or bisecting step rounds, and the
/// perplexity is measured at most `MAX_EVALUATIONS` times.
pub proof fn lemma_run_bracketed(verdicts: Seq<Verdict>)
    ensures
        run(verdicts).bracketed(),
        run(verdicts).evaluations <= MAX_EVALUATIONS,
        run(verdicts).evaluations <= verdicts.len(),
    decreases verdicts.len(),
{
    let search = BetaSearch::lemma_reachable(verdicts);
    search.lemma_wf_bracketed();
    if verdicts.len() > 0 {
        lemma_run_bracketed(verdicts.drop_last());
    }
}

/// The verdict of a judge that accepts the bandwidths from `lo` to `hi` and
/// no others, and finds a smaller one too small and a larger one too large.
pub open spec fn verdict_between(lo: nat, hi: nat, beta: nat) -> Verdict {
    if beta < lo {
        Verdict::Above
    } else if beta > hi {
        Verdict::Below
    } else {
        Verdict::Within
    }
}

/// Each verdict in `verdicts` is the one that such a judge gives on the
/// bandwidth that the search tries after the verdicts before it.
pub open spec fn guided_by(lo: nat, hi: nat, verdicts: Seq<Verdict>) -> bool {
    forall|i: int|
        0 <= i < verdicts.len() ==> #[trigger] verdicts[i] == verdict_between(
            lo,
            hi,
            run(verdicts.take(i)).beta,
        )
}

/// A search whose judge accepts the bandwidths from `lo` to `hi` never
/// narrows its bracket past one of them: the lower end stays below `lo`, the
/// upper end above `hi`, and a bandwidth that it accepts lies between them.
/// So a search that ends without accepting has a bracket wider than the
/// range that would have been accepted.
pub proof fn lemma_bracket_keeps_accepted(lo: nat, hi: nat, verdicts: Seq<Verdict>)
    requires
        lo <= hi,
        guided_by(lo, hi, verdicts),
    ensures
        run(verdicts).lower matches Some(l) ==> l < lo,
        run(verdicts).upper matches Some(u) ==> hi < u,
        run(verdicts).converged ==> lo <= run(verdicts).beta <= hi,
        run(verdicts).lower is Some && run(verdicts).upper is Some ==> run(verdicts).upper->0
            - run(verdicts).lower->0 > hi - lo,
    decreases verdicts.len(),
{
    if verdicts.len() > 0 {
        let before = verdicts.drop_last();
        assert(before =~= verdicts.take(verdicts.len() - 1));
        assert forall|i: int| 0 <= i < before.len() implies #[trigger] before[i]
            == verdict_between(lo, hi, run(before.take(i)).beta) by {
            assert(before.take(i) =~= verdicts.take(i));
            assert(before[i] == verdicts[i]);
        }
        lemma_bracket_keeps_accepted(lo, hi, before);
        assert(verdicts.last() == verdicts[verdicts.len() - 1]);
    }
}

/// Once the bracket has both ends, every further step halves its width.
pub proof fn lemma_bisection_halves(verdicts: Seq<Verdict>, verdict: Verdict)
    requires
        run(verdicts).lower is Some,
        run(verdicts).upper is Some,
        !run(verdicts).is_done(),
        verdict != Verdict::Within,
    ensures
        run(verdicts.push(verdict)).lower is Some,
        run(verdicts.push(verdict)).upper is Some,
        2 * (run(verdicts.push(verdict)).upper->0 - run(verdicts.push(verdict)).lower->0) == run(
            verdicts,
        ).upper->0 - run(verdicts).lower->0,
{
    lemma_run_bracketed(verdicts);
    assert(verdicts.push(verdict).drop_last() =~= verdicts);
}

} // verus!
