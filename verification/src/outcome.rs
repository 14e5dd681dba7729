//! Resolving a dice sample into an `Outcome`: critical-threshold extremum
//! selection, the drop rule for attribute generation, and success evaluation
//! against a difficulty or an opposing roll.

use vstd::prelude::*;
use crate::dice::{Roll, spec_roll_valid, spec_sample_ok};
use crate::errors::EngineError;
use vstd::string::StringExecFns;

verus! {

/// The numerically largest value of a non-empty sequence.
pub open spec fn seq_max(s: Seq<u32>) -> u32
    recommends
        s.len() >= 1,
    decreases s.len(),
{
    if s.len() <= 1 {
        s[0]
    } else {
        let m = seq_max(s.drop_first());
        if s[0] >= m {
            s[0]
        } else {
            m
        }
    }
}

/// The numerically smallest value of a non-empty sequence.
pub open spec fn seq_min(s: Seq<u32>) -> u32
    recommends
        s.len() >= 1,
    decreases s.len(),
{
    if s.len() <= 1 {
        s[0]
    } else {
        let m = seq_min(s.drop_first());
        if s[0] <= m {
            s[0]
        } else {
            m
        }
    }
}

/// The sum of the values of a sequence.
pub open spec fn sum_seq(s: Seq<u32>) -> int
    decreases s.len(),
{
    if s.len() == 0 {
        0
    } else {
        s[0] + sum_seq(s.drop_first())
    }
}

/// `seq_max` is a member of the sequence and bounds every member.
pub proof fn lemma_seq_max(s: Seq<u32>)
    requires
        s.len() >= 1,
    ensures
        s.contains(seq_max(s)),
        forall|i: int| 0 <= i < s.len() ==> #[trigger] s[i] <= seq_max(s),
    decreases s.len(),
{
    if s.len() > 1 {
        lemma_seq_max(s.drop_first());
        assert forall|i: int| 0 <= i < s.len() implies #[trigger] s[i] <= seq_max(s) by {
            if i >= 1 {
                assert(s.drop_first()[i - 1] == s[i]);
            }
        }
        if seq_max(s) != s[0] {
            let j = choose|j: int|
                0 <= j < s.drop_first().len() && s.drop_first()[j] == seq_max(s.drop_first());
            assert(s[j + 1] == seq_max(s));
        }
    }
}

/// `seq_min` is a member of the sequence and is bounded by every member.
pub proof fn lemma_seq_min(s: Seq<u32>)
    requires
        s.len() >= 1,
    ensures
        s.contains(seq_min(s)),
        forall|i: int| 0 <= i < s.len() ==> #[trigger] s[i] >= seq_min(s),
    decreases s.len(),
{
    if s.len() > 1 {
        lemma_seq_min(s.drop_first());
        assert forall|i: int| 0 <= i < s.len() implies #[trigger] s[i] >= seq_min(s) by {
            if i >= 1 {
                assert(s.drop_first()[i - 1] == s[i]);
            }
        }
        if seq_min(s) != s[0] {
            let j = choose|j: int|
                0 <= j < s.drop_first().len() && s.drop_first()[j] == seq_min(s.drop_first());
            assert(s[j + 1] == seq_min(s));
        }
    }
}

/// The sum of a sequence of values each at most `bound` lies between zero and
/// the length times `bound`.
pub proof fn lemma_sum_bound(s: Seq<u32>, bound: u32)
    requires
        forall|i: int| 0 <= i < s.len() ==> #[trigger] s[i] <= bound,
    ensures
        0 <= sum_seq(s) <= s.len() * bound,
    decreases s.len(),
{
    if s.len() == 0 {
    } else {
        assert forall|i: int| 0 <= i < s.drop_first().len() implies #[trigger] s.drop_first()[i]
            <= bound by {
            assert(s.drop_first()[i] == s[i + 1]);
        }
        lemma_sum_bound(s.drop_first(), bound);
        assert(s.len() * bound == (s.len() - 1) * bound + bound) by (nonlinear_arith);
    }
}

/// Removing the value at index `i` lowers the sum by exactly that value.
pub proof fn lemma_sum_remove(s: Seq<u32>, i: int)
    requires
        0 <= i < s.len(),
    ensures
        sum_seq(s.remove(i)) == sum_seq(s) - s[i],
    decreases s.len(),
{
    if i == 0 {
        assert(s.remove(0) =~= s.drop_first());
    } else {
        assert(s.remove(i).drop_first() =~= s.drop_first().remove(i - 1));
        assert(s.remove(i)[0] == s[0]);
        assert(s.remove(i).len() == s.len() - 1);
        lemma_sum_remove(s.drop_first(), i - 1);
        assert(s.drop_first()[i - 1] == s[i]);
    }
}

/// The extremum stored in the `max` field: the favorable extreme for the
/// active critical threshold, so the numerically smaller one when low rolls
/// are favorable.
pub open spec fn spec_fav_max(s: Seq<u32>, critical: u32) -> u32 {
    if critical == 20 {
        seq_max(s)
    } else {
        seq_min(s)
    }
}

/// The extremum stored in the `min` field: the unfavorable extreme for the
/// active critical threshold.
pub open spec fn spec_fav_min(s: Seq<u32>, critical: u32) -> u32 {
    if critical == 20 {
        seq_min(s)
    } else {
        seq_max(s)
    }
}

/// The value the drop rule removes: under a high-favorable threshold the
/// `min` field's value, under a low-favorable threshold the `max` field's
/// value.  Either way that is the numerically smallest sampled value, because
/// the field names track favorability, not numeric order.
pub open spec fn spec_drop_target(s: Seq<u32>, critical: u32) -> u32 {
    if critical == 20 {
        spec_fav_min(s, critical)
    } else {
        spec_fav_max(s, critical)
    }
}

/// The sample values kept for summing: for an attribute roll the first
/// occurrence of the drop target is dropped, otherwise all values stay.
pub open spec fn spec_retained(s: Seq<u32>, critical: u32, attribute: bool) -> Seq<u32> {
    if attribute && (critical == 20 || critical == 1) {
        s.remove_value(spec_drop_target(s, critical))
    } else {
        s
    }
}

/// The base result of a sample: the sum of the retained values.
pub open spec fn spec_base_result(s: Seq<u32>, critical: u32, attribute: bool) -> int {
    sum_seq(spec_retained(s, critical, attribute))
}

/// Attribute generation drops exactly one value, equal to the minimum of the
/// original sample, before summing.  Under a high-favorable threshold that is
/// the `min` field's value; under a low-favorable threshold the roles are
/// swapped and the dropped `max` field holds the same numeric minimum.
pub proof fn lemma_attribute_drop(s: Seq<u32>)
    requires
        s.len() >= 1,
    ensures
        spec_retained(s, 20, true).len() == s.len() - 1,
        spec_base_result(s, 20, true) == sum_seq(s) - seq_min(s),
        spec_retained(s, 1, true).len() == s.len() - 1,
        spec_base_result(s, 1, true) == sum_seq(s) - seq_min(s),
{
    lemma_seq_min(s);
    s.index_of_first_ensures(seq_min(s));
    let i_min = s.index_of_first(seq_min(s)).unwrap();
    lemma_sum_remove(s, i_min);
}

/// The resolved result of one dice roll, after critical-threshold extremum
/// selection and any drop rule.
///
/// `max` and `min` name the favorable and unfavorable extreme for the active
/// threshold, not the literal numeric maximum and minimum: under a
/// low-favorable threshold (`critical == 1`) the roles are swapped.
#[derive(Clone, Debug)]
pub struct Outcome {
    pub roll_description: String,
    pub base_result: i32,
    pub max: u32,
    pub min: u32,
    pub attribute: bool,
    pub critical: u32,
}

/// The description an outcome carries for its roll.
pub open spec fn spec_roll_description(label: Seq<char>) -> Seq<char> {
    "Roll: "@ + label
}

/// How the fields of a resolved outcome relate to the sample it came from.
pub open spec fn spec_outcome_fields(
    o: Outcome,
    s: Seq<u32>,
    label: Seq<char>,
    critical: u32,
    attribute: bool,
) -> bool {
    &&& o.roll_description@ == spec_roll_description(label)
    &&& o.base_result == spec_base_result(s, critical, attribute)
    &&& o.max == spec_fav_max(s, critical)
    &&& o.min == spec_fav_min(s, critical)
    &&& o.attribute == attribute
    &&& o.critical == critical
}

/// The difficulty a success evaluation actually measures against: the
/// opposition's base result when the opposition is an attribute roll,
/// otherwise the difficulty the caller named.
pub open spec fn spec_effective_difficulty(opp: Option<Outcome>, difficulty: int) -> int {
    match opp {
        Some(o) => if o.attribute {
            o.base_result as int
        } else {
            difficulty
        },
        None => difficulty,
    }
}

/// Whether a roll succeeds: under a high-favorable threshold the base result
/// must reach the effective difficulty (and the opposing base result, if
/// any); under a low-favorable threshold both comparisons flip.
pub open spec fn spec_success(this: Outcome, opp: Option<Outcome>, difficulty: int) -> bool {
    let d = spec_effective_difficulty(opp, difficulty);
    match opp {
        Some(o) => if this.critical == 20 {
            this.base_result >= d && this.base_result >= o.base_result
        } else {
            this.base_result <= d && this.base_result <= o.base_result
        },
        None => if this.critical == 20 {
            this.base_result >= d
        } else {
            this.base_result <= d
        },
    }
}

/// Under a high-favorable threshold, raising the difficulty never turns a
/// failure into a success, and lowering it never turns a success into a
/// failure.
pub proof fn lemma_success_monotonic(this: Outcome, opp: Option<Outcome>, d1: int, d2: int)
    requires
        this.critical == 20,
        d1 <= d2,
    ensures
        spec_success(this, opp, d2) ==> spec_success(this, opp, d1),
{
}

/// The opposition argument as a value, for use in specifications.
pub open spec fn spec_opp(opp: Option<&Outcome>) -> Option<Outcome> {
    match opp {
        Some(o) => Some(*o),
        None => None,
    }
}

/// Finds the first index holding the given value.
fn find_first(v: &Vec<u32>, x: u32) -> (r: Option<usize>)
    ensures
        match r {
            Some(i) => v@.index_of_first(x) == Some(i as int),
            None => v@.index_of_first(x) is None,
        },
{
    let mut i: usize = 0;
    while i < v.len()
        invariant
            i <= v@.len(),
            forall|j: int| 0 <= j < i ==> v@[j] != x,
        decreases v@.len() - i,
    {
        if v[i] == x {
            proof {
                v@.index_of_first_ensures(x);
                assert(v@[i as int] == x);
                assert(v@.contains(x));
                let k = v@.index_of_first(x).unwrap();
                assert(!(i < k)) by {
                    if (i as int) < k {
                        assert(v@[i as int] != x);
                    }
                }
                assert(!(k < i));
            }
            return Some(i);
        }
        i = i + 1;
    }
    proof {
        v@.index_of_first_ensures(x);
        if v@.contains(x) {
            let w = choose|j: int| 0 <= j < v@.len() && v@[j] == x;
            assert(v@[w] == x);
            assert(false);
        }
    }
    None
}

/// The largest value of a non-empty vector.
fn vec_max(v: &Vec<u32>) -> (m: u32)
    requires
        v@.len() >= 1,
    ensures
        m == seq_max(v@),
{
    let mut m: u32 = v[0];
    let mut i: usize = 1;
    while i < v.len()
        invariant
            1 <= i <= v@.len(),
            exists|k: int| 0 <= k < i && v@[k] == m,
            forall|j: int| 0 <= j < i ==> #[trigger] v@[j] <= m,
        decreases v@.len() - i,
    {
        if v[i] > m {
            m = v[i];
        }
        assert(v@[i as int] <= m);
        i = i + 1;
    }
    proof {
        lemma_seq_max(v@);
        let k = choose|k: int| 0 <= k < v@.len() && v@[k] == m;
        let j = choose|j: int| 0 <= j < v@.len() && v@[j] == seq_max(v@);
        assert(v@[j] <= m);
        assert(v@[k] <= seq_max(v@));
    }
    m
}

/// The smallest value of a non-empty vector.
fn vec_min(v: &Vec<u32>) -> (m: u32)
    requires
        v@.len() >= 1,
    ensures
        m == seq_min(v@),
{
    let mut m: u32 = v[0];
    let mut i: usize = 1;
    while i < v.len()
        invariant
            1 <= i <= v@.len(),
            exists|k: int| 0 <= k < i && v@[k] == m,
            forall|j: int| 0 <= j < i ==> #[trigger] v@[j] >= m,
        decreases v@.len() - i,
    {
        if v[i] < m {
            m = v[i];
        }
        assert(v@[i as int] >= m);
        i = i + 1;
    }
    proof {
        lemma_seq_min(v@);
        let k = choose|k: int| 0 <= k < v@.len() && v@[k] == m;
        let j = choose|j: int| 0 <= j < v@.len() && v@[j] == seq_min(v@);
        assert(v@[j] >= m);
        assert(v@[k] >= seq_min(v@));
    }
    m
}

/// Sums a vector of values each at most `bound`, where the whole sum is known
/// to fit.
fn sum_values(v: &Vec<u32>, bound: u32) -> (s: i64)
    requires
        forall|i: int| 0 <= i < v@.len() ==> #[trigger] v@[i] <= bound,
        v@.len() * bound <= i32::MAX,
    ensures
        s == sum_seq(v@),
        0 <= s <= i32::MAX,
{
    proof {
        lemma_sum_bound(v@, bound);
        assert(v@.skip(0) =~= v@);
    }
    let mut acc: i64 = 0;
    let mut i: usize = 0;
    while i < v.len()
        invariant
            i <= v@.len(),
            acc + sum_seq(v@.skip(i as int)) == sum_seq(v@),
            0 <= acc,
            sum_seq(v@) <= i32::MAX,
            forall|k: int| 0 <= k < v@.len() ==> #[trigger] v@[k] <= bound,
        decreases v@.len() - i,
    {
        proof {
            let rest = v@.skip(i as int);
            assert(rest[0] == v@[i as int]);
            assert(rest.drop_first() =~= v@.skip(i + 1));
            assert forall|j: int| 0 <= j < v@.skip(i + 1).len() implies #[trigger] v@.skip(
                i + 1,
            )[j] <= bound by {
                assert(v@.skip(i + 1)[j] == v@[j + i + 1]);
            }
            lemma_sum_bound(v@.skip(i + 1), bound);
        }
        acc = acc + (v[i] as i64);
        i = i + 1;
    }
    proof {
        assert(v@.skip(v@.len() as int) =~= Seq::<u32>::empty());
    }
    acc
}

impl Outcome {
    /// Resolves a sample that has already been drawn for the given
    /// specification: assigns the favorable and unfavorable extremes for the
    /// critical threshold, applies the drop rule when generating an
    /// attribute, and sums what remains.
    ///
    /// When the drop rule fires on a single-die sample the retained sample is
    /// empty and the base result is zero; that is the defined boundary
    /// behavior, not an error.
    pub fn resolve_sampled(roll: &Roll, rolled: Vec<u32>, critical: u32, attribute: bool) -> (o:
        Outcome)
        requires
            critical == 1 || critical == 20,
            rolled@.len() >= 1,
            spec_sample_ok(rolled@, roll.dice, roll.amount),
            roll.amount * roll.dice <= i32::MAX,
        ensures
            spec_outcome_fields(o, rolled@, roll.dice_label@, critical, attribute),
    {
        let mut description = String::from_str("Roll: ");
        description.append(roll.dice_label.as_str());
        let (max, min) = if critical == 20 {
            (vec_max(&rolled), vec_min(&rolled))
        } else {
            (vec_min(&rolled), vec_max(&rolled))
        };
        let ghost orig = rolled@;
        let mut kept: Vec<u32> = rolled;
        if attribute {
            let target = if critical == 20 {
                min
            } else {
                max
            };
            match find_first(&kept, target) {
                Some(i) => {
                    proof {
                        kept@.index_of_first_ensures(target);
                    }
                    kept.remove(i);
                },
                None => {
                    proof {
                        lemma_seq_min(kept@);
                        assert(target == seq_min(kept@));
                        assert(kept@.contains(target));
                        kept@.index_of_first_ensures(target);
                        assert(false);
                    }
                },
            }
        }
        proof {
            assert(kept@ == spec_retained(orig, critical, attribute));
            assert forall|i: int| 0 <= i < kept@.len() implies #[trigger] kept@[i]
                <= roll.dice by {
                if attribute {
                    let t = spec_drop_target(orig, critical);
                    lemma_seq_min(orig);
                    assert(orig.contains(t));
                    orig.index_of_first_ensures(t);
                    let idx = orig.index_of_first(t).unwrap();
                    orig.remove_ensures(idx);
                }
            }
            assert(kept@.len() * roll.dice <= roll.amount * roll.dice) by (nonlinear_arith)
                requires
                    kept@.len() <= roll.amount,
                    roll.dice >= 0,
            ;
        }
        let base = sum_values(&kept, roll.dice);
        Outcome {
            roll_description: description,
            base_result: base as i32,
            max,
            min,
            attribute,
            critical,
        }
    }

    /// Draws a fresh sample for a specification already known to be valid and
    /// resolves it.  Every field of the result is pinned to some sample of
    /// the specification; which sample comes out is up to the random source.
    pub fn from_roll(roll: &Roll, critical: u32, attribute: bool) -> (o: Outcome)
        requires
            critical == 1 || critical == 20,
            spec_roll_valid(roll.dice, roll.amount),
            roll.amount * roll.dice <= i32::MAX,
        ensures
            exists|s: Seq<u32>|
                #[trigger] spec_sample_ok(s, roll.dice, roll.amount) && spec_outcome_fields(
                    o,
                    s,
                    roll.dice_label@,
                    critical,
                    attribute,
                ),
    {
        let rolled = roll.sample_values();
        let ghost sample = rolled@;
        let o = Self::resolve_sampled(roll, rolled, critical, attribute);
        proof {
            assert(spec_sample_ok(sample, roll.dice, roll.amount) && spec_outcome_fields(
                o,
                sample,
                roll.dice_label@,
                critical,
                attribute,
            ));
        }
        o
    }

    /// Resolves a specification under a critical threshold: samples the dice
    /// and turns the sample into an `Outcome`.
    ///
    /// The product cap on faces and dice is what lets every possible sample
    /// sum fit the base result's machine integer.
    ///
    /// Returns `InvalidRollSpec`, and nothing else, exactly when the
    /// specification asks for fewer than one face or fewer than one die.
    pub fn new(roll: &Roll, critical: u32, attribute: bool) -> (r: Result<Outcome, EngineError>)
        requires
            critical == 1 || critical == 20,
            roll.amount * roll.dice <= i32::MAX,
        ensures
            match r {
                Ok(o) => spec_roll_valid(roll.dice, roll.amount) && exists|s: Seq<u32>|
                    #[trigger] spec_sample_ok(s, roll.dice, roll.amount) && spec_outcome_fields(
                        o,
                        s,
                        roll.dice_label@,
                        critical,
                        attribute,
                    ),
                Err(e) => !spec_roll_valid(roll.dice, roll.amount) && e
                    == EngineError::InvalidRollSpec,
            },
    {
        if roll.dice < 1 || roll.amount < 1 {
            Err(EngineError::InvalidRollSpec)
        } else {
            Ok(Self::from_roll(roll, critical, attribute))
        }
    }

    /// Evaluates the roll against a difficulty, or against an opposing
    /// outcome.  Returns whether the roll succeeded together with the
    /// difficulty actually measured against.
    pub fn success_of_roll(&self, opposition: Option<&Outcome>, difficulty: i32) -> (r: (
        bool,
        i32,
    ))
        ensures
            r.0 == spec_success(*self, spec_opp(opposition), difficulty as int),
            r.1 == spec_effective_difficulty(spec_opp(opposition), difficulty as int),
    {
        let difficulty = match opposition {
            Some(o) => if o.attribute {
                o.base_result
            } else {
                difficulty
            },
            None => difficulty,
        };
        let winner = match opposition {
            Some(o) => if self.critical == 20 {
                self.base_result >= difficulty && self.base_result >= o.base_result
            } else {
                self.base_result <= difficulty && self.base_result <= o.base_result
            },
            None => if self.critical == 20 {
                self.base_result >= difficulty
            } else {
                self.base_result <= difficulty
            },
        };
        (winner, difficulty)
    }
}

} // verus!
