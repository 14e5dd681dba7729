//! Dice specifications and the sampler that draws them.

use vstd::prelude::*;
use rand::Rng;
use crate::decimal::{spec_dec_nat, push_u32_dec};
use crate::errors::EngineError;
use crate::text::push_char;

verus! {

/// A skill-roll modifier mode: keep the single die, the favorable of two, or
/// the unfavorable of two.
pub enum Boon {
    Advantage,
    Disadvantage,
    Plain,
}

/// A dice specification: how many faces each die has and how many dice to
/// throw, with a display label of the form `"{amount}d{dice}"`.
pub struct Roll {
    pub pinned: bool,
    pub dice_label: String,
    pub dice: u32,
    pub amount: u32,
}

/// Whether a specification names at least one die with at least one face.
pub open spec fn spec_roll_valid(dice: u32, amount: u32) -> bool {
    dice >= 1 && amount >= 1
}

/// Whether `s` could be a sample of the specification: exactly `amount`
/// values, each between 1 and the face count inclusive.
pub open spec fn spec_sample_ok(s: Seq<u32>, dice: u32, amount: u32) -> bool {
    s.len() == amount && (forall|i: int| 0 <= i < s.len() ==> 1 <= #[trigger] s[i] <= dice)
}

/// The display label of a specification.
pub open spec fn spec_roll_label(dice: u32, amount: u32) -> Seq<char> {
    spec_dec_nat(amount as nat) + seq!['d'] + spec_dec_nat(dice as nat)
}

/// Relies on `rand`'s `Rng::gen_range` over the inclusive range `1..=faces`:
/// the drawn value is uniformly distributed within that range, and the call
/// does not panic because the range is not empty.
#[verifier::external_body]
fn sample_die(faces: u32) -> (r: u32)
    requires
        faces >= 1,
    ensures
        1 <= r <= faces,
{
    rand::thread_rng().gen_range(1..=faces)
}

impl Roll {
    /// Builds a specification and its display label.  Validity is checked at
    /// sampling time, so degenerate face or dice counts are representable but
    /// never sampled.
    pub fn new(dice: u32, amount: u32) -> (r: Roll)
        ensures
            r.dice == dice,
            r.amount == amount,
            !r.pinned,
            r.dice_label@ == spec_roll_label(dice, amount),
    {
        let mut label = String::new();
        push_u32_dec(&mut label, amount);
        push_char(&mut label, 'd');
        push_u32_dec(&mut label, dice);
        assert(label@ =~= spec_roll_label(dice, amount));
        Roll { pinned: false, dice_label: label, dice, amount }
    }

    /// Draws the sample of a specification already known to be valid.
    pub fn sample_values(&self) -> (v: Vec<u32>)
        requires
            spec_roll_valid(self.dice, self.amount),
        ensures
            spec_sample_ok(v@, self.dice, self.amount),
    {
        let mut v: Vec<u32> = Vec::new();
        let mut i: u32 = 0;
        while i < self.amount
            invariant
                i <= self.amount,
                self.dice >= 1,
                v@.len() == i,
                forall|j: int| 0 <= j < v@.len() ==> 1 <= #[trigger] v@[j] <= self.dice,
            decreases self.amount - i,
        {
            let d = sample_die(self.dice);
            v.push(d);
            i = i + 1;
        }
        v
    }

    /// Draws one value per die, each uniformly in `[1, dice]`.
    ///
    /// Returns `InvalidRollSpec`, and nothing else, exactly when the
    /// specification asks for fewer than one face or fewer than one die.
    pub fn sample(&self) -> (r: Result<Vec<u32>, EngineError>)
        ensures
            match r {
                Ok(v) => spec_roll_valid(self.dice, self.amount) && spec_sample_ok(
                    v@,
                    self.dice,
                    self.amount,
                ),
                Err(e) => !spec_roll_valid(self.dice, self.amount) && e
                    == EngineError::InvalidRollSpec,
            },
    {
        if self.dice < 1 || self.amount < 1 {
            Err(EngineError::InvalidRollSpec)
        } else {
            Ok(self.sample_values())
        }
    }
}

} // verus!
