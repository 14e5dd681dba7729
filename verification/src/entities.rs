//! The game entities built on top of the resolver: stories, attributes,
//! skills and bounded counters.

use vstd::prelude::*;
use vstd::arithmetic::div_mod::{lemma_fundamental_div_mod, lemma_fundamental_div_mod_converse};
use vstd::string::StringExecFns;
use crate::decimal::{spec_dec_nat, spec_dec_int, push_u32_dec, push_i32_dec, push_i64_dec};
use crate::dice::{Boon, Roll, spec_roll_valid, spec_sample_ok};
use crate::errors::EngineError;
use crate::outcome::{
    Outcome, spec_outcome_fields, spec_base_result, spec_fav_max, spec_fav_min,
};
use crate::text::{push_char, escape_sql, spec_escape_sql, count_words, spec_word_count};

verus! {

/// A narration block with a label.
#[derive(Clone, Debug)]
pub struct Story {
    pub edit: bool,
    pub id: u32,
    pub order_num: u32,
    pub label: String,
    pub raw_narration: String,
}

impl Story {
    /// Builds a story, escaping single quotes in the narration on the way in.
    pub fn new(id: u32, order_num: u32, label: &str, raw_narration: &str) -> (r: Result<
        Story,
        EngineError,
    >)
        ensures
            match r {
                Ok(s) => {
                    &&& s.edit
                    &&& s.id == id
                    &&& s.order_num == order_num
                    &&& s.label@ == label@
                    &&& s.raw_narration@ == spec_escape_sql(raw_narration@)
                },
                Err(_) => false,
            },
    {
        Ok(
            Story {
                edit: true,
                id,
                order_num,
                label: String::from_str(label),
                raw_narration: escape_sql(raw_narration),
            },
        )
    }

    /// Hands back the narration unchanged; a summarizing collaborator may
    /// replace this.
    pub fn summary(self) -> (r: Result<String, EngineError>)
        ensures
            match r {
                Ok(t) => t@ == self.raw_narration@,
                Err(_) => false,
            },
    {
        Ok(self.raw_narration)
    }

    /// Counts the whitespace-separated words of the narration.
    pub fn get_word_count(self) -> (r: u32)
        requires
            self.raw_narration@.len() <= u32::MAX,
        ensures
            r == spec_word_count(self.raw_narration@, false),
    {
        count_words(self.raw_narration.as_str())
    }

    /// Replaces the label and the narration in place.
    pub fn edit(&mut self, label: String, new_text: String)
        ensures
            final(self).label == label,
            final(self).raw_narration == new_text,
            final(self).edit == old(self).edit,
            final(self).id == old(self).id,
            final(self).order_num == old(self).order_num,
    {
        self.label = label;
        self.raw_narration = new_text;
    }
}

/// The ability modifier an attribute derives from its base result:
/// `floor((base - 10) / 2)`, computed with signed flooring division.
pub open spec fn spec_modifier(base: int) -> int {
    (base - 10) / 2
}

/// Computes the ability modifier of a base result.
pub fn ability_modifier(base: i32) -> (m: i32)
    ensures
        m == spec_modifier(base as int),
{
    if base >= 10 {
        let d: u32 = ((base - 10) as u32) / 2;
        d as i32
    } else {
        let k: u64 = ((10 - (base as i64)) as u64);
        let q: u64 = (k + 1) / 2;
        proof {
            let ki = k as int;
            let qi = q as int;
            let ri = (ki + 1) % 2;
            lemma_fundamental_div_mod(ki + 1, 2);
            assert(ki + 1 == 2 * qi + ri);
            if ri == 0 {
                lemma_fundamental_div_mod_converse(-ki, 2, -qi, 1);
            } else {
                lemma_fundamental_div_mod_converse(-ki, 2, -qi, 0);
            }
            assert((base - 10) / 2 == -qi);
        }
        -((q as i64) as i32)
    }
}

/// The description text of an attribute: its label, base result, and the
/// modifier in parentheses.
pub open spec fn spec_attr_description(label: Seq<char>, base: int, modifier: int) -> Seq<char> {
    label + seq![' '] + spec_dec_int(base) + seq!['('] + spec_dec_int(modifier) + seq![')']
}

/// An ability score: a resolved attribute roll and the modifier derived from
/// it.
#[derive(Clone, Debug)]
pub struct Attribute {
    pub edit: bool,
    pub id: u32,
    pub order_num: u32,
    pub label: String,
    pub description: String,
    pub modifier: i32,
    pub roll: Outcome,
}

impl Attribute {
    /// Generates an attribute: resolves the specification as an attribute
    /// roll (so the drop rule fires) and derives the ability modifier from
    /// the base result.
    ///
    /// Returns `InvalidRollSpec`, and nothing else, exactly when the
    /// specification asks for fewer than one face or fewer than one die.
    pub fn new(
        id: u32,
        order_num: u32,
        label: String,
        description: String,
        roll: Roll,
        critical: u32,
    ) -> (r: Result<Attribute, EngineError>)
        requires
            critical == 1 || critical == 20,
            roll.amount * roll.dice <= i32::MAX,
        ensures
            match r {
                Ok(a) => {
                    &&& spec_roll_valid(roll.dice, roll.amount)
                    &&& a.id == id
                    &&& a.order_num == order_num
                    &&& a.label == label
                    &&& a.description == description
                    &&& !a.edit
                    &&& a.modifier == spec_modifier(a.roll.base_result as int)
                    &&& exists|s: Seq<u32>|
                        #[trigger] spec_sample_ok(s, roll.dice, roll.amount)
                            && spec_outcome_fields(a.roll, s, roll.dice_label@, critical, true)
                },
                Err(e) => !spec_roll_valid(roll.dice, roll.amount) && e
                    == EngineError::InvalidRollSpec,
            },
    {
        let outcome = match Outcome::new(&roll, critical, true) {
            Ok(o) => o,
            Err(e) => {
                return Err(e);
            },
        };
        let modifier = ability_modifier(outcome.base_result);
        Ok(Attribute { id, order_num, label, description, edit: false, modifier, roll: outcome })
    }

    /// Renders the attribute as `"{label} {base}({modifier})"`.
    pub fn get_description(self) -> (r: String)
        ensures
            r@ == spec_attr_description(
                self.label@,
                self.roll.base_result as int,
                self.modifier as int,
            ),
    {
        let ghost label0 = self.label@;
        let base = self.roll.base_result;
        let modifier = self.modifier;
        let mut out = self.label;
        push_char(&mut out, ' ');
        push_i32_dec(&mut out, base);
        push_char(&mut out, '(');
        push_i32_dec(&mut out, modifier);
        push_char(&mut out, ')');
        assert(out@ =~= spec_attr_description(label0, base as int, modifier as int));
        out
    }

    /// Shifts the base result by a signed delta, then recomputes the modifier
    /// and rewrites the description from the new text.
    pub fn edit(&mut self, new_text: String, change_base_by: i32)
        requires
            i32::MIN <= old(self).roll.base_result + change_base_by <= i32::MAX,
        ensures
            final(self).roll.base_result == old(self).roll.base_result + change_base_by,
            final(self).modifier == spec_modifier(final(self).roll.base_result as int),
            final(self).description@ == new_text@ + seq![' '] + spec_dec_int(
                final(self).roll.base_result as int,
            ) + seq![' ', '('] + spec_dec_int(final(self).modifier as int) + seq![')'],
            final(self).label == old(self).label,
            final(self).id == old(self).id,
            final(self).order_num == old(self).order_num,
            final(self).edit == old(self).edit,
            final(self).roll.critical == old(self).roll.critical,
            final(self).roll.attribute == old(self).roll.attribute,
            final(self).roll.max == old(self).roll.max,
            final(self).roll.min == old(self).roll.min,
            final(self).roll.roll_description == old(self).roll.roll_description,
    {
        let new_base = ((self.roll.base_result as i64) + (change_base_by as i64)) as i32;
        self.roll.base_result = new_base;
        let new_modifier = ability_modifier(new_base);
        self.modifier = new_modifier;
        let ghost text0 = new_text@;
        let mut description = new_text;
        push_char(&mut description, ' ');
        push_i32_dec(&mut description, new_base);
        push_char(&mut description, ' ');
        push_char(&mut description, '(');
        push_i32_dec(&mut description, new_modifier);
        push_char(&mut description, ')');
        proof {
            assert(description@ =~= text0 + seq![' '] + spec_dec_int(new_base as int)
                + seq![' ', '('] + spec_dec_int(new_modifier as int) + seq![')']);
        }
        self.description = description;
    }
}

/// The proficiency bonus a skill derives from its level: the fixed formula
/// `2 + (1/4 * level - 1)`, whose integer division makes it a constant 1 at
/// every level.
pub open spec fn spec_proficiency(level: int) -> int {
    2 + (1int / 4int * level - 1)
}

/// A learned skill with a proficiency bonus derived from its level.
#[derive(Clone, Debug)]
pub struct Skill {
    pub edit: bool,
    pub id: u32,
    pub order_num: u32,
    pub label: String,
    pub level: u32,
    pub skill_level: u32,
    pub has_proficiency: bool,
    pub proficiency: i32,
}

/// The record a skill roll produces: the four data fields every caller may
/// rely on.
pub struct SkillRollResult {
    pub label: String,
    pub proficiency: i32,
    pub result: i64,
    pub success: bool,
    pub difficulty: i32,
}

impl Skill {
    /// Builds a skill, deriving the proficiency bonus from the level by the
    /// fixed formula.
    pub fn new(
        id: u32,
        order_num: u32,
        label: String,
        level: u32,
        skill_level: u32,
        has_proficiency: bool,
    ) -> (r: Result<Skill, EngineError>)
        ensures
            match r {
                Ok(sk) => {
                    &&& sk.id == id
                    &&& sk.order_num == order_num
                    &&& sk.label == label
                    &&& !sk.edit
                    &&& sk.level == level
                    &&& sk.skill_level == skill_level
                    &&& sk.has_proficiency == has_proficiency
                    &&& sk.proficiency == spec_proficiency(level as int)
                },
                Err(_) => false,
            },
    {
        assert(spec_proficiency(level as int) == 1);
        Ok(
            Skill {
                id,
                order_num,
                label,
                edit: false,
                level,
                skill_level,
                has_proficiency,
                proficiency: 1,
            },
        )
    }

    /// Renders the skill as `"{label} {skill_level}({proficiency})"`, or
    /// without the parenthesis when it has no proficiency.
    pub fn get_description(self) -> (r: Result<String, EngineError>)
        ensures
            match r {
                Ok(t) => {
                    if self.has_proficiency {
                        t@ == self.label@ + seq![' '] + spec_dec_nat(self.skill_level as nat)
                            + seq!['('] + spec_dec_int(self.proficiency as int) + seq![')']
                    } else {
                        t@ == self.label@ + seq![' '] + spec_dec_nat(self.skill_level as nat)
                    }
                },
                Err(_) => false,
            },
    {
        let ghost label0 = self.label@;
        let skill_level = self.skill_level;
        let proficiency = self.proficiency;
        let mut out = self.label;
        push_char(&mut out, ' ');
        push_u32_dec(&mut out, skill_level);
        if self.has_proficiency {
            push_char(&mut out, '(');
            push_i32_dec(&mut out, proficiency);
            push_char(&mut out, ')');
            assert(out@ =~= label0 + seq![' '] + spec_dec_nat(skill_level as nat) + seq!['(']
                + spec_dec_int(proficiency as int) + seq![')']);
            return Ok(out);
        }
        assert(out@ =~= label0 + seq![' '] + spec_dec_nat(skill_level as nat));
        Ok(out)
    }

    /// Changes nothing; kept so callers have a uniform editing surface.
    pub fn edit(&mut self)
        ensures
            *final(self) == *old(self),
    {
    }

    /// Rolls the skill under a boon mode: a single d20 when plain, two d20
    /// keeping the favorable or unfavorable extreme under advantage or
    /// disadvantage, with the proficiency bonus applied as a signed
    /// adjustment; then evaluates success against the difficulty.
    ///
    /// The result's success flag always compares its numeric result against
    /// the difficulty according to the critical threshold; which numeric
    /// result comes out depends on the random sample, whose shape the
    /// postcondition pins.
    pub fn roll_skill(self, advantage: Boon, critical: u32, difficulty: i32) -> (r:
        SkillRollResult)
        requires
            critical == 1 || critical == 20,
        ensures
            r.label == self.label,
            r.proficiency == self.proficiency,
            r.difficulty == difficulty,
            r.success == if critical == 20 {
                r.result >= difficulty
            } else {
                r.result <= difficulty
            },
            match advantage {
                Boon::Advantage => exists|s: Seq<u32>|
                    #[trigger] spec_sample_ok(s, 20, 2) && r.result == spec_fav_max(s, critical)
                        + self.proficiency,
                Boon::Disadvantage => exists|s: Seq<u32>|
                    #[trigger] spec_sample_ok(s, 20, 2) && r.result == spec_fav_min(s, critical)
                        + self.proficiency,
                Boon::Plain => exists|s: Seq<u32>|
                    #[trigger] spec_sample_ok(s, 20, 1) && r.result == spec_base_result(
                        s,
                        critical,
                        false,
                    ) + self.proficiency,
            },
    {
        let result: i64 = match advantage {
            Boon::Advantage => {
                let spec = Roll::new(20, 2);
                let outcome = Outcome::from_roll(&spec, critical, false);
                let adjusted = (outcome.max as i64) + (self.proficiency as i64);
                proof {
                    let s = choose|s: Seq<u32>|
                        #[trigger] spec_sample_ok(s, spec.dice, spec.amount)
                            && spec_outcome_fields(outcome, s, spec.dice_label@, critical, false);
                    assert(spec_sample_ok(s, 20, 2) && adjusted == spec_fav_max(s, critical)
                        + self.proficiency);
                }
                adjusted
            },
            Boon::Disadvantage => {
                let spec = Roll::new(20, 2);
                let outcome = Outcome::from_roll(&spec, critical, false);
                let adjusted = (outcome.min as i64) + (self.proficiency as i64);
                proof {
                    let s = choose|s: Seq<u32>|
                        #[trigger] spec_sample_ok(s, spec.dice, spec.amount)
                            && spec_outcome_fields(outcome, s, spec.dice_label@, critical, false);
                    assert(spec_sample_ok(s, 20, 2) && adjusted == spec_fav_min(s, critical)
                        + self.proficiency);
                }
                adjusted
            },
            Boon::Plain => {
                let spec = Roll::new(20, 1);
                let outcome = Outcome::from_roll(&spec, critical, false);
                let adjusted = (outcome.base_result as i64) + (self.proficiency as i64);
                proof {
                    let s = choose|s: Seq<u32>|
                        #[trigger] spec_sample_ok(s, spec.dice, spec.amount)
                            && spec_outcome_fields(outcome, s, spec.dice_label@, critical, false);
                    assert(spec_sample_ok(s, 20, 1) && adjusted == spec_base_result(
                        s,
                        critical,
                        false,
                    ) + self.proficiency);
                }
                adjusted
            },
        };
        let success = if critical == 20 {
            result >= difficulty as i64
        } else {
            result <= difficulty as i64
        };
        SkillRollResult {
            label: self.label,
            proficiency: self.proficiency,
            result,
            success,
            difficulty,
        }
    }
}

/// The connecting phrase a skill-roll description uses for its boon mode.
pub open spec fn spec_boon_phrase(b: Boon) -> Seq<char> {
    match b {
        Boon::Advantage => " - rolled with advantage "@,
        Boon::Disadvantage => " - rolled with disadvantage "@,
        Boon::Plain => " - rolled "@,
    }
}

impl SkillRollResult {
    /// Renders the record as the presentation layer shows it:
    /// `"{label}({proficiency}) - rolled ... {result}, {success|failure} vs
    /// {difficulty}"`.
    pub fn describe(&self, advantage: &Boon) -> (r: String)
        ensures
            r@ == self.label@ + seq!['('] + spec_dec_int(self.proficiency as int) + seq![')']
                + spec_boon_phrase(*advantage) + spec_dec_int(self.result as int) + seq![',', ' ']
                + (if self.success {
                "success"@
            } else {
                "failure"@
            }) + " vs "@ + spec_dec_int(self.difficulty as int),
    {
        let mut out = self.label.clone();
        push_char(&mut out, '(');
        push_i32_dec(&mut out, self.proficiency);
        push_char(&mut out, ')');
        match advantage {
            Boon::Advantage => out.append(" - rolled with advantage "),
            Boon::Disadvantage => out.append(" - rolled with disadvantage "),
            Boon::Plain => out.append(" - rolled "),
        }
        push_i64_dec(&mut out, self.result);
        push_char(&mut out, ',');
        push_char(&mut out, ' ');
        if self.success {
            out.append("success");
        } else {
            out.append("failure");
        }
        out.append(" vs ");
        push_i32_dec(&mut out, self.difficulty);
        assert(out@ =~= self.label@ + seq!['('] + spec_dec_int(self.proficiency as int)
            + seq![')'] + spec_boon_phrase(*advantage) + spec_dec_int(self.result as int) + seq![
            ',',
            ' ',
        ] + (if self.success {
            "success"@
        } else {
            "failure"@
        }) + " vs "@ + spec_dec_int(self.difficulty as int));
        out
    }
}

/// The reset bound of a counter: a delta that lands outside
/// `[-NUMBER_LIMIT, NUMBER_LIMIT]` resets the counter to zero.
pub const NUMBER_LIMIT: i32 = 10000;

/// The value a counter holds after applying a delta: the sum, unless it left
/// the bounded range, in which case the counter resets to zero.
pub open spec fn spec_counter_apply(number: int, delta: int) -> int {
    if number + delta > NUMBER_LIMIT as int || number + delta < -(NUMBER_LIMIT as int) {
        0
    } else {
        number + delta
    }
}

/// A bounded integer with overflow-reset semantics.
#[derive(Clone, Debug)]
pub struct Counter {
    pub edit: bool,
    pub id: u32,
    pub order_num: u32,
    pub label: String,
    pub number: i32,
}

impl Counter {
    /// Builds a counter; an out-of-range initial value is replaced by zero,
    /// not clamped to the nearest bound.
    pub fn new(id: u32, order_num: u32, label: String, number: i32) -> (c: Counter)
        ensures
            c.id == id,
            c.order_num == order_num,
            c.label == label,
            !c.edit,
            c.number == if number > NUMBER_LIMIT as int || number < -(NUMBER_LIMIT as int) {
                0int
            } else {
                number as int
            },
    {
        let number = if number > NUMBER_LIMIT || number < -NUMBER_LIMIT {
            0
        } else {
            number
        };
        Counter { id, order_num, edit: false, label, number }
    }

    /// Renders the counter as `"{label}: {number}"`.
    pub fn get_description(self) -> (r: String)
        ensures
            r@ == self.label@ + seq![':', ' '] + spec_dec_int(self.number as int),
    {
        let ghost label0 = self.label@;
        let number = self.number;
        let mut out = self.label;
        push_char(&mut out, ':');
        push_char(&mut out, ' ');
        push_i32_dec(&mut out, number);
        assert(out@ =~= label0 + seq![':', ' '] + spec_dec_int(number as int));
        out
    }

    /// Adds the delta; a result outside the bounded range resets the counter
    /// to zero.
    pub fn increment(&mut self, number: i32)
        ensures
            final(self).number == spec_counter_apply(old(self).number as int, number as int),
            final(self).id == old(self).id,
            final(self).order_num == old(self).order_num,
            final(self).label == old(self).label,
            final(self).edit == old(self).edit,
    {
        let sum: i64 = (self.number as i64) + (number as i64);
        if sum > NUMBER_LIMIT as i64 || sum < -(NUMBER_LIMIT as i64) {
            self.number = 0;
        } else {
            self.number = sum as i32;
        }
    }

    /// Subtracts the delta; a result outside the bounded range resets the
    /// counter to zero.
    pub fn decrement(&mut self, number: i32)
        ensures
            final(self).number == spec_counter_apply(old(self).number as int, -(number as int)),
            final(self).id == old(self).id,
            final(self).order_num == old(self).order_num,
            final(self).label == old(self).label,
            final(self).edit == old(self).edit,
    {
        let sum: i64 = (self.number as i64) - (number as i64);
        if sum > NUMBER_LIMIT as i64 || sum < -(NUMBER_LIMIT as i64) {
            self.number = 0;
        } else {
            self.number = sum as i32;
        }
    }
}

} // verus!
