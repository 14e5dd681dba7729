use gm_helper_corelibrary::{Attribute, Boon, Counter, EngineError, Outcome, Roll, Skill, Story};
use gm_helper_corelibrary::entities::ability_modifier;
use gm_helper_corelibrary::decimal::{i32_to_dec, u32_to_dec};
use gm_helper_corelibrary::text::{count_words, escape_special_chars, escape_sql};

fn fixed_outcome(base: i32, critical: u32, attribute: bool) -> Outcome {
    Outcome {
        roll_description: String::from("Roll: fixed"),
        base_result: base,
        max: 0,
        min: 0,
        attribute,
        critical,
    }
}

#[test]
fn sample_within_bounds() {
    let roll = Roll::new(6, 100);
    let values = roll.sample().unwrap();
    assert_eq!(values.len(), 100);
    for v in values {
        assert!((1..=6).contains(&v));
    }
}

#[test]
fn sample_single_face_is_deterministic() {
    let roll = Roll::new(1, 5);
    assert_eq!(roll.sample().unwrap(), vec![1, 1, 1, 1, 1]);
}

#[test]
fn sample_rejects_zero_faces() {
    let roll = Roll::new(0, 3);
    assert_eq!(roll.sample().unwrap_err(), EngineError::InvalidRollSpec);
}

#[test]
fn sample_rejects_zero_dice() {
    let roll = Roll::new(6, 0);
    assert_eq!(roll.sample().unwrap_err(), EngineError::InvalidRollSpec);
}

#[test]
fn roll_label_format() {
    let roll = Roll::new(6, 3);
    assert_eq!(roll.dice_label, "3d6");
    assert!(!roll.pinned);
}

#[test]
fn resolve_drops_first_minimum_for_attributes() {
    let roll = Roll::new(6, 4);
    let outcome = Outcome::resolve_sampled(&roll, vec![3, 1, 4, 1], 20, true);
    assert_eq!(outcome.base_result, 8); // 3 + 4 + 1, first 1 dropped
    assert_eq!(outcome.max, 4);
    assert_eq!(outcome.min, 1);
    assert_eq!(outcome.roll_description, "Roll: 4d6");
    assert!(outcome.attribute);
    assert_eq!(outcome.critical, 20);
}

#[test]
fn resolve_swaps_extremes_under_low_threshold() {
    let roll = Roll::new(6, 4);
    let outcome = Outcome::resolve_sampled(&roll, vec![3, 1, 4, 1], 1, true);
    // Under the low-favorable threshold the max field holds the numeric
    // minimum, and the drop rule removes one occurrence of that field.
    assert_eq!(outcome.max, 1);
    assert_eq!(outcome.min, 4);
    assert_eq!(outcome.base_result, 8);
}

#[test]
fn resolve_keeps_all_values_without_drop_rule() {
    let roll = Roll::new(6, 4);
    let outcome = Outcome::resolve_sampled(&roll, vec![3, 1, 4, 1], 20, false);
    assert_eq!(outcome.base_result, 9);
}

#[test]
fn resolve_single_die_attribute_yields_zero() {
    let roll = Roll::new(6, 1);
    let outcome = Outcome::resolve_sampled(&roll, vec![4], 20, true);
    assert_eq!(outcome.base_result, 0);
}

#[test]
fn outcome_new_rejects_invalid_spec() {
    let roll = Roll::new(0, 2);
    assert_eq!(
        Outcome::new(&roll, 20, false).unwrap_err(),
        EngineError::InvalidRollSpec
    );
}

#[test]
fn success_high_favorable_against_difficulty() {
    let o = fixed_outcome(12, 20, false);
    assert_eq!(o.success_of_roll(None, 10), (true, 10));
    assert_eq!(o.success_of_roll(None, 12), (true, 12));
    assert_eq!(o.success_of_roll(None, 15), (false, 15));
}

#[test]
fn success_low_favorable_against_difficulty() {
    let o = fixed_outcome(12, 1, false);
    assert_eq!(o.success_of_roll(None, 15), (true, 15));
    assert_eq!(o.success_of_roll(None, 10), (false, 10));
}

#[test]
fn success_against_attribute_opposition_uses_its_base() {
    let me = fixed_outcome(12, 20, false);
    let opposition = fixed_outcome(11, 20, true);
    // The opposition is an attribute roll, so its base result becomes the
    // effective difficulty.
    assert_eq!(me.success_of_roll(Some(&opposition), 99), (true, 11));
    let stronger = fixed_outcome(13, 20, true);
    assert_eq!(me.success_of_roll(Some(&stronger), 0), (false, 13));
}

#[test]
fn success_against_plain_opposition_keeps_difficulty() {
    let me = fixed_outcome(12, 20, false);
    let opposition = fixed_outcome(11, 20, false);
    assert_eq!(me.success_of_roll(Some(&opposition), 12), (true, 12));
    assert_eq!(me.success_of_roll(Some(&opposition), 13), (false, 13));
}

#[test]
fn skill_proficiency_is_constant_one() {
    for level in [0, 1, 4, 17] {
        let skill = Skill::new(1, 1, String::from("Stealth"), level, 3, true).unwrap();
        assert_eq!(skill.proficiency, 1);
    }
}

#[test]
fn skill_description_with_and_without_proficiency() {
    let with = Skill::new(1, 1, String::from("Stealth"), 2, 3, true).unwrap();
    assert_eq!(with.get_description().unwrap(), "Stealth 3(1)");
    let without = Skill::new(1, 1, String::from("Stealth"), 2, 3, false).unwrap();
    assert_eq!(without.get_description().unwrap(), "Stealth 3");
}

#[test]
fn roll_skill_plain_applies_proficiency_once() {
    let skill = Skill::new(1, 1, String::from("Stealth"), 2, 3, true).unwrap();
    let result = skill.roll_skill(Boon::Plain, 20, 10);
    assert_eq!(result.label, "Stealth");
    assert_eq!(result.proficiency, 1);
    assert_eq!(result.difficulty, 10);
    assert!((2..=21).contains(&result.result)); // one d20 plus proficiency 1
    assert_eq!(result.success, result.result >= 10);
}

#[test]
fn roll_skill_advantage_and_disadvantage_stay_in_range() {
    for boon in [Boon::Advantage, Boon::Disadvantage] {
        let skill = Skill::new(1, 1, String::from("Athletics"), 2, 3, true).unwrap();
        let result = skill.roll_skill(boon, 20, 30);
        assert!((2..=21).contains(&result.result));
        assert!(!result.success); // difficulty 30 is out of reach on a d20 + 1
    }
}

#[test]
fn roll_skill_low_threshold_flips_comparison() {
    let skill = Skill::new(1, 1, String::from("Stealth"), 2, 3, true).unwrap();
    let result = skill.roll_skill(Boon::Plain, 1, 25);
    assert!(result.success); // every result is at most 21, which is <= 25
}

#[test]
fn skill_result_describe_format() {
    let skill = Skill::new(1, 1, String::from("Stealth"), 2, 3, true).unwrap();
    let result = skill.roll_skill(Boon::Advantage, 20, 10);
    let text = result.describe(&Boon::Advantage);
    let expected = format!(
        "Stealth(1) - rolled with advantage {}, {} vs 10",
        result.result,
        if result.success { "success" } else { "failure" }
    );
    assert_eq!(text, expected);
}

#[test]
fn ability_modifier_floors_toward_negative_infinity() {
    assert_eq!(ability_modifier(10), 0);
    assert_eq!(ability_modifier(11), 0);
    assert_eq!(ability_modifier(12), 1);
    assert_eq!(ability_modifier(15), 2);
    assert_eq!(ability_modifier(9), -1);
    assert_eq!(ability_modifier(8), -1);
    assert_eq!(ability_modifier(7), -2);
    assert_eq!(ability_modifier(3), -4);
    assert_eq!(ability_modifier(0), -5);
}

#[test]
fn attribute_new_derives_modifier_from_roll() {
    let attribute = Attribute::new(
        1,
        1,
        String::from("STR"),
        String::from("strength"),
        Roll::new(6, 4),
        20,
    )
    .unwrap();
    assert_eq!(attribute.modifier, ability_modifier(attribute.roll.base_result));
    assert!(attribute.roll.attribute);
    let described = attribute.clone().get_description();
    let expected = format!(
        "STR {}({})",
        attribute.roll.base_result, attribute.modifier
    );
    assert_eq!(described, expected);
}

#[test]
fn attribute_new_rejects_invalid_spec() {
    let err = Attribute::new(
        1,
        1,
        String::from("STR"),
        String::from("strength"),
        Roll::new(6, 0),
        20,
    )
    .unwrap_err();
    assert_eq!(err, EngineError::InvalidRollSpec);
}

#[test]
fn attribute_edit_shifts_base_and_recomputes() {
    let mut attribute = Attribute::new(
        1,
        1,
        String::from("STR"),
        String::from("strength"),
        Roll::new(6, 4),
        20,
    )
    .unwrap();
    let base = attribute.roll.base_result;
    attribute.edit(String::from("STR"), -base + 7);
    assert_eq!(attribute.roll.base_result, 7);
    assert_eq!(attribute.modifier, -2);
    assert_eq!(attribute.description, "STR 7 (-2)");
}

#[test]
fn counter_resets_on_overflow_then_counts_again() {
    let mut counter = Counter::new(1, 1, String::from("momentum"), 9999);
    counter.increment(10);
    assert_eq!(counter.number, 0);
    counter.decrement(1);
    assert_eq!(counter.number, -1);
}

#[test]
fn counter_new_zeroes_out_of_range_start() {
    assert_eq!(Counter::new(1, 1, String::from("c"), 20000).number, 0);
    assert_eq!(Counter::new(1, 1, String::from("c"), -20000).number, 0);
    assert_eq!(Counter::new(1, 1, String::from("c"), 10000).number, 10000);
    assert_eq!(Counter::new(1, 1, String::from("c"), -10000).number, -10000);
}

#[test]
fn counter_decrement_resets_below_lower_bound() {
    let mut counter = Counter::new(1, 1, String::from("c"), -9999);
    counter.decrement(2);
    assert_eq!(counter.number, 0);
}

#[test]
fn counter_description_format() {
    let counter = Counter::new(7, 1, String::from("hp"), -5);
    assert_eq!(counter.get_description(), "hp: -5");
}

#[test]
fn story_escapes_quotes_and_counts_words() {
    let story = Story::new(1, 1, "intro", "the bard's tale begins").unwrap();
    assert_eq!(story.raw_narration, "the bard''s tale begins");
    assert_eq!(story.clone().get_word_count(), 4);
    assert_eq!(story.summary().unwrap(), "the bard''s tale begins");
}

#[test]
fn story_edit_replaces_text() {
    let mut story = Story::new(1, 1, "intro", "once").unwrap();
    story.edit(String::from("intro2"), String::from("twice told"));
    assert_eq!(story.label, "intro2");
    assert_eq!(story.raw_narration, "twice told");
}

#[test]
fn word_count_handles_runs_of_whitespace() {
    assert_eq!(count_words(""), 0);
    assert_eq!(count_words("   "), 0);
    assert_eq!(count_words("a  b\t\nc"), 3);
}

#[test]
fn escape_sql_doubles_single_quotes() {
    assert_eq!(escape_sql("it's a'b'"), "it''s a''b''");
    assert_eq!(escape_sql("plain"), "plain");
}

#[test]
fn escape_special_chars_forward_and_reverse() {
    assert_eq!(escape_special_chars("100% a_b", false), "100\\% a\\_b");
    assert_eq!(escape_special_chars("100\\% a\\_b", true), "100% a_b");
    assert_eq!(escape_special_chars("quote'here", false), "quote\\'here");
    // Reverse only collapses the wildcard escapes.
    assert_eq!(escape_special_chars("quote\\'here", true), "quote\\'here");
}

#[test]
fn decimal_rendering() {
    assert_eq!(u32_to_dec(0), "0");
    assert_eq!(u32_to_dec(10000), "10000");
    assert_eq!(i32_to_dec(-42), "-42");
    assert_eq!(i32_to_dec(7), "7");
}
