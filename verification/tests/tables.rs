use gm_helper_corelibrary::{EngineError, Outcome, Table};
use gm_helper_corelibrary::codec::{deserialize_rows, parse_key};

fn outcome_with_base(base: i32) -> Outcome {
    Outcome {
        roll_description: String::from("Roll: fixed"),
        base_result: base,
        max: 0,
        min: 0,
        attribute: false,
        critical: 20,
    }
}

fn two_row_table() -> Table {
    Table::new(
        1,
        1,
        String::from("loot"),
        vec![
            ((0, 5), String::from("A")),
            ((6, 10), String::from("B")),
        ],
    )
    .unwrap()
}

const SENTINEL: &str = "Roll failed to produce a value.";

#[test]
fn lookup_hits_first_range() {
    assert_eq!(two_row_table().roll_to_text(&outcome_with_base(3)), "A");
}

#[test]
fn lookup_hits_inclusive_upper_bound() {
    assert_eq!(two_row_table().roll_to_text(&outcome_with_base(10)), "B");
}

#[test]
fn lookup_miss_yields_sentinel() {
    assert_eq!(two_row_table().roll_to_text(&outcome_with_base(11)), SENTINEL);
}

#[test]
fn lookup_negative_base_misses() {
    assert_eq!(two_row_table().roll_to_text(&outcome_with_base(-1)), SENTINEL);
}

#[test]
fn lookup_last_matching_range_wins() {
    let table = Table::new(
        1,
        1,
        String::from("t"),
        vec![
            ((0, 5), String::from("A")),
            ((3, 8), String::from("B")),
        ],
    )
    .unwrap();
    assert_eq!(table.roll_to_text(&outcome_with_base(4)), "B");
    assert_eq!(table.roll_to_text(&outcome_with_base(1)), "A");
}

#[test]
fn lookup_matched_empty_text_is_returned() {
    let table = Table::new(1, 1, String::from("t"), vec![((0, 5), String::new())]).unwrap();
    assert_eq!(table.roll_to_text(&outcome_with_base(2)), "");
}

#[test]
fn table_new_rejects_decreasing_range() {
    let err = Table::new(1, 1, String::from("t"), vec![((5, 3), String::from("A"))]).unwrap_err();
    assert_eq!(err, EngineError::InvalidTableRange);
}

#[test]
fn table_new_rejects_range_beyond_cap() {
    let err =
        Table::new(1, 1, String::from("t"), vec![((0, 10000), String::from("A"))]).unwrap_err();
    assert_eq!(err, EngineError::InvalidTableRange);
}

#[test]
fn add_row_chains_ranges_from_previous_upper_bound() {
    let mut table = Table::new(1, 1, String::from("t"), vec![]).unwrap();
    table.add_row(5, String::from("x"));
    assert_eq!(table.table[0], ((0, 5), String::from("x")));
    table.add_row(9, String::from("y"));
    assert_eq!(table.table[1], ((5, 9), String::from("y")));
}

#[test]
fn add_row_degenerates_on_non_increasing_bound() {
    let mut table = Table::new(1, 1, String::from("t"), vec![]).unwrap();
    table.add_row(5, String::from("x"));
    table.add_row(3, String::from("y"));
    assert_eq!(table.table[1], ((5, 5), String::from("y")));
}

#[test]
fn add_row_degenerates_at_numeric_cap() {
    let mut table = Table::new(1, 1, String::from("t"), vec![]).unwrap();
    table.add_row(5, String::from("x"));
    table.add_row(20000, String::from("y"));
    assert_eq!(table.table[1], ((5, 5), String::from("y")));
}

#[test]
fn clear_table_empties_rows() {
    let mut table = two_row_table();
    table.clear_table();
    assert!(table.table.is_empty());
}

#[test]
fn serialize_single_row_format() {
    let table = Table::new(1, 1, String::from("t"), vec![((0, 5), String::from("A"))]).unwrap();
    assert_eq!(table.serialize(), "[{\"0,5\":\"A\"}]");
}

#[test]
fn serialize_empty_table() {
    let table = Table::new(1, 1, String::from("t"), vec![]).unwrap();
    assert_eq!(table.serialize(), "[]");
}

#[test]
fn serialize_escapes_quotes_and_backslashes() {
    let table = Table::new(
        1,
        1,
        String::from("t"),
        vec![((0, 5), String::from("say \"hi\" \\ wave"))],
    )
    .unwrap();
    assert_eq!(
        table.serialize(),
        "[{\"0,5\":\"say \\\"hi\\\" \\\\ wave\"}]"
    );
}

#[test]
fn round_trip_preserves_rows_and_order() {
    let table = Table::new(
        3,
        1,
        String::from("loot"),
        vec![
            ((0, 5), String::from("A")),
            ((6, 10), String::from("B \"quoted\" \\ text")),
            ((10, 10), String::from("")),
        ],
    )
    .unwrap();
    let text = table.serialize();
    let back = Table::deserialize(3, 1, String::from("loot"), text.as_str()).unwrap();
    assert_eq!(back.table, table.table);
}

#[test]
fn round_trip_empty_table() {
    let table = Table::new(1, 1, String::from("t"), vec![]).unwrap();
    let back = Table::deserialize(1, 1, String::from("t"), table.serialize().as_str()).unwrap();
    assert!(back.table.is_empty());
}

#[test]
fn deserialize_handwritten_text() {
    let rows = deserialize_rows("[{\"0,5\":\"A\"},{\"6,10\":\"B\"}]").unwrap();
    assert_eq!(
        rows,
        vec![((0, 5), String::from("A")), ((6, 10), String::from("B"))]
    );
}

#[test]
fn deserialize_rejects_malformed_text() {
    for text in ["", "junk", "[", "[]extra", "[{\"0,5\":\"A\"}", "[{\"a,5\":\"A\"}]"] {
        assert_eq!(
            deserialize_rows(text).unwrap_err(),
            EngineError::SerializationError
        );
    }
}

#[test]
fn deserialize_rejects_decreasing_range() {
    assert_eq!(
        deserialize_rows("[{\"5,3\":\"A\"}]").unwrap_err(),
        EngineError::InvalidTableRange
    );
}

#[test]
fn deserialize_rejects_range_beyond_cap() {
    assert_eq!(
        deserialize_rows("[{\"0,20000\":\"A\"}]").unwrap_err(),
        EngineError::InvalidTableRange
    );
}

#[test]
fn parse_key_splits_bounds() {
    assert_eq!(parse_key("0,5").unwrap(), (0, 5));
    assert_eq!(parse_key("6,10").unwrap(), (6, 10));
    for bad in ["", "5", "5,", ",5", "a,5", "5,b", "1,2,3", "1, 2"] {
        assert_eq!(parse_key(bad).unwrap_err(), EngineError::SerializationError);
    }
}

#[test]
fn deserialize_undoes_escapes() {
    let rows = deserialize_rows("[{\"0,5\":\"a\\\\b\\\"c\"}]").unwrap();
    assert_eq!(rows, vec![((0, 5), String::from("a\\b\"c"))]);
}

#[test]
fn serialize_escapes_control_characters() {
    let table = Table::new(
        1,
        1,
        String::from("t"),
        vec![((0, 5), String::from("line\nbreak\ttab"))],
    )
    .unwrap();
    assert_eq!(
        table.serialize(),
        "[{\"0,5\":\"line\\u000abreak\\u0009tab\"}]"
    );
}

#[test]
fn round_trip_preserves_control_characters() {
    let table = Table::new(
        1,
        1,
        String::from("t"),
        vec![((0, 5), String::from("a\n\r\t\u{1}\u{1f}b"))],
    )
    .unwrap();
    let back = Table::deserialize(1, 1, String::from("t"), table.serialize().as_str()).unwrap();
    assert_eq!(back.table, table.table);
}

#[test]
fn deserialize_decodes_hex_escape() {
    let rows = deserialize_rows("[{\"0,5\":\"a\\u0009b\"}]").unwrap();
    assert_eq!(rows, vec![((0, 5), String::from("a\tb"))]);
}

#[test]
fn deserialize_rejects_malformed_hex_escape() {
    for text in [
        "[{\"0,5\":\"a\\u00\"}]",
        "[{\"0,5\":\"a\\u0041\"}]",
        "[{\"0,5\":\"a\\uzz00\"}]",
    ] {
        assert_eq!(
            deserialize_rows(text).unwrap_err(),
            EngineError::SerializationError
        );
    }
}

#[test]
fn parse_key_inverts_key_formatting() {
    for (lo, hi) in [(0u32, 0u32), (0, 9999), (9999, 9999), (42, 7)] {
        let key = format!("{},{}", lo, hi);
        assert_eq!(parse_key(key.as_str()).unwrap(), (lo, hi));
    }
}
