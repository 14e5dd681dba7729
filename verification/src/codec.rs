//! The table wire format: a JSON-compatible array of single-key objects,
//! each key spelling `"{lower},{upper}"` and each value the row's text.
//! Serialization and parsing are both defined here, with the parser proved to
//! invert the serializer.

use vstd::prelude::*;
use crate::decimal::{spec_digit, spec_dec_nat, push_u32_dec};
use crate::errors::EngineError;
use crate::table::{Table, TableRow, spec_row_ok, spec_table_wf};
use crate::text::{push_char, str_chars};

verus! {

/// The lowercase hexadecimal digit for a value below sixteen.
pub open spec fn spec_hex_digit(d: int) -> char
    recommends
        0 <= d < 16,
{
    if d == 0 {
        '0'
    } else if d == 1 {
        '1'
    } else if d == 2 {
        '2'
    } else if d == 3 {
        '3'
    } else if d == 4 {
        '4'
    } else if d == 5 {
        '5'
    } else if d == 6 {
        '6'
    } else if d == 7 {
        '7'
    } else if d == 8 {
        '8'
    } else if d == 9 {
        '9'
    } else if d == 10 {
        'a'
    } else if d == 11 {
        'b'
    } else if d == 12 {
        'c'
    } else if d == 13 {
        'd'
    } else if d == 14 {
        'e'
    } else {
        'f'
    }
}

/// Whether the character is a lowercase hexadecimal digit.
pub open spec fn spec_is_hex(c: char) -> bool {
    c == '0' || c == '1' || c == '2' || c == '3' || c == '4' || c == '5' || c == '6' || c == '7'
        || c == '8' || c == '9' || c == 'a' || c == 'b' || c == 'c' || c == 'd' || c == 'e' || c
        == 'f'
}

/// The value of a lowercase hexadecimal digit character.
pub open spec fn spec_hex_val(c: char) -> int {
    if c == '0' {
        0
    } else if c == '1' {
        1
    } else if c == '2' {
        2
    } else if c == '3' {
        3
    } else if c == '4' {
        4
    } else if c == '5' {
        5
    } else if c == '6' {
        6
    } else if c == '7' {
        7
    } else if c == '8' {
        8
    } else if c == '9' {
        9
    } else if c == 'a' {
        10
    } else if c == 'b' {
        11
    } else if c == 'c' {
        12
    } else if c == 'd' {
        13
    } else if c == 'e' {
        14
    } else {
        15
    }
}

/// Whether the character is a control character, which JSON strings must not
/// hold raw.
pub open spec fn spec_is_ctrl(c: char) -> bool {
    0 <= (c as int) < 32
}

/// How one character of row text is written: quotes and backslashes get a
/// backslash before them, control characters become a `\u00` hex escape, and
/// everything else stands for itself.
pub open spec fn spec_esc_char(c: char) -> Seq<char> {
    if c == '"' || c == '\\' {
        seq!['\\', c]
    } else if spec_is_ctrl(c) {
        seq!['\\', 'u', '0', '0', spec_hex_digit(c as int / 16), spec_hex_digit(c as int % 16)]
    } else {
        seq![c]
    }
}

/// Row text as written: every character escaped as needed.
pub open spec fn spec_esc_text(t: Seq<char>) -> Seq<char>
    decreases t.len(),
{
    if t.len() == 0 {
        Seq::empty()
    } else {
        spec_esc_char(t[0]) + spec_esc_text(t.drop_first())
    }
}

/// One row as written: `{"lower,upper":"text"}`.
pub open spec fn spec_ser_row(lower: u32, upper: u32, t: Seq<char>) -> Seq<char> {
    seq!['{', '"'] + spec_dec_nat(lower as nat) + seq![','] + spec_dec_nat(upper as nat) + seq![
        '"',
        ':',
        '"',
    ] + spec_esc_text(t) + seq!['"', '}']
}

/// A non-empty run of rows as written: the rows in order, separated by
/// commas.
pub open spec fn spec_ser_rows(rows: Seq<TableRow>) -> Seq<char>
    decreases rows.len(),
{
    if rows.len() == 0 {
        Seq::empty()
    } else if rows.len() == 1 {
        spec_ser_row(rows[0].0.0, rows[0].0.1, rows[0].1@)
    } else {
        spec_ser_row(rows[0].0.0, rows[0].0.1, rows[0].1@) + seq![','] + spec_ser_rows(
            rows.drop_first(),
        )
    }
}

/// A whole table as written: the rows bracketed.
pub open spec fn spec_ser_table(rows: Seq<TableRow>) -> Seq<char> {
    seq!['['] + spec_ser_rows(rows) + seq![']']
}

/// The lowercase hexadecimal digit for a value below sixteen.
fn hex_digit_char(d: u32) -> (c: char)
    requires
        d < 16,
    ensures
        c == spec_hex_digit(d as int),
{
    match d {
        0 => '0',
        1 => '1',
        2 => '2',
        3 => '3',
        4 => '4',
        5 => '5',
        6 => '6',
        7 => '7',
        8 => '8',
        9 => '9',
        10 => 'a',
        11 => 'b',
        12 => 'c',
        13 => 'd',
        14 => 'e',
        _ => 'f',
    }
}

/// The code point of a character.
fn char_code(c: char) -> (v: u32)
    ensures
        v as int == c as int,
{
    c as u32
}

/// The character with a code point below thirty-two.
fn char_of_code(v: u8) -> (c: char)
    requires
        v < 32,
    ensures
        c == (v as int) as char,
{
    v as char
}

/// Appends the escaped text to the string.
fn push_escaped(out: &mut String, t: &str)
    ensures
        final(out)@ == old(out)@ + spec_esc_text(t@),
{
    let chars = str_chars(t);
    let mut i: usize = 0;
    proof {
        assert(t@.skip(0) =~= t@);
    }
    while i < chars.len()
        invariant
            i <= chars@.len(),
            chars@ == t@,
            out@ + spec_esc_text(t@.skip(i as int)) == old(out)@ + spec_esc_text(t@),
        decreases chars@.len() - i,
    {
        let c = chars[i];
        proof {
            let rest = t@.skip(i as int);
            assert(rest[0] == t@[i as int]);
            assert(rest.drop_first() =~= t@.skip(i + 1));
        }
        if c == '"' || c == '\\' {
            push_char(out, '\\');
            push_char(out, c);
        } else if char_code(c) < 32 {
            let v = char_code(c);
            proof {
                assert(spec_is_ctrl(c));
                assert((v / 16) as int == (c as int) / 16);
                assert((v % 16) as int == (c as int) % 16);
            }
            push_char(out, '\\');
            push_char(out, 'u');
            push_char(out, '0');
            push_char(out, '0');
            push_char(out, hex_digit_char(v / 16));
            push_char(out, hex_digit_char(v % 16));
        } else {
            push_char(out, c);
        }
        proof {
            assert(out@ + spec_esc_text(t@.skip(i + 1)) =~= old(out)@ + spec_esc_text(t@));
        }
        i = i + 1;
    }
    proof {
        assert(t@.skip(t@.len() as int) =~= Seq::<char>::empty());
        assert(out@ =~= old(out)@ + spec_esc_text(t@));
    }
}

/// Appends one serialized row to the string.
fn push_row(out: &mut String, row: &TableRow)
    ensures
        final(out)@ == old(out)@ + spec_ser_row(row.0.0, row.0.1, row.1@),
{
    push_char(out, '{');
    push_char(out, '"');
    push_u32_dec(out, row.0.0);
    push_char(out, ',');
    push_u32_dec(out, row.0.1);
    push_char(out, '"');
    push_char(out, ':');
    push_char(out, '"');
    push_escaped(out, row.1.as_str());
    push_char(out, '"');
    push_char(out, '}');
    assert(final(out)@ =~= old(out)@ + spec_ser_row(row.0.0, row.0.1, row.1@));
}

/// Writes rows as the wire format spells them.
pub fn serialize_rows(rows: &Vec<TableRow>) -> (r: String)
    ensures
        r@ == spec_ser_table(rows@),
{
    let mut out = String::new();
    push_char(&mut out, '[');
    let mut i: usize = 0;
    proof {
        assert(rows@.skip(0) =~= rows@);
    }
    while i < rows.len()
        invariant
            i <= rows@.len(),
            out@ + spec_ser_rows(rows@.skip(i as int)) + seq![']'] == spec_ser_table(rows@),
        decreases rows@.len() - i,
    {
        proof {
            let rest = rows@.skip(i as int);
            assert(rest[0] == rows@[i as int]);
            assert(rest.drop_first() =~= rows@.skip(i + 1));
        }
        push_row(&mut out, &rows[i]);
        if i + 1 < rows.len() {
            push_char(&mut out, ',');
        }
        proof {
            assert(out@ + spec_ser_rows(rows@.skip(i + 1)) + seq![']'] =~= spec_ser_table(rows@));
        }
        i = i + 1;
    }
    proof {
        assert(rows@.skip(rows@.len() as int) =~= Seq::<TableRow>::empty());
    }
    push_char(&mut out, ']');
    proof {
        assert(out@ =~= spec_ser_table(rows@));
    }
    out
}

/// Whether the character is a decimal digit.
pub open spec fn spec_is_digit(c: char) -> bool {
    c == '0' || c == '1' || c == '2' || c == '3' || c == '4' || c == '5' || c == '6' || c == '7'
        || c == '8' || c == '9'
}

/// The value of a decimal digit character.
pub open spec fn spec_digit_val(c: char) -> int {
    if c == '0' {
        0
    } else if c == '1' {
        1
    } else if c == '2' {
        2
    } else if c == '3' {
        3
    } else if c == '4' {
        4
    } else if c == '5' {
        5
    } else if c == '6' {
        6
    } else if c == '7' {
        7
    } else if c == '8' {
        8
    } else {
        9
    }
}

/// The first position at or after `i` that does not hold a digit.
pub open spec fn spec_digits_end(s: Seq<char>, i: int) -> int
    recommends
        0 <= i <= s.len(),
    decreases s.len() - i,
{
    if i < s.len() && spec_is_digit(s[i]) {
        spec_digits_end(s, i + 1)
    } else {
        i
    }
}

/// The value of the digit run `s[i..j)`, read most significant first.
pub open spec fn spec_digits_val(s: Seq<char>, i: int, j: int) -> int
    decreases j - i,
{
    if j <= i {
        0
    } else {
        spec_digits_val(s, i, j - 1) * 10 + spec_digit_val(s[j - 1])
    }
}

/// Parses a number at `i`: a non-empty run of at most nine digits.  Yields
/// the value and the position after the run.
pub open spec fn spec_parse_num(s: Seq<char>, i: int) -> Option<(int, int)> {
    let j = spec_digits_end(s, i);
    if j == i || j - i > 9 {
        None
    } else {
        Some((spec_digits_val(s, i, j), j))
    }
}

/// Parses quoted-string content at `i` up to the closing quote, undoing
/// backslash escapes: a `\u00` hex escape stands for a control character and
/// any other escaped character stands for itself.  Yields the content and
/// the position after the quote.
pub open spec fn spec_parse_string(s: Seq<char>, i: int) -> Option<(Seq<char>, int)>
    decreases s.len() - i,
{
    if i < 0 || i >= s.len() {
        None
    } else if s[i] == '"' {
        Some((Seq::empty(), i + 1))
    } else if s[i] == '\\' {
        if i + 1 >= s.len() {
            None
        } else if s[i + 1] == 'u' {
            if i + 5 < s.len() && s[i + 2] == '0' && s[i + 3] == '0' && (s[i + 4] == '0' || s[i
                + 4] == '1') && spec_is_hex(s[i + 5]) {
                let v = spec_hex_val(s[i + 4]) * 16 + spec_hex_val(s[i + 5]);
                match spec_parse_string(s, i + 6) {
                    Some((t, j)) => Some((seq![v as char] + t, j)),
                    None => None,
                }
            } else {
                None
            }
        } else {
            match spec_parse_string(s, i + 2) {
                Some((t, j)) => Some((seq![s[i + 1]] + t, j)),
                None => None,
            }
        }
    } else {
        match spec_parse_string(s, i + 1) {
            Some((t, j)) => Some((seq![s[i]] + t, j)),
            None => None,
        }
    }
}

/// Parses one row at `i`: `{"lower,upper":"text"}`.  Yields the bounds and
/// text, and the position after the closing brace.
pub open spec fn spec_parse_row(s: Seq<char>, i: int) -> Option<((int, int, Seq<char>), int)> {
    if !(0 <= i && i + 2 <= s.len() && s[i] == '{' && s[i + 1] == '"') {
        None
    } else {
        match spec_parse_num(s, i + 2) {
            None => None,
            Some((lower, j)) => if !(j < s.len() && s[j] == ',') {
                None
            } else {
                match spec_parse_num(s, j + 1) {
                    None => None,
                    Some((upper, k)) => if !(k + 3 <= s.len() && s[k] == '"' && s[k + 1] == ':'
                        && s[k + 2] == '"') {
                        None
                    } else {
                        match spec_parse_string(s, k + 3) {
                            None => None,
                            Some((t, m)) => if !(m < s.len() && s[m] == '}') {
                                None
                            } else {
                                Some(((lower, upper, t), m + 1))
                            },
                        }
                    },
                }
            },
        }
    }
}

/// Parses one or more comma-separated rows starting at `i`.  Yields the rows
/// and the position after the last one.
pub open spec fn spec_parse_rows(s: Seq<char>, i: int) -> Option<(Seq<(int, int, Seq<char>)>, int)>
    decreases s.len() - i,
{
    match spec_parse_row(s, i) {
        None => None,
        Some((row, j)) => if j < s.len() && s[j] == ',' {
            if j + 1 <= i {
                None
            } else {
                match spec_parse_rows(s, j + 1) {
                    None => None,
                    Some((rest, k)) => Some((seq![row] + rest, k)),
                }
            }
        } else {
            Some((seq![row], j))
        },
    }
}

/// Parses a whole serialized table: `[]`, or rows bracketed with no slack.
pub open spec fn spec_parse_table(s: Seq<char>) -> Option<Seq<(int, int, Seq<char>)>> {
    if s.len() == 2 && s[0] == '[' && s[1] == ']' {
        Some(Seq::empty())
    } else if s.len() > 0 && s[0] == '[' {
        match spec_parse_rows(s, 1) {
            None => None,
            Some((rows, j)) => if j + 1 == s.len() && s[j] == ']' {
                Some(rows)
            } else {
                None
            },
        }
    } else {
        None
    }
}

/// What a concrete row looks like to the parser: its bounds as integers and
/// its text as characters.
pub open spec fn spec_abstract_row(row: TableRow) -> (int, int, Seq<char>) {
    (row.0.0 as int, row.0.1 as int, row.1@)
}

/// What a concrete row sequence looks like to the parser.
pub open spec fn spec_abstract_rows(rows: Seq<TableRow>) -> Seq<(int, int, Seq<char>)> {
    Seq::new(rows.len(), |i: int| spec_abstract_row(rows[i]))
}

/// Whether a parsed row's bounds fit an acceptable concrete row.
pub open spec fn spec_parsed_row_ok(row: (int, int, Seq<char>)) -> bool {
    0 <= row.0 <= row.1 < 10000
}

/// Whether every parsed row is acceptable.
pub open spec fn spec_parsed_rows_ok(rows: Seq<(int, int, Seq<char>)>) -> bool {
    forall|i: int| 0 <= i < rows.len() ==> spec_parsed_row_ok(#[trigger] rows[i])
}

/// String parsing consumes at least the closing quote and stays within the
/// sequence.
pub proof fn lemma_parse_string_bounds(s: Seq<char>, i: int)
    requires
        0 <= i,
    ensures
        match spec_parse_string(s, i) {
            Some((t, j)) => i < j <= s.len(),
            None => true,
        },
    decreases s.len() - i,
{
    if 0 <= i && i < s.len() {
        if s[i] == '"' {
        } else if s[i] == '\\' {
            if i + 1 < s.len() {
                if s[i + 1] == 'u' {
                    if i + 5 < s.len() && s[i + 2] == '0' && s[i + 3] == '0' && (s[i + 4] == '0'
                        || s[i + 4] == '1') && spec_is_hex(s[i + 5]) {
                        lemma_parse_string_bounds(s, i + 6);
                    }
                } else {
                    lemma_parse_string_bounds(s, i + 2);
                }
            }
        } else {
            lemma_parse_string_bounds(s, i + 1);
        }
    }
}

/// Powers of ten.
pub open spec fn spec_pow10(k: nat) -> nat
    decreases k,
{
    if k == 0 {
        1
    } else {
        10 * spec_pow10((k - 1) as nat)
    }
}

/// The decimal digits of a number are digits, and there is at least one.
proof fn lemma_dec_digits(n: nat)
    ensures
        spec_dec_nat(n).len() >= 1,
        forall|k: int|
            0 <= k < spec_dec_nat(n).len() ==> spec_is_digit(#[trigger] spec_dec_nat(n)[k]),
    decreases n,
{
    if n < 10 {
        assert(spec_is_digit(spec_digit(n as int)));
    } else {
        lemma_dec_digits(n / 10);
        assert(spec_is_digit(spec_digit((n % 10) as int)));
        assert forall|k: int|
            0 <= k < spec_dec_nat(n).len() implies spec_is_digit(
            #[trigger] spec_dec_nat(n)[k],
        ) by {
            if k < spec_dec_nat(n).len() - 1 {
                assert(spec_dec_nat(n)[k] == spec_dec_nat(n / 10)[k]);
            }
        }
    }
}

/// A number below the `k`-th power of ten has at most `k` digits.
proof fn lemma_dec_len(n: nat, k: nat)
    requires
        k >= 1,
        n < spec_pow10(k),
    ensures
        spec_dec_nat(n).len() <= k,
    decreases n,
{
    if n < 10 {
    } else {
        assert(spec_pow10(k) == 10 * spec_pow10((k - 1) as nat));
        if k == 1 {
            assert(spec_pow10(0nat) == 1);
            assert(false);
        }
        assert(10 * (n / 10) <= n) by {
            vstd::arithmetic::div_mod::lemma_fundamental_div_mod(n as int, 10);
        }
        assert(n / 10 < spec_pow10((k - 1) as nat));
        lemma_dec_len(n / 10, (k - 1) as nat);
    }
}

/// A run known to be all digits followed by a non-digit ends the digit scan
/// exactly there.
proof fn lemma_digits_end_range(s: Seq<char>, i: int, j: int)
    requires
        0 <= i <= j <= s.len(),
        forall|k: int| i <= k < j ==> spec_is_digit(#[trigger] s[k]),
        j == s.len() || !spec_is_digit(s[j]),
    ensures
        spec_digits_end(s, i) == j,
    decreases j - i,
{
    if i < j {
        lemma_digits_end_range(s, i + 1, j);
    }
}

/// Reading the digit character of a value gives the value back.
proof fn lemma_digit_val_of_digit(d: int)
    requires
        0 <= d < 10,
    ensures
        spec_digit_val(spec_digit(d)) == d,
{
}

/// Reading a digit run that spells a number gives the number back.
proof fn lemma_digits_val_at(s: Seq<char>, i: int, n: nat)
    requires
        0 <= i,
        i + spec_dec_nat(n).len() <= s.len(),
        s.subrange(i, i + spec_dec_nat(n).len()) == spec_dec_nat(n),
    ensures
        spec_digits_val(s, i, i + spec_dec_nat(n).len()) == n,
    decreases n,
{
    let d = spec_dec_nat(n);
    if n < 10 {
        assert(s[i] == d[0]);
        lemma_digit_val_of_digit(n as int);
        assert(spec_digits_val(s, i, i) == 0);
    } else {
        let dq = spec_dec_nat(n / 10);
        assert(d == dq.push(spec_digit((n % 10) as int)));
        assert(s.subrange(i, i + dq.len()) =~= dq) by {
            assert forall|k: int| 0 <= k < dq.len() implies s.subrange(i, i + dq.len())[k]
                == dq[k] by {
                assert(s[i + k] == d[k]);
                assert(d[k] == dq[k]);
            }
        }
        lemma_digits_val_at(s, i, n / 10);
        assert(s[i + d.len() - 1] == d[d.len() - 1]);
        lemma_digit_val_of_digit((n % 10) as int);
        assert(spec_digits_val(s, i, i + d.len()) == spec_digits_val(s, i, i + dq.len()) * 10
            + spec_digit_val(s[i + d.len() - 1]));
        vstd::arithmetic::div_mod::lemma_fundamental_div_mod(n as int, 10);
    }
}

/// A number written at `i`, with a non-digit after it or nothing at all,
/// parses back to itself.
proof fn lemma_parse_num_at(s: Seq<char>, i: int, n: nat)
    requires
        0 <= i,
        n < 10000,
        i + spec_dec_nat(n).len() <= s.len(),
        s.subrange(i, i + spec_dec_nat(n).len()) == spec_dec_nat(n),
        i + spec_dec_nat(n).len() == s.len() || !spec_is_digit(s[i + spec_dec_nat(n).len()]),
    ensures
        spec_parse_num(s, i) == Some((n as int, i + spec_dec_nat(n).len())),
{
    let d = spec_dec_nat(n);
    lemma_dec_digits(n);
    assert(spec_pow10(0nat) == 1);
    assert(spec_pow10(1nat) == 10);
    assert(spec_pow10(2nat) == 100);
    assert(spec_pow10(3nat) == 1000);
    assert(spec_pow10(4nat) == 10000);
    lemma_dec_len(n, 4);
    assert forall|k: int| i <= k < i + d.len() implies spec_is_digit(#[trigger] s[k]) by {
        assert(s[k] == d[k - i]);
    }
    lemma_digits_end_range(s, i, i + d.len());
    lemma_digits_val_at(s, i, n);
}

/// Escaped text written at `i` with a closing quote after it parses back to
/// the original text.
proof fn lemma_parse_string_at(s: Seq<char>, i: int, t: Seq<char>)
    requires
        0 <= i,
        i + spec_esc_text(t).len() + 1 <= s.len(),
        s.subrange(i, i + spec_esc_text(t).len()) == spec_esc_text(t),
        s[i + spec_esc_text(t).len()] == '"',
    ensures
        spec_parse_string(s, i) == Some((t, i + spec_esc_text(t).len() + 1)),
    decreases t.len(),
{
    let e = spec_esc_text(t);
    if t.len() == 0 {
        assert(s[i] == '"');
    } else {
        let c = t[0];
        let t1 = t.drop_first();
        let e1 = spec_esc_text(t1);
        assert(e == spec_esc_char(c) + e1);
        if c == '"' || c == '\\' {
            assert(e[0] == '\\' && e[1] == c);
            assert(s[i] == '\\');
            assert(s[i + 1] == c);
            assert(s.subrange(i + 2, i + 2 + e1.len()) =~= e1) by {
                assert forall|k: int| 0 <= k < e1.len() implies s.subrange(
                    i + 2,
                    i + 2 + e1.len(),
                )[k] == e1[k] by {
                    assert(s[i + 2 + k] == e[2 + k]);
                    assert(e[2 + k] == e1[k]);
                }
            }
            assert(s[i + 2 + e1.len()] == '"');
            lemma_parse_string_at(s, i + 2, t1);
            assert(seq![s[i + 1]] + t1 =~= t);
        } else if spec_is_ctrl(c) {
            let cv = c as int;
            vstd::arithmetic::div_mod::lemma_fundamental_div_mod(cv, 16);
            assert(0 <= cv / 16 < 2) by {
                assert(0 <= cv < 32);
                vstd::arithmetic::div_mod::lemma_mod_division_less_than_divisor(cv, 16);
                assert(cv == 16 * (cv / 16) + cv % 16);
                assert(0 <= cv % 16 < 16);
            };
            assert(e[0] == '\\');
            assert(e[1] == 'u');
            assert(e[2] == '0');
            assert(e[3] == '0');
            assert(e[4] == spec_hex_digit(cv / 16));
            assert(e[5] == spec_hex_digit(cv % 16));
            assert(s[i] == '\\');
            assert(s[i + 1] == 'u');
            assert(s[i + 2] == '0');
            assert(s[i + 3] == '0');
            assert(s[i + 4] == spec_hex_digit(cv / 16));
            assert(s[i + 5] == spec_hex_digit(cv % 16));
            assert(s[i + 4] == '0' || s[i + 4] == '1');
            assert(spec_is_hex(s[i + 5]));
            assert(spec_hex_val(s[i + 4]) * 16 + spec_hex_val(s[i + 5]) == cv);
            assert(cv as char == c);
            assert(s.subrange(i + 6, i + 6 + e1.len()) =~= e1) by {
                assert forall|k: int| 0 <= k < e1.len() implies s.subrange(
                    i + 6,
                    i + 6 + e1.len(),
                )[k] == e1[k] by {
                    assert(s[i + 6 + k] == e[6 + k]);
                    assert(e[6 + k] == e1[k]);
                }
            }
            assert(s[i + 6 + e1.len()] == '"');
            lemma_parse_string_at(s, i + 6, t1);
            assert(seq![cv as char] + t1 =~= t);
        } else {
            assert(e[0] == c);
            assert(s[i] == c);
            assert(s.subrange(i + 1, i + 1 + e1.len()) =~= e1) by {
                assert forall|k: int| 0 <= k < e1.len() implies s.subrange(
                    i + 1,
                    i + 1 + e1.len(),
                )[k] == e1[k] by {
                    assert(s[i + 1 + k] == e[1 + k]);
                    assert(e[1 + k] == e1[k]);
                }
            }
            assert(s[i + 1 + e1.len()] == '"');
            lemma_parse_string_at(s, i + 1, t1);
            assert(seq![s[i]] + t1 =~= t);
        }
    }
}

/// A window of a window: reading a slice of an already-located run reads the
/// matching slice of the run itself.
proof fn lemma_seg(s: Seq<char>, i: int, r: Seq<char>, a: int, b: int)
    requires
        0 <= i,
        i + r.len() <= s.len(),
        s.subrange(i, i + r.len()) == r,
        0 <= a <= b <= r.len(),
    ensures
        s.subrange(i + a, i + b) == r.subrange(a, b),
{
    assert forall|k: int| 0 <= k < b - a implies s.subrange(i + a, i + b)[k] == r.subrange(
        a,
        b,
    )[k] by {
        assert(s.subrange(i, i + r.len())[a + k] == r[a + k]);
    }
    assert(s.subrange(i + a, i + b) =~= r.subrange(a, b));
}

/// A row written at `i` parses back to its bounds and text.
proof fn lemma_parse_row_at(s: Seq<char>, i: int, lower: u32, upper: u32, t: Seq<char>)
    requires
        0 <= i,
        lower < 10000,
        upper < 10000,
        i + spec_ser_row(lower, upper, t).len() <= s.len(),
        s.subrange(i, i + spec_ser_row(lower, upper, t).len()) == spec_ser_row(lower, upper, t),
    ensures
        spec_parse_row(s, i) == Some(
            ((lower as int, upper as int, t), i + spec_ser_row(lower, upper, t).len()),
        ),
{
    let r = spec_ser_row(lower, upper, t);
    let dlo = spec_dec_nat(lower as nat);
    let dhi = spec_dec_nat(upper as nat);
    let et = spec_esc_text(t);
    let l1 = dlo.len() as int;
    let l2 = dhi.len() as int;
    let le = et.len() as int;
    lemma_dec_digits(lower as nat);
    lemma_dec_digits(upper as nat);
    assert(r.len() == l1 + l2 + le + 8);
    assert forall|k: int| 0 <= k < r.len() implies s[i + k] == r[k] by {
        assert(s.subrange(i, i + r.len())[k] == r[k]);
    }
    assert(r[0] == '{');
    assert(r[1] == '"');
    assert(r.subrange(2, 2 + l1) =~= dlo);
    assert(r[2 + l1] == ',');
    assert(r.subrange(3 + l1, 3 + l1 + l2) =~= dhi);
    assert(r[3 + l1 + l2] == '"');
    assert(r[4 + l1 + l2] == ':');
    assert(r[5 + l1 + l2] == '"');
    assert(r.subrange(6 + l1 + l2, 6 + l1 + l2 + le) =~= et);
    assert(r[6 + l1 + l2 + le] == '"');
    assert(r[7 + l1 + l2 + le] == '}');
    assert(s[i] == '{');
    assert(s[i + 1] == '"');
    lemma_seg(s, i, r, 2, 2 + l1);
    assert(s[i + 2 + l1] == ',');
    assert(!spec_is_digit(s[i + 2 + l1]));
    lemma_parse_num_at(s, i + 2, lower as nat);
    lemma_seg(s, i, r, 3 + l1, 3 + l1 + l2);
    assert(s[i + 3 + l1 + l2] == '"');
    assert(!spec_is_digit(s[i + 3 + l1 + l2]));
    lemma_parse_num_at(s, i + 3 + l1, upper as nat);
    assert(s[i + 4 + l1 + l2] == ':');
    assert(s[i + 5 + l1 + l2] == '"');
    lemma_seg(s, i, r, 6 + l1 + l2, 6 + l1 + l2 + le);
    assert(s[i + 6 + l1 + l2 + le] == '"');
    lemma_parse_string_at(s, i + 6 + l1 + l2, t);
    assert(s[i + 7 + l1 + l2 + le] == '}');
}

/// A non-empty run of rows written at `i`, with no comma directly after it,
/// parses back to the rows.
proof fn lemma_parse_rows_at(s: Seq<char>, i: int, rows: Seq<TableRow>)
    requires
        rows.len() >= 1,
        0 <= i,
        spec_table_wf(rows),
        i + spec_ser_rows(rows).len() < s.len(),
        s.subrange(i, i + spec_ser_rows(rows).len()) == spec_ser_rows(rows),
        s[i + spec_ser_rows(rows).len()] != ',',
    ensures
        spec_parse_rows(s, i) == Some(
            (spec_abstract_rows(rows), i + spec_ser_rows(rows).len()),
        ),
    decreases rows.len(),
{
    let run = spec_ser_rows(rows);
    let row0 = rows[0];
    let r0 = spec_ser_row(row0.0.0, row0.0.1, row0.1@);
    assert(spec_row_ok(rows[0].0.0, rows[0].0.1));
    if rows.len() == 1 {
        assert(run == r0);
        lemma_parse_row_at(s, i, row0.0.0, row0.0.1, row0.1@);
        let j = i + r0.len();
        assert(s[j] != ',');
        assert(spec_abstract_rows(rows) =~= seq![spec_abstract_row(row0)]);
    } else {
        let rest = rows.drop_first();
        let r1 = spec_ser_rows(rest);
        assert(run == r0 + seq![','] + r1);
        assert(run.len() == r0.len() + 1 + r1.len());
        assert forall|k: int| 0 <= k < run.len() implies s[i + k] == run[k] by {
            assert(s.subrange(i, i + run.len())[k] == run[k]);
        }
        assert(run.subrange(0, r0.len() as int) =~= r0);
        assert(run[r0.len() as int] == ',');
        assert(run.subrange(r0.len() + 1int, run.len() as int) =~= r1);
        lemma_seg(s, i, run, 0, r0.len() as int);
        lemma_parse_row_at(s, i, row0.0.0, row0.0.1, row0.1@);
        let j = i + r0.len();
        assert(s[j] == ',');
        lemma_seg(s, i, run, r0.len() + 1int, run.len() as int);
        assert(s[i + run.len() as int] != ',');
        assert(spec_table_wf(rest)) by {
            assert forall|k: int| 0 <= k < rest.len() implies spec_row_ok(
                #[trigger] rest[k].0.0,
                rest[k].0.1,
            ) by {
                assert(rest[k] == rows[k + 1]);
                assert(spec_row_ok(rows[k + 1].0.0, rows[k + 1].0.1));
            }
        }
        lemma_parse_rows_at(s, j + 1, rest);
        assert(seq![spec_abstract_row(row0)] + spec_abstract_rows(rest) =~= spec_abstract_rows(
            rows,
        )) by {
            assert forall|k: int| 0 <= k < rows.len() implies (seq![spec_abstract_row(row0)]
                + spec_abstract_rows(rest))[k] == spec_abstract_rows(rows)[k] by {
                if k >= 1 {
                    assert(rest[k - 1] == rows[k]);
                }
            }
        }
    }
}

/// Parsing a serialized table yields exactly the rows that were written, in
/// order: the parser inverts the serializer on every acceptable table.
pub proof fn lemma_table_round_trip(rows: Seq<TableRow>)
    requires
        spec_table_wf(rows),
    ensures
        spec_parse_table(spec_ser_table(rows)) == Some(spec_abstract_rows(rows)),
{
    let s = spec_ser_table(rows);
    let run = spec_ser_rows(rows);
    assert(s.len() == run.len() + 2);
    if rows.len() == 0 {
        assert(run == Seq::<char>::empty());
        assert(s.len() == 2);
        assert(s[0] == '[');
        assert(s[1] == ']');
        assert(spec_abstract_rows(rows) =~= Seq::<(int, int, Seq<char>)>::empty());
    } else {
        let row0 = rows[0];
        let r0 = spec_ser_row(row0.0.0, row0.0.1, row0.1@);
        lemma_dec_digits(row0.0.0 as nat);
        lemma_dec_digits(row0.0.1 as nat);
        assert(r0.len() >= 8);
        assert(run.len() >= 8) by {
            if rows.len() == 1 {
            } else {
                assert(run == r0 + seq![','] + spec_ser_rows(rows.drop_first()));
            }
        }
        assert(s.len() > 2);
        assert(s[0] == '[');
        assert(s.subrange(1, 1 + run.len() as int) =~= run) by {
            assert forall|k: int| 0 <= k < run.len() implies s.subrange(1, 1 + run.len() as int)[k]
                == run[k] by {
                assert(s[1 + k] == (seq!['['] + run + seq![']'])[1 + k]);
            }
        }
        assert(s[1 + run.len() as int] == ']');
        lemma_parse_rows_at(s, 1, rows);
    }
}

/// Whether the character is a decimal digit.
fn is_digit_char(c: char) -> (b: bool)
    ensures
        b == spec_is_digit(c),
{
    c == '0' || c == '1' || c == '2' || c == '3' || c == '4' || c == '5' || c == '6' || c == '7'
        || c == '8' || c == '9'
}

/// The value of a decimal digit character.
fn digit_val_char(c: char) -> (v: u32)
    requires
        spec_is_digit(c),
    ensures
        v == spec_digit_val(c),
{
    if c == '0' {
        0
    } else if c == '1' {
        1
    } else if c == '2' {
        2
    } else if c == '3' {
        3
    } else if c == '4' {
        4
    } else if c == '5' {
        5
    } else if c == '6' {
        6
    } else if c == '7' {
        7
    } else if c == '8' {
        8
    } else {
        9
    }
}

/// Scans past the digits starting at `i`.
fn digits_end(cs: &Vec<char>, i: usize) -> (r: usize)
    requires
        i <= cs@.len(),
    ensures
        r == spec_digits_end(cs@, i as int),
        i <= r <= cs@.len(),
{
    let mut k: usize = i;
    while k < cs.len()
        invariant_except_break
            i <= k <= cs@.len(),
            spec_digits_end(cs@, i as int) == spec_digits_end(cs@, k as int),
        ensures
            i <= k <= cs@.len(),
            spec_digits_end(cs@, i as int) == k,
        decreases cs@.len() - k,
    {
        if !is_digit_char(cs[k]) {
            break;
        }
        k = k + 1;
    }
    k
}

/// Parses a number at `i` exactly as the specification parser does.
fn parse_num_at(cs: &Vec<char>, i: usize) -> (r: Option<(u32, usize)>)
    requires
        i <= cs@.len(),
    ensures
        match r {
            Some((v, j)) => spec_parse_num(cs@, i as int) == Some((v as int, j as int)) && i < j
                <= cs@.len(),
            None => spec_parse_num(cs@, i as int) is None,
        },
{
    let j = digits_end(cs, i);
    if j == i || j - i > 9 {
        return None;
    }
    proof {
        assert(spec_pow10(0nat) == 1);
        assert(spec_pow10(1nat) == 10);
        assert(spec_pow10(2nat) == 100);
        assert(spec_pow10(3nat) == 1000);
        assert(spec_pow10(4nat) == 10000);
        assert(spec_pow10(5nat) == 100000);
        assert(spec_pow10(6nat) == 1000000);
        assert(spec_pow10(7nat) == 10000000);
        assert(spec_pow10(8nat) == 100000000);
        assert(spec_pow10(9nat) == 1000000000);
    }
    let ghost end = spec_digits_end(cs@, i as int);
    let mut acc: u64 = 0;
    let mut k: usize = i;
    while k < j
        invariant
            i <= k <= j <= cs@.len(),
            j == spec_digits_end(cs@, i as int),
            j - i <= 9,
            acc == spec_digits_val(cs@, i as int, k as int),
            0 <= acc < spec_pow10((k - i) as nat),
            spec_pow10((j - i) as nat) <= 1000000000,
        decreases j - k,
    {
        proof {
            lemma_digits_end_in_run(cs@, i as int, k as int);
            assert(spec_pow10((k + 1 - i) as nat) == 10 * spec_pow10((k - i) as nat));
            lemma_pow10_le((k + 1 - i) as nat, (j - i) as nat);
        }
        let d = digit_val_char(cs[k]);
        acc = acc * 10 + (d as u64);
        k = k + 1;
    }
    Some((acc as u32, j))
}

/// Every position inside a digit run holds a digit.
proof fn lemma_digits_end_in_run(s: Seq<char>, i: int, k: int)
    requires
        0 <= i <= k,
        k < spec_digits_end(s, i),
    ensures
        k < s.len(),
        spec_is_digit(s[k]),
    decreases k - i,
{
    lemma_digits_end_bounds_any(s, i);
    if i < k {
        lemma_digits_end_in_run(s, i + 1, k)
    }
}

/// The digit scan never moves backwards, from any start.
proof fn lemma_digits_end_bounds_any(s: Seq<char>, i: int)
    requires
        0 <= i,
    ensures
        i <= spec_digits_end(s, i) <= vstd::math::max(i, s.len() as int),
    decreases s.len() - i,
{
    if i < s.len() && spec_is_digit(s[i]) {
        lemma_digits_end_bounds_any(s, i + 1);
    }
}

/// Powers of ten grow with the exponent.
proof fn lemma_pow10_le(a: nat, b: nat)
    requires
        a <= b,
    ensures
        spec_pow10(a) <= spec_pow10(b),
    decreases b,
{
    if a < b {
        lemma_pow10_le(a, (b - 1) as nat);
        assert(spec_pow10(b) == 10 * spec_pow10((b - 1) as nat));
        assert(spec_pow10((b - 1) as nat) >= 1) by {
            lemma_pow10_pos((b - 1) as nat);
        }
    }
}

/// Powers of ten are positive.
proof fn lemma_pow10_pos(a: nat)
    ensures
        spec_pow10(a) >= 1,
    decreases a,
{
    if a > 0 {
        lemma_pow10_pos((a - 1) as nat);
    }
}

/// Whether the character is a lowercase hexadecimal digit.
fn is_hex_char(c: char) -> (b: bool)
    ensures
        b == spec_is_hex(c),
{
    c == '0' || c == '1' || c == '2' || c == '3' || c == '4' || c == '5' || c == '6' || c == '7'
        || c == '8' || c == '9' || c == 'a' || c == 'b' || c == 'c' || c == 'd' || c == 'e' || c
        == 'f'
}

/// The value of a lowercase hexadecimal digit character.
fn hex_val_char(c: char) -> (v: u8)
    requires
        spec_is_hex(c),
    ensures
        v == spec_hex_val(c),
{
    if c == '0' {
        0
    } else if c == '1' {
        1
    } else if c == '2' {
        2
    } else if c == '3' {
        3
    } else if c == '4' {
        4
    } else if c == '5' {
        5
    } else if c == '6' {
        6
    } else if c == '7' {
        7
    } else if c == '8' {
        8
    } else if c == '9' {
        9
    } else if c == 'a' {
        10
    } else if c == 'b' {
        11
    } else if c == 'c' {
        12
    } else if c == 'd' {
        13
    } else if c == 'e' {
        14
    } else {
        15
    }
}

/// Parses quoted-string content at `i` exactly as the specification parser
/// does.
fn parse_string_at(cs: &Vec<char>, i: usize) -> (r: Option<(String, usize)>)
    requires
        i <= cs@.len(),
    ensures
        match r {
            Some((t, j)) => spec_parse_string(cs@, i as int) == Some((t@, j as int)) && i < j
                <= cs@.len(),
            None => spec_parse_string(cs@, i as int) is None,
        },
{
    let mut out = String::new();
    let mut k: usize = i;
    while k < cs.len()
        invariant
            i <= k <= cs@.len(),
            spec_parse_string(cs@, i as int) == (match spec_parse_string(cs@, k as int) {
                Some((t, j)) => Some((out@ + t, j)),
                None => None::<(Seq<char>, int)>,
            }),
        decreases cs@.len() - k,
    {
        let c = cs[k];
        if c == '"' {
            proof {
                assert(out@ + Seq::<char>::empty() =~= out@);
                lemma_parse_string_bounds(cs@, i as int);
            }
            return Some((out, k + 1));
        } else if c == '\\' {
            if k + 1 >= cs.len() {
                return None;
            }
            if cs[k + 1] == 'u' {
                if k + 2 < cs.len() && k + 3 < cs.len() && k + 4 < cs.len() && k + 5 < cs.len()
                    && cs[k + 2] == '0' && cs[k + 3] == '0' && (cs[k + 4] == '0' || cs[k + 4]
                    == '1') && is_hex_char(cs[k + 5]) {
                    let v: u8 = hex_val_char(cs[k + 4]) * 16 + hex_val_char(cs[k + 5]);
                    let decoded = char_of_code(v);
                    let ghost out0 = out@;
                    push_char(&mut out, decoded);
                    proof {
                        if spec_parse_string(cs@, k + 6) is Some {
                            let (t, j) = spec_parse_string(cs@, k + 6).unwrap();
                            assert(out@ + t =~= out0 + (seq![(v as int) as char] + t));
                        }
                    }
                    k = k + 6;
                } else {
                    return None;
                }
            } else {
                let ghost out0 = out@;
                push_char(&mut out, cs[k + 1]);
                proof {
                    if spec_parse_string(cs@, k + 2) is Some {
                        let (t, j) = spec_parse_string(cs@, k + 2).unwrap();
                        assert(out@ + t =~= out0 + (seq![cs@[k + 1]] + t));
                    }
                }
                k = k + 2;
            }
        } else {
            let ghost out0 = out@;
            push_char(&mut out, c);
            proof {
                if spec_parse_string(cs@, k + 1) is Some {
                    let (t, j) = spec_parse_string(cs@, k + 1).unwrap();
                    assert(out@ + t =~= out0 + (seq![cs@[k as int]] + t));
                }
            }
            k = k + 1;
        }
    }
    None
}

/// Parses one row at `i` exactly as the specification parser does.
fn parse_row_at(cs: &Vec<char>, i: usize) -> (r: Option<((u32, u32, String), usize)>)
    requires
        i <= cs@.len(),
    ensures
        match r {
            Some(((lower, upper, t), j)) => spec_parse_row(cs@, i as int) == Some(
                ((lower as int, upper as int, t@), j as int),
            ) && i < j <= cs@.len(),
            None => spec_parse_row(cs@, i as int) is None,
        },
{
    if !(i < cs.len() && i + 1 < cs.len() && cs[i] == '{' && cs[i + 1] == '"') {
        return None;
    }
    let (lower, j) = match parse_num_at(cs, i + 2) {
        Some(p) => p,
        None => {
            return None;
        },
    };
    if !(j < cs.len() && cs[j] == ',') {
        return None;
    }
    let (upper, k) = match parse_num_at(cs, j + 1) {
        Some(p) => p,
        None => {
            return None;
        },
    };
    if !(k < cs.len() && k + 1 < cs.len() && k + 2 < cs.len() && cs[k] == '"' && cs[k + 1]
        == ':' && cs[k + 2] == '"') {
        return None;
    }
    let (t, m) = match parse_string_at(cs, k + 3) {
        Some(p) => p,
        None => {
            return None;
        },
    };
    if !(m < cs.len() && cs[m] == '}') {
        return None;
    }
    Some(((lower, upper, t), m + 1))
}

/// Parses one or more comma-separated rows at `i` exactly as the
/// specification parser does, building the concrete rows.
fn parse_rows_at(cs: &Vec<char>, i: usize) -> (r: Option<(Vec<TableRow>, usize)>)
    requires
        i <= cs@.len(),
    ensures
        match r {
            Some((v, j)) => spec_parse_rows(cs@, i as int) == Some(
                (spec_abstract_rows(v@), j as int),
            ) && i < j <= cs@.len(),
            None => spec_parse_rows(cs@, i as int) is None,
        },
{
    let mut acc: Vec<TableRow> = Vec::new();
    let mut k: usize = i;
    proof {
        assert(spec_abstract_rows(acc@) =~= Seq::<(int, int, Seq<char>)>::empty());
    }
    loop
        invariant
            i <= k <= cs@.len(),
            match spec_parse_rows(cs@, k as int) {
                Some((rest, j)) => spec_parse_rows(cs@, i as int) == Some(
                    (spec_abstract_rows(acc@) + rest, j),
                ),
                None => spec_parse_rows(cs@, i as int) is None,
            },
        decreases cs@.len() - k,
    {
        let (row, j) = match parse_row_at(cs, k) {
            Some(p) => p,
            None => {
                return None;
            },
        };
        let ghost acc0 = acc@;
        acc.push(((row.0, row.1), row.2));
        proof {
            assert(spec_abstract_rows(acc@) =~= spec_abstract_rows(acc0) + seq![
                (row.0 as int, row.1 as int, row.2@),
            ]) by {
                assert forall|n: int| 0 <= n < acc@.len() implies spec_abstract_rows(acc@)[n]
                    == (spec_abstract_rows(acc0) + seq![(row.0 as int, row.1 as int, row.2@)])[n] by {
                    if n < acc0.len() {
                        assert(acc@[n] == acc0[n]);
                    }
                }
            }
        }
        if j < cs.len() && cs[j] == ',' {
            proof {
                let (rowspec, jj) = spec_parse_row(cs@, k as int).unwrap();
                if spec_parse_rows(cs@, j + 1) is Some {
                    let (rest, m) = spec_parse_rows(cs@, j + 1).unwrap();
                    assert(spec_abstract_rows(acc0) + (seq![(row.0 as int, row.1 as int, row.2@)]
                        + rest) =~= spec_abstract_rows(acc@) + rest);
                }
            }
            k = j + 1;
        } else {
            proof {
                assert(spec_parse_rows(cs@, k as int) == Some(
                    (seq![(row.0 as int, row.1 as int, row.2@)], j as int),
                ));
                assert(spec_abstract_rows(acc0) + seq![(row.0 as int, row.1 as int, row.2@)]
                    =~= spec_abstract_rows(acc@));
            }
            return Some((acc, j));
        }
    }
}

/// Parses a whole serialized table exactly as the specification parser does.
fn parse_table(cs: &Vec<char>) -> (r: Option<Vec<TableRow>>)
    ensures
        match r {
            Some(v) => spec_parse_table(cs@) == Some(spec_abstract_rows(v@)),
            None => spec_parse_table(cs@) is None,
        },
{
    if cs.len() == 2 && cs[0] == '[' && cs[1] == ']' {
        let empty: Vec<TableRow> = Vec::new();
        proof {
            assert(spec_abstract_rows(empty@) =~= Seq::<(int, int, Seq<char>)>::empty());
        }
        return Some(empty);
    }
    if !(cs.len() > 0 && cs[0] == '[') {
        return None;
    }
    match parse_rows_at(cs, 1) {
        Some((v, j)) => {
            if j < cs.len() && j + 1 == cs.len() && cs[j] == ']' {
                Some(v)
            } else {
                None
            }
        },
        None => None,
    }
}

/// Reads rows back from the wire format.
///
/// Returns `SerializationError` exactly when the text does not spell a
/// serialized table, and `InvalidTableRange` exactly when it does but some
/// row's range is decreasing or beyond the numeric cap; otherwise the parsed
/// rows come back acceptable and in written order.
pub fn deserialize_rows(s: &str) -> (r: Result<Vec<TableRow>, EngineError>)
    ensures
        match r {
            Ok(v) => {
                &&& spec_parse_table(s@) == Some(spec_abstract_rows(v@))
                &&& spec_table_wf(v@)
            },
            Err(e) => {
                &&& (e == EngineError::SerializationError || e == EngineError::InvalidTableRange)
                &&& (e == EngineError::SerializationError <==> spec_parse_table(s@) is None)
                &&& (e == EngineError::InvalidTableRange ==> !spec_parsed_rows_ok(
                    spec_parse_table(s@).unwrap(),
                ))
            },
        },
{
    let cs = str_chars(s);
    let v = match parse_table(&cs) {
        Some(v) => v,
        None => {
            return Err(EngineError::SerializationError);
        },
    };
    let mut i: usize = 0;
    while i < v.len()
        invariant
            i <= v@.len(),
            spec_parse_table(s@) == Some(spec_abstract_rows(v@)),
            forall|j: int| 0 <= j < i ==> spec_row_ok(#[trigger] v@[j].0.0, v@[j].0.1),
        decreases v@.len() - i,
    {
        let row = &v[i];
        if !(row.0.0 <= row.0.1 && row.0.1 < 10000) {
            proof {
                assert(spec_abstract_rows(v@)[i as int] == (
                    v@[i as int].0.0 as int,
                    v@[i as int].0.1 as int,
                    v@[i as int].1@,
                ));
                assert(!spec_parsed_row_ok(spec_abstract_rows(v@)[i as int]));
            }
            return Err(EngineError::InvalidTableRange);
        }
        i = i + 1;
    }
    Ok(v)
}

/// Parses a `"lower,upper"` range key: a number, a comma, a number, and
/// nothing else.
pub open spec fn spec_parse_key(s: Seq<char>) -> Option<(int, int)> {
    match spec_parse_num(s, 0) {
        None => None,
        Some((x, j)) => if j < s.len() && s[j] == ',' {
            match spec_parse_num(s, j + 1) {
                None => None,
                Some((y, k)) => if k == s.len() {
                    Some((x, y))
                } else {
                    None
                },
            }
        } else {
            None
        },
    }
}

/// Splits a `"lower,upper"` range key into its two bounds.
///
/// Returns `SerializationError`, and nothing else, exactly when the text is
/// not two comma-separated numbers.
pub fn parse_key(key_str: &str) -> (r: Result<(u32, u32), EngineError>)
    ensures
        match r {
            Ok((x, y)) => spec_parse_key(key_str@) == Some((x as int, y as int)),
            Err(e) => spec_parse_key(key_str@) is None && e == EngineError::SerializationError,
        },
{
    let cs = str_chars(key_str);
    let (x, j) = match parse_num_at(&cs, 0) {
        Some(p) => p,
        None => {
            return Err(EngineError::SerializationError);
        },
    };
    if !(j < cs.len() && cs[j] == ',') {
        return Err(EngineError::SerializationError);
    }
    let (y, k) = match parse_num_at(&cs, j + 1) {
        Some(p) => p,
        None => {
            return Err(EngineError::SerializationError);
        },
    };
    if k != cs.len() {
        return Err(EngineError::SerializationError);
    }
    Ok((x, y))
}

/// A key written as the wire format writes it — the two bounds in decimal
/// with a comma between them — parses back to exactly those bounds.
pub proof fn lemma_parse_key_round_trip(lower: u32, upper: u32)
    requires
        lower < 10000,
        upper < 10000,
    ensures
        spec_parse_key(
            spec_dec_nat(lower as nat) + seq![','] + spec_dec_nat(upper as nat),
        ) == Some((lower as int, upper as int)),
{
    let dlo = spec_dec_nat(lower as nat);
    let dhi = spec_dec_nat(upper as nat);
    let s = dlo + seq![','] + dhi;
    let l1 = dlo.len() as int;
    let l2 = dhi.len() as int;
    lemma_dec_digits(lower as nat);
    lemma_dec_digits(upper as nat);
    assert(s.len() == l1 + 1 + l2);
    assert(s.subrange(0, l1) =~= dlo);
    assert(s[l1] == ',');
    assert(!spec_is_digit(s[l1]));
    lemma_parse_num_at(s, 0, lower as nat);
    assert(s.subrange(l1 + 1, l1 + 1 + l2) =~= dhi);
    lemma_parse_num_at(s, l1 + 1, upper as nat);
}

impl Table {
    /// Writes the table's rows in the wire format.
    pub fn serialize(&self) -> (r: String)
        ensures
            r@ == spec_ser_table(self.table@),
    {
        serialize_rows(&self.table)
    }

    /// Rebuilds a table from text in the wire format, under fresh identity
    /// fields.
    ///
    /// Returns `SerializationError` exactly when the text does not spell a
    /// serialized table, and `InvalidTableRange` exactly when it does but
    /// some row's range is unacceptable.
    pub fn deserialize(id: u32, order_num: u32, label: String, text: &str) -> (r: Result<
        Table,
        EngineError,
    >)
        ensures
            match r {
                Ok(t) => {
                    &&& spec_parse_table(text@) == Some(spec_abstract_rows(t.table@))
                    &&& spec_table_wf(t.table@)
                    &&& t.id == id
                    &&& t.order_num == order_num
                    &&& t.label == label
                    &&& !t.edit
                },
                Err(e) => {
                    &&& (e == EngineError::SerializationError || e
                        == EngineError::InvalidTableRange)
                    &&& (e == EngineError::SerializationError <==> spec_parse_table(text@) is None)
                    &&& (e == EngineError::InvalidTableRange ==> !spec_parsed_rows_ok(
                        spec_parse_table(text@).unwrap(),
                    ))
                },
            },
    {
        match deserialize_rows(text) {
            Ok(v) => Ok(Table { edit: false, id, order_num, label, table: v }),
            Err(e) => Err(e),
        }
    }
}

} // verus!
