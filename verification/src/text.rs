//! Character-level string helpers: building strings one character at a time,
//! SQL-style quote escaping, and word counting.

use vstd::prelude::*;
use vstd::string::StrSliceExecFns;

verus! {

/// Relies on `String::push`: appends exactly the given character to the end
/// of the string.
#[verifier::external_body]
pub(crate) fn push_char(s: &mut String, c: char)
    ensures
        final(s)@ == old(s)@.push(c),
{
    s.push(c);
}

/// Collects the characters of a string slice into a vector, in order.
pub fn str_chars(s: &str) -> (v: Vec<char>)
    ensures
        v@ == s@,
{
    let n = s.unicode_len();
    let mut v: Vec<char> = Vec::new();
    let mut i: usize = 0;
    while i < n
        invariant
            i <= n,
            n == s@.len(),
            v@.len() == i,
            forall|j: int| 0 <= j < i ==> v@[j] == s@[j],
        decreases n - i,
    {
        let c = s.get_char(i);
        v.push(c);
        i = i + 1;
    }
    assert(v@ =~= s@);
    v
}

/// The text with every single quote doubled, as SQL string literals want it.
pub open spec fn spec_escape_sql(s: Seq<char>) -> Seq<char>
    decreases s.len(),
{
    if s.len() == 0 {
        Seq::empty()
    } else {
        (if s[0] == '\'' {
            seq!['\'', '\'']
        } else {
            seq![s[0]]
        }) + spec_escape_sql(s.drop_first())
    }
}

proof fn lemma_escape_sql_snoc(s: Seq<char>, c: char)
    ensures
        spec_escape_sql(s.push(c)) == spec_escape_sql(s) + (if c == '\'' {
            seq!['\'', '\'']
        } else {
            seq![c]
        }),
    decreases s.len(),
{
    let t = s.push(c);
    if s.len() == 0 {
        assert(t[0] == c);
        assert(t.drop_first() =~= Seq::<char>::empty());
        assert(spec_escape_sql(Seq::<char>::empty()) == Seq::<char>::empty());
        assert(spec_escape_sql(t) =~= spec_escape_sql(s) + (if c == '\'' {
            seq!['\'', '\'']
        } else {
            seq![c]
        }));
    } else {
        assert(t.drop_first() =~= s.drop_first().push(c));
        lemma_escape_sql_snoc(s.drop_first(), c);
    }
}

/// Doubles every single quote in the text.
pub fn escape_sql(input: &str) -> (r: String)
    ensures
        r@ == spec_escape_sql(input@),
{
    let chars = str_chars(input);
    let mut out = String::new();
    let mut i: usize = 0;
    while i < chars.len()
        invariant
            i <= chars@.len(),
            chars@ == input@,
            out@ == spec_escape_sql(input@.subrange(0, i as int)),
        decreases chars@.len() - i,
    {
        let c = chars[i];
        proof {
            assert(input@.subrange(0, i + 1).drop_last() =~= input@.subrange(0, i as int));
            assert(input@.subrange(0, i + 1) =~= input@.subrange(0, i as int).push(input@[i as int]));
            lemma_escape_sql_snoc(input@.subrange(0, i as int), input@[i as int]);
        }
        if c == '\'' {
            push_char(&mut out, '\'');
            push_char(&mut out, '\'');
        } else {
            push_char(&mut out, c);
        }
        i = i + 1;
    }
    proof {
        assert(input@.subrange(0, input@.len() as int) =~= input@);
    }
    out
}

/// Whether the character starts an escape in the SQL-text escaping scheme:
/// quotes, backslash and whitespace controls, plus the `LIKE` wildcards.
pub open spec fn spec_needs_escape(c: char) -> bool {
    c == '\'' || c == '"' || c == '\\' || c == '\n' || c == '\r' || c == '\t' || c == '%' || c
        == '_'
}

/// The text with a backslash put before every character that needs one.
pub open spec fn spec_escape_special(s: Seq<char>) -> Seq<char>
    decreases s.len(),
{
    if s.len() == 0 {
        Seq::empty()
    } else {
        (if spec_needs_escape(s[0]) {
            seq!['\\', s[0]]
        } else {
            seq![s[0]]
        }) + spec_escape_special(s.drop_first())
    }
}

/// The text with every `\%` and `\_` escape collapsed back to its wildcard,
/// scanning left to right.
pub open spec fn spec_unescape_wildcards(s: Seq<char>) -> Seq<char>
    decreases s.len(),
{
    if s.len() == 0 {
        Seq::empty()
    } else if s.len() >= 2 && s[0] == '\\' && (s[1] == '%' || s[1] == '_') {
        seq![s[1]] + spec_unescape_wildcards(s.skip(2))
    } else {
        seq![s[0]] + spec_unescape_wildcards(s.skip(1))
    }
}

/// Escapes text on its way into an SQL statement, or undoes the wildcard
/// escapes on the way back out.
///
/// With `reverse` false every quote, backslash, control character and `LIKE`
/// wildcard gets a backslash put before it; with `reverse` true the `\%` and
/// `\_` pairs collapse back to their wildcard and everything else stays.
pub fn escape_special_chars(input_string: &str, reverse: bool) -> (r: String)
    ensures
        !reverse ==> r@ == spec_escape_special(input_string@),
        reverse ==> r@ == spec_unescape_wildcards(input_string@),
{
    let chars = str_chars(input_string);
    let mut out = String::new();
    let mut i: usize = 0;
    proof {
        assert(input_string@.skip(0) =~= input_string@);
    }
    if !reverse {
        while i < chars.len()
            invariant
                i <= chars@.len(),
                chars@ == input_string@,
                out@ + spec_escape_special(input_string@.skip(i as int)) == spec_escape_special(
                    input_string@,
                ),
            decreases chars@.len() - i,
        {
            let c = chars[i];
            proof {
                let rest = input_string@.skip(i as int);
                assert(rest[0] == input_string@[i as int]);
                assert(rest.drop_first() =~= input_string@.skip(i + 1));
            }
            if c == '\'' || c == '"' || c == '\\' || c == '\n' || c == '\r' || c == '\t' || c
                == '%' || c == '_' {
                push_char(&mut out, '\\');
                push_char(&mut out, c);
            } else {
                push_char(&mut out, c);
            }
            proof {
                assert(out@ + spec_escape_special(input_string@.skip(i + 1)) =~= spec_escape_special(
                    input_string@,
                ));
            }
            i = i + 1;
        }
        proof {
            assert(input_string@.skip(input_string@.len() as int) =~= Seq::<char>::empty());
            assert(out@ =~= spec_escape_special(input_string@));
        }
    } else {
        while i < chars.len()
            invariant
                i <= chars@.len(),
                chars@ == input_string@,
                out@ + spec_unescape_wildcards(input_string@.skip(i as int))
                    == spec_unescape_wildcards(input_string@),
            decreases chars@.len() - i,
        {
            let c = chars[i];
            proof {
                let rest = input_string@.skip(i as int);
                assert(rest[0] == input_string@[i as int]);
                if rest.len() >= 2 {
                    assert(rest[1] == input_string@[i + 1]);
                }
                assert(rest.skip(1) =~= input_string@.skip(i + 1));
                if rest.len() >= 2 {
                    assert(rest.skip(2) =~= input_string@.skip(i + 2));
                }
            }
            if c == '\\' && i + 1 < chars.len() && (chars[i + 1] == '%' || chars[i + 1] == '_') {
                push_char(&mut out, chars[i + 1]);
                proof {
                    assert(out@ + spec_unescape_wildcards(input_string@.skip(i + 2))
                        =~= spec_unescape_wildcards(input_string@));
                }
                i = i + 2;
            } else {
                push_char(&mut out, c);
                proof {
                    assert(out@ + spec_unescape_wildcards(input_string@.skip(i + 1))
                        =~= spec_unescape_wildcards(input_string@));
                }
                i = i + 1;
            }
        }
        proof {
            assert(input_string@.skip(input_string@.len() as int) =~= Seq::<char>::empty());
            assert(out@ =~= spec_unescape_wildcards(input_string@));
        }
    }
    out
}

/// Whether the character separates words.
pub open spec fn spec_is_space(c: char) -> bool {
    c == ' ' || c == '\t' || c == '\n' || c == '\r'
}

/// How many maximal runs of non-space characters the text holds, given
/// whether a run is already open to its left.
pub open spec fn spec_word_count(s: Seq<char>, in_word: bool) -> nat
    decreases s.len(),
{
    if s.len() == 0 {
        0
    } else if spec_is_space(s[0]) {
        spec_word_count(s.drop_first(), false)
    } else {
        (if in_word {
            0nat
        } else {
            1nat
        }) + spec_word_count(s.drop_first(), true)
    }
}

/// Counts the whitespace-separated words of the text.
pub fn count_words(s: &str) -> (r: u32)
    requires
        s@.len() <= u32::MAX,
    ensures
        r == spec_word_count(s@, false),
{
    let chars = str_chars(s);
    let mut count: usize = 0;
    let mut in_word = false;
    let mut i: usize = 0;
    proof {
        assert(s@.skip(0) =~= s@);
    }
    while i < chars.len()
        invariant
            i <= chars@.len(),
            chars@ == s@,
            count <= i,
            count + spec_word_count(s@.skip(i as int), in_word) == spec_word_count(s@, false),
        decreases chars@.len() - i,
    {
        let c = chars[i];
        proof {
            let rest = s@.skip(i as int);
            assert(rest[0] == s@[i as int]);
            assert(rest.drop_first() =~= s@.skip(i + 1));
        }
        if c == ' ' || c == '\t' || c == '\n' || c == '\r' {
            in_word = false;
        } else {
            if !in_word {
                count = count + 1;
            }
            in_word = true;
        }
        i = i + 1;
    }
    proof {
        assert(s@.skip(s@.len() as int) =~= Seq::<char>::empty());
    }
    count as u32
}

} // verus!
