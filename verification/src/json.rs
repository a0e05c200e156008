//! JSON, read and written by `serde_json`.
//!
//! A log body is an arbitrary JSON value that the gateway never looks into,
//! so a value is carried through as it is. What the rest of the library needs
//! from a value is its compact text; of a login response also one member.

use serde_json::Value;
use vstd::prelude::*;

verus! {

/// A JSON value.
#[verifier::external_type_specification]
#[verifier::external_body]
pub struct ExValue(serde_json::Value);

/// `s` holds no control character below U+0020: no line feed, no carriage
/// return, no tab.
pub open spec fn one_line(s: Seq<char>) -> bool {
    forall|i: int| 0 <= i < s.len() ==> #[trigger] s[i] as u32 >= 0x20
}

/// What a JSON value holds, as its compact text: the text that
/// `<Value as Display>::fmt` writes. Values that differ have different texts.
pub uninterp spec fn value_text(value: Value) -> Seq<char>;

/// The hexadecimal digit for a number below 16.
pub open spec fn hex_digit(n: nat) -> char {
    if n < 10 {
        ('0' as u32 + n) as char
    } else {
        ('a' as u32 + n - 10) as char
    }
}

/// How a character stands in a JSON string: the quote, the backslash and the
/// characters below U+0020 are escaped, with a letter where JSON has one.
pub open spec fn escaped(c: char) -> Seq<char> {
    match c {
        '"' => "\\\""@,
        '\\' => "\\\\"@,
        '\u{8}' => "\\b"@,
        '\t' => "\\t"@,
        '\n' => "\\n"@,
        '\u{c}' => "\\f"@,
        '\r' => "\\r"@,
        _ => if (c as u32) < 0x20 {
            "\\u00"@ + seq![hex_digit(c as nat / 16), hex_digit(c as nat % 16)]
        } else {
            seq![c]
        },
    }
}

/// The text of the JSON string that holds `s`: its characters, escaped, in
/// double quotes.
pub open spec fn string_text(s: Seq<char>) -> Seq<char> {
    "\""@ + s.map_values(|c: char| escaped(c)).flatten() + "\""@
}

/// The compact text of the value that `serde_json::from_slice` reads from
/// `bytes`; `None` where it reports an error.
pub uninterp spec fn value_in(bytes: Seq<u8>) -> Option<Seq<char>>;

/// The pairs that `serde_json::from_str` reads from the JSON text of an array
/// of `[value, string]` pairs, each value as its compact text; `None` where it
/// reports an error.
pub uninterp spec fn pairs_in(text: Seq<char>) -> Option<Seq<(Seq<char>, Seq<char>)>>;

/// The compact text of the member that `Value::get` finds under a key of the
/// value with this compact text.
pub uninterp spec fn member_text(text: Seq<char>, key: Seq<char>) -> Option<Seq<char>>;

/// The characters that `Value::as_str` gives of the value with this compact
/// text; `None` for a value that is not a string.
pub uninterp spec fn characters(text: Seq<char>) -> Option<Seq<char>>;

/// `<serde_json::Value as Display>::fmt`, through `to_string`. The compact
/// format puts no white space between tokens, and control characters inside
/// strings are escaped, so the text holds no character below U+0020.
#[verifier::external_body]
pub(crate) fn print_value(value: &Value) -> (text: String)
    ensures
        text@ == value_text(*value),
        one_line(text@),
{
    value.to_string()
}

/// `<serde_json::Value as Display>::fmt` of a JSON string, which writes the
/// string in double quotes and escapes the quote, the backslash and the control
/// characters, so that the text holds no character below U+0020.
#[verifier::external_body]
pub(crate) fn print_string(s: &str) -> (text: String)
    ensures
        text@ == string_text(s@),
        one_line(text@),
{
    Value::from(s).to_string()
}

/// `serde_json::from_slice` into a JSON value. Which bytes it accepts is not
/// stated.
#[verifier::external_body]
pub(crate) fn read_value(bytes: &[u8]) -> (value: Option<Value>)
    ensures
        (match value {
            Some(read) => value_in(bytes@) == Some(value_text(read)),
            None => value_in(bytes@) is None,
        }),
{
    serde_json::from_slice(bytes).ok()
}

/// The pairs with the compact texts of their values and the characters of
/// their strings.
pub open spec fn pair_views(pairs: Seq<(Value, String)>) -> Seq<(Seq<char>, Seq<char>)> {
    pairs.map_values(|pair: (Value, String)| (value_text(pair.0), pair.1@))
}

/// `serde_json::from_str` into a vector of pairs of a JSON value and a string.
/// Which texts it accepts is not stated.
#[verifier::external_body]
pub(crate) fn read_pairs(text: &str) -> (pairs: Option<Vec<(Value, String)>>)
    ensures
        (match pairs {
            Some(found) => pairs_in(text@) == Some(pair_views(found@)),
            None => pairs_in(text@) is None,
        }),
{
    serde_json::from_str(text).ok()
}

/// `serde_json::Value::get` with a string key.
#[verifier::external_body]
pub(crate) fn member<'a>(value: &'a Value, key: &str) -> (found: Option<&'a Value>)
    ensures
        (match found {
            Some(inner) => member_text(value_text(*value), key@) == Some(value_text(*inner)),
            None => member_text(value_text(*value), key@) is None,
        }),
{
    value.get(key)
}

/// `<serde_json::Value as Clone>::clone`, which is derived: the copy is the
/// same value.
pub assume_specification[ <serde_json::Value as Clone>::clone ](value: &Value) -> (copy: Value)
    ensures
        copy == *value,
;

/// `serde_json::Value::as_str`.
pub assume_specification[ serde_json::Value::as_str ](value: &Value) -> (s: Option<&str>)
    ensures
        (match s {
            Some(text) => characters(value_text(*value)) == Some(text@),
            None => characters(value_text(*value)) is None,
        }),
;

// ---- what the text of a string tells --------------------------------------

spec fn inner_text(s: Seq<char>) -> Seq<char> {
    s.map_values(|c: char| escaped(c)).flatten()
}

proof fn lemma_inner_text(s: Seq<char>)
    ensures
        string_text(s) == seq!['"'] + inner_text(s) + seq!['"'],
        s.len() == 0 ==> inner_text(s) == Seq::<char>::empty(),
        s.len() > 0 ==> inner_text(s) == escaped(s[0]) + inner_text(s.drop_first()),
{
    reveal_strlit("\"");
    assert("\""@ =~= seq!['"']);
    assert(s.map_values(|c: char| escaped(c)) =~= s.map_values(|c: char| escaped(c)));
    assert(string_text(s) =~= seq!['"'] + inner_text(s) + seq!['"']);
    if s.len() > 0 {
        let pieces = s.map_values(|c: char| escaped(c));
        assert(pieces.drop_first() =~= s.drop_first().map_values(|c: char| escaped(c)));
        assert(pieces.first() == escaped(s[0]));
    }
}

/// The quote, the backslash, and the control characters for which JSON has a
/// letter stand behind a backslash; the other control characters are written
/// as `\u` with four hexadecimal digits; everything else stands for itself.
pub proof fn law_escapes_are_those_of_json(c: char)
    ensures
        c == '"' ==> escaped(c) == seq!['\\', '"'],
        c == '\\' ==> escaped(c) == seq!['\\', '\\'],
        c as u32 == 0x08 ==> escaped(c) == seq!['\\', 'b'],
        c as u32 == 0x09 ==> escaped(c) == seq!['\\', 't'],
        c as u32 == 0x0a ==> escaped(c) == seq!['\\', 'n'],
        c as u32 == 0x0c ==> escaped(c) == seq!['\\', 'f'],
        c as u32 == 0x0d ==> escaped(c) == seq!['\\', 'r'],
        c as u32 >= 0x20 && c != '"' && c != '\\' ==> escaped(c) == seq![c],
        (c as u32) < 0x20 && c as u32 != 0x08 && c as u32 != 0x09 && c as u32 != 0x0a && c as u32
            != 0x0c && c as u32 != 0x0d ==> {
            let digit = |n: int|
                if n < 10 {
                    (0x30 + n) as char
                } else {
                    (0x57 + n) as char
                };
            escaped(c) == seq![
                '\\',
                'u',
                '0',
                '0',
                digit(c as int / 16),
                digit(c as int % 16),
            ]
        },
{
    reveal_strlit("\\\"");
    reveal_strlit("\\\\");
    reveal_strlit("\\b");
    reveal_strlit("\\t");
    reveal_strlit("\\n");
    reveal_strlit("\\f");
    reveal_strlit("\\r");
    reveal_strlit("\\u00");
    assert(c == '"' ==> escaped(c) =~= seq!['\\', '"']);
    assert(c == '\\' ==> escaped(c) =~= seq!['\\', '\\']);
    assert(c as u32 == 0x08 ==> escaped(c) =~= seq!['\\', 'b']);
    assert(c as u32 == 0x09 ==> escaped(c) =~= seq!['\\', 't']);
    assert(c as u32 == 0x0a ==> escaped(c) =~= seq!['\\', 'n']);
    assert(c as u32 == 0x0c ==> escaped(c) =~= seq!['\\', 'f']);
    assert(c as u32 == 0x0d ==> escaped(c) =~= seq!['\\', 'r']);
}

/// How one character is written tells which it is, and where it ends.
proof fn lemma_escaped_is_read_back(c: char, d: char, r: Seq<char>, t: Seq<char>)
    requires
        escaped(c) + r == escaped(d) + t,
    ensures
        c == d,
        r == t,
{
    law_escapes_are_those_of_json(c);
    law_escapes_are_those_of_json(d);
    let whole = escaped(c) + r;
    let other = escaped(d) + t;
    assert(whole[0] == other[0]);
    assert(escaped(c)[0] == whole[0]);
    assert(escaped(d)[0] == other[0]);
    if whole[0] == '\\' {
        assert(escaped(c)[1] == whole[1]);
        assert(escaped(d)[1] == other[1]);
        if whole[1] == 'u' {
            assert(escaped(c)[4] == whole[4]);
            assert(escaped(d)[4] == other[4]);
            assert(escaped(c)[5] == whole[5]);
            assert(escaped(d)[5] == other[5]);
            assert(c as int == 16 * (c as int / 16) + c as int % 16);
            assert(d as int == 16 * (d as int / 16) + d as int % 16);
        }
    }
    assert(c == d);
    assert(r =~= whole.skip(escaped(c).len() as int));
    assert(t =~= other.skip(escaped(d).len() as int));
}

proof fn lemma_escaped_starts_no_quote(c: char)
    ensures
        escaped(c).len() > 0,
        escaped(c)[0] != '"',
{
    law_escapes_are_those_of_json(c);
}

proof fn lemma_inner_text_is_read_back(a: Seq<char>, b: Seq<char>, r: Seq<char>, t: Seq<char>)
    requires
        inner_text(a) + seq!['"'] + r == inner_text(b) + seq!['"'] + t,
    ensures
        a == b,
        r == t,
    decreases a.len() + b.len(),
{
    let whole = inner_text(a) + seq!['"'] + r;
    let other = inner_text(b) + seq!['"'] + t;
    lemma_inner_text(a);
    lemma_inner_text(b);
    if a.len() > 0 {
        lemma_escaped_starts_no_quote(a[0]);
        assert(whole[0] == escaped(a[0])[0]);
    } else {
        assert(whole[0] == '"');
    }
    if b.len() > 0 {
        lemma_escaped_starts_no_quote(b[0]);
        assert(other[0] == escaped(b[0])[0]);
    } else {
        assert(other[0] == '"');
    }
    if a.len() == 0 {
        assert(b.len() == 0);
        assert(a =~= b);
        assert(r =~= whole.skip(1));
        assert(t =~= other.skip(1));
    } else {
        assert(b.len() > 0);
        let behind_a = inner_text(a.drop_first()) + seq!['"'] + r;
        let behind_b = inner_text(b.drop_first()) + seq!['"'] + t;
        assert(whole =~= escaped(a[0]) + behind_a);
        assert(other =~= escaped(b[0]) + behind_b);
        lemma_escaped_is_read_back(a[0], b[0], behind_a, behind_b);
        lemma_inner_text_is_read_back(a.drop_first(), b.drop_first(), r, t);
        assert(a =~= seq![a[0]] + a.drop_first());
        assert(b =~= seq![b[0]] + b.drop_first());
    }
}

/// The text of a JSON string tells the whole string, and where it ends: from a
/// text that starts with it, the string and the rest can be told.
pub proof fn law_string_is_read_back(a: Seq<char>, b: Seq<char>, r: Seq<char>, t: Seq<char>)
    requires
        string_text(a) + r == string_text(b) + t,
    ensures
        a == b,
        r == t,
{
    lemma_inner_text(a);
    lemma_inner_text(b);
    let whole = string_text(a) + r;
    let other = string_text(b) + t;
    assert(inner_text(a) + seq!['"'] + r =~= whole.skip(1));
    assert(inner_text(b) + seq!['"'] + t =~= other.skip(1));
    lemma_inner_text_is_read_back(a, b, r, t);
}

/// A string without a quote, a backslash or a control character, such as an
/// ordinary URL, path or timestamp, stands between its quotes as it is.
pub proof fn law_plain_string_stands_as_it_is(s: Seq<char>)
    requires
        forall|i: int|
            0 <= i < s.len() ==> (#[trigger] s[i]) as u32 >= 0x20 && s[i] != '"' && s[i] != '\\',
    ensures
        string_text(s) == seq!['"'] + s + seq!['"'],
    decreases s.len(),
{
    lemma_inner_text(s);
    if s.len() == 0 {
        assert(s =~= Seq::empty());
    } else {
        let rest = s.drop_first();
        assert forall|i: int| 0 <= i < rest.len() implies (#[trigger] rest[i]) as u32 >= 0x20
            && rest[i] != '"' && rest[i] != '\\' by {
            assert(rest[i] == s[i + 1]);
        }
        law_plain_string_stands_as_it_is(rest);
        lemma_inner_text(rest);
        law_escapes_are_those_of_json(s[0]);
        assert(inner_text(rest) =~= string_text(rest).subrange(1, string_text(rest).len() - 1));
        assert(inner_text(rest) =~= rest);
        assert(inner_text(s) =~= s);
    }
}

proof fn lemma_escaped_quotes(c: char)
    ensures
        forall|i: int|
            0 <= i < escaped(c).len() && #[trigger] escaped(c)[i] == '"' ==> i > 0
                && escaped(c)[i - 1] == '\\',
{
    law_escapes_are_those_of_json(c);
    if escaped(c).len() == 6 {
        assert(escaped(c)[4] as u32 >= 0x30 && escaped(c)[5] as u32 >= 0x30);
    }
}

proof fn lemma_inner_quotes(s: Seq<char>)
    ensures
        forall|i: int|
            0 <= i < inner_text(s).len() && #[trigger] inner_text(s)[i] == '"' ==> i > 0
                && inner_text(s)[i - 1] == '\\',
    decreases s.len(),
{
    lemma_inner_text(s);
    if s.len() > 0 {
        let head = escaped(s[0]);
        let tail = inner_text(s.drop_first());
        lemma_inner_quotes(s.drop_first());
        lemma_escaped_quotes(s[0]);
        assert forall|i: int|
            0 <= i < inner_text(s).len() && #[trigger] inner_text(s)[i] == '"' implies i > 0
            && inner_text(s)[i - 1] == '\\' by {
            if i >= head.len() {
                assert(tail[i - head.len()] == '"');
                assert(tail[i - head.len() - 1] == '\\');
            } else {
                assert(head[i] == '"');
            }
        }
    }
}

proof fn lemma_last_string_starts_no_later(
    x: Seq<char>,
    y: Seq<char>,
    a: Seq<char>,
    b: Seq<char>,
)
    requires
        x + string_text(a) == y + string_text(b),
        y.len() > 0 && y.last() == ':',
    ensures
        x.len() >= y.len(),
{
    lemma_inner_text(a);
    lemma_inner_text(b);
    let whole = x + string_text(a);
    let other = y + string_text(b);
    if x.len() < y.len() {
        let q = y.len() - x.len();
        lemma_inner_quotes(a);
        assert(other.len() == y.len() + 2 + inner_text(b).len());
        assert(whole.len() == x.len() + 2 + inner_text(a).len());
        assert(other[y.len() as int] == string_text(b)[0]);
        assert(other[y.len() - 1] == ':');
        assert(whole[y.len() as int] == string_text(a)[q]);
        assert(whole[y.len() - 1] == string_text(a)[q - 1]);
        assert(string_text(a)[q] == inner_text(a)[q - 1]);
        assert(string_text(a)[q - 1] == inner_text(a)[q - 2]);
    }
}

/// Behind a key, the text of a JSON string at the end of a text tells the
/// string, and where it starts: from the text, both can be told.
pub proof fn law_last_string_is_read_back(x: Seq<char>, y: Seq<char>, a: Seq<char>, b: Seq<char>)
    requires
        x + string_text(a) == y + string_text(b),
        x.len() > 0 && x.last() == ':',
        y.len() > 0 && y.last() == ':',
    ensures
        x == y,
        a == b,
{
    let whole = x + string_text(a);
    let other = y + string_text(b);
    lemma_last_string_starts_no_later(x, y, a, b);
    lemma_last_string_starts_no_later(y, x, b, a);
    assert(x =~= whole.take(x.len() as int));
    assert(y =~= other.take(y.len() as int));
    assert(string_text(a) =~= whole.skip(x.len() as int));
    assert(string_text(b) =~= other.skip(y.len() as int));
    assert(string_text(a) + Seq::<char>::empty() =~= string_text(b) + Seq::<char>::empty());
    law_string_is_read_back(a, b, Seq::empty(), Seq::empty());
}

}
