//! JSON text for the values that are handed to templates, in the compact
//! form in which `serde_json` writes them.

use vstd::prelude::*;
use vstd::string::*;
use crate::text::{chars_of, join_strings, join_with, push_char};
use crate::types::strings_view;

verus! {

/// The hexadecimal digit of a number below sixteen.
pub open spec fn hex_digit(n: int) -> char {
    seq!['0', '1', '2', '3', '4', '5', '6', '7', '8', '9', 'a', 'b', 'c', 'd', 'e', 'f'][n]
}

/// A character as it stands inside a JSON string, as `serde_json` writes
/// it: the quote and the backslash behind a backslash; backspace, tab, line
/// feed, form feed and carriage return as a backslash and their letter; any
/// other control character as `\u00` and two hexadecimal digits; any other
/// character as it is.
pub open spec fn escaped_char(c: char) -> Seq<char> {
    if c == '"' {
        seq!['\\', '"']
    } else if c == '\\' {
        seq!['\\', '\\']
    } else if c == '\u{8}' {
        seq!['\\', 'b']
    } else if c == '\t' {
        seq!['\\', 't']
    } else if c == '\n' {
        seq!['\\', 'n']
    } else if c == '\u{c}' {
        seq!['\\', 'f']
    } else if c == '\r' {
        seq!['\\', 'r']
    } else if (c as int) < 32 {
        seq!['\\', 'u', '0', '0', hex_digit((c as int) / 16), hex_digit((c as int) % 16)]
    } else {
        seq![c]
    }
}

/// A text as it stands inside a JSON string.
pub open spec fn escaped_text(s: Seq<char>) -> Seq<char>
    decreases s.len(),
{
    if s.len() == 0 {
        Seq::empty()
    } else {
        escaped_text(s.drop_last()) + escaped_char(s.last())
    }
}

/// The JSON string that holds a text.
pub open spec fn json_string(s: Seq<char>) -> Seq<char> {
    seq!['"'] + escaped_text(s) + seq!['"']
}

/// The JSON array of the given JSON values.
pub open spec fn json_array(items: Seq<Seq<char>>) -> Seq<char> {
    seq!['['] + join_with(items, seq![',']) + seq![']']
}

/// One member of a JSON object: the key as a JSON string, a colon, and the
/// JSON value.
pub open spec fn json_member(member: (Seq<char>, Seq<char>)) -> Seq<char> {
    json_string(member.0) + seq![':'] + member.1
}

/// The JSON object with the given keys and JSON values, in their order.
pub open spec fn json_object(members: Seq<(Seq<char>, Seq<char>)>) -> Seq<char> {
    seq!['{'] + join_with(members.map_values(|m: (Seq<char>, Seq<char>)| json_member(m)), seq![','])
        + seq!['}']
}

/// The JSON array of the JSON strings that hold the given texts.
pub open spec fn json_strings(items: Seq<Seq<char>>) -> Seq<char> {
    json_array(items.map_values(|s: Seq<char>| json_string(s)))
}

/// The JSON value `true` or `false`.
pub open spec fn json_bool(b: bool) -> Seq<char> {
    if b {
        "true"@
    } else {
        "false"@
    }
}

/// The JSON value `null`.
pub open spec fn json_null() -> Seq<char> {
    "null"@
}

/// The models of a list of members.
pub open spec fn members_view(v: Seq<(String, String)>) -> Seq<(Seq<char>, Seq<char>)> {
    crate::types::pairs_view(v)
}

/// The hexadecimal digit of a number below sixteen.
fn hex(n: u32) -> (c: char)
    requires
        n < 16,
    ensures
        c == hex_digit(n as int),
{
    let digits: [char; 16] = [
        '0',
        '1',
        '2',
        '3',
        '4',
        '5',
        '6',
        '7',
        '8',
        '9',
        'a',
        'b',
        'c',
        'd',
        'e',
        'f',
    ];
    digits[n as usize]
}

/// Appends a character as it stands inside a JSON string.
fn push_escaped(out: &mut String, c: char)
    ensures
        final(out)@ == old(out)@ + escaped_char(c),
{
    let code: u32 = c as u32;
    if c == '"' {
        push_char(out, '\\');
        push_char(out, '"');
    } else if c == '\\' {
        push_char(out, '\\');
        push_char(out, '\\');
    } else if c == '\u{8}' {
        push_char(out, '\\');
        push_char(out, 'b');
    } else if c == '\t' {
        push_char(out, '\\');
        push_char(out, 't');
    } else if c == '\n' {
        push_char(out, '\\');
        push_char(out, 'n');
    } else if c == '\u{c}' {
        push_char(out, '\\');
        push_char(out, 'f');
    } else if c == '\r' {
        push_char(out, '\\');
        push_char(out, 'r');
    } else if code < 32 {
        push_char(out, '\\');
        push_char(out, 'u');
        push_char(out, '0');
        push_char(out, '0');
        push_char(out, hex(code / 16));
        push_char(out, hex(code % 16));
    } else {
        push_char(out, c);
    }
    assert(out@ =~= old(out)@ + escaped_char(c));
}

/// The JSON string that holds a text.
pub fn string_value(s: &str) -> (r: String)
    ensures
        r@ == json_string(s@),
{
    let chars = chars_of(s);
    let mut r: String = String::new();
    push_char(&mut r, '"');
    let mut i: usize = 0;
    assert(r@ =~= seq!['"'] + escaped_text(chars@.take(0)));
    while i < chars.len()
        invariant
            chars@ == s@,
            i <= chars@.len(),
            r@ == seq!['"'] + escaped_text(chars@.take(i as int)),
        decreases chars@.len() - i,
    {
        push_escaped(&mut r, chars[i]);
        i += 1;
        proof {
            let now = chars@.take(i as int);
            assert(now.drop_last() =~= chars@.take(i - 1));
            assert(now.last() == chars@[i - 1]);
            assert(r@ =~= seq!['"'] + escaped_text(now));
        }
    }
    assert(chars@.take(i as int) =~= chars@);
    push_char(&mut r, '"');
    assert(r@ =~= json_string(s@));
    r
}

/// The JSON array of the given JSON values.
pub fn array_value(items: &Vec<String>) -> (r: String)
    ensures
        r@ == json_array(strings_view(items@)),
{
    proof {
        reveal_strlit(",");
        assert(","@ =~= seq![',']);
    }
    let inner = join_strings(items, ",");
    let mut r: String = String::new();
    push_char(&mut r, '[');
    r.append(inner.as_str());
    push_char(&mut r, ']');
    assert(r@ =~= json_array(strings_view(items@)));
    r
}

/// The JSON array of the JSON strings that hold the given texts.
pub fn strings_value(items: &Vec<String>) -> (r: String)
    ensures
        r@ == json_strings(strings_view(items@)),
{
    let mut values: Vec<String> = Vec::new();
    let mut i: usize = 0;
    while i < items.len()
        invariant
            i <= items@.len(),
            values@.len() == i,
            forall|j: int| 0 <= j < i ==> (#[trigger] values@[j])@ == json_string(items@[j]@),
        decreases items@.len() - i,
    {
        values.push(string_value(items[i].as_str()));
        i += 1;
    }
    assert(strings_view(values@) =~= strings_view(items@).map_values(
        |s: Seq<char>| json_string(s),
    ));
    array_value(&values)
}

/// The JSON object with the given keys and JSON values, in their order.
pub fn object_value(members: &Vec<(String, String)>) -> (r: String)
    ensures
        r@ == json_object(members_view(members@)),
{
    let mut parts: Vec<String> = Vec::new();
    let mut i: usize = 0;
    while i < members.len()
        invariant
            i <= members@.len(),
            parts@.len() == i,
            forall|j: int|
                0 <= j < i ==> (#[trigger] parts@[j])@ == json_member(members_view(members@)[j]),
        decreases members@.len() - i,
    {
        let mut part = string_value(members[i].0.as_str());
        push_char(&mut part, ':');
        part.append(members[i].1.as_str());
        assert(part@ =~= json_member(members_view(members@)[i as int]));
        parts.push(part);
        i += 1;
    }
    assert(strings_view(parts@) =~= members_view(members@).map_values(
        |m: (Seq<char>, Seq<char>)| json_member(m),
    ));
    proof {
        reveal_strlit(",");
        assert(","@ =~= seq![',']);
    }
    let inner = join_strings(&parts, ",");
    let mut r: String = String::new();
    push_char(&mut r, '{');
    r.append(inner.as_str());
    push_char(&mut r, '}');
    assert(r@ =~= json_object(members_view(members@)));
    r
}

/// The JSON value `true` or `false`.
pub fn bool_value(b: bool) -> (r: String)
    ensures
        r@ == json_bool(b),
{
    if b {
        String::from_str("true")
    } else {
        String::from_str("false")
    }
}

/// The JSON value `null`.
pub fn null_value() -> (r: String)
    ensures
        r@ == json_null(),
{
    String::from_str("null")
}

} // verus!
