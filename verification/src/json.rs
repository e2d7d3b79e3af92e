//! JSON text: the encoding of strings, integers, arrays and objects that a
//! template is rendered with.
use vstd::prelude::*;
use crate::strings::{chars_of, push_char, push_str};

verus! {

/// The hexadecimal digit of a number below 16.
pub open spec fn hex_digit(d: int) -> char {
    if d < 10 {
        digit_char(d)
    } else if d == 10 {
        'a'
    } else if d == 11 {
        'b'
    } else if d == 12 {
        'c'
    } else if d == 13 {
        'd'
    } else if d == 14 {
        'e'
    } else {
        'f'
    }
}

/// The decimal digit of a number below 10.
pub open spec fn digit_char(d: int) -> char {
    if d == 0 {
        '0'
    } else if d == 1 {
        '1'
    } else if d == 2 {
        '2'
    } else if d == 3 {
        '3'
    } else if d == 4 {
        '4'
    } else if d == 5 {
        '5'
    } else if d == 6 {
        '6'
    } else if d == 7 {
        '7'
    } else if d == 8 {
        '8'
    } else {
        '9'
    }
}

/// How a character stands inside a JSON string, as serde_json writes it:
/// quote and backslash are escaped with a backslash, backspace, form feed,
/// newline, carriage return and tab by their letter, other control
/// characters as `\u00XX` with lowercase hexadecimal digits.
pub open spec fn escape_char(c: char) -> Seq<char> {
    if c == '"' {
        seq!['\\', '"']
    } else if c == '\\' {
        seq!['\\', '\\']
    } else if c == '\u{8}' {
        seq!['\\', 'b']
    } else if c == '\u{c}' {
        seq!['\\', 'f']
    } else if c == '\n' {
        seq!['\\', 'n']
    } else if c == '\r' {
        seq!['\\', 'r']
    } else if c == '\t' {
        seq!['\\', 't']
    } else if (c as int) < 32 {
        seq!['\\', 'u', '0', '0', hex_digit(c as int / 16), hex_digit(c as int % 16)]
    } else {
        seq![c]
    }
}

/// A text with each character escaped.
pub open spec fn escaped(s: Seq<char>) -> Seq<char>
    decreases s.len(),
{
    if s.len() == 0 {
        Seq::empty()
    } else {
        escaped(s.drop_last()) + escape_char(s.last())
    }
}

/// A JSON string.
pub open spec fn json_string(s: Seq<char>) -> Seq<char> {
    seq!['"'] + escaped(s) + seq!['"']
}

/// The decimal digits of a natural number.
pub open spec fn decimal(n: nat) -> Seq<char>
    decreases n,
{
    if n < 10 {
        seq![digit_char(n as int)]
    } else {
        decimal(n / 10).push(digit_char(n as int % 10))
    }
}

/// A JSON integer.
pub open spec fn json_int(i: int) -> Seq<char> {
    if i < 0 {
        seq!['-'] + decimal((-i) as nat)
    } else {
        decimal(i as nat)
    }
}

/// JSON `null`.
pub open spec fn json_null() -> Seq<char> {
    seq!['n', 'u', 'l', 'l']
}

/// JSON `true` or `false`.
pub open spec fn json_bool(b: bool) -> Seq<char> {
    if b {
        seq!['t', 'r', 'u', 'e']
    } else {
        seq!['f', 'a', 'l', 's', 'e']
    }
}

/// Texts joined with commas.
pub open spec fn comma_joined(items: Seq<Seq<char>>) -> Seq<char>
    decreases items.len(),
{
    if items.len() == 0 {
        Seq::empty()
    } else if items.len() == 1 {
        items[0]
    } else {
        comma_joined(items.drop_last()) + seq![','] + items.last()
    }
}

/// A JSON array of encoded items.
pub open spec fn json_array(items: Seq<Seq<char>>) -> Seq<char> {
    seq!['['] + comma_joined(items) + seq![']']
}

/// A member of a JSON object: the key as a JSON string, a colon, the value.
pub open spec fn json_member(key: Seq<char>, value: Seq<char>) -> Seq<char> {
    json_string(key) + seq![':'] + value
}

/// A JSON object of encoded members.
pub open spec fn json_object(members: Seq<Seq<char>>) -> Seq<char> {
    seq!['{'] + comma_joined(members) + seq!['}']
}

/// An optional string: a JSON string or `null`.
pub open spec fn json_opt_string(o: Option<Seq<char>>) -> Seq<char> {
    match o {
        Some(s) => json_string(s),
        None => json_null(),
    }
}

/// An optional natural number: a JSON integer or `null`.
pub open spec fn json_opt_nat(o: Option<usize>) -> Seq<char> {
    match o {
        Some(n) => decimal(n as nat),
        None => json_null(),
    }
}

/// A JSON array of strings.
pub open spec fn json_strings(v: Seq<Seq<char>>) -> Seq<char> {
    json_array(v.map_values(|s: Seq<char>| json_string(s)))
}

/// Joining one more item adds a comma before it unless it is the first.
pub proof fn lemma_comma_joined_push(items: Seq<Seq<char>>, x: Seq<char>)
    ensures
        comma_joined(items.push(x)) == if items.len() == 0 {
            x
        } else {
            comma_joined(items) + seq![','] + x
        },
{
    assert(items.push(x).drop_last() =~= items);
    if items.len() == 0 {
        assert(items.push(x)[0] == x);
    }
}

/// The digit of a number below 10.
fn digit(d: u64) -> (c: char)
    requires
        d < 10,
    ensures
        c == digit_char(d as int),
{
    if d == 0 {
        '0'
    } else if d == 1 {
        '1'
    } else if d == 2 {
        '2'
    } else if d == 3 {
        '3'
    } else if d == 4 {
        '4'
    } else if d == 5 {
        '5'
    } else if d == 6 {
        '6'
    } else if d == 7 {
        '7'
    } else if d == 8 {
        '8'
    } else {
        '9'
    }
}

/// The hexadecimal digit of a number below 16.
fn hex(d: u32) -> (c: char)
    requires
        d < 16,
    ensures
        c == hex_digit(d as int),
{
    if d < 10 {
        digit(d as u64)
    } else if d == 10 {
        'a'
    } else if d == 11 {
        'b'
    } else if d == 12 {
        'c'
    } else if d == 13 {
        'd'
    } else if d == 14 {
        'e'
    } else {
        'f'
    }
}

/// Appends the decimal digits of a number.
pub fn write_decimal(out: &mut String, n: u64)
    ensures
        final(out)@ == old(out)@ + decimal(n as nat),
    decreases n,
{
    if n >= 10 {
        write_decimal(out, n / 10);
    }
    push_char(out, digit(n % 10));
    proof {
        if n >= 10 {
            assert(old(out)@ + decimal(n as nat) =~= old(out)@ + decimal((n / 10) as nat) + seq![digit_char(n as int % 10)]);
        }
    }
}

/// Appends a JSON integer.
pub fn write_int(out: &mut String, i: i64)
    ensures
        final(out)@ == old(out)@ + json_int(i as int),
{
    if i < 0 {
        push_char(out, '-');
        let m: i128 = -(i as i128);
        write_decimal(out, m as u64);
        proof {
            assert(old(out)@ + json_int(i as int) =~= old(out)@ + seq!['-'] + decimal((-i) as nat));
        }
    } else {
        write_decimal(out, i as u64);
    }
}

/// Appends `null`.
pub fn write_null(out: &mut String)
    ensures
        final(out)@ == old(out)@ + json_null(),
{
    push_str(out, "null");
    proof {
        reveal_strlit("null");
    }
}

/// Appends `true` or `false`.
pub fn write_bool(out: &mut String, b: bool)
    ensures
        final(out)@ == old(out)@ + json_bool(b),
{
    if b {
        push_str(out, "true");
        proof {
            reveal_strlit("true");
        }
    } else {
        push_str(out, "false");
        proof {
            reveal_strlit("false");
        }
    }
}

/// Appends a character escaped for a JSON string.
fn write_escaped_char(out: &mut String, c: char)
    ensures
        final(out)@ == old(out)@ + escape_char(c),
{
    let ghost o = out@;
    if c == '"' {
        push_char(out, '\\');
        push_char(out, '"');
    } else if c == '\\' {
        push_char(out, '\\');
        push_char(out, '\\');
    } else if c == '\u{8}' {
        push_char(out, '\\');
        push_char(out, 'b');
    } else if c == '\u{c}' {
        push_char(out, '\\');
        push_char(out, 'f');
    } else if c == '\n' {
        push_char(out, '\\');
        push_char(out, 'n');
    } else if c == '\r' {
        push_char(out, '\\');
        push_char(out, 'r');
    } else if c == '\t' {
        push_char(out, '\\');
        push_char(out, 't');
    } else if (c as u32) < 32 {
        let n = c as u32;
        push_char(out, '\\');
        push_char(out, 'u');
        push_char(out, '0');
        push_char(out, '0');
        push_char(out, hex(n / 16));
        push_char(out, hex(n % 16));
    } else {
        push_char(out, c);
    }
    proof {
        assert(out@ =~= o + escape_char(c));
    }
}

/// Appends a JSON string.
pub fn write_json_string(out: &mut String, s: &str)
    ensures
        final(out)@ == old(out)@ + json_string(s@),
{
    let cs = chars_of(s);
    push_char(out, '"');
    let ghost start = out@;
    let mut i: usize = 0;
    while i < cs.len()
        invariant
            i <= cs.len(),
            cs@ == s@,
            out@ == start + escaped(s@.take(i as int)),
        decreases cs.len() - i,
    {
        write_escaped_char(out, cs[i]);
        proof {
            assert(s@.take(i + 1).drop_last() =~= s@.take(i as int));
            assert(out@ =~= start + escaped(s@.take(i + 1)));
        }
        i = i + 1;
    }
    push_char(out, '"');
    proof {
        assert(s@.take(cs.len() as int) =~= s@);
        assert(out@ =~= old(out)@ + json_string(s@));
    }
}

/// Appends an optional string as a JSON string or `null`.
pub fn write_opt_string(out: &mut String, o: &Option<String>)
    ensures
        final(out)@ == old(out)@ + json_opt_string(o.deep_view()),
{
    match o {
        Some(s) => write_json_string(out, s.as_str()),
        None => write_null(out),
    }
}

/// Appends an optional number as a JSON integer or `null`.
pub fn write_opt_nat(out: &mut String, o: Option<usize>)
    ensures
        final(out)@ == old(out)@ + json_opt_nat(o),
{
    match o {
        Some(n) => write_decimal(out, n as u64),
        None => write_null(out),
    }
}

/// Appends a JSON array of strings.
pub fn write_strings(out: &mut String, v: &Vec<String>)
    ensures
        final(out)@ == old(out)@ + json_strings(v.deep_view()),
{
    let ghost items = v.deep_view().map_values(|s: Seq<char>| json_string(s));
    push_char(out, '[');
    let ghost start = out@;
    let mut i: usize = 0;
    while i < v.len()
        invariant
            i <= v.len(),
            items == v.deep_view().map_values(|s: Seq<char>| json_string(s)),
            out@ == start + comma_joined(items.take(i as int)),
        decreases v.len() - i,
    {
        if i > 0 {
            push_char(out, ',');
        }
        write_json_string(out, v[i].as_str());
        proof {
            assert(items.take(i + 1) =~= items.take(i as int).push(items[i as int]));
            lemma_comma_joined_push(items.take(i as int), items[i as int]);
            assert(out@ =~= start + comma_joined(items.take(i + 1)));
        }
        i = i + 1;
    }
    push_char(out, ']');
    proof {
        assert(items.take(v.len() as int) =~= items);
        assert(out@ =~= old(out)@ + json_strings(v.deep_view()));
    }
}

/// Appends a key and a colon, the start of a JSON object member.
pub fn write_key(out: &mut String, key: &str)
    ensures
        final(out)@ == old(out)@ + json_string(key@) + seq![':'],
{
    write_json_string(out, key);
    push_char(out, ':');
}

} // verus!
