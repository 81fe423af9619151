//! Formatting of results into JavaScript callback calls for the embedded
//! web UI.  The quoting and escaping rules are the point here: a result
//! string travels into `eval` and must not break out of its quotes.

use vstd::prelude::*;

use crate::text::{chars_of, string_of};

verus! {

/// The lower-case hex character for a value below sixteen.
pub open spec fn hex_lower(n: int) -> char {
    if n == 0 {
        '0'
    } else if n == 1 {
        '1'
    } else if n == 2 {
        '2'
    } else if n == 3 {
        '3'
    } else if n == 4 {
        '4'
    } else if n == 5 {
        '5'
    } else if n == 6 {
        '6'
    } else if n == 7 {
        '7'
    } else if n == 8 {
        '8'
    } else if n == 9 {
        '9'
    } else if n == 10 {
        'a'
    } else if n == 11 {
        'b'
    } else if n == 12 {
        'c'
    } else if n == 13 {
        'd'
    } else if n == 14 {
        'e'
    } else {
        'f'
    }
}

/// A character code as lower-case hex, padded to at least four digits, as
/// the `u` escape writes it.
pub open spec fn spec_hex4(n: int) -> Seq<char> {
    if n < 0x10 {
        seq!['0', '0', '0', hex_lower(n)]
    } else if n < 0x100 {
        seq!['0', '0', hex_lower(n / 0x10), hex_lower(n % 0x10)]
    } else if n < 0x1000 {
        seq!['0', hex_lower(n / 0x100), hex_lower((n / 0x10) % 0x10), hex_lower(n % 0x10)]
    } else if n < 0x10000 {
        seq![
            hex_lower(n / 0x1000),
            hex_lower((n / 0x100) % 0x10),
            hex_lower((n / 0x10) % 0x10),
            hex_lower(n % 0x10),
        ]
    } else if n < 0x100000 {
        seq![
            hex_lower(n / 0x10000),
            hex_lower((n / 0x1000) % 0x10),
            hex_lower((n / 0x100) % 0x10),
            hex_lower((n / 0x10) % 0x10),
            hex_lower(n % 0x10),
        ]
    } else {
        seq![
            hex_lower(n / 0x100000),
            hex_lower((n / 0x10000) % 0x10),
            hex_lower((n / 0x1000) % 0x10),
            hex_lower((n / 0x100) % 0x10),
            hex_lower((n / 0x10) % 0x10),
            hex_lower(n % 0x10),
        ]
    }
}

/// What one character contributes to the escaped string: quote characters,
/// backslashes and the usual control characters get a backslash escape,
/// anything else outside printable ASCII becomes a `u` escape, and
/// printable ASCII passes through.
pub open spec fn spec_escape_char(c: char) -> Seq<char> {
    if c == '"' {
        seq!['\\', '"']
    } else if c == '\\' {
        seq!['\\', '\\']
    } else if c == '\n' {
        seq!['\\', 'n']
    } else if c == '\r' {
        seq!['\\', 'r']
    } else if c == '\'' {
        seq!['\\', '\'']
    } else if c == '\t' {
        seq!['\\', 't']
    } else if (c as u32) < 32 || (c as u32) > 127 {
        seq!['\\', 'u'] + spec_hex4((c as u32) as int)
    } else {
        seq![c]
    }
}

/// The escaped body of a string, character by character.
pub open spec fn spec_escape_rec(s: Seq<char>) -> Seq<char>
    decreases s.len(),
{
    if s.len() == 0 {
        Seq::empty()
    } else {
        spec_escape_char(s[0]) + spec_escape_rec(s.drop_first())
    }
}

/// A whole string escaped for JavaScript: single quotes around the escaped
/// body.
pub open spec fn spec_escape(s: Seq<char>) -> Seq<char> {
    seq!['\''] + spec_escape_rec(s) + seq!['\'']
}

/// A call of `function_name` on one escaped string argument.
pub open spec fn spec_callback(function_name: Seq<char>, arg: Seq<char>) -> Seq<char> {
    function_name + seq!['('] + spec_escape(arg) + seq![')']
}

/// Appending a character extends the escaped body by that character's
/// escape.
proof fn lemma_escape_push(s: Seq<char>, c: char)
    ensures
        spec_escape_rec(s.push(c)) == spec_escape_rec(s) + spec_escape_char(c),
    decreases s.len(),
{
    let p = s.push(c);
    assert(p.len() > 0);
    assert(spec_escape_rec(p) == spec_escape_char(p[0]) + spec_escape_rec(p.drop_first()));
    if s.len() == 0 {
        assert(p.drop_first() =~= Seq::<char>::empty());
        assert(p[0] == c);
        assert(spec_escape_rec(p.drop_first()) == Seq::<char>::empty());
        assert(spec_escape_rec(s) == Seq::<char>::empty());
        assert(spec_escape_rec(p) =~= spec_escape_rec(s) + spec_escape_char(c));
    } else {
        assert(p[0] == s[0]);
        assert(p.drop_first() =~= s.drop_first().push(c));
        lemma_escape_push(s.drop_first(), c);
        assert(spec_escape_rec(s) == spec_escape_char(s[0]) + spec_escape_rec(s.drop_first()));
        assert(spec_escape_rec(p) =~= spec_escape_rec(s) + spec_escape_char(c));
    }
}

/// The four-or-more lower-case hex digits of a character code.
fn hex4_of(code: u32) -> (r: Vec<char>)
    requires
        code <= 0x10ffff,
    ensures
        r@ == spec_hex4(code as int),
{
    let mut v: Vec<char> = Vec::new();
    if code < 0x10 {
        v.push('0');
        v.push('0');
        v.push('0');
        v.push(hex_lower_of((code % 0x10) as u8));
    } else if code < 0x100 {
        v.push('0');
        v.push('0');
        v.push(hex_lower_of((code / 0x10) as u8));
        v.push(hex_lower_of((code % 0x10) as u8));
    } else if code < 0x1000 {
        v.push('0');
        v.push(hex_lower_of((code / 0x100) as u8));
        v.push(hex_lower_of(((code / 0x10) % 0x10) as u8));
        v.push(hex_lower_of((code % 0x10) as u8));
    } else if code < 0x10000 {
        v.push(hex_lower_of((code / 0x1000) as u8));
        v.push(hex_lower_of(((code / 0x100) % 0x10) as u8));
        v.push(hex_lower_of(((code / 0x10) % 0x10) as u8));
        v.push(hex_lower_of((code % 0x10) as u8));
    } else if code < 0x100000 {
        v.push(hex_lower_of((code / 0x10000) as u8));
        v.push(hex_lower_of(((code / 0x1000) % 0x10) as u8));
        v.push(hex_lower_of(((code / 0x100) % 0x10) as u8));
        v.push(hex_lower_of(((code / 0x10) % 0x10) as u8));
        v.push(hex_lower_of((code % 0x10) as u8));
    } else {
        v.push(hex_lower_of((code / 0x100000) as u8));
        v.push(hex_lower_of(((code / 0x10000) % 0x10) as u8));
        v.push(hex_lower_of(((code / 0x1000) % 0x10) as u8));
        v.push(hex_lower_of(((code / 0x100) % 0x10) as u8));
        v.push(hex_lower_of(((code / 0x10) % 0x10) as u8));
        v.push(hex_lower_of((code % 0x10) as u8));
    }
    proof {
        assert(v@ =~= spec_hex4(code as int));
    }
    v
}

fn hex_lower_of(n: u8) -> (r: char)
    requires
        n < 16,
    ensures
        r == hex_lower(n as int),
{
    match n {
        0 => '0',
        1 => '1',
        2 => '2',
        3 => '3',
        4 => '4',
        5 => '5',
        6 => '6',
        7 => '7',
        8 => '8',
        9 => '9',
        10 => 'a',
        11 => 'b',
        12 => 'c',
        13 => 'd',
        14 => 'e',
        _ => 'f',
    }
}

/// Escapes a string so it can pass into JavaScript as a single-quoted
/// literal.
#[verifier::rlimit(100)]
pub fn escape_string(arg: String) -> (r: String)
    ensures
        r@ == spec_escape(arg@),
{
    let v = chars_of(arg.as_str());
    let n = v.len();
    let mut out: Vec<char> = Vec::new();
    out.push('\'');
    let mut i: usize = 0;
    while i < n
        invariant
            n == v@.len(),
            v@ == arg@,
            i <= n,
            out@ == seq!['\''] + spec_escape_rec(arg@.subrange(0, i as int)),
        decreases n - i,
    {
        let c = v[i];
        let ghost prefix = arg@.subrange(0, i as int);
        let ghost pre_out = out@;
        if c == '"' {
            out.push('\\');
            out.push('"');
        } else if c == '\\' {
            out.push('\\');
            out.push('\\');
        } else if c == '\n' {
            out.push('\\');
            out.push('n');
        } else if c == '\r' {
            out.push('\\');
            out.push('r');
        } else if c == '\'' {
            out.push('\\');
            out.push('\'');
        } else if c == '\t' {
            out.push('\\');
            out.push('t');
        } else if (c as u32) < 32 || (c as u32) > 127 {
            out.push('\\');
            out.push('u');
            proof {
                vstd::utf8::char_is_scalar(c);
            }
            let mut hex = hex4_of(c as u32);
            out.append(&mut hex);
        } else {
            out.push(c);
        }
        i += 1;
        proof {
            assert(out@ =~= pre_out + spec_escape_char(c));
            lemma_escape_push(prefix, c);
            assert(prefix.push(c) =~= arg@.subrange(0, i as int));
            assert(out@ =~= seq!['\''] + spec_escape_rec(arg@.subrange(0, i as int)));
        }
    }
    out.push('\'');
    proof {
        assert(arg@.subrange(0, n as int) =~= arg@);
        assert(out@ =~= spec_escape(arg@));
    }
    string_of(&out)
}

/// Formats a callback into a JavaScript function call on the escaped
/// argument.
pub fn format_callback(function_name: String, arg: String) -> (r: String)
    ensures
        r@ == spec_callback(function_name@, arg@),
{
    let escaped = escape_string(arg);
    let mut out = function_name;
    out.append("(");
    out.append(escaped.as_str());
    out.append(")");
    proof {
        vstd::prelude::reveal_strlit("(");
        vstd::prelude::reveal_strlit(")");
        assert("("@ =~= seq!['(']);
        assert(")"@ =~= seq![')']);
    }
    out
}

/// Routes a result to the success or the error callback: the success value
/// goes to `callback`, the error text to `error_callback`.
pub fn format_callback_result(
    result: Result<String, String>,
    callback: String,
    error_callback: String,
) -> (r: String)
    ensures
        result matches Ok(res) ==> r@ == spec_callback(callback@, res@),
        result matches Err(err) ==> r@ == spec_callback(error_callback@, err@),
{
    match result {
        Ok(res) => format_callback(callback, res),
        Err(err) => format_callback(error_callback, err),
    }
}

} // verus!
