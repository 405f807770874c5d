use vstd::prelude::*;
use vstd::string::StrSliceExecFns;
use vstd::string::StringExecFns;

use crate::types::{AstV, Yaml, YamlV};
use crate::utils::is_terminal;

verus! {

/// The decimal digit character for `d` (meaningful for `0 <= d < 10`).
pub open spec fn dec_digit(d: int) -> char {
    ((48 + d) as u8) as char
}

/// The decimal text of a natural number, most significant digit first.
pub open spec fn dec_nat(n: nat) -> Seq<char>
    decreases n,
{
    if n < 10 {
        seq![dec_digit(n as int)]
    } else {
        dec_nat(n / 10) + seq![dec_digit((n % 10) as int)]
    }
}

/// The decimal text of an integer: a minus sign for negative values,
/// then the digits.
pub open spec fn dec_int(i: int) -> Seq<char> {
    if i >= 0 {
        dec_nat(i as nat)
    } else {
        seq!['-'] + dec_nat((-i) as nat)
    }
}

/// How one character appears inside a double-quoted literal: backslash and
/// double quote get a leading backslash, everything else stands as itself.
pub open spec fn esc_char(c: char) -> Seq<char> {
    if c == '\\' {
        seq!['\\', '\\']
    } else if c == '"' {
        seq!['\\', '"']
    } else {
        seq![c]
    }
}

pub open spec fn esc_chars(s: Seq<char>) -> Seq<char>
    decreases s,
{
    if s.len() == 0 {
        Seq::empty()
    } else {
        esc_chars(s.drop_last()) + esc_char(s.last())
    }
}

/// The double-quoted literal carrying the characters of `s`.
pub open spec fn quoted(s: Seq<char>) -> Seq<char> {
    seq!['"'] + esc_chars(s) + seq!['"']
}

/// The literal text of a terminal document node.
pub open spec fn scalar_literal(y: YamlV) -> Seq<char> {
    match y {
        YamlV::Str(s) => quoted(s),
        YamlV::Real(r) => r,
        YamlV::Int(i) => dec_int(i),
        YamlV::Bool(b) => if b {
            "true"@
        } else {
            "false"@
        },
        _ => Seq::empty(),
    }
}

/// The literal text of a terminal syntax-tree node.
pub open spec fn leaf_literal(a: AstV) -> Seq<char> {
    match a {
        AstV::Str { value, .. } => quoted(value),
        AstV::Real { value, .. } => value,
        AstV::Int { value, .. } => dec_int(value),
        AstV::Bool { value, .. } => if value {
            "true"@
        } else {
            "false"@
        },
        _ => Seq::empty(),
    }
}

/// Relies on `String::push`: appends exactly the given character.
#[verifier::external_body]
pub(crate) fn push_char(s: &mut String, c: char)
    ensures
        final(s)@ == old(s)@.push(c),
{
    s.push(c);
}

/// The decimal text of an unsigned machine integer.
pub fn u64_to_dec(n: u64) -> (r: String)
    ensures
        r@ == dec_nat(n as nat),
    decreases n,
{
    let d: char = ((n % 10) as u8 + 48) as char;
    if n < 10 {
        let mut s = String::new();
        push_char(&mut s, d);
        proof {
            assert(s@ =~= dec_nat(n as nat));
        }
        s
    } else {
        let mut s = u64_to_dec(n / 10);
        push_char(&mut s, d);
        proof {
            assert(s@ =~= dec_nat((n / 10) as nat) + seq![dec_digit((n % 10) as int)]);
        }
        s
    }
}

/// The decimal text of a length.
pub fn usize_to_dec(n: usize) -> (r: String)
    ensures
        r@ == dec_nat(n as nat),
{
    u64_to_dec(n as u64)
}

/// The decimal text of a signed machine integer.
pub fn i64_to_dec(i: i64) -> (r: String)
    ensures
        r@ == dec_int(i as int),
{
    if i >= 0 {
        u64_to_dec(i as u64)
    } else {
        let mag: u64 = ((-(i + 1)) as u64) + 1;
        let mut s = String::new();
        push_char(&mut s, '-');
        s.append(u64_to_dec(mag).as_str());
        proof {
            assert(mag as nat == (-(i as int)) as nat);
            assert(s@ =~= seq!['-'] + dec_nat((-(i as int)) as nat));
        }
        s
    }
}

/// The double-quoted, escaped literal of a string value.
#[verifier::loop_isolation(false)]
pub fn quote_string(s: &str) -> (r: String)
    ensures
        r@ == quoted(s@),
{
    let n = s.unicode_len();
    let mut out = String::new();
    push_char(&mut out, '"');
    let mut i: usize = 0;
    while i < n
        invariant
            i <= n,
            out@ == seq!['"'] + esc_chars(s@.take(i as int)),
        decreases n - i,
    {
        let c = s.get_char(i);
        if c == '\\' {
            push_char(&mut out, '\\');
            push_char(&mut out, '\\');
        } else if c == '"' {
            push_char(&mut out, '\\');
            push_char(&mut out, '"');
        } else {
            push_char(&mut out, c);
        }
        proof {
            assert(s@.take(i + 1 as int).drop_last() =~= s@.take(i as int));
            assert(s@.take(i + 1 as int).last() == s@[i as int]);
            assert(out@ =~= seq!['"'] + esc_chars(s@.take(i + 1 as int)));
        }
        i += 1;
    }
    push_char(&mut out, '"');
    proof {
        assert(s@.take(n as int) =~= s@);
        assert(out@ =~= quoted(s@));
    }
    out
}

/// One emitted record field for a terminal document node: the key, a colon,
/// and the node's literal text.
pub fn parse_terminal_value(key: &str, value: Yaml) -> (r: String)
    requires
        is_terminal(value@),
    ensures
        r@ == key@ + ": "@ + scalar_literal(value@),
{
    let mut s = key.to_owned();
    s.append(": ");
    match value {
        Yaml::String(v) => s.append(quote_string(v.as_str()).as_str()),
        Yaml::Real(v) => s.append(v.as_str()),
        Yaml::Integer(v) => s.append(i64_to_dec(v).as_str()),
        Yaml::Boolean(v) => if v {
            s.append("true")
        } else {
            s.append("false")
        },
        _ => vstd::pervasive::unreached(),
    }
    s
}

} // verus!
