//! How a TSV field becomes a JSON value: an `i64` literal becomes an
//! integer; a finite decimal literal in the grammar of `f64` becomes the
//! number that `serde_json` reads from it; `true`, `false` and `null`
//! (in any ASCII case) become themselves, and an empty field is `null`;
//! anything else is a string without its surrounding double quotes.

use vstd::prelude::*;
use crate::json::{JsonLeaf, JsonNumber, LeafV};
use crate::text::{
    all_digits, concat_chars, eq_ignore_ascii_case, eq_ignore_ascii_case_chars,
    int_text, is_negative, parse_i64, parse_i64_chars, slice_chars, string_of, trim_by,
    trim_chars, trim_start_by, trim_start_chars, unsigned_part, CharClass,
};

verus! {

// ---------------------------------------------------------------------
// The decimal literal grammar of `<f64 as FromStr>`
// ---------------------------------------------------------------------

/// The index of the first `a` or `b` in `s`, or the length of `s`.
pub open spec fn first_of(s: Seq<char>, a: char, b: char) -> int
    decreases s.len(),
{
    if s.len() == 0 {
        0
    } else if s[0] == a || s[0] == b {
        0
    } else {
        1 + first_of(s.drop_first(), a, b)
    }
}

/// The part before the exponent marker.
pub open spec fn mantissa(u: Seq<char>) -> Seq<char> {
    u.take(first_of(u, 'e', 'E'))
}

/// The part after the exponent marker, if there is one.
pub open spec fn exponent_part(u: Seq<char>) -> Option<Seq<char>> {
    let e = first_of(u, 'e', 'E');
    if e < u.len() {
        Some(u.skip(e + 1))
    } else {
        None
    }
}

/// The digits before the decimal point.
pub open spec fn int_digits(m: Seq<char>) -> Seq<char> {
    m.take(first_of(m, '.', '.'))
}

/// The digits after the decimal point, none if there is no point.
pub open spec fn frac_digits(m: Seq<char>) -> Seq<char> {
    let d = first_of(m, '.', '.');
    if d < m.len() {
        m.skip(d + 1)
    } else {
        Seq::<char>::empty()
    }
}

/// `Number ::= ( Digit+ | Digit+ '.' Digit* | Digit* '.' Digit+ ) Exp?`,
/// `Exp ::= ('e' | 'E') Sign? Digit+`: an unsigned decimal literal that
/// `<f64 as FromStr>` accepts.
pub open spec fn decimal_literal(u: Seq<char>) -> bool {
    let m = mantissa(u);
    &&& all_digits(int_digits(m))
    &&& all_digits(frac_digits(m))
    &&& int_digits(m).len() + frac_digits(m).len() > 0
    &&& match exponent_part(u) {
        None => true,
        Some(x) => unsigned_part(x).len() > 0 && all_digits(unsigned_part(x)),
    }
}

/// `inf`, `infinity` or `nan` in any ASCII case: the literals of
/// `<f64 as FromStr>` that are no finite number.
pub open spec fn nonfinite_name(u: Seq<char>) -> bool {
    ||| eq_ignore_ascii_case(u, seq!['i', 'n', 'f'])
    ||| eq_ignore_ascii_case(u, seq!['i', 'n', 'f', 'i', 'n', 'i', 't', 'y'])
    ||| eq_ignore_ascii_case(u, seq!['n', 'a', 'n'])
}

/// The same decimal literal in the grammar of JSON, always with a
/// fraction so that it is read as a floating-point number: no `+`, no
/// leading zeros, at least one digit on each side of the point.
pub open spec fn json_float_literal(t: Seq<char>) -> Seq<char> {
    let u = unsigned_part(t);
    let m = mantissa(u);
    let i = trim_start_by(int_digits(m), CharClass::Exactly('0'));
    let f = frac_digits(m);
    let sign = if is_negative(t) {
        seq!['-']
    } else {
        Seq::<char>::empty()
    };
    let whole = if i.len() == 0 {
        seq!['0']
    } else {
        i
    };
    let frac = if f.len() == 0 {
        seq!['0']
    } else {
        f
    };
    let exp = match exponent_part(u) {
        None => Seq::<char>::empty(),
        Some(x) => seq!['e'] + x,
    };
    sign + whole + seq!['.'] + frac + exp
}

/// What `serde_json` reads from a JSON number literal: the text that
/// `Display` of the parsed `serde_json::Number` writes, or none where the
/// literal does not parse (as where its value is beyond the range of
/// `f64`).
pub uninterp spec fn serde_number_text(literal: Seq<char>) -> Option<Seq<char>>;

/// `serde_json::from_str::<serde_json::Number>`, then `to_string` of the
/// number: the result is `serde_number_text` of the literal.
#[verifier::external_body]
fn serde_number_text_of(literal: &str) -> (r: Option<String>)
    ensures
        match r {
            Some(t) => serde_number_text(literal@) == Some(t@),
            None => serde_number_text(literal@) is None,
        },
{
    match serde_json::from_str::<serde_json::Number>(literal) {
        Ok(n) => Some(n.to_string()),
        Err(_) => None,
    }
}

/// The JSON value of a trimmed TSV field `t`.
pub open spec fn field_value(t: Seq<char>) -> LeafV {
    let u = unsigned_part(t);
    match parse_i64(t) {
        Some(n) => LeafV::Number(int_text(n)),
        None => if decimal_literal(u) {
            match serde_number_text(json_float_literal(t)) {
                Some(x) => LeafV::Number(x),
                None => LeafV::Str(t),
            }
        } else if nonfinite_name(u) {
            LeafV::Str(t)
        } else if eq_ignore_ascii_case(t, seq!['t', 'r', 'u', 'e']) {
            LeafV::Bool(true)
        } else if eq_ignore_ascii_case(t, seq!['f', 'a', 'l', 's', 'e']) {
            LeafV::Bool(false)
        } else if eq_ignore_ascii_case(t, seq!['n', 'u', 'l', 'l']) || t.len() == 0 {
            LeafV::Null
        } else {
            LeafV::Str(trim_by(t, CharClass::Exactly('"')))
        },
    }
}

// ---------------------------------------------------------------------
// Executable functions
// ---------------------------------------------------------------------

pub proof fn lemma_first_of_bounds(s: Seq<char>, a: char, b: char)
    ensures
        0 <= first_of(s, a, b) <= s.len(),
    decreases s.len(),
{
    if s.len() > 0 {
        lemma_first_of_bounds(s.drop_first(), a, b);
    }
}

/// `first_of` on a character vector.
fn first_of_exec(cs: &[char], a: char, b: char) -> (i: usize)
    ensures
        i == first_of(cs@, a, b),
        i <= cs@.len(),
{
    let n = cs.len();
    let mut i: usize = 0;
    assert(cs@.skip(0) =~= cs@);
    while i < n && cs[i] != a && cs[i] != b
        invariant
            i <= n == cs@.len(),
            first_of(cs@, a, b) == i + first_of(cs@.skip(i as int), a, b),
        decreases n - i,
    {
        assert(cs@.skip(i as int).drop_first() =~= cs@.skip(i + 1));
        i = i + 1;
    }
    i
}

/// Whether every character of `cs` is a decimal digit.
fn all_digits_exec(cs: &[char]) -> (r: bool)
    ensures
        r == all_digits(cs@),
{
    let mut i: usize = 0;
    while i < cs.len()
        invariant
            i <= cs@.len(),
            all_digits(cs@.take(i as int)),
        decreases cs@.len() - i,
    {
        if !('0' <= cs[i] && cs[i] <= '9') {
            return false;
        }
        assert(all_digits(cs@.take(i + 1)));
        i = i + 1;
    }
    assert(cs@.take(cs@.len() as int) =~= cs@);
    true
}

/// `s` without one leading `+` or `-`.
fn unsigned_chars(cs: &[char]) -> (u: Vec<char>)
    ensures
        u@ == unsigned_part(cs@),
{
    if cs.len() > 0 && (cs[0] == '+' || cs[0] == '-') {
        slice_chars(cs, 1, cs.len())
    } else {
        slice_chars(cs, 0, cs.len())
    }
}

/// The three parts of an unsigned literal: digits before the point,
/// digits after it, and the exponent text if there is one.
fn decimal_parts(u: &[char]) -> (r: (Vec<char>, Vec<char>, Option<Vec<char>>))
    ensures
        r.0@ == int_digits(mantissa(u@)),
        r.1@ == frac_digits(mantissa(u@)),
        match r.2 {
            Some(x) => exponent_part(u@) == Some(x@),
            None => exponent_part(u@) is None,
        },
{
    let e = first_of_exec(u, 'e', 'E');
    let m = slice_chars(u, 0, e);
    assert(m@ =~= mantissa(u@));
    let d = first_of_exec(m.as_slice(), '.', '.');
    let whole = slice_chars(m.as_slice(), 0, d);
    assert(whole@ =~= int_digits(m@));
    let frac = if d < m.len() {
        slice_chars(m.as_slice(), d + 1, m.len())
    } else {
        Vec::new()
    };
    assert(frac@ =~= frac_digits(m@));
    let exp = if e < u.len() {
        let x = slice_chars(u, e + 1, u.len());
        assert(x@ =~= u@.skip(e + 1));
        Some(x)
    } else {
        None
    };
    (whole, frac, exp)
}

/// Whether `u` is an unsigned decimal literal of `<f64 as FromStr>`.
fn decimal_literal_exec(u: &[char]) -> (r: bool)
    ensures
        r == decimal_literal(u@),
{
    let (whole, frac, exp) = decimal_parts(u);
    if !all_digits_exec(whole.as_slice()) || !all_digits_exec(frac.as_slice()) {
        return false;
    }
    if whole.len() == 0 && frac.len() == 0 {
        return false;
    }
    match exp {
        None => true,
        Some(x) => {
            let xd = unsigned_chars(x.as_slice());
            xd.len() > 0 && all_digits_exec(xd.as_slice())
        },
    }
}

/// `json_float_literal` on a character vector.
fn json_float_literal_exec(t: &[char]) -> (r: Vec<char>)
    ensures
        r@ == json_float_literal(t@),
{
    let u = unsigned_chars(t);
    let (whole, frac, exp) = decimal_parts(u.as_slice());
    let i = trim_start_chars(whole.as_slice(), &CharClass::Exactly('0'));
    let mut out: Vec<char> = Vec::new();
    if t.len() > 0 && t[0] == '-' {
        out.push('-');
    }
    if i.len() == 0 {
        out.push('0');
    } else {
        concat_chars(&mut out, i.as_slice());
    }
    out.push('.');
    if frac.len() == 0 {
        out.push('0');
    } else {
        concat_chars(&mut out, frac.as_slice());
    }
    match exp {
        None => {},
        Some(x) => {
            out.push('e');
            concat_chars(&mut out, x.as_slice());
        },
    }
    proof {
        let sign = if is_negative(t@) {
            seq!['-']
        } else {
            Seq::<char>::empty()
        };
        let whole_s = if i@.len() == 0 {
            seq!['0']
        } else {
            i@
        };
        let frac_s = if frac@.len() == 0 {
            seq!['0']
        } else {
            frac@
        };
        let exp_s = match exponent_part(u@) {
            None => Seq::<char>::empty(),
            Some(x) => seq!['e'] + x,
        };
        assert(out@ =~= sign + whole_s + seq!['.'] + frac_s + exp_s);
    }
    out
}

/// The JSON value of the trimmed TSV field `t`.
pub fn classify_field(t: &[char]) -> (v: JsonLeaf)
    ensures
        v@ == field_value(t@),
{
    match parse_i64_chars(t) {
        Some(n) => {
            return JsonLeaf::Number(JsonNumber::from_i64(n));
        },
        None => {},
    }
    let u = unsigned_chars(t);
    if decimal_literal_exec(u.as_slice()) {
        let lit = json_float_literal_exec(t);
        let lit_s = string_of(lit.as_slice());
        match serde_number_text_of(lit_s.as_str()) {
            Some(x) => JsonLeaf::Number(JsonNumber::from_text(x)),
            None => JsonLeaf::String(string_of(t)),
        }
    } else if eq_ignore_ascii_case_chars(u.as_slice(), &['i', 'n', 'f'])
        || eq_ignore_ascii_case_chars(u.as_slice(), &['i', 'n', 'f', 'i', 'n', 'i', 't', 'y'])
        || eq_ignore_ascii_case_chars(u.as_slice(), &['n', 'a', 'n']) {
        JsonLeaf::String(string_of(t))
    } else if eq_ignore_ascii_case_chars(t, &['t', 'r', 'u', 'e']) {
        JsonLeaf::Bool(true)
    } else if eq_ignore_ascii_case_chars(t, &['f', 'a', 'l', 's', 'e']) {
        JsonLeaf::Bool(false)
    } else if eq_ignore_ascii_case_chars(t, &['n', 'u', 'l', 'l']) || t.len() == 0 {
        JsonLeaf::Null
    } else {
        let s = trim_chars(t, &CharClass::Exactly('"'));
        JsonLeaf::String(string_of(s.as_slice()))
    }
}

} // verus!
