//! Character-sequence utilities with exact specifications: conversion
//! between strings and character vectors, trimming, splitting, line
//! breaking, replacement, joining, and decimal integers, each as the
//! corresponding method of Rust's `str` performs it.

use vstd::prelude::*;
use vstd::std_specs::iter::IteratorSpec;

verus! {

broadcast use vstd::string::group_string_axioms;

// ---------------------------------------------------------------------
// Specifications
// ---------------------------------------------------------------------

/// `char::is_whitespace`: the Unicode `White_Space` property.
pub open spec fn is_whitespace(c: char) -> bool {
    let u = c as u32;
    ||| 0x09 <= u <= 0x0D
    ||| u == 0x20
    ||| u == 0x85
    ||| u == 0xA0
    ||| u == 0x1680
    ||| 0x2000 <= u <= 0x200A
    ||| u == 0x2028
    ||| u == 0x2029
    ||| u == 0x202F
    ||| u == 0x205F
    ||| u == 0x3000
}

/// A set of characters that trimming removes.
pub enum CharClass {
    /// Every character with `char::is_whitespace`.
    Whitespace,
    /// Exactly this character.
    Exactly(char),
}

pub open spec fn in_class(k: CharClass, c: char) -> bool {
    match k {
        CharClass::Whitespace => is_whitespace(c),
        CharClass::Exactly(d) => c == d,
    }
}

/// `s` without its leading characters of class `k`.
pub open spec fn trim_start_by(s: Seq<char>, k: CharClass) -> Seq<char>
    decreases s.len(),
{
    if s.len() > 0 && in_class(k, s[0]) {
        trim_start_by(s.drop_first(), k)
    } else {
        s
    }
}

/// `s` without its trailing characters of class `k`.
pub open spec fn trim_end_by(s: Seq<char>, k: CharClass) -> Seq<char>
    decreases s.len(),
{
    if s.len() > 0 && in_class(k, s.last()) {
        trim_end_by(s.drop_last(), k)
    } else {
        s
    }
}

/// `s` without leading and trailing characters of class `k`.
pub open spec fn trim_by(s: Seq<char>, k: CharClass) -> Seq<char> {
    trim_end_by(trim_start_by(s, k), k)
}

/// `str::trim`.
pub open spec fn trim(s: Seq<char>) -> Seq<char> {
    trim_by(s, CharClass::Whitespace)
}

/// `str::split` on one character: the pieces between occurrences of `sep`.
/// There is always at least one piece.
pub open spec fn split_char(s: Seq<char>, sep: char) -> Seq<Seq<char>>
    decreases s.len(),
{
    if s.len() == 0 {
        seq![Seq::<char>::empty()]
    } else {
        let prev = split_char(s.drop_last(), sep);
        if s.last() == sep {
            prev.push(Seq::<char>::empty())
        } else {
            prev.update(prev.len() - 1, prev.last().push(s.last()))
        }
    }
}

/// A line ended by `\n` loses one `\r` before that `\n`.
pub open spec fn strip_cr(line: Seq<char>) -> Seq<char> {
    if line.len() > 0 && line.last() == '\r' {
        line.drop_last()
    } else {
        line
    }
}

/// `str::lines`: the pieces between `\n`; every piece that a `\n` ends
/// loses a final `\r`; an empty last piece is no line.
pub open spec fn lines(s: Seq<char>) -> Seq<Seq<char>> {
    let pieces = split_char(s, '\n');
    let ended = pieces.drop_last().map_values(|p: Seq<char>| strip_cr(p));
    if pieces.last().len() == 0 {
        ended
    } else {
        ended.push(pieces.last())
    }
}

/// `str::replace` of one character by a string.
pub open spec fn replace_char(s: Seq<char>, c: char, with: Seq<char>) -> Seq<char>
    decreases s.len(),
{
    if s.len() == 0 {
        Seq::<char>::empty()
    } else {
        replace_char(s.drop_last(), c, with) + if s.last() == c {
            with
        } else {
            seq![s.last()]
        }
    }
}

/// `[String]::join`: the parts with `sep` between each two.
pub open spec fn join(parts: Seq<Seq<char>>, sep: Seq<char>) -> Seq<char>
    decreases parts.len(),
{
    if parts.len() == 0 {
        Seq::<char>::empty()
    } else if parts.len() == 1 {
        parts[0]
    } else {
        join(parts.drop_last(), sep) + sep + parts.last()
    }
}

/// The code of `char::to_ascii_lowercase` of `c`.
pub open spec fn ascii_lower(c: char) -> u32 {
    let u = c as u32;
    if 65 <= u <= 90 {
        (u + 32) as u32
    } else {
        u
    }
}

/// `str::eq_ignore_ascii_case`.
pub open spec fn eq_ignore_ascii_case(a: Seq<char>, b: Seq<char>) -> bool {
    &&& a.len() == b.len()
    &&& forall|i: int| 0 <= i < a.len() ==> ascii_lower(#[trigger] a[i]) == ascii_lower(b[i])
}

pub open spec fn is_digit(c: char) -> bool {
    '0' <= c && c <= '9'
}

pub open spec fn all_digits(s: Seq<char>) -> bool {
    forall|i: int| 0 <= i < s.len() ==> is_digit(#[trigger] s[i])
}

pub open spec fn digit_value(c: char) -> int {
    (c as u32) - 48
}

pub open spec fn digit_char(d: int) -> char {
    (d + 48) as char
}

/// The value of a string of decimal digits.
pub open spec fn digits_value(s: Seq<char>) -> int
    decreases s.len(),
{
    if s.len() == 0 {
        0
    } else {
        digits_value(s.drop_last()) * 10 + digit_value(s.last())
    }
}

/// The decimal digits of `n`, without leading zeros.
pub open spec fn nat_digits(n: nat) -> Seq<char>
    decreases n,
{
    if n < 10 {
        seq![digit_char(n as int)]
    } else {
        nat_digits(n / 10).push(digit_char((n % 10) as int))
    }
}

/// The decimal text of an integer, as `Display` writes it.
pub open spec fn int_text(n: int) -> Seq<char> {
    if n < 0 {
        seq!['-'] + nat_digits((-n) as nat)
    } else {
        nat_digits(n as nat)
    }
}

/// `s` without one leading `+` or `-`.
pub open spec fn unsigned_part(s: Seq<char>) -> Seq<char> {
    if s.len() > 0 && (s[0] == '+' || s[0] == '-') {
        s.drop_first()
    } else {
        s
    }
}

pub open spec fn is_negative(s: Seq<char>) -> bool {
    s.len() > 0 && s[0] == '-'
}

/// `<i64 as FromStr>::from_str`: an optional sign, then at least one
/// digit, and a value within the range of `i64`.
pub open spec fn parse_i64(s: Seq<char>) -> Option<int> {
    let body = unsigned_part(s);
    let v = if is_negative(s) {
        -digits_value(body)
    } else {
        digits_value(body)
    };
    if body.len() > 0 && all_digits(body) && i64::MIN <= v <= i64::MAX {
        Some(v)
    } else {
        None
    }
}

// ---------------------------------------------------------------------
// Lemmas
// ---------------------------------------------------------------------

pub proof fn lemma_split_char_nonempty(s: Seq<char>, sep: char)
    ensures
        split_char(s, sep).len() >= 1,
    decreases s.len(),
{
    if s.len() > 0 {
        lemma_split_char_nonempty(s.drop_last(), sep);
    }
}

proof fn lemma_take_succ(s: Seq<char>, i: int)
    requires
        0 <= i < s.len(),
    ensures
        s.take(i + 1).drop_last() == s.take(i),
        s.take(i + 1).last() == s[i],
        s.take(i + 1).len() == i + 1,
{
    assert(s.take(i + 1).drop_last() =~= s.take(i));
}

proof fn lemma_digits_value_nonneg(s: Seq<char>)
    requires
        all_digits(s),
    ensures
        digits_value(s) >= 0,
    decreases s.len(),
{
    if s.len() > 0 {
        lemma_digits_value_nonneg(s.drop_last());
    }
}

/// The value of a digit string is at least the value of each prefix.
proof fn lemma_digits_value_prefix(s: Seq<char>, k: int)
    requires
        all_digits(s),
        0 <= k <= s.len(),
    ensures
        digits_value(s.take(k)) <= digits_value(s),
    decreases s.len() - k,
{
    if k < s.len() {
        lemma_digits_value_prefix(s, k + 1);
        lemma_take_succ(s, k);
        lemma_digits_value_nonneg(s.take(k));
        assert(all_digits(s.take(k + 1)));
    } else {
        assert(s.take(k) =~= s);
    }
}

// ---------------------------------------------------------------------
// Executable functions
// ---------------------------------------------------------------------

/// `std::string::String::push`: appends one character.
#[verifier::external_body]
fn push_char(s: &mut String, c: char)
    ensures
        final(s)@ == old(s)@.push(c),
{
    s.push(c);
}

/// The characters of `s`, in order.
pub fn chars_of(s: &str) -> (v: Vec<char>)
    ensures
        v@ == s@,
{
    let mut v: Vec<char> = Vec::new();
    for c in iter: s.chars()
        invariant
            v@ == iter.seq().take(iter.index() as int),
    {
        v.push(c);
    }
    v
}

/// The string made of the characters `cs`, in order.
pub fn string_of(cs: &[char]) -> (s: String)
    ensures
        s@ == cs@,
{
    let mut s = String::new();
    let mut i: usize = 0;
    while i < cs.len()
        invariant
            i <= cs@.len(),
            s@ == cs@.subrange(0, i as int),
        decreases cs@.len() - i,
    {
        push_char(&mut s, cs[i]);
        i = i + 1;
    }
    s
}

/// The characters of `cs` from `lo` up to `hi`.
pub fn slice_chars(cs: &[char], lo: usize, hi: usize) -> (v: Vec<char>)
    requires
        lo <= hi <= cs@.len(),
    ensures
        v@ == cs@.subrange(lo as int, hi as int),
{
    let mut v: Vec<char> = Vec::new();
    let mut i: usize = lo;
    while i < hi
        invariant
            lo <= i <= hi <= cs@.len(),
            v@ == cs@.subrange(lo as int, i as int),
        decreases hi - i,
    {
        v.push(cs[i]);
        i = i + 1;
    }
    v
}

/// `a` followed by `b`.
pub fn concat_chars(a: &mut Vec<char>, b: &[char])
    ensures
        final(a)@ == old(a)@ + b@,
{
    let ghost a0 = a@;
    let mut i: usize = 0;
    while i < b.len()
        invariant
            i <= b@.len(),
            a@ == a0 + b@.subrange(0, i as int),
        decreases b@.len() - i,
    {
        a.push(b[i]);
        i = i + 1;
    }
}

pub fn in_class_exec(k: &CharClass, c: char) -> (b: bool)
    ensures
        b == in_class(*k, c),
{
    match k {
        CharClass::Whitespace => {
            let u = c as u32;
            (0x09 <= u && u <= 0x0D) || u == 0x20 || u == 0x85 || u == 0xA0 || u == 0x1680
                || (0x2000 <= u && u <= 0x200A) || u == 0x2028 || u == 0x2029 || u == 0x202F
                || u == 0x205F || u == 0x3000
        },
        CharClass::Exactly(d) => c == *d,
    }
}

/// Where `trim_start_by` begins within `cs`.
pub fn trim_start_index(cs: &[char], k: &CharClass) -> (i: usize)
    ensures
        i <= cs@.len(),
        trim_start_by(cs@, *k) == cs@.subrange(i as int, cs@.len() as int),
{
    let n = cs.len();
    let mut i: usize = 0;
    assert(cs@.subrange(0, n as int) =~= cs@);
    while i < n && in_class_exec(k, cs[i])
        invariant
            i <= n == cs@.len(),
            trim_start_by(cs@, *k) == trim_start_by(cs@.subrange(i as int, n as int), *k),
        decreases n - i,
    {
        assert(cs@.subrange(i as int, n as int).drop_first() =~= cs@.subrange(
            i + 1,
            n as int,
        ));
        i = i + 1;
    }
    i
}

/// Where `trim_end_by` ends within `cs`.
pub fn trim_end_index(cs: &[char], k: &CharClass) -> (j: usize)
    ensures
        j <= cs@.len(),
        trim_end_by(cs@, *k) == cs@.subrange(0, j as int),
{
    let mut j: usize = cs.len();
    assert(cs@.subrange(0, j as int) =~= cs@);
    while j > 0 && in_class_exec(k, cs[j - 1])
        invariant
            j <= cs@.len(),
            trim_end_by(cs@, *k) == trim_end_by(cs@.subrange(0, j as int), *k),
        decreases j,
    {
        assert(cs@.subrange(0, j as int).drop_last() =~= cs@.subrange(0, j - 1));
        j = j - 1;
    }
    j
}

/// `trim_start_by` on a character vector.
pub fn trim_start_chars(cs: &[char], k: &CharClass) -> (v: Vec<char>)
    ensures
        v@ == trim_start_by(cs@, *k),
{
    let i = trim_start_index(cs, k);
    slice_chars(cs, i, cs.len())
}

/// `trim_end_by` on a character vector.
pub fn trim_end_chars(cs: &[char], k: &CharClass) -> (v: Vec<char>)
    ensures
        v@ == trim_end_by(cs@, *k),
{
    let j = trim_end_index(cs, k);
    slice_chars(cs, 0, j)
}

/// `trim_by` on a character vector.
pub fn trim_chars(cs: &[char], k: &CharClass) -> (v: Vec<char>)
    ensures
        v@ == trim_by(cs@, *k),
{
    let a = trim_start_chars(cs, k);
    trim_end_chars(a.as_slice(), k)
}

/// `str::trim` on a character vector.
pub fn trim_ws(cs: &[char]) -> (v: Vec<char>)
    ensures
        v@ == trim(cs@),
{
    trim_chars(cs, &CharClass::Whitespace)
}

pub open spec fn views(v: Seq<Vec<char>>) -> Seq<Seq<char>> {
    v.map_values(|p: Vec<char>| p@)
}

/// `str::split` on one character.
pub fn split_chars(cs: &[char], sep: char) -> (parts: Vec<Vec<char>>)
    ensures
        views(parts@) == split_char(cs@, sep),
{
    let mut done: Vec<Vec<char>> = Vec::new();
    let mut cur: Vec<char> = Vec::new();
    let mut i: usize = 0;
    assert(cs@.take(0) =~= Seq::<char>::empty());
    assert(views(done@).push(cur@) =~= split_char(cs@.take(0), sep));
    while i < cs.len()
        invariant
            i <= cs@.len(),
            views(done@).push(cur@) == split_char(cs@.take(i as int), sep),
        decreases cs@.len() - i,
    {
        proof {
            lemma_take_succ(cs@, i as int);
        }
        let c = cs[i];
        let ghost done0 = views(done@);
        if c == sep {
            let mut piece: Vec<char> = Vec::new();
            std::mem::swap(&mut piece, &mut cur);
            done.push(piece);
            assert(views(done@).push(cur@) =~= done0.push(piece@).push(Seq::empty()))
                by {
                assert(views(done@) =~= done0.push(piece@));
            };
        } else {
            let ghost old_cur = cur@;
            cur.push(c);
            assert(views(done@).push(cur@) =~= views(done@).push(old_cur).update(
                views(done@).len() as int,
                old_cur.push(c),
            ));
        }
        i = i + 1;
    }
    proof {
        assert(cs@.take(cs@.len() as int) =~= cs@);
    }
    done.push(cur);
    assert(views(done@) =~= split_char(cs@, sep));
    done
}

/// `s` with each `c` replaced by `with`.
pub fn replace_chars(cs: &[char], c: char, with: &[char]) -> (out: Vec<char>)
    ensures
        out@ == replace_char(cs@, c, with@),
{
    let mut out: Vec<char> = Vec::new();
    let mut i: usize = 0;
    assert(cs@.take(0) =~= Seq::<char>::empty());
    while i < cs.len()
        invariant
            i <= cs@.len(),
            out@ == replace_char(cs@.take(i as int), c, with@),
        decreases cs@.len() - i,
    {
        proof {
            lemma_take_succ(cs@, i as int);
        }
        if cs[i] == c {
            concat_chars(&mut out, with);
        } else {
            out.push(cs[i]);
        }
        i = i + 1;
    }
    assert(cs@.take(cs@.len() as int) =~= cs@);
    out
}

/// The parts with `sep` between each two.
pub fn join_chars(parts: &Vec<Vec<char>>, sep: &[char]) -> (out: Vec<char>)
    ensures
        out@ == join(views(parts@), sep@),
{
    let mut out: Vec<char> = Vec::new();
    let mut i: usize = 0;
    assert(views(parts@).take(0) =~= Seq::<Seq<char>>::empty());
    while i < parts.len()
        invariant
            i <= parts@.len(),
            out@ == join(views(parts@).take(i as int), sep@),
        decreases parts@.len() - i,
    {
        let ghost before = views(parts@).take(i as int);
        let ghost after = views(parts@).take(i + 1);
        assert(after.drop_last() =~= before);
        assert(after.last() == parts@[i as int]@);
        if i > 0 {
            concat_chars(&mut out, sep);
        }
        concat_chars(&mut out, parts[i].as_slice());
        proof {
            if i == 0 {
                assert(out@ =~= after[0]);
            }
        }
        i = i + 1;
    }
    assert(views(parts@).take(parts@.len() as int) =~= views(parts@));
    out
}

/// `strip_cr` on a character vector.
fn strip_cr_chars(line: &[char]) -> (out: Vec<char>)
    ensures
        out@ == strip_cr(line@),
{
    let n = line.len();
    if n > 0 && line[n - 1] == '\r' {
        slice_chars(line, 0, n - 1)
    } else {
        slice_chars(line, 0, n)
    }
}

/// `str::lines` on a character vector.
pub fn lines_of(cs: &[char]) -> (ls: Vec<Vec<char>>)
    ensures
        views(ls@) == lines(cs@),
{
    let pieces = split_chars(cs, '\n');
    proof {
        lemma_split_char_nonempty(cs@, '\n');
    }
    let ghost ps = split_char(cs@, '\n');
    let n = pieces.len();
    let mut out: Vec<Vec<char>> = Vec::new();
    let mut i: usize = 0;
    while i + 1 < n
        invariant
            n == pieces@.len() >= 1,
            views(pieces@) == ps,
            i + 1 <= n,
            views(out@) == ps.drop_last().map_values(|p: Seq<char>| strip_cr(p)).take(i as int),
        decreases n - i,
    {
        let line = strip_cr_chars(pieces[i].as_slice());
        let ghost o = views(out@);
        out.push(line);
        assert(views(out@) =~= o.push(line@));
        assert(ps.drop_last().map_values(|p: Seq<char>| strip_cr(p)).take(i + 1) =~= o.push(
            line@,
        ));
        i = i + 1;
    }
    assert(ps.drop_last().map_values(|p: Seq<char>| strip_cr(p)).take(i as int) =~= ps.drop_last().map_values(
        |p: Seq<char>| strip_cr(p),
    ));
    let last = &pieces[n - 1];
    if last.len() > 0 {
        let copy = slice_chars(last.as_slice(), 0, last.len());
        let ghost o = views(out@);
        out.push(copy);
        assert(views(out@) =~= o.push(copy@));
        assert(copy@ =~= ps.last());
    }
    out
}

/// `eq_ignore_ascii_case` on character vectors.
pub fn eq_ignore_ascii_case_chars(a: &[char], b: &[char]) -> (r: bool)
    ensures
        r == eq_ignore_ascii_case(a@, b@),
{
    if a.len() != b.len() {
        return false;
    }
    let mut i: usize = 0;
    while i < a.len()
        invariant
            i <= a@.len() == b@.len(),
            forall|j: int| 0 <= j < i ==> ascii_lower(#[trigger] a@[j]) == ascii_lower(b@[j]),
        decreases a@.len() - i,
    {
        let x = a[i] as u32;
        let y = b[i] as u32;
        let lx = if 65 <= x && x <= 90 { x + 32 } else { x };
        let ly = if 65 <= y && y <= 90 { y + 32 } else { y };
        if lx != ly {
            assert(ascii_lower(a@[i as int]) != ascii_lower(b@[i as int]));
            return false;
        }
        i = i + 1;
    }
    true
}

/// The decimal digit character for `d`.
fn digit_char_exec(d: u64) -> (c: char)
    requires
        d < 10,
    ensures
        c == digit_char(d as int),
{
    if d == 0 {
        '0'
    } else if d == 1 {
        '1'
    } else if d == 2 {
        '2'
    } else if d == 3 {
        '3'
    } else if d == 4 {
        '4'
    } else if d == 5 {
        '5'
    } else if d == 6 {
        '6'
    } else if d == 7 {
        '7'
    } else if d == 8 {
        '8'
    } else {
        '9'
    }
}

fn push_nat_digits(m: u64, out: &mut Vec<char>)
    ensures
        final(out)@ == old(out)@ + nat_digits(m as nat),
    decreases m,
{
    if m >= 10 {
        push_nat_digits(m / 10, out);
    }
    out.push(digit_char_exec(m % 10));
    proof {
        if m < 10 {
            assert(m % 10 == m);
        }
    }
}

/// The decimal text of `n`, as `Display` writes it.
pub fn int_text_chars(n: i64) -> (out: Vec<char>)
    ensures
        out@ == int_text(n as int),
{
    let mut out: Vec<char> = Vec::new();
    if n < 0 {
        out.push('-');
        let m: u64 = (-(n as i128)) as u64;
        push_nat_digits(m, &mut out);
    } else {
        push_nat_digits(n as u64, &mut out);
    }
    out
}

/// `<i64 as FromStr>::from_str` on a character vector.
pub fn parse_i64_chars(cs: &[char]) -> (r: Option<i64>)
    ensures
        match r {
            Some(v) => parse_i64(cs@) == Some(v as int),
            None => parse_i64(cs@) is None,
        },
{
    let n = cs.len();
    let neg = n > 0 && cs[0] == '-';
    let start: usize = if n > 0 && (cs[0] == '-' || cs[0] == '+') {
        1
    } else {
        0
    };
    let ghost body = unsigned_part(cs@);
    assert(body =~= cs@.subrange(start as int, n as int));
    if start == n {
        return None;
    }
    let limit: u128 = if neg {
        0x8000_0000_0000_0000
    } else {
        0x7fff_ffff_ffff_ffff
    };
    let mut acc: u128 = 0;
    let mut i: usize = start;
    assert(body.take(0) =~= Seq::<char>::empty());
    while i < n
        invariant
            start <= i <= n == cs@.len(),
            body == cs@.subrange(start as int, n as int),
            body == unsigned_part(cs@),
            neg == is_negative(cs@),
            limit == if neg { 0x8000_0000_0000_0000u128 } else { 0x7fff_ffff_ffff_ffffu128 },
            acc <= limit,
            limit <= 0x8000_0000_0000_0000,
            acc == digits_value(body.take(i - start)),
            all_digits(body.take(i - start)),
        decreases n - i,
    {
        let c = cs[i];
        let ghost k: int = i - start;
        assert(body[k] == c);
        if !('0' <= c && c <= '9') {
            assert(!all_digits(body));
            return None;
        }
        proof {
            lemma_take_succ(body, k);
            assert(all_digits(body.take(k + 1)));
        }
        let d = (c as u32 - 48) as u128;
        acc = acc * 10 + d;
        if acc > limit {
            proof {
                if all_digits(body) {
                    lemma_digits_value_prefix(body, k + 1);
                }
            }
            return None;
        }
        i = i + 1;
    }
    assert(body.take(n - start) =~= body);
    if neg {
        Some((-(acc as i128)) as i64)
    } else {
        Some(acc as i64)
    }
}

/// `a` followed by `b`, as a new string.
pub fn str_concat(a: &str, b: &str) -> (r: String)
    ensures
        r@ == a@ + b@,
{
    let mut cs = chars_of(a);
    concat_chars(&mut cs, chars_of(b).as_slice());
    string_of(cs.as_slice())
}

} // verus!
