//! Character-sequence helpers shared by the diagnostics, the lexer and the parser.

use vstd::prelude::*;
use vstd::std_specs::iter::IteratorSpec;

verus! {

/// The decimal rendering of a natural number, most significant digit first.
pub open spec fn decimal(n: nat) -> Seq<char>
    decreases n,
{
    if n < 10 {
        seq![digit_char_spec(n)]
    } else {
        decimal(n / 10).push(digit_char_spec(n % 10))
    }
}

/// The ASCII character of a decimal digit.
pub open spec fn digit_char_spec(d: nat) -> char {
    if d == 0 { '0' }
    else if d == 1 { '1' }
    else if d == 2 { '2' }
    else if d == 3 { '3' }
    else if d == 4 { '4' }
    else if d == 5 { '5' }
    else if d == 6 { '6' }
    else if d == 7 { '7' }
    else if d == 8 { '8' }
    else { '9' }
}

/// The character for a decimal digit.
pub fn digit_char(d: usize) -> (c: char)
    requires
        d < 10,
    ensures
        c == digit_char_spec(d as nat),
{
    if d == 0 { '0' }
    else if d == 1 { '1' }
    else if d == 2 { '2' }
    else if d == 3 { '3' }
    else if d == 4 { '4' }
    else if d == 5 { '5' }
    else if d == 6 { '6' }
    else if d == 7 { '7' }
    else if d == 8 { '8' }
    else { '9' }
}

/// Appends the decimal rendering of `n` to `out`.
pub fn push_decimal(out: &mut Vec<char>, n: usize)
    ensures
        final(out)@ == old(out)@ + decimal(n as nat),
    decreases n,
{
    if n < 10 {
        out.push(digit_char(n));
    } else {
        push_decimal(out, n / 10);
        out.push(digit_char(n % 10));
        proof {
            assert(old(out)@ + decimal(n as nat) =~= old(out)@ + decimal((n / 10) as nat)
                + seq![digit_char_spec((n % 10) as nat)]);
        }
    }
}

/// Appends the characters of `s` to `out`.
pub fn push_str(out: &mut Vec<char>, s: &str)
    ensures
        final(out)@ == old(out)@ + s@,
{
    let mut cs = str_chars(s);
    out.append(&mut cs);
}

/// The number of bytes UTF-8 spends on `c`.
pub open spec fn utf8_width(c: char) -> nat {
    if (c as u32) < 0x80 {
        1
    } else if (c as u32) < 0x800 {
        2
    } else if (c as u32) < 0x10000 {
        3
    } else {
        4
    }
}

/// The number of bytes of the UTF-8 encoding of `s`.
pub open spec fn utf8_len(s: Seq<char>) -> nat
    decreases s.len(),
{
    if s.len() == 0 { 0 } else { utf8_len(s.drop_last()) + utf8_width(s.last()) }
}

/// A string has at least as many bytes as characters.
proof fn lemma_utf8_len_bound(s: Seq<char>)
    ensures
        s.len() <= utf8_len(s),
    decreases s.len(),
{
    if s.len() > 0 {
        lemma_utf8_len_bound(s.drop_last());
    }
}

/// Wraps `str::len`: the length of `s` in bytes, that is of its UTF-8 encoding; no
/// value in memory spans more than `isize::MAX` bytes.
#[verifier::external_body]
fn byte_len(s: &str) -> (n: usize)
    ensures
        n == utf8_len(s@),
        n <= isize::MAX,
{
    s.len()
}

/// Wraps `String::push`: appends `c` to `s`.
#[verifier::external_body]
fn string_push(s: &mut String, c: char)
    ensures
        final(s)@ == old(s)@.push(c),
{
    s.push(c);
}

/// The characters of `s`, in order.
pub fn str_chars(s: &str) -> (v: Vec<char>)
    ensures
        v@ == s@,
        v@.len() <= isize::MAX,
{
    broadcast use vstd::string::axiom_spec_iter, vstd::string::next_postcondition;
    let n = byte_len(s);
    proof { lemma_utf8_len_bound(s@); }
    let mut v: Vec<char> = Vec::new();
    let mut it = s.chars();
    loop
        invariant
            v@ + it.remaining() == s@,
        ensures
            v@ == s@,
        decreases s@.len() - v@.len(),
    {
        match it.next() {
            Some(c) => {
                v.push(c);
            },
            None => {
                assert(v@ + it.remaining() == v@);
                break;
            },
        }
    }
    v
}

/// The string made of the characters of `v`, in order.
pub fn chars_to_string(v: &[char]) -> (s: String)
    ensures
        s@ == v@,
{
    let mut s = String::new();
    let mut i: usize = 0;
    while i < v.len()
        invariant
            i <= v@.len(),
            s@ == v@.subrange(0, i as int),
        decreases v.len() - i,
    {
        string_push(&mut s, v[i]);
        i += 1;
        assert(s@ =~= v@.subrange(0, i as int));
    }
    assert(v@.subrange(0, v@.len() as int) =~= v@);
    s
}

/// The string holding a literal's characters.
pub fn lit(s: &str) -> (r: String)
    ensures
        r@ == s@,
{
    String::from_str(s)
}

/// Whether two character sequences are equal.
pub fn chars_eq(a: &[char], b: &[char]) -> (r: bool)
    ensures
        r == (a@ == b@),
{
    if a.len() != b.len() {
        return false;
    }
    let mut i: usize = 0;
    while i < a.len()
        invariant
            a.len() == b.len(),
            i <= a.len(),
            forall|j: int| 0 <= j < i ==> a@[j] == b@[j],
        decreases a.len() - i,
    {
        if a[i] != b[i] {
            return false;
        }
        i += 1;
    }
    assert(a@ =~= b@);
    true
}

/// Whether the string `s` holds exactly the characters of `w`.
pub fn str_is(s: &String, w: &str) -> (r: bool)
    ensures
        r == (s@ == w@),
{
    let a = str_chars(s.as_str());
    let b = str_chars(w);
    chars_eq(a.as_slice(), b.as_slice())
}


/// The uppercase hexadecimal digit for `d` (below 16).
pub open spec fn hex_char_spec(d: nat) -> char {
    if d < 10 { digit_char_spec(d) }
    else if d == 10 { 'A' }
    else if d == 11 { 'B' }
    else if d == 12 { 'C' }
    else if d == 13 { 'D' }
    else if d == 14 { 'E' }
    else { 'F' }
}

/// The uppercase hexadecimal rendering of `n`, most significant digit first.
pub open spec fn hex_upper(n: nat) -> Seq<char>
    decreases n,
{
    if n < 16 {
        seq![hex_char_spec(n)]
    } else {
        hex_upper(n / 16).push(hex_char_spec(n % 16))
    }
}

/// `s` left-padded with zeros to at least `w` characters.
pub open spec fn zero_pad(s: Seq<char>, w: nat) -> Seq<char> {
    if s.len() >= w {
        s
    } else {
        Seq::new((w - s.len()) as nat, |i: int| '0') + s
    }
}

fn hex_char(d: u32) -> (c: char)
    requires
        d < 16,
    ensures
        c == hex_char_spec(d as nat),
{
    if d < 10 { digit_char(d as usize) }
    else if d == 10 { 'A' }
    else if d == 11 { 'B' }
    else if d == 12 { 'C' }
    else if d == 13 { 'D' }
    else if d == 14 { 'E' }
    else { 'F' }
}

/// The uppercase hexadecimal digits of `n`.
pub fn hex_digits(n: u32) -> (r: Vec<char>)
    ensures
        r@ == hex_upper(n as nat),
    decreases n,
{
    if n < 16 {
        let mut v: Vec<char> = Vec::new();
        v.push(hex_char(n));
        assert(v@ =~= hex_upper(n as nat));
        v
    } else {
        let mut v = hex_digits(n / 16);
        v.push(hex_char(n % 16));
        v
    }
}

/// Appends the uppercase hexadecimal digits of `n`, zero-padded to four.
pub fn push_hex4(out: &mut Vec<char>, n: u32)
    ensures
        final(out)@ == old(out)@ + zero_pad(hex_upper(n as nat), 4),
{
    let digits = hex_digits(n);
    let ghost before = out@;
    let mut k: usize = digits.len();
    while k < 4
        invariant
            digits@ == hex_upper(n as nat),
            digits.len() <= k <= 4 || (k == digits.len() && k >= 4),
            out@ == before + Seq::new((k - digits.len()) as nat, |i: int| '0'),
        decreases 4 - k,
    {
        out.push('0');
        k += 1;
        assert(out@ =~= before + Seq::new((k - digits.len()) as nat, |i: int| '0'));
    }
    let mut i: usize = 0;
    let ghost mid = out@;
    while i < digits.len()
        invariant
            i <= digits.len(),
            out@ == mid + digits@.take(i as int),
        decreases digits.len() - i,
    {
        out.push(digits[i]);
        i += 1;
        assert(out@ =~= mid + digits@.take(i as int));
    }
    assert(digits@.take(digits.len() as int) =~= digits@);
    assert(final(out)@ =~= old(out)@ + zero_pad(hex_upper(n as nat), 4));
}

/// The characters `cs[a..b]`.
pub fn chars_between(cs: &Vec<char>, a: usize, b: usize) -> (r: String)
    requires
        a <= b <= cs@.len(),
    ensures
        r@ == cs@.subrange(a as int, b as int),
{
    let mut out: Vec<char> = Vec::new();
    let mut i: usize = a;
    while i < b
        invariant
            a <= i <= b,
            b <= cs@.len(),
            out@ == cs@.subrange(a as int, i as int),
        decreases b - i,
    {
        out.push(cs[i]);
        assert(out@ =~= cs@.subrange(a as int, i + 1));
        i += 1;
    }
    chars_to_string(out.as_slice())
}

/// Where `pat` first occurs in `s`, if it does.
pub open spec fn occurs_at(s: Seq<char>, pat: Seq<char>, i: int) -> bool {
    0 <= i && i + pat.len() <= s.len() && s.subrange(i, i + pat.len()) == pat
}

/// Where `pat` first occurs in `s` at or after `i`, if it does.
pub open spec fn first_occurrence(s: Seq<char>, pat: Seq<char>, i: int) -> Option<int>
    decreases s.len() + 1 - i,
{
    if i < 0 || i > s.len() {
        None
    } else if occurs_at(s, pat, i) {
        Some(i)
    } else {
        first_occurrence(s, pat, i + 1)
    }
}

/// The text before the first occurrence of `pat` in `s`, if it occurs.
pub open spec fn before_first(s: Seq<char>, pat: Seq<char>) -> Option<Seq<char>> {
    match first_occurrence(s, pat, 0) {
        Some(k) => Some(s.subrange(0, k)),
        None => None,
    }
}

pub(crate) proof fn lemma_first_occurrence(s: Seq<char>, pat: Seq<char>, i: int, k: Option<int>)
    requires
        0 <= i,
        forall|j: int| i <= j && (k matches Some(kk) ==> j < kk) ==> !occurs_at(s, pat, j),
        k matches Some(kk) ==> i <= kk && occurs_at(s, pat, kk),
    ensures
        first_occurrence(s, pat, i) == k,
    decreases s.len() + 1 - i,
{
    if i <= s.len() && !occurs_at(s, pat, i) {
        lemma_first_occurrence(s, pat, i + 1, k);
    } else if i > s.len() {
        if let Some(kk) = k {
            assert(occurs_at(s, pat, kk));
        }
    }
}

/// The text before and after the first occurrence of `pat` in `s`.
pub fn split_once(s: &String, pat: &str) -> (r: Option<(String, String)>)
    ensures
        r matches Some((a, _)) ==> before_first(s@, pat@) == Some(a@),
        r is None ==> before_first(s@, pat@) is None,
        match r {
            Some((a, b)) => occurs_at(s@, pat@, a@.len() as int)
                && (forall|j: int| 0 <= j < a@.len() ==> !occurs_at(s@, pat@, j))
                && a@ == s@.subrange(0, a@.len() as int)
                && b@ == s@.subrange((a@.len() + pat@.len()) as int, s@.len() as int),
            None => forall|j: int| 0 <= j ==> !occurs_at(s@, pat@, j),
        },
{
    let cs = str_chars(s.as_str());
    let ps = str_chars(pat);
    let mut i: usize = 0;
    while i + ps.len() <= cs.len()
        invariant
            cs@ == s@,
            ps@ == pat@,
            cs@.len() <= isize::MAX,
            ps@.len() <= isize::MAX,
            i <= cs@.len(),
            forall|j: int| 0 <= j < i ==> !occurs_at(s@, pat@, j),
        decreases cs@.len() - i,
    {
        let mut k: usize = 0;
        while k < ps.len() && cs[i + k] == ps[k]
            invariant
                k <= ps@.len(),
                i + ps@.len() <= cs@.len(),
                cs@.len() <= isize::MAX,
                forall|m: int| 0 <= m < k ==> cs@[i + m] == ps@[m],
            decreases ps@.len() - k,
        {
            k += 1;
        }
        if k == ps.len() {
            assert(cs@.subrange(i as int, i + ps@.len()) =~= ps@);
            let a = chars_between(&cs, 0, i);
            let b = chars_between(&cs, i + ps.len(), cs.len());
            proof { lemma_first_occurrence(s@, pat@, 0, Some(i as int)); }
            return Some((a, b));
        }
        assert(cs@.subrange(i as int, i + ps@.len())[k as int] != ps@[k as int]);
        i += 1;
    }
    proof { lemma_first_occurrence(s@, pat@, 0, None); }
    None
}


} // verus!
