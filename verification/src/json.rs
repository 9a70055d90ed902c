//! The atoms of the interchange format: JSON string escaping and
//! unescaping, and the number forms the documents use — plain decimal
//! integers, and kilogram values written with exactly three decimals.
//!
//! The format is compact JSON: no whitespace between tokens.

use vstd::prelude::*;

use crate::text::{digit_char, digit_to_char, push_dec, push_pad3, spec_dec, spec_pad3};

verus! {

/// Whether a character is a decimal digit.
pub open spec fn is_digit(c: char) -> bool {
    '0' <= c <= '9'
}

/// The numeric value of a digit character.
pub open spec fn digit_val(c: char) -> int {
    c as u32 - '0' as u32
}

fn char_digit(c: char) -> (r: Option<u8>)
    ensures
        r is Some <==> is_digit(c),
        r is Some ==> r->0 == digit_val(c) && digit_val(c) < 10,
{
    if '0' <= c && c <= '9' {
        Some((c as u32 - '0' as u32) as u8)
    } else {
        None
    }
}

/// The lowercase hexadecimal digit for a value below sixteen.
pub open spec fn hex_char(d: int) -> char {
    if d < 10 {
        digit_char(d)
    } else if d == 10 {
        'a'
    } else if d == 11 {
        'b'
    } else if d == 12 {
        'c'
    } else if d == 13 {
        'd'
    } else if d == 14 {
        'e'
    } else {
        'f'
    }
}

fn hex_to_char(d: u8) -> (c: char)
    requires
        d < 16,
    ensures
        c == hex_char(d as int),
{
    if d < 10 {
        digit_to_char(d)
    } else if d == 10 {
        'a'
    } else if d == 11 {
        'b'
    } else if d == 12 {
        'c'
    } else if d == 13 {
        'd'
    } else if d == 14 {
        'e'
    } else {
        'f'
    }
}

/// The numeric value of a hexadecimal digit character, if it is one.
pub open spec fn hex_val(c: char) -> Option<int> {
    if is_digit(c) {
        Some(digit_val(c))
    } else if 'a' <= c <= 'f' {
        Some(c as u32 - 'a' as u32 + 10)
    } else if 'A' <= c <= 'F' {
        Some(c as u32 - 'A' as u32 + 10)
    } else {
        None
    }
}

fn char_hex(c: char) -> (r: Option<u8>)
    ensures
        r is Some <==> hex_val(c) is Some,
        r is Some ==> Some(r->0 as int) == hex_val(c) && r->0 < 16,
{
    if '0' <= c && c <= '9' {
        Some((c as u32 - '0' as u32) as u8)
    } else if 'a' <= c && c <= 'f' {
        Some((c as u32 - 'a' as u32 + 10) as u8)
    } else if 'A' <= c && c <= 'F' {
        Some((c as u32 - 'A' as u32 + 10) as u8)
    } else {
        None
    }
}

/// How one character is written inside a JSON string: quote and
/// backslash get escaped, control characters become `\u00XX`, everything
/// else stands as itself.
pub open spec fn spec_esc_char(c: char) -> Seq<char> {
    if c == '"' {
        seq!['\\', '"']
    } else if c == '\\' {
        seq!['\\', '\\']
    } else if (c as u32) < 32 {
        seq!['\\', 'u', '0', '0', hex_char(c as u32 as int / 16), hex_char(c as u32 as int % 16)]
    } else {
        seq![c]
    }
}

/// A string's characters, escaped.
pub open spec fn spec_escape(s: Seq<char>) -> Seq<char>
    decreases s.len(),
{
    if s.len() == 0 {
        Seq::empty()
    } else {
        spec_esc_char(s[0]) + spec_escape(s.drop_first())
    }
}

/// A whole JSON string token, quotes included.
pub open spec fn spec_json_string(s: Seq<char>) -> Seq<char> {
    seq!['"'] + spec_escape(s) + seq!['"']
}

/// Appends one escaped character.
fn push_esc_char(out: &mut Vec<char>, c: char)
    ensures
        final(out)@ == old(out)@ + spec_esc_char(c),
{
    if c == '"' {
        out.push('\\');
        out.push('"');
        proof {
            assert(out@ =~= old(out)@ + spec_esc_char(c));
        }
    } else if c == '\\' {
        out.push('\\');
        out.push('\\');
        proof {
            assert(out@ =~= old(out)@ + spec_esc_char(c));
        }
    } else if (c as u32) < 32 {
        out.push('\\');
        out.push('u');
        out.push('0');
        out.push('0');
        out.push(hex_to_char((c as u32 / 16) as u8));
        out.push(hex_to_char((c as u32 % 16) as u8));
        proof {
            assert(out@ =~= old(out)@ + spec_esc_char(c));
        }
    } else {
        out.push(c);
        proof {
            assert(out@ =~= old(out)@ + spec_esc_char(c));
        }
    }
}

/// Appends a whole JSON string token for the given characters.
pub fn push_json_string(out: &mut Vec<char>, s: &str)
    ensures
        final(out)@ == old(out)@ + spec_json_string(s@),
{
    let n = s.unicode_len();
    out.push('"');
    let mut i: usize = 0;
    proof {
        assert(s@.skip(0) =~= s@);
        assert(out@ =~= old(out)@ + seq!['"'] + spec_escape(s@).take(0));
    }
    while i < n
        invariant
            i <= n,
            n == s@.len(),
            out@ + spec_escape(s@.skip(i as int)) == old(out)@ + seq!['"'] + spec_escape(s@),
        decreases n - i,
    {
        proof {
            assert(s@.skip(i as int).drop_first() =~= s@.skip(i as int + 1));
            assert(s@.skip(i as int)[0] == s@[i as int]);
        }
        let c = s.get_char(i);
        push_esc_char(out, c);
        i = i + 1;
        proof {
            assert(out@ + spec_escape(s@.skip(i as int)) =~= old(out)@ + seq!['"'] + spec_escape(
                s@,
            ));
        }
    }
    proof {
        assert(s@.skip(n as int) =~= Seq::<char>::empty());
        assert(out@ =~= old(out)@ + seq!['"'] + spec_escape(s@));
    }
    out.push('"');
    proof {
        assert(out@ =~= old(out)@ + spec_json_string(s@));
    }
}

/// A kilogram value in grams, written with exactly three decimals.
pub open spec fn spec_kg_text(g: int) -> Seq<char> {
    spec_dec(g / 1000) + seq!['.'] + spec_pad3(g % 1000)
}

/// Appends a gram count as a kilogram number with three decimals.
pub fn push_kg(out: &mut Vec<char>, g: u64)
    ensures
        final(out)@ == old(out)@ + spec_kg_text(g as int),
{
    push_dec(out, g / 1000);
    out.push('.');
    push_pad3(out, g % 1000);
    proof {
        assert(out@ =~= old(out)@ + spec_kg_text(g as int));
    }
}

/// The position after the run of digits starting at `i`.
pub open spec fn digits_end(s: Seq<char>, i: int) -> int
    decreases s.len() - i when 0 <= i <= s.len()
{
    if i < s.len() && is_digit(s[i]) {
        digits_end(s, i + 1)
    } else {
        i
    }
}

/// The value of the digits `s[i..j)`, read left to right.
pub open spec fn digits_val(s: Seq<char>, i: int, j: int) -> int
    decreases j - i when 0 <= i <= j <= s.len()
{
    if i >= j {
        0
    } else {
        digits_val(s, i, j - 1) * 10 + digit_val(s[j - 1])
    }
}

/// A parsed non-negative integer: its value and the position after it.
/// Absent when no digit starts at `i` or the value exceeds `u64::MAX`.
pub open spec fn spec_parse_u64(s: Seq<char>, i: int) -> Option<(u64, int)> {
    let j = digits_end(s, i);
    if j == i {
        None
    } else if digits_val(s, i, j) > u64::MAX {
        None
    } else {
        Some((digits_val(s, i, j) as u64, j))
    }
}

pub proof fn lemma_digits_end_bounds(s: Seq<char>, i: int)
    requires
        0 <= i <= s.len(),
    ensures
        i <= digits_end(s, i) <= s.len(),
        forall|k: int| i <= k < digits_end(s, i) ==> is_digit(#[trigger] s[k]),
        digits_end(s, i) == s.len() || !is_digit(s[digits_end(s, i)]),
    decreases s.len() - i,
{
    if i < s.len() && is_digit(s[i]) {
        lemma_digits_end_bounds(s, i + 1);
    }
}

/// Parses a run of digits as a `u64`.
pub fn parse_u64(v: &Vec<char>, i: usize) -> (r: Option<(u64, usize)>)
    requires
        i <= v@.len(),
    ensures
        match spec_parse_u64(v@, i as int) {
            Some((val, j)) => r matches Some(p) && p.0 == val && p.1 == j,
            None => r is None,
        },
{
    proof {
        lemma_digits_end_bounds(v@, i as int);
    }
    let ghost jj = digits_end(v@, i as int);
    let n = v.len();
    let mut j: usize = i;
    let mut val: u64 = 0;
    let mut overflow: bool = false;
    while j < n && char_digit(v[j]).is_some()
        invariant
            i <= j <= n,
            n == v@.len(),
            jj == digits_end(v@, i as int),
            i as int <= jj <= n,
            forall|k: int| i <= k < jj ==> is_digit(#[trigger] v@[k]),
            jj == n || !is_digit(v@[jj as int]),
            j <= jj,
            j < jj ==> is_digit(v@[j as int]),
            digits_end(v@, j as int) == jj,
            !overflow ==> val == digits_val(v@, i as int, j as int),
            !overflow ==> digits_val(v@, i as int, j as int) <= u64::MAX,
            overflow ==> digits_val(v@, i as int, jj) > u64::MAX,
        decreases n - j,
    {
        let d = match char_digit(v[j]) {
            Some(d) => d,
            None => 0,
        };
        proof {
            assert(is_digit(v@[j as int]));
            assert(digits_end(v@, j as int) == digits_end(v@, j as int + 1));
        }
        if !overflow {
            if val > (u64::MAX - d as u64) / 10 {
                overflow = true;
                proof {
                    assert(digits_val(v@, i as int, j as int + 1) == val * 10 + d);
                    assert(val * 10 + d > u64::MAX) by (nonlinear_arith)
                        requires
                            val > (u64::MAX - d as u64) / 10,
                            d < 10,
                    ;
                    lemma_digits_val_grows(v@, i as int, j as int + 1, jj);
                }
            } else {
                proof {
                    assert(val * 10 + d <= u64::MAX) by (nonlinear_arith)
                        requires
                            val <= (u64::MAX - d as u64) / 10,
                            d < 10,
                    ;
                    assert(digits_val(v@, i as int, j as int + 1) == val * 10 + d);
                }
                val = val * 10 + d as u64;
            }
        } else {
            proof {
                lemma_digits_val_grows(v@, i as int, j as int, jj);
                assert(digits_val(v@, i as int, jj) > u64::MAX);
            }
        }
        j = j + 1;
    }
    proof {
        if j < n {
            assert(!is_digit(v@[j as int]));
        }
        assert(j as int == jj);
    }
    if j == i {
        None
    } else if overflow {
        None
    } else {
        Some((val, j))
    }
}

/// A digit run's value only grows as more digits are read.
pub proof fn lemma_digits_val_grows(s: Seq<char>, i: int, j: int, k: int)
    requires
        0 <= i <= j <= k <= s.len(),
        forall|q: int| i <= q < k ==> is_digit(#[trigger] s[q]),
    ensures
        digits_val(s, i, j) <= digits_val(s, i, k),
    decreases k - j,
{
    if j < k {
        lemma_digits_val_grows(s, i, j, k - 1);
        lemma_digits_val_nonneg(s, i, k - 1);
        assert(digits_val(s, i, k) == digits_val(s, i, k - 1) * 10 + digit_val(s[k - 1]));
        assert(digit_val(s[k - 1]) >= 0);
        assert(digits_val(s, i, k - 1) * 10 >= digits_val(s, i, k - 1)) by (nonlinear_arith)
            requires
                digits_val(s, i, k - 1) >= 0,
        ;
    }
}

pub proof fn lemma_digits_val_nonneg(s: Seq<char>, i: int, j: int)
    requires
        0 <= i <= j <= s.len(),
        forall|q: int| i <= q < j ==> is_digit(#[trigger] s[q]),
    ensures
        digits_val(s, i, j) >= 0,
    decreases j - i,
{
    if i < j {
        lemma_digits_val_nonneg(s, i, j - 1);
        assert(digits_val(s, i, j) == digits_val(s, i, j - 1) * 10 + digit_val(s[j - 1]));
        assert(digits_val(s, i, j - 1) * 10 >= 0) by (nonlinear_arith)
            requires
                digits_val(s, i, j - 1) >= 0,
        ;
    }
}

/// The character a short escape denotes.
pub open spec fn unescaped_short(e: char) -> char {
    if e == '"' {
        '"'
    } else if e == '\\' {
        '\\'
    } else if e == '/' {
        '/'
    } else if e == 'n' {
        '\n'
    } else if e == 't' {
        '\t'
    } else if e == 'r' {
        '\r'
    } else if e == 'b' {
        '\u{0008}'
    } else {
        '\u{000c}'
    }
}

pub open spec fn is_short_escape(e: char) -> bool {
    e == '"' || e == '\\' || e == '/' || e == 'n' || e == 't' || e == 'r' || e == 'b' || e == 'f'
}

/// The characters a JSON string body denotes, read from just after the
/// opening quote; yields the content and the position after the closing
/// quote. `\uXXXX` escapes are accepted for code points below 128.
pub open spec fn spec_parse_str_body(s: Seq<char>, i: int) -> Option<(Seq<char>, int)>
    decreases s.len() - i when 0 <= i <= s.len()
{
    if i >= s.len() {
        None
    } else if s[i] == '"' {
        Some((Seq::empty(), i + 1))
    } else if s[i] == '\\' {
        if i + 1 >= s.len() {
            None
        } else if is_short_escape(s[i + 1]) {
            match spec_parse_str_body(s, i + 2) {
                Some((rest, j)) => Some((seq![unescaped_short(s[i + 1])] + rest, j)),
                None => None,
            }
        } else if s[i + 1] == 'u' {
            if i + 6 <= s.len() && hex_val(s[i + 2]) is Some && hex_val(s[i + 3]) is Some && hex_val(
                s[i + 4],
            ) is Some && hex_val(s[i + 5]) is Some {
                let v = hex_val(s[i + 2])->0 * 4096 + hex_val(s[i + 3])->0 * 256 + hex_val(
                    s[i + 4],
                )->0 * 16 + hex_val(s[i + 5])->0;
                if v < 128 {
                    match spec_parse_str_body(s, i + 6) {
                        Some((rest, j)) => Some((seq![((v as u8) as char)] + rest, j)),
                        None => None,
                    }
                } else {
                    None
                }
            } else {
                None
            }
        } else {
            None
        }
    } else if (s[i] as u32) < 32 {
        None
    } else {
        match spec_parse_str_body(s, i + 1) {
            Some((rest, j)) => Some((seq![s[i]] + rest, j)),
            None => None,
        }
    }
}

/// A whole JSON string token: an opening quote, a body, a closing quote.
pub open spec fn spec_parse_jstring(s: Seq<char>, i: int) -> Option<(Seq<char>, int)> {
    if 0 <= i < s.len() && s[i] == '"' {
        spec_parse_str_body(s, i + 1)
    } else {
        None
    }
}

pub proof fn lemma_parse_str_body_bounds(s: Seq<char>, i: int)
    requires
        0 <= i <= s.len(),
    ensures
        match spec_parse_str_body(s, i) {
            Some((c, j)) => i < j <= s.len(),
            None => true,
        },
    decreases s.len() - i,
{
    if i < s.len() {
        if s[i] == '\\' && i + 1 < s.len() {
            if is_short_escape(s[i + 1]) {
                lemma_parse_str_body_bounds(s, i + 2);
            } else if s[i + 1] == 'u' && i + 6 <= s.len() {
                lemma_parse_str_body_bounds(s, i + 6);
            }
        } else if s[i] != '"' && (s[i] as u32) >= 32 {
            lemma_parse_str_body_bounds(s, i + 1);
        }
    }
}

/// Parses a JSON string token starting at `i`.
pub fn parse_jstring(v: &Vec<char>, i: usize) -> (r: Option<(String, usize)>)
    requires
        i <= v@.len(),
    ensures
        match spec_parse_jstring(v@, i as int) {
            Some((content, j)) => r matches Some(p) && p.0@ == content && p.1 == j,
            None => r is None,
        },
{
    if i >= v.len() || v[i] != '"' {
        return None;
    }
    let mut acc: Vec<char> = Vec::new();
    let mut k: usize = i + 1;
    proof {
        assert(acc@ + Seq::<char>::empty() =~= Seq::<char>::empty());
    }
    loop
        invariant
            i + 1 <= k <= v@.len(),
            i < v@.len(),
            v@[i as int] == '"',
            match spec_parse_str_body(v@, k as int) {
                Some((rest, j)) => spec_parse_str_body(v@, i as int + 1) == Some((
                    acc@ + rest,
                    j,
                )),
                None => spec_parse_str_body(v@, i as int + 1) is None,
            },
        decreases v@.len() - k,
    {
        if k >= v.len() {
            return None;
        }
        let c = v[k];
        if c == '"' {
            proof {
                assert(spec_parse_str_body(v@, k as int) == Some((Seq::<char>::empty(), k + 1)));
                assert(acc@ + Seq::<char>::empty() =~= acc@);
            }
            let s = crate::text::chars_to_string(&acc);
            return Some((s, k + 1));
        } else if c == '\\' {
            if k + 1 >= v.len() {
                return None;
            }
            let e = v[k + 1];
            if e == '"' || e == '/' || e == '\\' || e == 'n' || e == 't' || e == 'r' || e == 'b'
                || e == 'f' {
                let u = if e == '"' {
                    '"'
                } else if e == '\\' {
                    '\\'
                } else if e == '/' {
                    '/'
                } else if e == 'n' {
                    '\n'
                } else if e == 't' {
                    '\t'
                } else if e == 'r' {
                    '\r'
                } else if e == 'b' {
                    '\u{0008}'
                } else {
                    '\u{000c}'
                };
                let ghost acc_pre = acc@;
                acc.push(u);
                proof {
                    assert(u == unescaped_short(v@[k as int + 1]));
                    match spec_parse_str_body(v@, k as int + 2) {
                        Some(p) => {
                            assert(acc_pre + (seq![u] + p.0) =~= acc@ + p.0);
                        },
                        None => {},
                    }
                }
                k = k + 2;
            } else if e == 'u' {
                if v.len() - k < 6 {
                    proof {
                        assert(spec_parse_str_body(v@, k as int) is None);
                    }
                    return None;
                }
                let h0 = char_hex(v[k + 2]);
                let h1 = char_hex(v[k + 3]);
                let h2 = char_hex(v[k + 4]);
                let h3 = char_hex(v[k + 5]);
                match (h0, h1, h2, h3) {
                    (Some(a), Some(b), Some(cc), Some(d)) => {
                        let val: u32 = a as u32 * 4096 + b as u32 * 256 + cc as u32 * 16
                            + d as u32;
                        if val < 128 {
                            let ghost acc_pre = acc@;
                            acc.push(val as u8 as char);
                            proof {
                                match spec_parse_str_body(v@, k as int + 6) {
                                    Some(p) => {
                                        assert(acc_pre + (seq![(val as u8) as char] + p.0) =~= acc@
                                            + p.0);
                                    },
                                    None => {},
                                }
                            }
                            k = k + 6;
                        } else {
                            return None;
                        }
                    },
                    _ => {
                        return None;
                    },
                }
            } else {
                return None;
            }
        } else if (c as u32) < 32 {
            return None;
        } else {
            let ghost acc_pre = acc@;
            acc.push(c);
            proof {
                match spec_parse_str_body(v@, k as int + 1) {
                    Some(p) => {
                        assert(acc_pre + (seq![c] + p.0) =~= acc@ + p.0);
                    },
                    None => {},
                }
            }
            k = k + 1;
        }
    }
}

pub proof fn lemma_digit_char_val(d: int)
    requires
        0 <= d < 10,
    ensures
        is_digit(digit_char(d)),
        digit_val(digit_char(d)) == d,
{
}

pub proof fn lemma_hex_char_val(d: int)
    requires
        0 <= d < 16,
    ensures
        hex_val(hex_char(d)) == Some(d),
{
}

/// Decimal digit strings are nonempty and all digits.
pub proof fn lemma_dec_digits(n: int)
    requires
        n >= 0,
    ensures
        spec_dec(n).len() >= 1,
        forall|k: int| 0 <= k < spec_dec(n).len() ==> is_digit(#[trigger] spec_dec(n)[k]),
    decreases n,
{
    if n < 10 {
        lemma_digit_char_val(n);
    } else {
        lemma_dec_digits(n / 10);
        lemma_digit_char_val(n % 10);
    }
}

/// Where a digit run provably ends.
pub proof fn lemma_digits_end_is(s: Seq<char>, i: int, j: int)
    requires
        0 <= i <= j <= s.len(),
        forall|k: int| i <= k < j ==> is_digit(#[trigger] s[k]),
        j == s.len() || !is_digit(s[j]),
    ensures
        digits_end(s, i) == j,
    decreases j - i,
{
    if i < j {
        lemma_digits_end_is(s, i + 1, j);
    }
}

/// The value of a printed decimal read back from a larger text.
pub proof fn lemma_digits_val_of_dec(n: int, full: Seq<char>, i: int)
    requires
        n >= 0,
        0 <= i,
        i + spec_dec(n).len() <= full.len(),
        full.subrange(i, i + spec_dec(n).len()) == spec_dec(n),
    ensures
        digits_val(full, i, i + spec_dec(n).len()) == n,
    decreases n,
{
    let w = spec_dec(n).len() as int;
    assert forall|k: int| 0 <= k < w implies full[i + k] == spec_dec(n)[k] by {
        assert(full.subrange(i, i + w)[k] == full[i + k]);
    }
    if n < 10 {
        lemma_digit_char_val(n);
        assert(spec_dec(n) == seq![digit_char(n)]);
        assert(full[i + 0] == spec_dec(n)[0]);
        assert(spec_dec(n)[0] == digit_char(n));
        assert(digits_val(full, i, i + 1) == digits_val(full, i, i) * 10 + digit_val(full[i]));
        assert(digits_val(full, i, i) == 0);
    } else {
        lemma_dec_digits(n / 10);
        let w0 = spec_dec(n / 10).len() as int;
        assert(spec_dec(n) == spec_dec(n / 10).push(digit_char(n % 10)));
        assert(w == w0 + 1);
        assert(full.subrange(i, i + w0) =~= spec_dec(n / 10)) by {
            assert forall|k: int| 0 <= k < w0 implies #[trigger] full.subrange(i, i + w0)[k]
                == spec_dec(n / 10)[k] by {
                assert(full[i + k] == spec_dec(n)[k]);
                assert(spec_dec(n)[k] == spec_dec(n / 10)[k]);
            }
        }
        lemma_digits_val_of_dec(n / 10, full, i);
        lemma_digit_char_val(n % 10);
        assert(full[i + w0] == spec_dec(n)[w0]);
        assert(digits_val(full, i, i + w) == digits_val(full, i, i + w0) * 10 + digit_val(
            full[i + w0],
        ));
    }
}

/// A printed `u64` parses back to itself when followed by a non-digit.
pub proof fn lemma_parse_printed_u64(n: int, full: Seq<char>, i: int)
    requires
        0 <= n <= u64::MAX,
        0 <= i,
        i + spec_dec(n).len() <= full.len(),
        full.subrange(i, i + spec_dec(n).len()) == spec_dec(n),
        i + spec_dec(n).len() == full.len() || !is_digit(full[i + spec_dec(n).len()]),
    ensures
        spec_parse_u64(full, i) == Some((n as u64, i + spec_dec(n).len())),
{
    let w = spec_dec(n).len() as int;
    lemma_dec_digits(n);
    assert forall|k: int| i <= k < i + w implies is_digit(#[trigger] full[k]) by {
        assert(full.subrange(i, i + w)[k - i] == full[k]);
        assert(is_digit(spec_dec(n)[k - i]));
    }
    lemma_digits_end_is(full, i, i + w);
    lemma_digits_val_of_dec(n, full, i);
}

/// A printed escaped character begins with no quote.
pub proof fn lemma_esc_char_shape(c: char)
    ensures
        spec_esc_char(c).len() >= 1,
        spec_esc_char(c)[0] != '"',
{
}

/// A printed string body parses back to the original characters.
pub proof fn lemma_parse_printed_body(s: Seq<char>, full: Seq<char>, i: int)
    requires
        0 <= i,
        i + spec_escape(s).len() + 1 <= full.len(),
        full.subrange(i, i + spec_escape(s).len()) == spec_escape(s),
        full[i + spec_escape(s).len()] == '"',
    ensures
        spec_parse_str_body(full, i) == Some((s, i + spec_escape(s).len() + 1)),
    decreases s.len(),
{
    let w = spec_escape(s).len() as int;
    assert forall|k: int| 0 <= k < w implies full[i + k] == spec_escape(s)[k] by {
        assert(full.subrange(i, i + w)[k] == full[i + k]);
    }
    if s.len() == 0 {
        assert(full[i] == '"');
    } else {
        let c = s[0];
        let e = spec_esc_char(c);
        let rest = spec_escape(s.drop_first());
        assert(spec_escape(s) == e + rest);
        let we = e.len() as int;
        assert forall|k: int| 0 <= k < rest.len() implies full[i + we + k] == rest[k] by {
            assert(full[i + we + k] == spec_escape(s)[we + k]);
            assert(spec_escape(s)[we + k] == rest[k]);
        }
        assert(full.subrange(i + we, i + w) =~= rest);
        assert(full[i + w] == '"');
        lemma_parse_printed_body(s.drop_first(), full, i + we);
        assert forall|k: int| 0 <= k < we implies full[i + k] == e[k] by {
            assert(spec_escape(s)[k] == e[k]);
        }
        if c == '"' {
            assert(full[i] == '\\' && full[i + 1] == '"');
            assert(seq![c] + s.drop_first() =~= s);
        } else if c == '\\' {
            assert(full[i] == '\\' && full[i + 1] == '\\');
            assert(seq![c] + s.drop_first() =~= s);
        } else if (c as u32) < 32 {
            let hi = c as u32 as int / 16;
            let lo = c as u32 as int % 16;
            assert(full[i] == '\\' && full[i + 1] == 'u' && full[i + 2] == '0' && full[i + 3]
                == '0' && full[i + 4] == hex_char(hi) && full[i + 5] == hex_char(lo));
            lemma_hex_char_val(hi);
            lemma_hex_char_val(lo);
            assert(hex_val(full[i + 2]) == Some(0int));
            assert(hex_val(full[i + 3]) == Some(0int));
            let v = hex_val(full[i + 2])->0 * 4096 + hex_val(full[i + 3])->0 * 256 + hex_val(
                full[i + 4],
            )->0 * 16 + hex_val(full[i + 5])->0;
            assert(v == hi * 16 + lo);
            assert(v == c as u32);
            assert(v < 32);
            vstd::utf8::char_u32_cast(c, c as u32);
            assert(((c as u32) as char) == c);
            assert(((v as u8) as char) == ((c as u32) as char));
            assert(((v as u8) as char) == c);
            assert(!is_short_escape(full[i + 1]));
            assert(seq![c] + s.drop_first() =~= s);
        } else {
            assert(e == seq![c]);
            assert(full[i + 0] == spec_escape(s)[0]);
            assert(spec_escape(s)[0] == (e + rest)[0]);
            assert((e + rest)[0] == e[0]);
            assert(full[i] == c);
            assert(c != '"' && c != '\\' && (c as u32) >= 32);
            assert(seq![c] + s.drop_first() =~= s);
        }
    }
}

/// A printed string token parses back to the original characters.
pub proof fn lemma_parse_printed_string(s: Seq<char>, full: Seq<char>, i: int)
    requires
        0 <= i,
        i + spec_json_string(s).len() <= full.len(),
        full.subrange(i, i + spec_json_string(s).len()) == spec_json_string(s),
    ensures
        spec_parse_jstring(full, i) == Some((s, i + spec_json_string(s).len())),
{
    let w = spec_json_string(s).len() as int;
    assert forall|k: int| 0 <= k < w implies full[i + k] == spec_json_string(s)[k] by {
        assert(full.subrange(i, i + w)[k] == full[i + k]);
    }
    assert(full[i + 0] == spec_json_string(s)[0]);
    assert(spec_json_string(s)[0] == (seq!['"'] + spec_escape(s) + seq!['"'])[0]);
    assert(full[i] == '"');
    assert forall|k: int| 0 <= k < spec_escape(s).len() implies full.subrange(
        i + 1,
        i + 1 + spec_escape(s).len(),
    )[k] == spec_escape(s)[k] by {
        assert(full[i + 1 + k] == spec_json_string(s)[1 + k]);
        assert(spec_json_string(s)[1 + k] == spec_escape(s)[k]);
    }
    assert(full.subrange(i + 1, i + 1 + spec_escape(s).len()) =~= spec_escape(s));
    assert(full[i + 1 + spec_escape(s).len()] == spec_json_string(s)[1 + spec_escape(s).len() as int]);
    lemma_parse_printed_body(s, full, i + 1);
}

/// A parsed number with up to three decimals: whole units, thousandths,
/// and the position after it.
pub open spec fn spec_parse_num(s: Seq<char>, i: int) -> Option<((int, int), int)> {
    match spec_parse_u64(s, i) {
        None => None,
        Some((u, j)) => if j < s.len() && s[j] == '.' {
            let j2 = digits_end(s, j + 1);
            let nfrac = j2 - (j + 1);
            if nfrac == 1 {
                Some(((u as int, digit_val(s[j + 1]) * 100), j2))
            } else if nfrac == 2 {
                Some(((u as int, digit_val(s[j + 1]) * 100 + digit_val(s[j + 2]) * 10), j2))
            } else if nfrac == 3 {
                Some(
                    ((
                        u as int,
                        digit_val(s[j + 1]) * 100 + digit_val(s[j + 2]) * 10 + digit_val(
                            s[j + 3],
                        ),
                    ), j2),
                )
            } else {
                None
            }
        } else {
            Some(((u as int, 0), j))
        },
    }
}

/// Parses a number with an optional 1-3 digit decimal part.
pub fn parse_num(v: &Vec<char>, i: usize) -> (r: Option<((u64, u16), usize)>)
    requires
        i <= v@.len(),
    ensures
        match spec_parse_num(v@, i as int) {
            Some(((u, m), j)) => r matches Some(p) && p.0.0 == u && p.0.1 == m && p.1 == j && m
                < 1000,
            None => r is None,
        },
{
    let (u, j) = match parse_u64(v, i) {
        Some(p) => p,
        None => {
            return None;
        },
    };
    if j < v.len() && v[j] == '.' {
        proof {
            lemma_digits_end_bounds(v@, j as int + 1);
        }
        let d0 = if j + 1 < v.len() {
            char_digit(v[j + 1])
        } else {
            None
        };
        match d0 {
            None => {
                proof {
                    assert(digits_end(v@, j as int + 1) == j + 1);
                }
                return None;
            },
            Some(a) => {
                let d1 = if j + 2 < v.len() {
                    char_digit(v[j + 2])
                } else {
                    None
                };
                match d1 {
                    None => {
                        proof {
                            assert(digits_end(v@, j as int + 1) == j + 2);
                        }
                        return Some(((u, a as u16 * 100), j + 2));
                    },
                    Some(b) => {
                        let d2 = if j + 3 < v.len() {
                            char_digit(v[j + 3])
                        } else {
                            None
                        };
                        match d2 {
                            None => {
                                proof {
                                    assert(digits_end(v@, j as int + 1) == j + 3);
                                }
                                return Some(((u, a as u16 * 100 + b as u16 * 10), j + 3));
                            },
                            Some(c) => {
                                let d3 = if j + 4 < v.len() {
                                    char_digit(v[j + 4])
                                } else {
                                    None
                                };
                                match d3 {
                                    None => {
                                        proof {
                                            assert(digits_end(v@, j as int + 1) == j + 4);
                                        }
                                        return Some(
                                            ((u, a as u16 * 100 + b as u16 * 10 + c as u16), j + 4),
                                        );
                                    },
                                    Some(_) => {
                                        proof {
                                            assert(is_digit(v@[j as int + 1]) && is_digit(
                                                v@[j as int + 2],
                                            ) && is_digit(v@[j as int + 3]) && is_digit(
                                                v@[j as int + 4],
                                            ));
                                            assert(digits_end(v@, j as int + 1) == digits_end(
                                                v@,
                                                j as int + 2,
                                            ));
                                            assert(digits_end(v@, j as int + 2) == digits_end(
                                                v@,
                                                j as int + 3,
                                            ));
                                            assert(digits_end(v@, j as int + 3) == digits_end(
                                                v@,
                                                j as int + 4,
                                            ));
                                            assert(digits_end(v@, j as int + 4) == digits_end(
                                                v@,
                                                j as int + 5,
                                            ));
                                            lemma_digits_end_bounds(v@, j as int + 5);
                                        }
                                        return None;
                                    },
                                }
                            },
                        }
                    },
                }
            },
        }
    } else {
        Some(((u, 0), j))
    }
}

/// A printed gram count (kilograms with three decimals) parses back to
/// its units and thousandths when followed by a non-digit.
pub proof fn lemma_parse_printed_kg(g: int, full: Seq<char>, i: int)
    requires
        0 <= g <= u64::MAX,
        0 <= i,
        i + spec_kg_text(g).len() <= full.len(),
        full.subrange(i, i + spec_kg_text(g).len()) == spec_kg_text(g),
        i + spec_kg_text(g).len() == full.len() || !is_digit(full[i + spec_kg_text(g).len()]),
    ensures
        spec_parse_num(full, i) == Some(((g / 1000, g % 1000), i + spec_kg_text(g).len())),
{
    let u = g / 1000;
    let m = g % 1000;
    let du = spec_dec(u);
    let fr = spec_pad3(m);
    let w = spec_kg_text(g).len() as int;
    assert(spec_kg_text(g) == du + seq!['.'] + fr);
    assert(fr.len() == 3) by {
        lemma_pad3_props(m);
    }
    assert forall|k: int| 0 <= k < w implies full[i + k] == spec_kg_text(g)[k] by {
        assert(full.subrange(i, i + w)[k] == full[i + k]);
    }
    let wu = du.len() as int;
    assert(w == wu + 4);
    assert(full.subrange(i, i + wu) =~= du) by {
        assert forall|k: int| 0 <= k < wu implies full.subrange(i, i + wu)[k] == du[k] by {
            assert(full[i + k] == spec_kg_text(g)[k]);
            assert(spec_kg_text(g)[k] == du[k]);
        }
    }
    assert(spec_kg_text(g)[wu] == '.') by {
        assert((du + seq!['.'] + fr)[wu] == '.');
    }
    assert(full[i + wu] == '.');
    lemma_pad3_props(m);
    assert(spec_kg_text(g)[wu + 1] == fr[0] && spec_kg_text(g)[wu + 2] == fr[1] && spec_kg_text(
        g,
    )[wu + 3] == fr[2]) by {
        assert((du + seq!['.'] + fr)[wu + 1] == fr[0]);
        assert((du + seq!['.'] + fr)[wu + 2] == fr[1]);
        assert((du + seq!['.'] + fr)[wu + 3] == fr[2]);
    }
    assert(full[i + wu + 1] == fr[0] && full[i + wu + 2] == fr[1] && full[i + wu + 3] == fr[2]);
    assert(u <= u64::MAX);
    lemma_parse_printed_u64(u, full, i);
    assert(spec_parse_u64(full, i) == Some((u as u64, i + wu)));
    // the three decimals end the digit run
    lemma_digits_end_is(full, i + wu + 1, i + wu + 4);
    assert(digit_val(fr[0]) * 100 + digit_val(fr[1]) * 10 + digit_val(fr[2]) == m) by {
        lemma_pad3_props(m);
    }
}

/// The three zero-padded digits of a value below 1000, with their
/// positional reading.
pub proof fn lemma_pad3_props(n: int)
    requires
        0 <= n < 1000,
    ensures
        spec_pad3(n).len() == 3,
        is_digit(spec_pad3(n)[0]),
        is_digit(spec_pad3(n)[1]),
        is_digit(spec_pad3(n)[2]),
        digit_val(spec_pad3(n)[0]) * 100 + digit_val(spec_pad3(n)[1]) * 10 + digit_val(
            spec_pad3(n)[2],
        ) == n,
{
    if n < 10 {
        lemma_digit_char_val(0);
        lemma_digit_char_val(n);
        assert(spec_pad3(n) == seq!['0', '0'] + spec_dec(n));
    } else if n < 100 {
        lemma_digit_char_val(0);
        lemma_digit_char_val(n / 10);
        lemma_digit_char_val(n % 10);
        assert(spec_dec(n) == spec_dec(n / 10).push(digit_char(n % 10)));
        assert(spec_dec(n / 10) == seq![digit_char(n / 10)]);
    } else {
        lemma_digit_char_val(n / 100);
        lemma_digit_char_val((n / 10) % 10);
        lemma_digit_char_val(n % 10);
        assert(spec_dec(n) == spec_dec(n / 10).push(digit_char(n % 10)));
        assert(spec_dec(n / 10) == spec_dec(n / 100).push(digit_char((n / 10) % 10)));
        assert(spec_dec(n / 100) == seq![digit_char(n / 100)]);
        assert((n / 100) * 100 + ((n / 10) % 10) * 10 + n % 10 == n);
    }
}

/// A printed plain integer parses as a number with no decimal part when
/// followed by something that is neither a digit nor a dot.
pub proof fn lemma_parse_printed_int_num(n: int, full: Seq<char>, i: int)
    requires
        0 <= n <= u64::MAX,
        0 <= i,
        i + spec_dec(n).len() < full.len(),
        full.subrange(i, i + spec_dec(n).len()) == spec_dec(n),
        !is_digit(full[i + spec_dec(n).len()]),
        full[i + spec_dec(n).len()] != '.',
    ensures
        spec_parse_num(full, i) == Some(((n, 0int), i + spec_dec(n).len())),
{
    lemma_parse_printed_u64(n, full, i);
}

/// The position after the run of insignificant whitespace starting at
/// `i`.
pub open spec fn ws_end(s: Seq<char>, i: int) -> int
    decreases s.len() - i when 0 <= i <= s.len()
{
    if i < s.len() && crate::text::spec_is_space(s[i]) {
        ws_end(s, i + 1)
    } else {
        i
    }
}

pub proof fn lemma_ws_end_bounds(s: Seq<char>, i: int)
    requires
        0 <= i <= s.len(),
    ensures
        i <= ws_end(s, i) <= s.len(),
        ws_end(s, i) == s.len() || !crate::text::spec_is_space(s[ws_end(s, i)]),
    decreases s.len() - i,
{
    if i < s.len() && crate::text::spec_is_space(s[i]) {
        lemma_ws_end_bounds(s, i + 1);
    }
}

/// Skips insignificant whitespace.
pub fn skip_ws(v: &Vec<char>, i: usize) -> (j: usize)
    requires
        i <= v@.len(),
    ensures
        j == ws_end(v@, i as int),
        i <= j <= v@.len(),
{
    let n = v.len();
    let mut j: usize = i;
    while j < n && crate::text::is_space(v[j])
        invariant
            i <= j <= n,
            n == v@.len(),
            ws_end(v@, i as int) == ws_end(v@, j as int),
        decreases n - j,
    {
        j = j + 1;
    }
    proof {
        lemma_ws_end_bounds(v@, j as int);
    }
    j
}

/// A string of ordinary characters needs no escaping.
pub proof fn lemma_escape_plain(s: Seq<char>)
    requires
        forall|k: int|
            0 <= k < s.len() ==> (#[trigger] s[k]) != '"' && s[k] != '\\' && (s[k] as u32) >= 32,
    ensures
        spec_escape(s) == s,
    decreases s.len(),
{
    if s.len() > 0 {
        lemma_escape_plain(s.drop_first());
        assert(spec_esc_char(s[0]) == seq![s[0]]);
        assert(seq![s[0]] + s.drop_first() =~= s);
    }
}

} // verus!
