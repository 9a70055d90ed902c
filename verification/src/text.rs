//! Character-level string helpers: whitespace trimming and ASCII case
//! folding, with their specification-level counterparts.

use vstd::prelude::*;

verus! {

/// The whitespace characters the trimming rules recognise.
pub open spec fn spec_is_space(c: char) -> bool {
    c == ' ' || c == '\t' || c == '\n' || c == '\r'
}

pub fn is_space(c: char) -> (r: bool)
    ensures
        r == spec_is_space(c),
{
    c == ' ' || c == '\t' || c == '\n' || c == '\r'
}

/// ASCII lower-casing of one character.
pub open spec fn spec_lower(c: char) -> char {
    if 'A' <= c <= 'Z' {
        ((c as u8) + 32) as char
    } else {
        c
    }
}

/// ASCII lower-casing of a whole sequence.
pub open spec fn spec_lower_seq(s: Seq<char>) -> Seq<char> {
    s.map_values(|c: char| spec_lower(c))
}

pub fn lower(c: char) -> (r: char)
    ensures
        r == spec_lower(c),
{
    if 'A' <= c && c <= 'Z' {
        ((c as u8) + 32) as char
    } else {
        c
    }
}

/// The sequence with leading whitespace removed.
pub open spec fn spec_trim_front(s: Seq<char>) -> Seq<char>
    decreases s.len(),
{
    if s.len() > 0 && spec_is_space(s[0]) {
        spec_trim_front(s.drop_first())
    } else {
        s
    }
}

/// The sequence with trailing whitespace removed.
pub open spec fn spec_trim_back(s: Seq<char>) -> Seq<char>
    decreases s.len(),
{
    if s.len() > 0 && spec_is_space(s.last()) {
        spec_trim_back(s.drop_last())
    } else {
        s
    }
}

/// The sequence with both leading and trailing whitespace removed.
pub open spec fn spec_trim(s: Seq<char>) -> Seq<char> {
    spec_trim_back(spec_trim_front(s))
}

/// Trims whitespace from both ends of a string.
pub fn trim(s: &str) -> (r: String)
    ensures
        r@ == spec_trim(s@),
{
    let v = chars_of(s);
    let n = v.len();
    let mut i: usize = 0;
    proof {
        assert(v@.skip(0) =~= v@);
    }
    while i < n && is_space(v[i])
        invariant
            i <= n,
            n == v@.len(),
            v@ == s@,
            spec_trim_front(v@) == spec_trim_front(v@.skip(i as int)),
        decreases n - i,
    {
        proof {
            assert(v@.skip(i as int).drop_first() =~= v@.skip(i as int + 1));
        }
        i = i + 1;
    }
    proof {
        assert(v@.skip(i as int) =~= v@.subrange(i as int, n as int));
    }
    let mut j: usize = n;
    while j > i && is_space(v[j - 1])
        invariant
            i <= j <= n,
            n == v@.len(),
            v@ == s@,
            spec_trim_front(v@) == spec_trim_front(v@.skip(i as int)),
            i < n ==> !spec_is_space(v@[i as int]),
            spec_trim_back(v@.skip(i as int)) == spec_trim_back(
                v@.subrange(i as int, j as int),
            ),
        decreases j,
    {
        proof {
            assert(v@.subrange(i as int, j as int).drop_last() =~= v@.subrange(
                i as int,
                j as int - 1,
            ));
        }
        j = j - 1;
    }
    let mut out: Vec<char> = Vec::new();
    let mut k: usize = i;
    while k < j
        invariant
            i <= k <= j <= n,
            n == v@.len(),
            out@ == v@.subrange(i as int, k as int),
        decreases j - k,
    {
        out.push(v[k]);
        k = k + 1;
        proof {
            assert(out@ =~= v@.subrange(i as int, k as int));
        }
    }
    proof {
        assert(out@ == spec_trim(s@));
    }
    chars_to_string(&out)
}

/// Whether two string slices hold the same characters.
pub fn str_eq(a: &str, b: &str) -> (r: bool)
    ensures
        r == (a@ == b@),
{
    let n = a.unicode_len();
    if n != b.unicode_len() {
        return false;
    }
    let mut i: usize = 0;
    while i < n
        invariant
            i <= n,
            n == a@.len() == b@.len(),
            forall|k: int| 0 <= k < i ==> a@[k] == b@[k],
        decreases n - i,
    {
        if a.get_char(i) != b.get_char(i) {
            return false;
        }
        i = i + 1;
    }
    proof {
        assert(a@ =~= b@);
    }
    true
}

/// Whether a string slice case-insensitively equals an already
/// lower-case keyword.
pub fn ci_matches(s: &str, keyword: &str) -> (r: bool)
    ensures
        r == (spec_lower_seq(s@) == keyword@),
{
    let n = s.unicode_len();
    if n != keyword.unicode_len() {
        return false;
    }
    let mut i: usize = 0;
    while i < n
        invariant
            i <= n,
            n == s@.len() == keyword@.len(),
            forall|k: int| 0 <= k < i ==> spec_lower(s@[k]) == keyword@[k],
        decreases n - i,
    {
        if lower(s.get_char(i)) != keyword.get_char(i) {
            return false;
        }
        i = i + 1;
    }
    proof {
        assert(spec_lower_seq(s@) =~= keyword@);
    }
    true
}

/// The digit character for a value below ten.
pub open spec fn digit_char(d: int) -> char {
    if d == 0 {
        '0'
    } else if d == 1 {
        '1'
    } else if d == 2 {
        '2'
    } else if d == 3 {
        '3'
    } else if d == 4 {
        '4'
    } else if d == 5 {
        '5'
    } else if d == 6 {
        '6'
    } else if d == 7 {
        '7'
    } else if d == 8 {
        '8'
    } else {
        '9'
    }
}

/// The decimal digits of a non-negative integer, most significant first.
pub open spec fn spec_dec(n: int) -> Seq<char>
    decreases n,
{
    if n < 10 {
        seq![digit_char(n)]
    } else {
        spec_dec(n / 10).push(digit_char(n % 10))
    }
}

/// Decimal digits left-padded with zeros to two places.
pub open spec fn spec_pad2(n: int) -> Seq<char> {
    if n < 10 {
        seq!['0'] + spec_dec(n)
    } else {
        spec_dec(n)
    }
}

/// Decimal digits left-padded with zeros to four places.
pub open spec fn spec_pad4(n: int) -> Seq<char> {
    if n < 10 {
        seq!['0', '0', '0'] + spec_dec(n)
    } else if n < 100 {
        seq!['0', '0'] + spec_dec(n)
    } else if n < 1000 {
        seq!['0'] + spec_dec(n)
    } else {
        spec_dec(n)
    }
}

/// Decimal digits left-padded with zeros to three places.
pub open spec fn spec_pad3(n: int) -> Seq<char> {
    if n < 10 {
        seq!['0', '0'] + spec_dec(n)
    } else if n < 100 {
        seq!['0'] + spec_dec(n)
    } else {
        spec_dec(n)
    }
}

pub fn digit_to_char(d: u8) -> (c: char)
    requires
        d < 10,
    ensures
        c == digit_char(d as int),
{
    if d == 0 {
        '0'
    } else if d == 1 {
        '1'
    } else if d == 2 {
        '2'
    } else if d == 3 {
        '3'
    } else if d == 4 {
        '4'
    } else if d == 5 {
        '5'
    } else if d == 6 {
        '6'
    } else if d == 7 {
        '7'
    } else if d == 8 {
        '8'
    } else {
        '9'
    }
}

/// Appends the decimal digits of `n`.
pub fn push_dec(out: &mut Vec<char>, n: u64)
    ensures
        final(out)@ == old(out)@ + spec_dec(n as int),
    decreases n,
{
    if n < 10 {
        out.push(digit_to_char(n as u8));
        proof {
            assert(old(out)@ + spec_dec(n as int) =~= old(out)@.push(digit_char(n as int)));
        }
    } else {
        push_dec(out, n / 10);
        out.push(digit_to_char((n % 10) as u8));
        proof {
            assert(old(out)@ + spec_dec(n as int) =~= (old(out)@ + spec_dec(n as int / 10)).push(
                digit_char(n as int % 10),
            ));
        }
    }
}

/// Appends the decimal digits of `n`, zero-padded to two places.
pub fn push_pad2(out: &mut Vec<char>, n: u64)
    ensures
        final(out)@ == old(out)@ + spec_pad2(n as int),
{
    if n < 10 {
        out.push('0');
        push_dec(out, n);
        proof {
            assert(old(out)@ + spec_pad2(n as int) =~= old(out)@.push('0') + spec_dec(n as int));
        }
    } else {
        push_dec(out, n);
    }
}

/// Appends the decimal digits of `n`, zero-padded to three places.
pub fn push_pad3(out: &mut Vec<char>, n: u64)
    ensures
        final(out)@ == old(out)@ + spec_pad3(n as int),
{
    if n < 10 {
        out.push('0');
        out.push('0');
        push_dec(out, n);
        proof {
            assert(old(out)@ + spec_pad3(n as int) =~= old(out)@.push('0').push('0') + spec_dec(
                n as int,
            ));
        }
    } else if n < 100 {
        out.push('0');
        push_dec(out, n);
        proof {
            assert(old(out)@ + spec_pad3(n as int) =~= old(out)@.push('0') + spec_dec(n as int));
        }
    } else {
        push_dec(out, n);
    }
}

/// Appends the decimal digits of `n`, zero-padded to four places.
pub fn push_pad4(out: &mut Vec<char>, n: u64)
    ensures
        final(out)@ == old(out)@ + spec_pad4(n as int),
{
    if n < 10 {
        out.push('0');
        out.push('0');
        out.push('0');
        push_dec(out, n);
        proof {
            assert(old(out)@ + spec_pad4(n as int) =~= old(out)@.push('0').push('0').push('0')
                + spec_dec(n as int));
        }
    } else if n < 100 {
        out.push('0');
        out.push('0');
        push_dec(out, n);
        proof {
            assert(old(out)@ + spec_pad4(n as int) =~= old(out)@.push('0').push('0') + spec_dec(
                n as int,
            ));
        }
    } else if n < 1000 {
        out.push('0');
        push_dec(out, n);
        proof {
            assert(old(out)@ + spec_pad4(n as int) =~= old(out)@.push('0') + spec_dec(n as int));
        }
    } else {
        push_dec(out, n);
    }
}

/// Builds a `String` from a sequence of characters.
/// Relies on `Iterator::collect` through std's `FromIterator<char>` for
/// `String`: the collected string holds exactly the iterated characters,
/// in order.
#[verifier::external_body]
pub fn chars_to_string(v: &Vec<char>) -> (s: String)
    ensures
        s@ == v@,
{
    v.iter().collect()
}

/// All characters of a string slice, in order.
pub fn chars_of(s: &str) -> (v: Vec<char>)
    ensures
        v@ == s@,
{
    let n = s.unicode_len();
    let mut v: Vec<char> = Vec::new();
    let mut i: usize = 0;
    while i < n
        invariant
            n == s@.len(),
            i <= n,
            v@ == s@.take(i as int),
        decreases n - i,
    {
        v.push(s.get_char(i));
        i = i + 1;
        proof {
            assert(v@ =~= s@.take(i as int));
        }
    }
    proof {
        assert(v@ =~= s@);
    }
    v
}

/// Removing leading whitespace leaves no leading whitespace.
proof fn lemma_trim_front_no_lead(s: Seq<char>)
    ensures
        spec_trim_front(s).len() > 0 ==> !spec_is_space(spec_trim_front(s)[0]),
    decreases s.len(),
{
    if s.len() > 0 && spec_is_space(s[0]) {
        lemma_trim_front_no_lead(s.drop_first());
    }
}

/// Removing trailing whitespace leaves no trailing whitespace.
proof fn lemma_trim_back_no_trail(s: Seq<char>)
    ensures
        spec_trim_back(s).len() > 0 ==> !spec_is_space(spec_trim_back(s).last()),
    decreases s.len(),
{
    if s.len() > 0 && spec_is_space(s.last()) {
        lemma_trim_back_no_trail(s.drop_last());
    }
}

/// Removing trailing whitespace keeps the first character.
proof fn lemma_trim_back_keeps_first(s: Seq<char>)
    ensures
        spec_trim_back(s).len() > 0 ==> spec_trim_back(s)[0] == s[0],
    decreases s.len(),
{
    if s.len() > 0 && spec_is_space(s.last()) {
        lemma_trim_back_keeps_first(s.drop_last());
    }
}

/// Trimming is idempotent.
pub proof fn lemma_trim_idempotent(s: Seq<char>)
    ensures
        spec_trim(spec_trim(s)) == spec_trim(s),
{
    let t = spec_trim(s);
    if t.len() == 0 {
        assert(spec_trim_front(t) == t);
        assert(spec_trim_back(t) == t);
    } else {
        lemma_trim_front_no_lead(s);
        lemma_trim_back_keeps_first(spec_trim_front(s));
        assert(t[0] == spec_trim_front(s)[0]);
        assert(!spec_is_space(t[0]));
        assert(spec_trim_front(t) == t);
        lemma_trim_back_no_trail(spec_trim_front(s));
        assert(!spec_is_space(t.last()));
        assert(spec_trim_back(t) == t);
    }
}

} // verus!
