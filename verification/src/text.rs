//! Character and string helpers shared by the registry filters, the sort
//! order on formatted timestamps, the exit-log search, and the rule scripts:
//! ASCII case folding, substring containment, decimal rendering of counters.
use vstd::prelude::*;

verus! {

/// ASCII lower-casing of one character; anything outside `A`..`Z` is kept.
pub open spec fn spec_lower_char(c: char) -> char {
    if c == 'A' { 'a' } else if c == 'B' { 'b' } else if c == 'C' { 'c' }
    else if c == 'D' { 'd' } else if c == 'E' { 'e' } else if c == 'F' { 'f' }
    else if c == 'G' { 'g' } else if c == 'H' { 'h' } else if c == 'I' { 'i' }
    else if c == 'J' { 'j' } else if c == 'K' { 'k' } else if c == 'L' { 'l' }
    else if c == 'M' { 'm' } else if c == 'N' { 'n' } else if c == 'O' { 'o' }
    else if c == 'P' { 'p' } else if c == 'Q' { 'q' } else if c == 'R' { 'r' }
    else if c == 'S' { 's' } else if c == 'T' { 't' } else if c == 'U' { 'u' }
    else if c == 'V' { 'v' } else if c == 'W' { 'w' } else if c == 'X' { 'x' }
    else if c == 'Y' { 'y' } else if c == 'Z' { 'z' }
    else { c }
}

/// Exec counterpart of `spec_lower_char`.
pub fn lower_char(c: char) -> (r: char)
    ensures
        r == spec_lower_char(c),
{
    if c == 'A' { 'a' } else if c == 'B' { 'b' } else if c == 'C' { 'c' }
    else if c == 'D' { 'd' } else if c == 'E' { 'e' } else if c == 'F' { 'f' }
    else if c == 'G' { 'g' } else if c == 'H' { 'h' } else if c == 'I' { 'i' }
    else if c == 'J' { 'j' } else if c == 'K' { 'k' } else if c == 'L' { 'l' }
    else if c == 'M' { 'm' } else if c == 'N' { 'n' } else if c == 'O' { 'o' }
    else if c == 'P' { 'p' } else if c == 'Q' { 'q' } else if c == 'R' { 'r' }
    else if c == 'S' { 's' } else if c == 'T' { 't' } else if c == 'U' { 'u' }
    else if c == 'V' { 'v' } else if c == 'W' { 'w' } else if c == 'X' { 'x' }
    else if c == 'Y' { 'y' } else if c == 'Z' { 'z' }
    else { c }
}

/// ASCII lower-casing of a whole character sequence.
pub open spec fn spec_lower(s: Seq<char>) -> Seq<char> {
    s.map_values(|c: char| spec_lower_char(c))
}

/// The needle occurs in the haystack starting at position `i`.
pub open spec fn matches_at(hay: Seq<char>, needle: Seq<char>, i: int) -> bool {
    &&& 0 <= i
    &&& i + needle.len() <= hay.len()
    &&& hay.subrange(i, i + needle.len() as int) == needle
}

/// Substring containment over character sequences.
pub open spec fn contains_seq(hay: Seq<char>, needle: Seq<char>) -> bool {
    exists|i: int| matches_at(hay, needle, i)
}

/// Appends one character to a string.
///
/// Relies on std's `String::push`: it appends exactly the given character.
#[verifier::external_body]
pub(crate) fn push_char(s: &mut String, c: char)
    ensures
        final(s)@ == old(s)@.push(c),
{
    s.push(c);
}

/// The decimal digit character for a value below ten.
pub open spec fn spec_digit_char(d: nat) -> char {
    if d == 0 { '0' } else if d == 1 { '1' } else if d == 2 { '2' }
    else if d == 3 { '3' } else if d == 4 { '4' } else if d == 5 { '5' }
    else if d == 6 { '6' } else if d == 7 { '7' } else if d == 8 { '8' }
    else { '9' }
}

/// Exec counterpart of `spec_digit_char`.
pub fn digit_char(d: u64) -> (c: char)
    requires
        d < 10,
    ensures
        c == spec_digit_char(d as nat),
{
    if d == 0 { '0' } else if d == 1 { '1' } else if d == 2 { '2' }
    else if d == 3 { '3' } else if d == 4 { '4' } else if d == 5 { '5' }
    else if d == 6 { '6' } else if d == 7 { '7' } else if d == 8 { '8' }
    else { '9' }
}

/// Decimal rendering of a natural number, most significant digit first.
pub open spec fn spec_dec(n: nat) -> Seq<char>
    decreases n,
{
    if n < 10 {
        seq![spec_digit_char(n)]
    } else {
        spec_dec(n / 10).push(spec_digit_char(n % 10))
    }
}

/// ASCII lower-casing of a string, character by character.
pub fn to_lower(s: &str) -> (r: String)
    ensures
        r@ == spec_lower(s@),
{
    let len = s.unicode_len();
    let mut out = String::new();
    let mut i: usize = 0;
    proof {
        assert(out@ =~= spec_lower(s@.subrange(0, 0)));
    }
    while i < len
        invariant
            i <= len,
            len == s@.len(),
            out@ == spec_lower(s@.subrange(0, i as int)),
        decreases len - i,
    {
        let c = lower_char(s.get_char(i));
        push_char(&mut out, c);
        proof {
            assert(s@.subrange(0, i as int + 1) =~= s@.subrange(0, i as int).push(s@[i as int]));
            assert(out@ =~= spec_lower(s@.subrange(0, i as int + 1)));
        }
        i = i + 1;
    }
    proof {
        assert(s@.subrange(0, len as int) =~= s@);
    }
    out
}

/// Whether the needle occurs at position `i` of the haystack.
fn match_at(hay: &str, needle: &str, i: usize, hay_len: usize, needle_len: usize) -> (r: bool)
    requires
        hay_len == hay@.len(),
        needle_len == needle@.len(),
        i + needle_len <= hay_len,
    ensures
        r == matches_at(hay@, needle@, i as int),
{
    let mut j: usize = 0;
    while j < needle_len
        invariant
            j <= needle_len,
            hay_len == hay@.len(),
            needle_len == needle@.len(),
            i + needle_len <= hay_len,
            forall|k: int| 0 <= k < j ==> hay@[i + k] == needle@[k],
        decreases needle_len - j,
    {
        let hc = hay.get_char(i + j);
        let nc = needle.get_char(j);
        if hc != nc {
            proof {
                assert(!matches_at(hay@, needle@, i as int)) by {
                    if matches_at(hay@, needle@, i as int) {
                        assert(hay@.subrange(i as int, i + needle@.len() as int)[j as int]
                            == needle@[j as int]);
                    }
                }
            }
            return false;
        }
        j = j + 1;
    }
    proof {
        assert(hay@.subrange(i as int, i + needle@.len() as int) =~= needle@);
    }
    true
}

/// Substring containment, the registry's and the exit log's match primitive.
pub fn str_contains(hay: &str, needle: &str) -> (r: bool)
    ensures
        r == contains_seq(hay@, needle@),
{
    let hay_len = hay.unicode_len();
    let needle_len = needle.unicode_len();
    if needle_len > hay_len {
        proof {
            assert forall|i: int| !matches_at(hay@, needle@, i) by {}
        }
        return false;
    }
    let bound = hay_len - needle_len;
    let mut i: usize = 0;
    loop
        invariant
            hay_len == hay@.len(),
            needle_len == needle@.len(),
            needle_len <= hay_len,
            bound == hay_len - needle_len,
            i <= bound,
            forall|k: int| 0 <= k < i ==> !matches_at(hay@, needle@, k),
        decreases bound - i,
    {
        if match_at(hay, needle, i, hay_len, needle_len) {
            return true;
        }
        if i == bound {
            proof {
                assert forall|k: int| !matches_at(hay@, needle@, k) by {
                    if 0 <= k <= bound {
                    } else if k > bound {
                        assert(k + needle@.len() > hay@.len());
                    }
                }
            }
            return false;
        }
        i = i + 1;
    }
}

/// Appends the decimal rendering of `n`, most significant digit first.
pub fn push_dec_u64(s: &mut String, n: u64)
    ensures
        final(s)@ == old(s)@ + spec_dec(n as nat),
    decreases n,
{
    if n >= 10 {
        push_dec_u64(s, n / 10);
    }
    let c = digit_char(n % 10);
    push_char(s, c);
    proof {
        if n < 10 {
            assert(s@ =~= old(s)@ + spec_dec(n as nat));
        } else {
            assert(s@ =~= old(s)@ + spec_dec(n as nat));
        }
    }
}

/// Decimal rendering of a counter as a fresh string.
pub fn u64_to_string(n: u64) -> (r: String)
    ensures
        r@ == spec_dec(n as nat),
{
    let mut s = String::new();
    push_dec_u64(&mut s, n);
    proof {
        assert(s@ =~= spec_dec(n as nat));
    }
    s
}

/// Decimal rendering of a hundredths-scaled value as `whole.fraction`,
/// always with two fraction digits (`1234` renders as `12.34`).
pub open spec fn spec_dec_centi(n: nat) -> Seq<char> {
    spec_dec(n / 100).push('.').push(spec_digit_char((n % 100) / 10)).push(
        spec_digit_char(n % 10),
    )
}

/// Appends the `whole.fraction` rendering of a hundredths-scaled value.
pub fn push_dec_centi(s: &mut String, n: u64)
    ensures
        final(s)@ == old(s)@ + spec_dec_centi(n as nat),
{
    push_dec_u64(s, n / 100);
    push_char(s, '.');
    let tens = (n % 100) / 10;
    let c1 = digit_char(tens);
    push_char(s, c1);
    let c2 = digit_char(n % 10);
    push_char(s, c2);
    proof {
        assert((n % 100) / 10 == (n as nat % 100) / 10);
        assert(s@ =~= old(s)@ + spec_dec_centi(n as nat));
    }
}

/// Lexicographic order on character sequences, the order the registry uses
/// for the formatted start-time column.
pub open spec fn lex_le(a: Seq<char>, b: Seq<char>) -> bool
    decreases a.len(),
{
    if a.len() == 0 {
        true
    } else if b.len() == 0 {
        false
    } else if a[0] != b[0] {
        (a[0] as u32) < (b[0] as u32)
    } else {
        lex_le(a.drop_first(), b.drop_first())
    }
}

pub proof fn lemma_lex_le_total(a: Seq<char>, b: Seq<char>)
    ensures
        lex_le(a, b) || lex_le(b, a),
    decreases a.len(),
{
    if a.len() == 0 || b.len() == 0 {
    } else if a[0] != b[0] {
        assert(a[0] as u32 != b[0] as u32) by {
            vstd::utf8::char_u32_cast(a[0], a[0] as u32);
            vstd::utf8::char_u32_cast(b[0], b[0] as u32);
        }
    } else {
        lemma_lex_le_total(a.drop_first(), b.drop_first());
    }
}

pub proof fn lemma_lex_le_trans(a: Seq<char>, b: Seq<char>, c: Seq<char>)
    requires
        lex_le(a, b),
        lex_le(b, c),
    ensures
        lex_le(a, c),
    decreases a.len(),
{
    if a.len() == 0 {
    } else if b.len() == 0 {
    } else if c.len() == 0 {
    } else {
        if a[0] == b[0] && b[0] == c[0] {
            lemma_lex_le_trans(a.drop_first(), b.drop_first(), c.drop_first());
        }
    }
}

/// Exec counterpart of `lex_le`: compares two strings character by character.
pub fn str_lex_le(a: &str, b: &str) -> (r: bool)
    ensures
        r == lex_le(a@, b@),
{
    let a_len = a.unicode_len();
    let b_len = b.unicode_len();
    let mut i: usize = 0;
    proof {
        assert(a@.skip(0) =~= a@);
        assert(b@.skip(0) =~= b@);
    }
    loop
        invariant
            i <= a_len,
            i <= b_len,
            a_len == a@.len(),
            b_len == b@.len(),
            a@.subrange(0, i as int) == b@.subrange(0, i as int),
            lex_le(a@, b@) == lex_le(a@.skip(i as int), b@.skip(i as int)),
        decreases a_len - i,
    {
        if i == a_len {
            assert(a@.skip(i as int).len() == 0);
            return true;
        }
        if i == b_len {
            assert(b@.skip(i as int).len() == 0);
            assert(a@.skip(i as int).len() > 0);
            return false;
        }
        let ca = a.get_char(i);
        let cb = b.get_char(i);
        assert(a@.skip(i as int)[0] == a@[i as int]);
        assert(b@.skip(i as int)[0] == b@[i as int]);
        if ca != cb {
            return (ca as u32) < (cb as u32);
        }
        proof {
            assert(a@.skip(i as int).drop_first() =~= a@.skip(i as int + 1));
            assert(b@.skip(i as int).drop_first() =~= b@.skip(i as int + 1));
            assert(a@.subrange(0, i as int + 1) =~= a@.subrange(0, i as int).push(a@[i as int]));
            assert(b@.subrange(0, i as int + 1) =~= b@.subrange(0, i as int).push(b@[i as int]));
        }
        i = i + 1;
    }
}

} // verus!
