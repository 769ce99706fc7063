//! Character classes and low-level scanning over an input string.
//!
//! Every scanner works on a borrowed `&str` together with a character
//! position, and is specified against a spec-level function over the
//! string's view (a `Seq<char>`).

use vstd::prelude::*;

verus! {

/// Whitespace for this grammar: the common ASCII whitespace characters.
pub open spec fn is_ws(c: char) -> bool {
    c == ' ' || c == '\t' || c == '\n' || c == '\r'
}

/// Characters permitted in tag and attribute names. `!` is included only
/// so that a doctype tag can be recognized.
pub open spec fn is_name_char(c: char) -> bool {
    c == ':' || ('a' <= c && c <= 'z') || ('A' <= c && c <= 'Z') || c == '!'
}

pub open spec fn is_digit(c: char) -> bool {
    '0' <= c && c <= '9'
}

/// ASCII case fold of one character.
pub open spec fn lower_char(c: char) -> char {
    if 'A' <= c && c <= 'Z' {
        (((c as u8) + 32) as u8) as char
    } else {
        c
    }
}

/// ASCII case fold of a whole string.
pub open spec fn lower(s: Seq<char>) -> Seq<char> {
    s.map_values(|c: char| lower_char(c))
}

/// First position at or after `pos` that does not hold whitespace.
pub open spec fn skip_ws(s: Seq<char>, pos: int) -> int
    decreases s.len() - pos,
{
    if 0 <= pos && pos < s.len() && is_ws(s[pos]) {
        skip_ws(s, pos + 1)
    } else {
        pos
    }
}

/// First position at or after `pos` that does not hold a name character.
pub open spec fn scan_name_end(s: Seq<char>, pos: int) -> int
    decreases s.len() - pos,
{
    if 0 <= pos && pos < s.len() && is_name_char(s[pos]) {
        scan_name_end(s, pos + 1)
    } else {
        pos
    }
}

/// First position at or after `pos` holding exactly the character `q`,
/// or the end of the string.
pub open spec fn scan_to_char(s: Seq<char>, pos: int, q: char) -> int
    decreases s.len() - pos,
{
    if 0 <= pos && pos < s.len() && s[pos] != q {
        scan_to_char(s, pos + 1, q)
    } else {
        pos
    }
}

/// First position at or after `pos` holding a markup delimiter (`<` or
/// `>`), or the end of the string.
pub open spec fn scan_text_end(s: Seq<char>, pos: int) -> int
    decreases s.len() - pos,
{
    if 0 <= pos && pos < s.len() && s[pos] != '<' && s[pos] != '>' {
        scan_text_end(s, pos + 1)
    } else {
        pos
    }
}

/// First position at or after `pos` that does not hold a decimal digit.
pub open spec fn scan_digits_end(s: Seq<char>, pos: int) -> int
    decreases s.len() - pos,
{
    if 0 <= pos && pos < s.len() && is_digit(s[pos]) {
        scan_digits_end(s, pos + 1)
    } else {
        pos
    }
}

/// The pattern `pat` occurs in `s` starting exactly at `pos`.
pub open spec fn is_at(s: Seq<char>, pos: int, pat: Seq<char>) -> bool {
    0 <= pos && pos + pat.len() <= s.len() && s.subrange(pos, pos + pat.len()) == pat
}

/// Position of the first occurrence of `pat` at or after `pos`, if any.
pub open spec fn find_at(s: Seq<char>, pos: int, pat: Seq<char>) -> Option<int>
    decreases s.len() - pos,
{
    if pos < 0 || pos > s.len() {
        None
    } else if is_at(s, pos, pat) {
        Some(pos)
    } else if pos >= s.len() {
        None
    } else {
        find_at(s, pos + 1, pat)
    }
}

/// Numeric value of a run of decimal digits.
pub open spec fn digits_value(s: Seq<char>) -> int
    decreases s.len(),
{
    if s.len() == 0 {
        0
    } else {
        digits_value(s.drop_last()) * 10 + ((s.last() as u32) - ('0' as u32))
    }
}

/// Position delimiting the string after trailing whitespace is dropped.
pub open spec fn rstrip_end(s: Seq<char>, hi: int) -> int
    decreases hi,
{
    if 0 < hi && hi <= s.len() && is_ws(s[hi - 1]) {
        rstrip_end(s, hi - 1)
    } else {
        hi
    }
}

/// The string with leading and trailing whitespace removed.
pub open spec fn spec_trim(s: Seq<char>) -> Seq<char> {
    let lo = skip_ws(s, 0);
    let hi = rstrip_end(s, s.len() as int);
    if lo <= hi {
        s.subrange(lo, hi)
    } else {
        Seq::empty()
    }
}

pub proof fn lemma_lower_char_idempotent(c: char)
    ensures
        lower_char(lower_char(c)) == lower_char(c),
{
    if 'A' <= c && c <= 'Z' {
        let b = (((c as u8) + 32) as u8) as char;
        assert(65 <= c as u8 <= 90);
        assert(97 <= b as u8 <= 122);
        assert(!('A' <= b && b <= 'Z'));
    }
}

/// ASCII case folding is idempotent.
pub proof fn lemma_lower_idempotent(s: Seq<char>)
    ensures
        lower(lower(s)) == lower(s),
{
    assert forall|i: int| 0 <= i < s.len() implies lower(lower(s))[i] == lower(s)[i] by {
        lemma_lower_char_idempotent(s[i]);
    }
    assert(lower(lower(s)) =~= lower(s));
}

/// Where a run of name characters is delimited on the right, the scanner
/// stops exactly at the delimiter.
pub proof fn lemma_scan_name_end_region(s: Seq<char>, pos: int, end: int)
    requires
        0 <= pos <= end <= s.len(),
        forall|i: int| pos <= i < end ==> is_name_char(#[trigger] s[i]),
        end == s.len() || !is_name_char(s[end]),
    ensures
        scan_name_end(s, pos) == end,
    decreases end - pos,
{
    if pos < end {
        lemma_scan_name_end_region(s, pos + 1, end);
    }
}

/// Where a whitespace run is delimited on the right, the skipper stops
/// exactly at the delimiter.
pub proof fn lemma_skip_ws_region(s: Seq<char>, pos: int, end: int)
    requires
        0 <= pos <= end <= s.len(),
        forall|i: int| pos <= i < end ==> is_ws(#[trigger] s[i]),
        end == s.len() || !is_ws(s[end]),
    ensures
        skip_ws(s, pos) == end,
    decreases end - pos,
{
    if pos < end {
        lemma_skip_ws_region(s, pos + 1, end);
    }
}

/// What the whitespace skipper passes over is whitespace, and where it
/// stops is not.
pub proof fn lemma_skip_ws_chars(s: Seq<char>, pos: int)
    requires
        0 <= pos <= s.len(),
    ensures
        pos <= skip_ws(s, pos) <= s.len(),
        forall|i: int| pos <= i < skip_ws(s, pos) ==> is_ws(#[trigger] s[i]),
        skip_ws(s, pos) < s.len() ==> !is_ws(s[skip_ws(s, pos)]),
    decreases s.len() - pos,
{
    if pos < s.len() && is_ws(s[pos]) {
        lemma_skip_ws_chars(s, pos + 1);
    }
}

/// Where a run of non-markup characters is delimited on the right, the
/// text scanner stops exactly at the delimiter.
pub proof fn lemma_scan_text_end_region(s: Seq<char>, pos: int, end: int)
    requires
        0 <= pos <= end <= s.len(),
        forall|i: int| pos <= i < end ==> s[i] != '<' && #[trigger] s[i] != '>',
        end == s.len() || s[end] == '<' || s[end] == '>',
    ensures
        scan_text_end(s, pos) == end,
    decreases end - pos,
{
    if pos < end {
        lemma_scan_text_end_region(s, pos + 1, end);
    }
}

pub proof fn lemma_scan_digits_all_digits(s: Seq<char>, pos: int)
    requires
        0 <= pos,
    ensures
        forall|i: int| pos <= i < scan_digits_end(s, pos) ==> is_digit(#[trigger] s[i]),
    decreases s.len() - pos,
{
    if 0 <= pos && pos < s.len() && is_digit(s[pos]) {
        lemma_scan_digits_all_digits(s, pos + 1);
    }
}

pub proof fn lemma_digits_value_nonneg(s: Seq<char>)
    requires
        forall|i: int| 0 <= i < s.len() ==> is_digit(#[trigger] s[i]),
    ensures
        digits_value(s) >= 0,
    decreases s.len(),
{
    if s.len() > 0 {
        lemma_digits_value_nonneg(s.drop_last());
    }
}

pub proof fn lemma_digits_value_prefix(s: Seq<char>, k: int)
    requires
        forall|i: int| 0 <= i < s.len() ==> is_digit(#[trigger] s[i]),
        0 <= k <= s.len(),
    ensures
        digits_value(s.subrange(0, k)) <= digits_value(s),
    decreases s.len(),
{
    if k == s.len() {
        assert(s.subrange(0, k) =~= s);
    } else if s.len() > 0 {
        assert(s.drop_last() =~= s.subrange(0, s.len() - 1));
        assert(s.subrange(0, k) =~= s.drop_last().subrange(0, k));
        lemma_digits_value_prefix(s.drop_last(), k);
        lemma_digits_value_nonneg(s.drop_last());
        assert(digits_value(s) == digits_value(s.drop_last()) * 10 + ((s.last() as u32) - ('0'
            as u32)));
        assert(digits_value(s.drop_last()) * 10 >= digits_value(s.drop_last()));
        assert(is_digit(s.last()));
        assert((s.last() as u32) - ('0' as u32) >= 0);
    }
}

pub fn ws_char(c: char) -> (r: bool)
    ensures
        r == is_ws(c),
{
    c == ' ' || c == '\t' || c == '\n' || c == '\r'
}

/// Whether `c` may stand in a tag or attribute name.
pub fn name_char(c: char) -> (r: bool)
    ensures
        r == is_name_char(c),
{
    c == ':' || ('a' <= c && c <= 'z') || ('A' <= c && c <= 'Z') || c == '!'
}

pub fn digit_char(c: char) -> (r: bool)
    ensures
        r == is_digit(c),
{
    '0' <= c && c <= '9'
}

pub fn lower_char_exec(c: char) -> (r: char)
    ensures
        r == lower_char(c),
{
    if 'A' <= c && c <= 'Z' {
        let b: u8 = c as u8;
        assert(65 <= b && b <= 90);
        (b + 32) as char
    } else {
        c
    }
}

/// Relies on std's `String::push`: appends exactly the one given character.
#[verifier::external_body]
pub(crate) fn push_char(s: &mut String, c: char)
    ensures
        final(s)@ == old(s)@.push(c),
{
    s.push(c);
}

/// ASCII case fold of a string, as a fresh owned value.
pub fn to_lower(s: &str) -> (r: String)
    ensures
        r@ == lower(s@),
{
    let n = s.unicode_len();
    let mut out = String::new();
    let mut i: usize = 0;
    loop
        invariant
            i <= n,
            n as nat == s@.len(),
            out@ =~= lower(s@).subrange(0, i as int),
        ensures
            i == n,
            out@ =~= lower(s@).subrange(0, i as int),
        decreases n - i,
    {
        if i >= n {
            break ;
        }
        let c = s.get_char(i);
        let lc = lower_char_exec(c);
        push_char(&mut out, lc);
        assert(out@ =~= lower(s@).subrange(0, i as int + 1));
        i += 1;
    }
    proof {
        assert(out@ =~= lower(s@));
    }
    out
}

/// First position at or after `pos` whose character is not whitespace.
pub fn skip_ws_str(s: &str, pos: usize) -> (r: usize)
    requires
        pos as int <= s@.len(),
    ensures
        r as int == skip_ws(s@, pos as int),
        pos <= r,
        r as int <= s@.len(),
{
    let n = s.unicode_len();
    let mut i = pos;
    loop
        invariant
            pos <= i <= n,
            n as nat == s@.len(),
            skip_ws(s@, pos as int) == skip_ws(s@, i as int),
        ensures
            pos <= i <= n,
            i as int == skip_ws(s@, pos as int),
        decreases n - i,
    {
        if i >= n {
            break ;
        }
        let c = s.get_char(i);
        if !ws_char(c) {
            break ;
        }
        i += 1;
    }
    i
}

/// First position at or after `pos` whose character is not a name character.
pub fn scan_name_end_str(s: &str, pos: usize) -> (r: usize)
    requires
        pos as int <= s@.len(),
    ensures
        r as int == scan_name_end(s@, pos as int),
        pos <= r,
        r as int <= s@.len(),
{
    let n = s.unicode_len();
    let mut i = pos;
    loop
        invariant
            pos <= i <= n,
            n as nat == s@.len(),
            scan_name_end(s@, pos as int) == scan_name_end(s@, i as int),
        ensures
            pos <= i <= n,
            i as int == scan_name_end(s@, pos as int),
        decreases n - i,
    {
        if i >= n {
            break ;
        }
        let c = s.get_char(i);
        if !name_char(c) {
            break ;
        }
        i += 1;
    }
    i
}

/// First position at or after `pos` holding exactly the character `q`.
pub fn scan_to_char_str(s: &str, pos: usize, q: char) -> (r: usize)
    requires
        pos as int <= s@.len(),
    ensures
        r as int == scan_to_char(s@, pos as int, q),
        pos <= r,
        r as int <= s@.len(),
{
    let n = s.unicode_len();
    let mut i = pos;
    loop
        invariant
            pos <= i <= n,
            n as nat == s@.len(),
            scan_to_char(s@, pos as int, q) == scan_to_char(s@, i as int, q),
        ensures
            pos <= i <= n,
            i as int == scan_to_char(s@, pos as int, q),
        decreases n - i,
    {
        if i >= n {
            break ;
        }
        let c = s.get_char(i);
        if c == q {
            break ;
        }
        i += 1;
    }
    i
}

/// First position at or after `pos` holding `<` or `>`.
pub fn scan_text_end_str(s: &str, pos: usize) -> (r: usize)
    requires
        pos as int <= s@.len(),
    ensures
        r as int == scan_text_end(s@, pos as int),
        pos <= r,
        r as int <= s@.len(),
{
    let n = s.unicode_len();
    let mut i = pos;
    loop
        invariant
            pos <= i <= n,
            n as nat == s@.len(),
            scan_text_end(s@, pos as int) == scan_text_end(s@, i as int),
        ensures
            pos <= i <= n,
            i as int == scan_text_end(s@, pos as int),
        decreases n - i,
    {
        if i >= n {
            break ;
        }
        let c = s.get_char(i);
        if c == '<' || c == '>' {
            break ;
        }
        i += 1;
    }
    i
}

/// First position at or after `pos` that does not hold a decimal digit.
pub fn scan_digits_end_str(s: &str, pos: usize) -> (r: usize)
    requires
        pos as int <= s@.len(),
    ensures
        r as int == scan_digits_end(s@, pos as int),
        pos <= r,
        r as int <= s@.len(),
{
    let n = s.unicode_len();
    let mut i = pos;
    loop
        invariant
            pos <= i <= n,
            n as nat == s@.len(),
            scan_digits_end(s@, pos as int) == scan_digits_end(s@, i as int),
        ensures
            pos <= i <= n,
            i as int == scan_digits_end(s@, pos as int),
        decreases n - i,
    {
        if i >= n {
            break ;
        }
        let c = s.get_char(i);
        if !digit_char(c) {
            break ;
        }
        i += 1;
    }
    i
}

/// Whether `pat` occurs in `s` starting exactly at `pos`.
pub fn tag_at(s: &str, pos: usize, pat: &str) -> (r: bool)
    requires
        pos as int <= s@.len(),
    ensures
        r == is_at(s@, pos as int, pat@),
{
    let n = s.unicode_len();
    let m = pat.unicode_len();
    if n - pos < m {
        return false;
    }
    let mut i: usize = 0;
    loop
        invariant
            i <= m,
            pos + m <= n,
            n as nat == s@.len(),
            m as nat == pat@.len(),
            forall|j: int| 0 <= j < i ==> s@[pos + j] == pat@[j],
        ensures
            i == m,
            forall|j: int| 0 <= j < m ==> s@[pos + j] == pat@[j],
        decreases m - i,
    {
        if i >= m {
            break ;
        }
        if s.get_char(pos + i) != pat.get_char(i) {
            proof {
                let sub = s@.subrange(pos as int, pos as int + pat@.len() as int);
                assert(sub[i as int] != pat@[i as int]);
            }
            return false;
        }
        i += 1;
    }
    proof {
        assert(s@.subrange(pos as int, pos as int + pat@.len() as int) =~= pat@);
    }
    true
}

/// Position of the first occurrence of `pat` at or after `pos`, if any.
pub fn find_from(s: &str, pos: usize, pat: &str) -> (r: Option<usize>)
    requires
        pos as int <= s@.len(),
    ensures
        match r {
            Some(j) => find_at(s@, pos as int, pat@) == Some(j as int) && pos <= j && j as int
                + pat@.len() <= s@.len(),
            None => find_at(s@, pos as int, pat@) is None,
        },
{
    let n = s.unicode_len();
    let mut i = pos;
    loop
        invariant
            pos <= i <= n,
            n as nat == s@.len(),
            find_at(s@, pos as int, pat@) == find_at(s@, i as int, pat@),
        decreases n - i,
    {
        if tag_at(s, i, pat) {
            return Some(i);
        }
        if i >= n {
            return None;
        }
        i += 1;
    }
}

/// Copy of the character range `[a, b)` of `s` as an owned string.
pub fn substr_string(s: &str, a: usize, b: usize) -> (r: String)
    requires
        a <= b,
        b as int <= s@.len(),
    ensures
        r@ == s@.subrange(a as int, b as int),
{
    String::from_str(s.substring_char(a, b))
}

/// The string with leading and trailing whitespace removed, as an owned value.
pub fn trim_str(s: &str) -> (r: String)
    ensures
        r@ == spec_trim(s@),
{
    let n = s.unicode_len();
    let lo = skip_ws_str(s, 0);
    let mut hi = n;
    loop
        invariant
            hi <= n,
            n as nat == s@.len(),
            rstrip_end(s@, n as int) == rstrip_end(s@, hi as int),
        ensures
            hi <= n,
            hi as int == rstrip_end(s@, n as int),
        decreases hi,
    {
        if hi == 0 {
            break ;
        }
        let c = s.get_char(hi - 1);
        if !ws_char(c) {
            break ;
        }
        hi -= 1;
    }
    if lo <= hi {
        substr_string(s, lo, hi)
    } else {
        proof {
            assert(spec_trim(s@) =~= Seq::<char>::empty());
        }
        String::new()
    }
}

} // verus!
