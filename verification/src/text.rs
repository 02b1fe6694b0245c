//! Character classes and text operations over character sequences, each an
//! executable function with the spec function that says what it computes.
use vstd::prelude::*;

verus! {

// ---------------------------------------------------------------------------
// Character classes
// ---------------------------------------------------------------------------

pub open spec fn is_digit(c: char) -> bool {
    '0' <= c && c <= '9'
}

pub open spec fn is_upper(c: char) -> bool {
    'A' <= c && c <= 'Z'
}

pub open spec fn is_lower(c: char) -> bool {
    'a' <= c && c <= 'z'
}

pub open spec fn is_alnum(c: char) -> bool {
    is_digit(c) || is_upper(c) || is_lower(c)
}

pub open spec fn is_hex_digit(c: char) -> bool {
    is_digit(c) || ('a' <= c && c <= 'f') || ('A' <= c && c <= 'F')
}

/// The value of a hexadecimal digit (either case).
pub open spec fn hex_value(c: char) -> int {
    if is_digit(c) {
        c as int - '0' as int
    } else if 'a' <= c && c <= 'f' {
        c as int - 'a' as int + 10
    } else {
        c as int - 'A' as int + 10
    }
}

/// The Unicode `White_Space` property, which `char::is_whitespace` and
/// `str::trim` use.
pub open spec fn is_white(c: char) -> bool {
    let u: u32 = c as u32;
    (0x09 <= u && u <= 0x0D) || u == 0x20 || u == 0x85 || u == 0xA0 || u == 0x1680 || (0x2000
        <= u && u <= 0x200A) || u == 0x2028 || u == 0x2029 || u == 0x202F || u == 0x205F || u
        == 0x3000
}

/// ASCII whitespace as `u8::is_ascii_whitespace` / `char::is_ascii_whitespace` define it.
pub open spec fn is_ascii_white(c: char) -> bool {
    c == ' ' || c == '\t' || c == '\n' || c == '\x0C' || c == '\r'
}

pub open spec fn to_upper(c: char) -> char {
    if is_lower(c) {
        (c as u32 - 32) as char
    } else {
        c
    }
}

pub open spec fn to_lower(c: char) -> char {
    if is_upper(c) {
        (c as u32 + 32) as char
    } else {
        c
    }
}

pub open spec fn upper(s: Seq<char>) -> Seq<char> {
    s.map_values(|c: char| to_upper(c))
}

pub open spec fn lower(s: Seq<char>) -> Seq<char> {
    s.map_values(|c: char| to_lower(c))
}

pub fn digit(c: char) -> (r: bool)
    ensures
        r == is_digit(c),
{
    '0' <= c && c <= '9'
}

pub fn upper_letter(c: char) -> (r: bool)
    ensures
        r == is_upper(c),
{
    'A' <= c && c <= 'Z'
}

pub fn alnum(c: char) -> (r: bool)
    ensures
        r == is_alnum(c),
{
    ('0' <= c && c <= '9') || ('A' <= c && c <= 'Z') || ('a' <= c && c <= 'z')
}

pub fn hex_digit(c: char) -> (r: bool)
    ensures
        r == is_hex_digit(c),
{
    ('0' <= c && c <= '9') || ('a' <= c && c <= 'f') || ('A' <= c && c <= 'F')
}

pub fn hex_digit_value(c: char) -> (r: u8)
    requires
        is_hex_digit(c),
    ensures
        r as int == hex_value(c),
        r < 16,
{
    let u: u32 = c as u32;
    if '0' <= c && c <= '9' {
        (u - 48) as u8
    } else if 'a' <= c && c <= 'f' {
        (u - 87) as u8
    } else {
        (u - 55) as u8
    }
}

pub fn white(c: char) -> (r: bool)
    ensures
        r == is_white(c),
{
    let u: u32 = c as u32;
    (0x09 <= u && u <= 0x0D) || u == 0x20 || u == 0x85 || u == 0xA0 || u == 0x1680 || (0x2000
        <= u && u <= 0x200A) || u == 0x2028 || u == 0x2029 || u == 0x202F || u == 0x205F || u
        == 0x3000
}

pub fn ascii_white(c: char) -> (r: bool)
    ensures
        r == is_ascii_white(c),
{
    c == ' ' || c == '\t' || c == '\n' || c == '\x0C' || c == '\r'
}

pub fn upper_char(c: char) -> (r: char)
    ensures
        r == to_upper(c),
{
    if 'a' <= c && c <= 'z' {
        let u: u8 = (c as u32 - 32) as u8;
        u as char
    } else {
        c
    }
}

pub fn lower_char(c: char) -> (r: char)
    ensures
        r == to_lower(c),
{
    if 'A' <= c && c <= 'Z' {
        let u: u8 = (c as u32 + 32) as u8;
        u as char
    } else {
        c
    }
}

/// Upper-case hexadecimal digit for a value below 16.
pub open spec fn hex_char(v: int) -> char {
    if v < 10 {
        ('0' as int + v) as char
    } else {
        ('A' as int + v - 10) as char
    }
}

/// Two upper-case hexadecimal digits, as `format!("{:02X}", b)` writes a byte.
pub open spec fn hex2(b: u8) -> Seq<char> {
    seq![hex_char(b as int / 16), hex_char(b as int % 16)]
}

pub fn hex_char_of(v: u8) -> (r: char)
    requires
        v < 16,
    ensures
        r == hex_char(v as int),
{
    if v < 10 {
        (48 + v) as char
    } else {
        (55 + v) as char
    }
}

// ---------------------------------------------------------------------------
// Strings and character vectors
// ---------------------------------------------------------------------------

/// Appends one character to a string (`String::push`).
#[verifier::external_body]
pub fn push_char(s: &mut String, c: char)
    ensures
        final(s)@ == old(s)@.push(c),
{
    s.push(c);
}

/// Appends a string slice to a string.
pub fn push_str(s: &mut String, t: &str)
    ensures
        final(s)@ == old(s)@ + t@,
{
    s.append(t);
}

/// The `Debug` rendering of a string: the text in double quotes, with quotes,
/// backslashes, control and unprintable characters escaped.
pub uninterp spec fn debug_text(s: Seq<char>) -> Seq<char>;

/// Renders a string slice as `{:?}` does (`<str as Debug>::fmt`), for error
/// messages. The contract names the rendering: it depends on the text alone.
#[verifier::external_body]
pub fn debug_quoted(s: &str) -> (r: String)
    ensures
        r@ == debug_text(s@),
{
    format!("{s:?}")
}

/// The characters of a string slice, in order.
pub fn chars_of(s: &str) -> (v: Vec<char>)
    ensures
        v@ == s@,
{
    broadcast use vstd::string::group_string_axioms;

    let mut v: Vec<char> = Vec::new();
    for c in it: s.chars()
        invariant
            v@ == it.seq().subrange(0, it.index() as int),
            it.seq() == s@,
    {
        v.push(c);
    }
    v
}

/// Builds a string from a sequence of characters.
pub fn string_of(v: &Vec<char>) -> (s: String)
    ensures
        s@ == v@,
{
    let mut s = String::new();
    for i in 0..v.len()
        invariant
            s@ == v@.subrange(0, i as int),
    {
        push_char(&mut s, v[i]);
        assert(s@ == v@.subrange(0, i + 1));
    }
    s
}

/// A string holding the characters of a literal or other slice.
pub fn owned(s: &str) -> (r: String)
    ensures
        r@ == s@,
{
    String::from_str(s)
}

/// Concatenation of two strings.
pub fn concat(a: &str, b: &str) -> (r: String)
    ensures
        r@ == a@ + b@,
{
    let mut r = String::from_str(a);
    push_str(&mut r, b);
    r
}

/// Two upper-case hexadecimal digits of a byte.
pub fn hex2_string(b: u8) -> (r: String)
    ensures
        r@ == hex2(b),
{
    let mut r = String::new();
    push_char(&mut r, hex_char_of(b / 16));
    push_char(&mut r, hex_char_of(b % 16));
    r
}

pub fn append_hex2(s: &mut String, b: u8)
    ensures
        final(s)@ == old(s)@ + hex2(b),
{
    push_char(s, hex_char_of(b / 16));
    push_char(s, hex_char_of(b % 16));
    assert(s@ == old(s)@ + hex2(b));
}

pub fn chars_eq(a: &Vec<char>, b: &Vec<char>) -> (r: bool)
    ensures
        r == (a@ == b@),
{
    if a.len() != b.len() {
        return false;
    }
    let mut i: usize = 0;
    while i < a.len()
        invariant
            a@.len() == b@.len(),
            i <= a@.len(),
            forall|k: int| 0 <= k < i ==> a@[k] == b@[k],
        decreases a@.len() - i,
    {
        if a[i] != b[i] {
            return false;
        }
        i += 1;
    }
    assert(a@ =~= b@);
    true
}

/// Whether a character vector spells a given slice.
pub fn is_text(v: &Vec<char>, lit: &str) -> (r: bool)
    ensures
        r == (v@ == lit@),
{
    let l = chars_of(lit);
    chars_eq(v, &l)
}

// ---------------------------------------------------------------------------
// Filters and maps
// ---------------------------------------------------------------------------

/// The hexadecimal digits of `s`, in order.
pub open spec fn keep_hex(s: Seq<char>) -> Seq<char>
    decreases s.len(),
{
    if s.len() == 0 {
        Seq::empty()
    } else if is_hex_digit(s.last()) {
        keep_hex(s.drop_last()).push(s.last())
    } else {
        keep_hex(s.drop_last())
    }
}

/// The characters of `s` that are not whitespace, in order.
pub open spec fn drop_white(s: Seq<char>) -> Seq<char>
    decreases s.len(),
{
    if s.len() == 0 {
        Seq::empty()
    } else if !is_white(s.last()) {
        drop_white(s.drop_last()).push(s.last())
    } else {
        drop_white(s.drop_last())
    }
}

pub proof fn lemma_keep_hex_all_hex(s: Seq<char>)
    ensures
        forall|i: int| 0 <= i < keep_hex(s).len() ==> is_hex_digit(#[trigger] keep_hex(s)[i]),
        keep_hex(s).len() <= s.len(),
    decreases s.len(),
{
    if s.len() > 0 {
        lemma_keep_hex_all_hex(s.drop_last());
    }
}

pub proof fn lemma_keep_hex_of_hex(s: Seq<char>)
    requires
        forall|i: int| 0 <= i < s.len() ==> is_hex_digit(#[trigger] s[i]),
    ensures
        keep_hex(s) == s,
    decreases s.len(),
{
    if s.len() > 0 {
        lemma_keep_hex_of_hex(s.drop_last());
        assert(s.drop_last().push(s.last()) =~= s);
    }
}

pub fn hex_digits_of(s: &Vec<char>) -> (r: Vec<char>)
    ensures
        r@ == keep_hex(s@),
{
    let mut r: Vec<char> = Vec::new();
    for i in 0..s.len()
        invariant
            r@ == keep_hex(s@.subrange(0, i as int)),
    {
        proof {
            assert(s@.subrange(0, i + 1).drop_last() =~= s@.subrange(0, i as int));
        }
        if hex_digit(s[i]) {
            r.push(s[i]);
        }
    }
    assert(s@.subrange(0, s@.len() as int) =~= s@);
    r
}

pub fn without_white(s: &Vec<char>) -> (r: Vec<char>)
    ensures
        r@ == drop_white(s@),
{
    let mut r: Vec<char> = Vec::new();
    for i in 0..s.len()
        invariant
            r@ == drop_white(s@.subrange(0, i as int)),
    {
        proof {
            assert(s@.subrange(0, i + 1).drop_last() =~= s@.subrange(0, i as int));
        }
        if !white(s[i]) {
            r.push(s[i]);
        }
    }
    assert(s@.subrange(0, s@.len() as int) =~= s@);
    r
}

pub fn upper_of(s: &Vec<char>) -> (r: Vec<char>)
    ensures
        r@ == upper(s@),
{
    let mut r: Vec<char> = Vec::new();
    for i in 0..s.len()
        invariant
            r@ == upper(s@.subrange(0, i as int)),
    {
        r.push(upper_char(s[i]));
        assert(r@ =~= upper(s@.subrange(0, i + 1)));
    }
    assert(s@.subrange(0, s@.len() as int) =~= s@);
    r
}

pub fn lower_of(s: &Vec<char>) -> (r: Vec<char>)
    ensures
        r@ == lower(s@),
{
    let mut r: Vec<char> = Vec::new();
    for i in 0..s.len()
        invariant
            r@ == lower(s@.subrange(0, i as int)),
    {
        r.push(lower_char(s[i]));
        assert(r@ =~= lower(s@.subrange(0, i + 1)));
    }
    assert(s@.subrange(0, s@.len() as int) =~= s@);
    r
}

// ---------------------------------------------------------------------------
// Substrings
// ---------------------------------------------------------------------------

pub open spec fn occurs_at(s: Seq<char>, pat: Seq<char>, i: int) -> bool {
    0 <= i && i + pat.len() <= s.len() && s.subrange(i, i + pat.len()) == pat
}

pub open spec fn contains(s: Seq<char>, pat: Seq<char>) -> bool {
    exists|i: int| occurs_at(s, pat, i)
}

pub open spec fn starts_with(s: Seq<char>, pat: Seq<char>) -> bool {
    occurs_at(s, pat, 0)
}

/// The first position at or after `i` where `pat` occurs in `s`.
pub open spec fn first_occurrence_from(s: Seq<char>, pat: Seq<char>, i: int) -> Option<int>
    decreases s.len() + 1 - i,
{
    if i < 0 || i + pat.len() > s.len() {
        None
    } else if occurs_at(s, pat, i) {
        Some(i)
    } else {
        first_occurrence_from(s, pat, i + 1)
    }
}

pub open spec fn first_occurrence(s: Seq<char>, pat: Seq<char>) -> Option<int> {
    first_occurrence_from(s, pat, 0)
}

pub fn matches_at(s: &Vec<char>, pat: &Vec<char>, i: usize) -> (r: bool)
    ensures
        r == occurs_at(s@, pat@, i as int),
{
    let n: usize = s.len();
    if i > n || pat.len() > n - i {
        return false;
    }
    let mut k: usize = 0;
    while k < pat.len()
        invariant
            n == s@.len(),
            i + pat@.len() <= s@.len(),
            k <= pat@.len(),
            forall|m: int| 0 <= m < k ==> s@[i + m] == pat@[m],
        decreases pat@.len() - k,
    {
        if s[i + k] != pat[k] {
            assert(s@.subrange(i as int, i + pat@.len())[k as int] != pat@[k as int]);
            return false;
        }
        k += 1;
    }
    assert(s@.subrange(i as int, i + pat@.len()) =~= pat@);
    true
}

/// Position of the first occurrence of `pat` in `s`.
pub fn find(s: &Vec<char>, pat: &Vec<char>) -> (r: Option<usize>)
    ensures
        match r {
            Some(i) => first_occurrence(s@, pat@) == Some(i as int),
            None => first_occurrence(s@, pat@) is None,
        },
        r is None <==> !contains(s@, pat@),
{
    let n: usize = s.len();
    let m: usize = pat.len();
    if m > n {
        proof {
            assert forall|j: int| !occurs_at(s@, pat@, j) by {}
        }
        return None;
    }
    if m == 0 {
        assert(s@.subrange(0, 0) =~= pat@);
        assert(occurs_at(s@, pat@, 0));
        return Some(0);
    }
    let mut i: usize = 0;
    while i <= n - m
        invariant
            n == s@.len(),
            m == pat@.len(),
            1 <= m <= n,
            i <= n - m + 1,
            first_occurrence(s@, pat@) == first_occurrence_from(s@, pat@, i as int),
            forall|j: int| 0 <= j < i ==> !occurs_at(s@, pat@, j),
        decreases n - m + 1 - i,
    {
        if matches_at(s, pat, i) {
            return Some(i);
        }
        i += 1;
    }
    proof {
        assert forall|j: int| !occurs_at(s@, pat@, j) by {
            if 0 <= j < i {
            }
        }
    }
    None
}

pub proof fn lemma_first_occurrence_from_none(s: Seq<char>, pat: Seq<char>, i: int)
    requires
        forall|j: int| !occurs_at(s, pat, j),
    ensures
        first_occurrence_from(s, pat, i) is None,
    decreases s.len() + 1 - i,
{
    if !(i < 0 || i + pat.len() > s.len()) {
        lemma_first_occurrence_from_none(s, pat, i + 1);
    }
}

pub proof fn lemma_first_occurrence_some(s: Seq<char>, pat: Seq<char>, i: int)
    ensures
        first_occurrence_from(s, pat, i) matches Some(k) ==> occurs_at(s, pat, k) && i <= k,
    decreases s.len() + 1 - i,
{
    if !(i < 0 || i + pat.len() > s.len()) && !occurs_at(s, pat, i) {
        lemma_first_occurrence_some(s, pat, i + 1);
    }
}

pub fn contains_chars(s: &Vec<char>, pat: &Vec<char>) -> (r: bool)
    ensures
        r == contains(s@, pat@),
{
    find(s, pat).is_some()
}

pub fn starts_with_chars(s: &Vec<char>, pat: &Vec<char>) -> (r: bool)
    ensures
        r == starts_with(s@, pat@),
{
    matches_at(s, pat, 0)
}

// ---------------------------------------------------------------------------
// Trimming
// ---------------------------------------------------------------------------

/// First index at or after `i` that does not hold whitespace.
pub open spec fn skip_white(s: Seq<char>, i: int) -> int
    decreases s.len() - i,
{
    if 0 <= i < s.len() && is_white(s[i]) {
        skip_white(s, i + 1)
    } else {
        i
    }
}

/// The end of `s[..j]` once trailing whitespace is removed.
pub open spec fn back_white(s: Seq<char>, j: int) -> int
    decreases j,
{
    if 0 < j <= s.len() && is_white(s[j - 1]) {
        back_white(s, j - 1)
    } else {
        j
    }
}

/// `str::trim`: leading and trailing whitespace removed.
pub open spec fn trim(s: Seq<char>) -> Seq<char> {
    let lo = skip_white(s, 0);
    let hi = back_white(s, s.len() as int);
    if hi <= lo {
        Seq::empty()
    } else {
        s.subrange(lo, hi)
    }
}

pub proof fn lemma_skip_white_bounds(s: Seq<char>, i: int)
    requires
        0 <= i <= s.len(),
    ensures
        i <= skip_white(s, i) <= s.len(),
    decreases s.len() - i,
{
    if 0 <= i < s.len() && is_white(s[i]) {
        lemma_skip_white_bounds(s, i + 1);
    }
}

pub proof fn lemma_back_white_bounds(s: Seq<char>, j: int)
    requires
        0 <= j <= s.len(),
    ensures
        0 <= back_white(s, j) <= j,
    decreases j,
{
    if 0 < j <= s.len() && is_white(s[j - 1]) {
        lemma_back_white_bounds(s, j - 1);
    }
}

pub fn trim_chars(s: &Vec<char>) -> (r: Vec<char>)
    ensures
        r@ == trim(s@),
{
    let n: usize = s.len();
    let mut lo: usize = 0;
    while lo < n && white(s[lo])
        invariant
            lo <= n,
            n == s@.len(),
            skip_white(s@, 0) == skip_white(s@, lo as int),
        decreases n - lo,
    {
        lo += 1;
    }
    let mut hi: usize = n;
    while hi > 0 && white(s[hi - 1])
        invariant
            hi <= n,
            n == s@.len(),
            back_white(s@, n as int) == back_white(s@, hi as int),
        decreases hi,
    {
        hi -= 1;
    }
    let mut r: Vec<char> = Vec::new();
    if hi <= lo {
        return r;
    }
    let mut k: usize = lo;
    while k < hi
        invariant
            lo <= k <= hi <= n,
            n == s@.len(),
            r@ == s@.subrange(lo as int, k as int),
        decreases hi - k,
    {
        r.push(s[k]);
        k += 1;
        assert(r@ =~= s@.subrange(lo as int, k as int));
    }
    r
}

/// The views of a sequence of character vectors.
pub open spec fn cviews(v: Seq<Vec<char>>) -> Seq<Seq<char>> {
    v.map_values(|x: Vec<char>| x@)
}

/// The views of a sequence of strings.
pub open spec fn sviews(v: Seq<String>) -> Seq<Seq<char>> {
    v.map_values(|x: String| x@)
}

// ---------------------------------------------------------------------------
// Lines
// ---------------------------------------------------------------------------

/// Position of the first `'\n'` at or after `i`, or `s.len()` when there is none.
pub open spec fn next_newline(s: Seq<char>, i: int) -> int
    decreases s.len() - i,
{
    if i < 0 || i >= s.len() {
        s.len() as int
    } else if s[i] == '\n' {
        i
    } else {
        next_newline(s, i + 1)
    }
}

/// A line that ended with `'\n'` loses one trailing `'\r'`, as in `str::lines`.
pub open spec fn strip_cr(l: Seq<char>) -> Seq<char> {
    if l.len() > 0 && l.last() == '\r' {
        l.drop_last()
    } else {
        l
    }
}

/// `str::lines` of `s[i..]`: pieces split at `'\n'`; a piece that ended with
/// `'\n'` loses a final `'\r'`; a final line ending adds no empty line.
pub open spec fn lines_from(s: Seq<char>, i: int) -> Seq<Seq<char>>
    decreases s.len() - i,
{
    if i < 0 || i >= s.len() {
        Seq::empty()
    } else {
        let j = next_newline(s, i);
        proof {
            lemma_next_newline_bounds(s, i);
        }
        if j >= s.len() {
            seq![s.subrange(i, s.len() as int)]
        } else {
            seq![strip_cr(s.subrange(i, j))] + lines_from(s, j + 1)
        }
    }
}

pub open spec fn lines(s: Seq<char>) -> Seq<Seq<char>> {
    lines_from(s, 0)
}

pub proof fn lemma_next_newline_bounds(s: Seq<char>, i: int)
    requires
        0 <= i <= s.len(),
    ensures
        i <= next_newline(s, i) <= s.len(),
        next_newline(s, i) < s.len() ==> s[next_newline(s, i)] == '\n',
    decreases s.len() - i,
{
    if i < s.len() && s[i] != '\n' {
        lemma_next_newline_bounds(s, i + 1);
    }
}

/// The lines of a character sequence, as `str::lines` yields them.
pub fn lines_of(s: &Vec<char>) -> (r: Vec<Vec<char>>)
    ensures
        cviews(r@) == lines(s@),
{
    let n: usize = s.len();
    let mut r: Vec<Vec<char>> = Vec::new();
    let mut i: usize = 0;
    while i < n
        invariant
            n == s@.len(),
            i <= n,
            cviews(r@) + lines_from(s@, i as int) == lines(s@),
        decreases n - i,
    {
        let mut cur: Vec<char> = Vec::new();
        let mut j: usize = i;
        while j < n && s[j] != '\n'
            invariant
                n == s@.len(),
                i <= j <= n,
                next_newline(s@, i as int) == next_newline(s@, j as int),
                cur@ == s@.subrange(i as int, j as int),
            decreases n - j,
        {
            cur.push(s[j]);
            j += 1;
            assert(cur@ =~= s@.subrange(i as int, j as int));
        }
        let ghost old_r = cviews(r@);
        if j >= n {
            r.push(cur);
            proof {
                assert(cviews(r@) =~= old_r.push(s@.subrange(i as int, n as int)));
                assert(lines_from(s@, n as int) =~= Seq::<Seq<char>>::empty());
                assert(old_r + lines_from(s@, i as int) =~= cviews(r@) + lines_from(
                    s@,
                    n as int,
                ));
            }
            i = n;
        } else {
            if cur.len() > 0 && cur[cur.len() - 1] == '\r' {
                cur.pop();
            }
            r.push(cur);
            proof {
                assert(cviews(r@) =~= old_r.push(strip_cr(s@.subrange(i as int, j as int))));
                assert(old_r + lines_from(s@, i as int) =~= cviews(r@) + lines_from(
                    s@,
                    j + 1,
                ));
            }
            i = j + 1;
        }
    }
    assert(lines_from(s@, i as int) =~= Seq::<Seq<char>>::empty());
    assert(cviews(r@) =~= lines(s@));
    r
}

/// Joins lines with `'\n'` between them, as `[..].join("\n")` does.
pub open spec fn join_lines(ls: Seq<Seq<char>>) -> Seq<char>
    decreases ls.len(),
{
    if ls.len() == 0 {
        Seq::empty()
    } else if ls.len() == 1 {
        ls[0]
    } else {
        join_lines(ls.drop_last()) + seq!['\n'] + ls.last()
    }
}

/// Joins pieces with a separator between them.
pub open spec fn join_with(ls: Seq<Seq<char>>, sep: Seq<char>) -> Seq<char>
    decreases ls.len(),
{
    if ls.len() == 0 {
        Seq::empty()
    } else if ls.len() == 1 {
        ls[0]
    } else {
        join_with(ls.drop_last(), sep) + sep + ls.last()
    }
}

pub fn join_chars(ls: &Vec<Vec<char>>, sep: &Vec<char>) -> (r: Vec<char>)
    ensures
        r@ == join_with(cviews(ls@), sep@),
{
    let mut r: Vec<char> = Vec::new();
    let mut i: usize = 0;
    while i < ls.len()
        invariant
            i <= ls@.len(),
            r@ == join_with(cviews(ls@).subrange(0, i as int), sep@),
        decreases ls@.len() - i,
    {
        let ghost before = r@;
        if i > 0 {
            let mut k: usize = 0;
            while k < sep.len()
                invariant
                    k <= sep@.len(),
                    r@ == before + sep@.subrange(0, k as int),
                decreases sep@.len() - k,
            {
                r.push(sep[k]);
                k += 1;
                assert(r@ =~= before + sep@.subrange(0, k as int));
            }
            assert(sep@.subrange(0, sep@.len() as int) =~= sep@);
        }
        let ghost mid = r@;
        let piece = &ls[i];
        let mut k: usize = 0;
        while k < piece.len()
            invariant
                k <= piece@.len(),
                r@ == mid + piece@.subrange(0, k as int),
            decreases piece@.len() - k,
        {
            r.push(piece[k]);
            k += 1;
            assert(r@ =~= mid + piece@.subrange(0, k as int));
        }
        proof {
            assert(piece@.subrange(0, piece@.len() as int) =~= piece@);
            let d = cviews(ls@);
            assert(d[i as int] == piece@);
            let pre = d.subrange(0, i + 1);
            assert(pre.drop_last() =~= d.subrange(0, i as int));
            assert(pre.last() == piece@);
            if i == 0 {
                assert(before =~= Seq::<char>::empty());
                assert(r@ =~= piece@);
            }
        }
        i += 1;
    }
    assert(cviews(ls@).subrange(0, ls@.len() as int) =~= cviews(ls@));
    r
}


/// A number in decimal, as `{}` writes it.
pub open spec fn decimal_digits(n: nat) -> Seq<char>
    decreases n,
{
    if n < 10 {
        seq![('0' as int + n) as char]
    } else {
        decimal_digits(n / 10).push(('0' as int + n % 10) as char)
    }
}

/// Appends a number in decimal.
pub fn push_decimal_u32(s: &mut String, n: u32)
    ensures
        final(s)@ == old(s)@ + decimal_digits(n as nat),
    decreases n,
{
    if n >= 10 {
        push_decimal_u32(s, n / 10);
    }
    push_char(s, (48 + (n % 10) as u8) as char);
    assert(s@ =~= old(s)@ + decimal_digits(n as nat));
}

} // verus!
