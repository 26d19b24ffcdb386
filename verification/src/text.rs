//! Character-level text operations.
//!
//! Every operation is stated over the characters of a string (`s@`, a
//! `Seq<char>`), so the contracts of the other modules can be read without
//! thinking about byte offsets. Where a byte length matters, it is the length
//! of the UTF-8 encoding, `vstd::utf8::encode_utf8`.

use vstd::prelude::*;
use vstd::utf8::encode_utf8;

verus! {

/// `String::push` appends one character at the end of the string.
pub assume_specification[ String::push ](s: &mut String, c: char)
    ensures
        final(s)@ == old(s)@.push(c),
;

// ---------------------------------------------------------------------
// Characters
// ---------------------------------------------------------------------

/// The characters with the Unicode `White_Space` property.
pub open spec fn white_space(c: char) -> bool {
    ||| '\u{9}' <= c <= '\u{d}'
    ||| c == ' '
    ||| c == '\u{85}'
    ||| c == '\u{a0}'
    ||| c == '\u{1680}'
    ||| '\u{2000}' <= c <= '\u{200a}'
    ||| c == '\u{2028}'
    ||| c == '\u{2029}'
    ||| c == '\u{202f}'
    ||| c == '\u{205f}'
    ||| c == '\u{3000}'
}

/// Whether `c` is white space.
pub fn is_white_space(c: char) -> (r: bool)
    ensures
        r == white_space(c),
{
    ('\u{9}' <= c && c <= '\u{d}') || c == ' ' || c == '\u{85}' || c == '\u{a0}' || c
        == '\u{1680}' || ('\u{2000}' <= c && c <= '\u{200a}') || c == '\u{2028}' || c
        == '\u{2029}' || c == '\u{202f}' || c == '\u{205f}' || c == '\u{3000}'
}

/// `c` with `A`..`Z` folded to `a`..`z`; every other character is kept.
pub open spec fn lower_char(c: char) -> char {
    if 'A' <= c <= 'Z' {
        (c as u8 + 32) as char
    } else {
        c
    }
}

/// ASCII lower-casing of one character.
pub fn to_lower_char(c: char) -> (r: char)
    ensures
        r == lower_char(c),
{
    if 'A' <= c && c <= 'Z' {
        (c as u8 + 32) as char
    } else {
        c
    }
}

/// `c` with `a`..`z` raised to `A`..`Z`; every other character is kept.
pub open spec fn upper_char(c: char) -> char {
    if 'a' <= c <= 'z' {
        (c as u8 - 32) as char
    } else {
        c
    }
}

/// ASCII upper-casing of one character.
pub fn to_upper_char(c: char) -> (r: char)
    ensures
        r == upper_char(c),
{
    if 'a' <= c && c <= 'z' {
        (c as u8 - 32) as char
    } else {
        c
    }
}

/// ASCII letters and digits.
pub open spec fn ascii_alphanumeric(c: char) -> bool {
    'a' <= c <= 'z' || 'A' <= c <= 'Z' || '0' <= c <= '9'
}

/// Whether `c` is an ASCII letter or digit.
pub fn is_ascii_alphanumeric(c: char) -> (r: bool)
    ensures
        r == ascii_alphanumeric(c),
{
    ('a' <= c && c <= 'z') || ('A' <= c && c <= 'Z') || ('0' <= c && c <= '9')
}

/// Letters and digits of every script, as Unicode has them.
pub uninterp spec fn alphanumeric(c: char) -> bool;

/// Calls `char::is_alphanumeric`, which tells letters and digits of every script
/// from other characters. The answer is a function of the character; of ASCII it
/// is yes for the letters and digits alone.
#[verifier::external_body]
pub(crate) fn is_alphanumeric(c: char) -> (r: bool)
    ensures
        r == alphanumeric(c),
        c <= '\u{7f}' ==> r == ascii_alphanumeric(c),
{
    c.is_alphanumeric()
}

/// The ASCII punctuation characters.
pub open spec fn ascii_punctuation(c: char) -> bool {
    '!' <= c <= '/' || ':' <= c <= '@' || '[' <= c <= '`' || '{' <= c <= '~'
}

/// Whether `c` is an ASCII punctuation character.
pub fn is_ascii_punctuation(c: char) -> (r: bool)
    ensures
        r == ascii_punctuation(c),
{
    ('!' <= c && c <= '/') || (':' <= c && c <= '@') || ('[' <= c && c <= '`') || ('{' <= c && c
        <= '~')
}

// ---------------------------------------------------------------------
// Strings and sequences of characters
// ---------------------------------------------------------------------

/// The characters of each string.
pub open spec fn strings(v: Seq<String>) -> Seq<Seq<char>> {
    Seq::new(v.len(), |i: int| v[i]@)
}

/// The characters of an optional string.
pub open spec fn opt_text(s: Option<String>) -> Option<Seq<char>> {
    match s {
        Some(t) => Some(t@),
        None => None,
    }
}

/// The characters of an optional string slice.
pub open spec fn opt_str(s: Option<&str>) -> Option<Seq<char>> {
    match s {
        Some(t) => Some(t@),
        None => None,
    }
}

/// The characters of `s`, in order.
pub fn chars_of(s: &str) -> (r: Vec<char>)
    ensures
        r@ == s@,
{
    let mut out: Vec<char> = Vec::new();
    for c in it: s.chars()
        invariant
            out@ == it.seq().take(it.index() as int),
            it.seq() == s@,
    {
        out.push(c);
    }
    out
}

/// The string made of the characters from `start` up to `end`.
pub fn string_of_range(v: &[char], start: usize, end: usize) -> (r: String)
    requires
        start <= end <= v@.len(),
    ensures
        r@ == v@.subrange(start as int, end as int),
{
    let mut out = String::new();
    let mut i: usize = start;
    while i < end
        invariant
            start <= i <= end <= v@.len(),
            out@ == v@.subrange(start as int, i as int),
        decreases end - i,
    {
        out.push(v[i]);
        i += 1;
    }
    out
}

/// A string with the same characters as `s`.
pub fn copy_str(s: &str) -> (r: String)
    ensures
        r@ == s@,
{
    s.to_owned()
}

/// An optional string with the same characters as `s`.
pub fn copy_opt(s: &Option<String>) -> (r: Option<String>)
    ensures
        opt_text(r) == opt_text(*s),
        r == *s,
{
    match s {
        Some(t) => Some(t.clone()),
        None => None,
    }
}

/// An owned copy of an optional string slice.
pub fn own_opt(s: Option<&str>) -> (r: Option<String>)
    ensures
        opt_text(r) == opt_str(s),
{
    match s {
        Some(t) => Some(copy_str(t)),
        None => None,
    }
}

/// An optional string as an optional slice.
pub fn as_opt_str(s: &Option<String>) -> (r: Option<&str>)
    ensures
        opt_str(r) == opt_text(*s),
{
    match s {
        Some(t) => Some(t.as_str()),
        None => None,
    }
}

/// A list of strings with the same characters as `v`.
pub fn copy_strings(v: &Vec<String>) -> (r: Vec<String>)
    ensures
        r@ == v@,
        strings(r@) == strings(v@),
{
    let mut out: Vec<String> = Vec::new();
    let mut i: usize = 0;
    while i < v.len()
        invariant
            i <= v@.len(),
            out@ == v@.take(i as int),
        decreases v@.len() - i,
    {
        out.push(v[i].clone());
        i += 1;
    }
    assert(v@.take(v@.len() as int) == v@);
    out
}

/// Whether two strings have the same characters.
pub fn str_eq(a: &str, b: &str) -> (r: bool)
    ensures
        r == (a@ == b@),
{
    a.to_owned() == b.to_owned()
}

/// Whether an optional string holds exactly `b`.
pub fn opt_is(a: &Option<String>, b: &str) -> (r: bool)
    ensures
        r == (opt_text(*a) == Some(b@)),
{
    match a {
        Some(t) => str_eq(t.as_str(), b),
        None => false,
    }
}

/// Whether two optional strings agree.
pub fn opt_text_eq(a: &Option<String>, b: &Option<String>) -> (r: bool)
    ensures
        r == (opt_text(*a) == opt_text(*b)),
{
    match (a, b) {
        (Some(x), Some(y)) => str_eq(x.as_str(), y.as_str()),
        (None, None) => true,
        _ => false,
    }
}

/// Whether some string of the list has exactly the characters of `s`.
pub fn list_contains(v: &Vec<String>, s: &str) -> (r: bool)
    ensures
        r == strings(v@).contains(s@),
{
    let mut i: usize = 0;
    while i < v.len()
        invariant
            i <= v@.len(),
            forall|j: int| 0 <= j < i ==> #[trigger] v@[j]@ != s@,
        decreases v@.len() - i,
    {
        if str_eq(v[i].as_str(), s) {
            assert(strings(v@)[i as int] == s@);
            return true;
        }
        i += 1;
    }
    assert forall|j: int| 0 <= j < strings(v@).len() implies strings(v@)[j] != s@ by {
        assert(v@[j]@ != s@);
    }
    false
}

/// The order of texts: by the first character in which they differ; a text comes
/// before those that it begins.
pub open spec fn text_before(a: Seq<char>, b: Seq<char>) -> bool
    decreases a.len(),
{
    if b.len() == 0 {
        false
    } else if a.len() == 0 {
        true
    } else if a[0] != b[0] {
        a[0] < b[0]
    } else {
        text_before(a.drop_first(), b.drop_first())
    }
}

/// Of two texts one comes before the other, unless they are the same.
pub proof fn lemma_text_before_total(a: Seq<char>, b: Seq<char>)
    ensures
        text_before(a, b) || text_before(b, a) || a == b,
        !(text_before(a, b) && text_before(b, a)),
        a == b ==> !text_before(a, b),
    decreases a.len(),
{
    if a.len() > 0 && b.len() > 0 && a[0] == b[0] {
        lemma_text_before_total(a.drop_first(), b.drop_first());
        if a.drop_first() == b.drop_first() {
            assert(a =~= seq![a[0]] + a.drop_first());
            assert(b =~= seq![b[0]] + b.drop_first());
        }
    } else if a.len() == 0 && b.len() == 0 {
        assert(a =~= b);
    }
}

pub proof fn lemma_text_before_transitive(a: Seq<char>, b: Seq<char>, c: Seq<char>)
    requires
        text_before(a, b),
        text_before(b, c),
    ensures
        text_before(a, c),
    decreases a.len(),
{
    if a.len() > 0 && a[0] == b[0] && b[0] == c[0] {
        lemma_text_before_transitive(a.drop_first(), b.drop_first(), c.drop_first());
    }
}

/// Whether `a` comes before `b`.
pub fn is_before(a: &str, b: &str) -> (r: bool)
    ensures
        r == text_before(a@, b@),
{
    let x = chars_of(a);
    let y = chars_of(b);
    let mut i: usize = 0;
    assert(x@.skip(0) =~= x@ && y@.skip(0) =~= y@);
    while i < x.len() && i < y.len()
        invariant
            x@ == a@,
            y@ == b@,
            i <= x@.len(),
            i <= y@.len(),
            text_before(x@.skip(i as int), y@.skip(i as int)) == text_before(x@, y@),
        decreases x@.len() - i,
    {
        if x[i] != y[i] {
            return x[i] < y[i];
        }
        assert(x@.skip(i as int).drop_first() =~= x@.skip(i + 1));
        assert(y@.skip(i as int).drop_first() =~= y@.skip(i + 1));
        i += 1;
    }
    i < y.len()
}

/// The number of bytes of the UTF-8 encoding of `s`.
pub open spec fn utf8_len(s: Seq<char>) -> nat {
    encode_utf8(s).len()
}

/// The number of bytes of the UTF-8 encoding of one character.
pub open spec fn utf8_width(c: char) -> nat {
    if c <= '\u{7f}' {
        1
    } else if c <= '\u{7ff}' {
        2
    } else if c <= '\u{ffff}' {
        3
    } else {
        4
    }
}

/// The number of bytes of the UTF-8 encoding of one character.
pub fn char_width(c: char) -> (r: usize)
    ensures
        r == utf8_width(c),
{
    if c <= '\u{7f}' {
        1
    } else if c <= '\u{7ff}' {
        2
    } else if c <= '\u{ffff}' {
        3
    } else {
        4
    }
}

/// The number of bytes of the UTF-8 encoding of `s`.
pub fn byte_len(s: &str) -> (r: usize)
    ensures
        r as nat == utf8_len(s@),
{
    s.as_bytes().len()
}

/// One more character adds its own bytes.
pub proof fn lemma_utf8_len_push(s: Seq<char>, c: char)
    ensures
        utf8_len(s.push(c)) == utf8_len(s) + utf8_width(c),
    decreases s.len(),
{
    reveal_with_fuel(encode_utf8, 2);
    if s.len() == 0 {
        assert(s.push(c).drop_first() == Seq::<char>::empty());
    } else {
        lemma_utf8_len_push(s.drop_first(), c);
        assert(s.push(c).drop_first() == s.drop_first().push(c));
    }
}

/// A longer prefix has no fewer bytes.
pub proof fn lemma_utf8_len_take(s: Seq<char>, i: int, j: int)
    requires
        0 <= i <= j <= s.len(),
    ensures
        utf8_len(s.take(i)) <= utf8_len(s.take(j)),
        i < j ==> utf8_len(s.take(i)) < utf8_len(s.take(j)),
    decreases j - i,
{
    if i < j {
        lemma_utf8_len_take(s, i, j - 1);
        lemma_utf8_len_push(s.take(j - 1), s[j - 1]);
        assert(s.take(j) == s.take(j - 1).push(s[j - 1]));
    }
}

/// The greatest `k <= n` such that the first `k` characters take at most `max` bytes.
pub open spec fn fitting(s: Seq<char>, max: nat, n: int) -> int
    decreases n,
{
    if n <= 0 || utf8_len(s.take(n)) <= max {
        n
    } else {
        fitting(s, max, n - 1)
    }
}

/// `fitting` is the last prefix within the limit.
pub proof fn lemma_fitting(s: Seq<char>, max: nat, k: int, n: int)
    requires
        0 <= k <= n <= s.len(),
        utf8_len(s.take(k)) <= max,
        k < s.len() ==> utf8_len(s.take(k + 1)) > max,
    ensures
        fitting(s, max, n) == k,
    decreases n,
{
    if k < n {
        lemma_utf8_len_take(s, k + 1, n);
        lemma_fitting(s, max, k, n - 1);
    }
}

/// How many characters of `v` fit into `max` bytes, and the bytes that they take.
pub fn fit_bytes(v: &[char], max: usize) -> (r: (usize, usize))
    ensures
        r.0 == fitting(v@, max as nat, v@.len() as int),
        r.0 <= v@.len(),
        r.1 == utf8_len(v@.take(r.0 as int)),
        r.1 <= max,
{
    let mut n: usize = 0;
    let mut used: usize = 0;
    assert(v@.take(0) == Seq::<char>::empty());
    while n < v.len()
        invariant
            n <= v@.len(),
            used == utf8_len(v@.take(n as int)),
            used <= max,
        decreases v@.len() - n,
    {
        let width: usize = char_width(v[n]);
        proof {
            lemma_utf8_len_push(v@.take(n as int), v@[n as int]);
            assert(v@.take(n + 1) == v@.take(n as int).push(v@[n as int]));
        }
        if width > max - used {
            proof {
                lemma_fitting(v@, max as nat, n as int, v@.len() as int);
            }
            return (n, used);
        }
        used += width;
        n += 1;
    }
    (n, used)
}

// ---------------------------------------------------------------------
// Comparing characters
// ---------------------------------------------------------------------

/// `p` stands in `s` at position `i`.
pub open spec fn occurs_at(s: Seq<char>, p: Seq<char>, i: int) -> bool {
    0 <= i && i + p.len() <= s.len() && s.subrange(i, i + p.len()) == p
}

/// `s` begins with `p`.
pub open spec fn has_prefix(s: Seq<char>, p: Seq<char>) -> bool {
    occurs_at(s, p, 0)
}

/// `s` ends with `p`.
pub open spec fn has_suffix(s: Seq<char>, p: Seq<char>) -> bool {
    occurs_at(s, p, s.len() - p.len())
}

/// `p` stands somewhere in `s`.
pub open spec fn has_infix(s: Seq<char>, p: Seq<char>) -> bool {
    exists|i: int| occurs_at(s, p, i)
}

/// The least position at or after `from` at which `p` stands in `s`.
pub open spec fn find_from(s: Seq<char>, p: Seq<char>, from: int) -> Option<int>
    decreases s.len() + 1 - from,
{
    if from < 0 || from + p.len() > s.len() {
        None
    } else if occurs_at(s, p, from) {
        Some(from)
    } else {
        find_from(s, p, from + 1)
    }
}

/// `find_from` yields a position of `p`, and none before it holds `p`.
pub proof fn lemma_find_from(s: Seq<char>, p: Seq<char>, from: int)
    requires
        0 <= from,
    ensures
        match find_from(s, p, from) {
            Some(i) => from <= i && occurs_at(s, p, i) && forall|j: int|
                from <= j < i ==> !occurs_at(s, p, j),
            None => forall|j: int| from <= j ==> !occurs_at(s, p, j),
        },
    decreases s.len() + 1 - from,
{
    if from + p.len() > s.len() {
    } else if occurs_at(s, p, from) {
    } else {
        lemma_find_from(s, p, from + 1);
    }
}

/// `s` holds `p` exactly where a first position of `p` exists.
pub proof fn lemma_has_infix_find(s: Seq<char>, p: Seq<char>)
    ensures
        has_infix(s, p) <==> find_from(s, p, 0) is Some,
{
    lemma_find_from(s, p, 0);
    if find_from(s, p, 0) is Some {
        assert(occurs_at(s, p, find_from(s, p, 0)->0));
    }
}

/// Whether `p` stands in `s` at position `i`.
pub fn matches_at(s: &[char], p: &[char], i: usize) -> (r: bool)
    ensures
        r == occurs_at(s@, p@, i as int),
{
    let n: usize = s.len();
    if i > n || p.len() > n - i {
        return false;
    }
    let mut k: usize = 0;
    while k < p.len()
        invariant
            k <= p@.len(),
            i + p@.len() <= n,
            n == s@.len(),
            forall|j: int| 0 <= j < k ==> s@[i + j] == p@[j],
        decreases p@.len() - k,
    {
        if s[i + k] != p[k] {
            assert(s@.subrange(i as int, i + p@.len())[k as int] != p@[k as int]);
            return false;
        }
        k += 1;
    }
    assert(s@.subrange(i as int, i + p@.len()) =~= p@);
    true
}

/// The least position at or after `from` at which `p` stands in `s`.
pub fn find_chars(s: &[char], p: &[char], from: usize) -> (r: Option<usize>)
    ensures
        match r {
            Some(i) => find_from(s@, p@, from as int) == Some(i as int),
            None => find_from(s@, p@, from as int) is None,
        },
        r is Some ==> from <= r->0 && r->0 + p@.len() <= s@.len(),
{
    let mut i: usize = from;
    loop
        invariant
            from <= i,
            find_from(s@, p@, from as int) == find_from(s@, p@, i as int),
        decreases s@.len() + 1 - i,
    {
        if i > s.len() || p.len() > s.len() - i {
            return None;
        }
        if matches_at(s, p, i) {
            return Some(i);
        }
        assert(i < s@.len()) by {
            if i == s@.len() {
                assert(s@.subrange(i as int, i as int) =~= p@);
            }
        }
        i += 1;
    }
}

/// The character position of the first `p` in `s`.
pub fn find(s: &str, p: &str) -> (r: Option<usize>)
    ensures
        match r {
            Some(i) => find_from(s@, p@, 0) == Some(i as int),
            None => find_from(s@, p@, 0) is None,
        },
        r is Some ==> r->0 + p@.len() <= s@.len(),
{
    let sv = chars_of(s);
    let pv = chars_of(p);
    find_chars(sv.as_slice(), pv.as_slice(), 0)
}

/// Whether `p` stands somewhere in `s`.
pub fn contains(s: &str, p: &str) -> (r: bool)
    ensures
        r == has_infix(s@, p@),
{
    proof {
        lemma_has_infix_find(s@, p@);
    }
    find(s, p).is_some()
}

/// Whether `s` begins with `p`.
pub fn starts_with(s: &str, p: &str) -> (r: bool)
    ensures
        r == has_prefix(s@, p@),
{
    let sv = chars_of(s);
    let pv = chars_of(p);
    matches_at(sv.as_slice(), pv.as_slice(), 0)
}

/// Whether `s` ends with `p`.
pub fn ends_with(s: &str, p: &str) -> (r: bool)
    ensures
        r == has_suffix(s@, p@),
{
    let sv = chars_of(s);
    let pv = chars_of(p);
    if pv.len() > sv.len() {
        return false;
    }
    matches_at(sv.as_slice(), pv.as_slice(), sv.len() - pv.len())
}

/// `s` has one of the texts as an infix.
pub open spec fn has_any_infix(s: Seq<char>, needles: Seq<&str>) -> bool {
    exists|i: int| 0 <= i < needles.len() && has_infix(s, #[trigger] needles[i]@)
}

/// Whether one of the texts stands somewhere in `s`.
pub fn contains_any(s: &str, needles: &[&str]) -> (r: bool)
    ensures
        r == has_any_infix(s@, needles@),
{
    let mut i: usize = 0;
    while i < needles.len()
        invariant
            i <= needles@.len(),
            forall|j: int| 0 <= j < i ==> !has_infix(s@, #[trigger] needles@[j]@),
        decreases needles@.len() - i,
    {
        if contains(s, needles[i]) {
            assert(has_infix(s@, needles@[i as int]@));
            return true;
        }
        i += 1;
    }
    false
}

/// `s` begins with one of the texts.
pub open spec fn has_any_prefix(s: Seq<char>, prefixes: Seq<&str>) -> bool {
    exists|i: int| 0 <= i < prefixes.len() && has_prefix(s, #[trigger] prefixes[i]@)
}

/// Whether `s` begins with one of the texts.
pub fn starts_with_any(s: &str, prefixes: &[&str]) -> (r: bool)
    ensures
        r == has_any_prefix(s@, prefixes@),
{
    let mut i: usize = 0;
    while i < prefixes.len()
        invariant
            i <= prefixes@.len(),
            forall|j: int| 0 <= j < i ==> !has_prefix(s@, #[trigger] prefixes@[j]@),
        decreases prefixes@.len() - i,
    {
        if starts_with(s, prefixes[i]) {
            assert(has_prefix(s@, prefixes@[i as int]@));
            return true;
        }
        i += 1;
    }
    false
}

/// `s` is one of the texts.
pub open spec fn is_one_of(s: Seq<char>, options: Seq<&str>) -> bool {
    exists|i: int| 0 <= i < options.len() && #[trigger] options[i]@ == s
}

/// Whether `s` is one of the texts.
pub fn one_of(s: &str, options: &[&str]) -> (r: bool)
    ensures
        r == is_one_of(s@, options@),
{
    let mut i: usize = 0;
    while i < options.len()
        invariant
            i <= options@.len(),
            forall|j: int| 0 <= j < i ==> #[trigger] options@[j]@ != s@,
        decreases options@.len() - i,
    {
        if str_eq(s, options[i]) {
            assert(options@[i as int]@ == s@);
            return true;
        }
        i += 1;
    }
    false
}

// ---------------------------------------------------------------------
// Taking text apart
// ---------------------------------------------------------------------

/// The predicate of white space.
pub open spec fn blank() -> spec_fn(char) -> bool {
    |c: char| white_space(c)
}

/// The predicate of being one of the given characters.
pub open spec fn among(set: Seq<char>) -> spec_fn(char) -> bool {
    |c: char| set.contains(c)
}

/// `s` without its longest prefix of characters that satisfy `p`.
pub open spec fn strip_front(s: Seq<char>, p: spec_fn(char) -> bool) -> Seq<char>
    decreases s.len(),
{
    if s.len() > 0 && p(s[0]) {
        strip_front(s.drop_first(), p)
    } else {
        s
    }
}

/// `s` without its longest suffix of characters that satisfy `p`.
pub open spec fn strip_back(s: Seq<char>, p: spec_fn(char) -> bool) -> Seq<char>
    decreases s.len(),
{
    if s.len() > 0 && p(s.last()) {
        strip_back(s.drop_last(), p)
    } else {
        s
    }
}

/// `s` without white space at either end.
pub open spec fn trimmed(s: Seq<char>) -> Seq<char> {
    strip_back(strip_front(s, blank()), blank())
}

/// `s` without white space at its front.
pub open spec fn trimmed_start(s: Seq<char>) -> Seq<char> {
    strip_front(s, blank())
}

/// `s` without white space at its end.
pub open spec fn trimmed_end(s: Seq<char>) -> Seq<char> {
    strip_back(s, blank())
}

/// Stripping stops at a character that stays.
pub proof fn lemma_strip_front(s: Seq<char>, p: spec_fn(char) -> bool)
    ensures
        strip_front(s, p).len() > 0 ==> !p(strip_front(s, p)[0]),
        strip_front(s, p).len() <= s.len(),
        s.len() > 0 && !p(s.last()) ==> strip_front(s, p).len() > 0 && strip_front(s, p).last()
            == s.last(),
    decreases s.len(),
{
    if s.len() > 0 && p(s[0]) {
        lemma_strip_front(s.drop_first(), p);
        if s.len() > 1 {
            assert(s.drop_first().last() == s.last());
        }
    }
}

/// Stripping stops at a character that stays.
pub proof fn lemma_strip_back(s: Seq<char>, p: spec_fn(char) -> bool)
    ensures
        strip_back(s, p).len() > 0 ==> !p(strip_back(s, p).last()),
        strip_back(s, p).len() <= s.len(),
        s.len() > 0 && !p(s[0]) ==> strip_back(s, p).len() > 0 && strip_back(s, p)[0] == s[0],
    decreases s.len(),
{
    if s.len() > 0 && p(s.last()) {
        lemma_strip_back(s.drop_last(), p);
    }
}

/// A trimmed text is not changed by trimming it again.
pub proof fn lemma_trim_fixed(s: Seq<char>)
    ensures
        trimmed(trimmed(s)) == trimmed(s),
{
    let f = strip_front(s, blank());
    lemma_strip_front(s, blank());
    lemma_strip_back(f, blank());
}

/// White space at the end does not change what is left after trimming.
pub proof fn lemma_trim_push(s: Seq<char>, c: char)
    requires
        white_space(c),
    ensures
        trimmed(s.push(c)) == trimmed(s),
{
    lemma_strip_front_push(s, c);
    let f = strip_front(s, blank());
    if f.len() > 0 {
        assert(f.push(c).drop_last() =~= f);
    }
}

proof fn lemma_strip_front_push(s: Seq<char>, c: char)
    requires
        white_space(c),
    ensures
        strip_front(s.push(c), blank()) == if strip_front(s, blank()).len() == 0 {
            Seq::empty()
        } else {
            strip_front(s, blank()).push(c)
        },
    decreases s.len(),
{
    assert(s.len() > 0 ==> s.push(c)[0] == s[0]);
    if s.len() == 0 {
        assert(s.push(c).drop_first() =~= Seq::<char>::empty());
        assert(strip_front(Seq::<char>::empty(), blank()) =~= Seq::<char>::empty());
    } else if white_space(s[0]) {
        lemma_strip_front_push(s.drop_first(), c);
        assert(s.push(c).drop_first() =~= s.drop_first().push(c));
    }
}

/// White space in front does not change what is left after trimming.
pub proof fn lemma_trim_front(s: Seq<char>, c: char)
    requires
        white_space(c),
    ensures
        trimmed(seq![c] + s) == trimmed(s),
{
    assert((seq![c] + s).drop_first() =~= s);
}

/// A text that neither begins nor ends with white space stands in `s` just where it
/// stands in the trimmed text.
pub proof fn lemma_trim_infix(s: Seq<char>, p: Seq<char>)
    requires
        p.len() > 0,
        !white_space(p[0]),
        !white_space(p.last()),
    ensures
        has_infix(trimmed(s), p) == has_infix(s, p),
{
    lemma_strip_front_infix(s, p);
    lemma_strip_back_infix(strip_front(s, blank()), p);
}

proof fn lemma_strip_front_infix(s: Seq<char>, p: Seq<char>)
    requires
        p.len() > 0,
        !white_space(p[0]),
    ensures
        has_infix(strip_front(s, blank()), p) == has_infix(s, p),
    decreases s.len(),
{
    if s.len() > 0 && white_space(s[0]) {
        let t = s.drop_first();
        lemma_strip_front_infix(t, p);
        if has_infix(s, p) {
            let i = choose|i: int| occurs_at(s, p, i);
            if i == 0 {
                assert(s.subrange(0, p.len() as int)[0] == s[0]);
            }
            assert(t.subrange(i - 1, i - 1 + p.len()) =~= s.subrange(i, i + p.len()));
            assert(occurs_at(t, p, i - 1));
        }
        if has_infix(t, p) {
            let i = choose|i: int| occurs_at(t, p, i);
            assert(s.subrange(i + 1, i + 1 + p.len()) =~= t.subrange(i, i + p.len()));
            assert(occurs_at(s, p, i + 1));
        }
    }
}

proof fn lemma_strip_back_infix(s: Seq<char>, p: Seq<char>)
    requires
        p.len() > 0,
        !white_space(p.last()),
    ensures
        has_infix(strip_back(s, blank()), p) == has_infix(s, p),
    decreases s.len(),
{
    if s.len() > 0 && white_space(s.last()) {
        let t = s.drop_last();
        lemma_strip_back_infix(t, p);
        if has_infix(s, p) {
            let i = choose|i: int| occurs_at(s, p, i);
            if i + p.len() == s.len() {
                assert(s.subrange(i, i + p.len()).last() == s.last());
            }
            assert(t.subrange(i, i + p.len()) =~= s.subrange(i, i + p.len()));
            assert(occurs_at(t, p, i));
        }
        if has_infix(t, p) {
            let i = choose|i: int| occurs_at(t, p, i);
            assert(s.subrange(i, i + p.len()) =~= t.subrange(i, i + p.len()));
            assert(occurs_at(s, p, i));
        }
    }
}

/// What stands in a part of a text stands in the text.
pub proof fn lemma_infix_within(a: Seq<char>, s: Seq<char>, b: Seq<char>, p: Seq<char>)
    requires
        has_infix(s, p),
    ensures
        has_infix(a + s + b, p),
{
    let i = choose|i: int| occurs_at(s, p, i);
    let all = a + s + b;
    assert(all.subrange(a.len() + i, a.len() + i + p.len()) =~= s.subrange(i, i + p.len()));
    assert(occurs_at(all, p, a.len() + i));
}

/// Lower-casing and trimming do not get in each other's way.
pub proof fn lemma_lower_trim(s: Seq<char>)
    ensures
        lower(trimmed(s)) == trimmed(lower(s)),
{
    lemma_lower_strip_front(s);
    lemma_lower_strip_back(strip_front(s, blank()));
}

proof fn lemma_lower_strip_front(s: Seq<char>)
    ensures
        lower(strip_front(s, blank())) == strip_front(lower(s), blank()),
    decreases s.len(),
{
    if s.len() > 0 {
        lemma_lower_white_space(s[0]);
        assert(lower(s)[0] == lower_char(s[0]));
        assert(lower(s).drop_first() =~= lower(s.drop_first()));
        lemma_lower_strip_front(s.drop_first());
    }
}

proof fn lemma_lower_strip_back(s: Seq<char>)
    ensures
        lower(strip_back(s, blank())) == strip_back(lower(s), blank()),
    decreases s.len(),
{
    if s.len() > 0 {
        lemma_lower_white_space(s.last());
        assert(lower(s).last() == lower_char(s.last()));
        assert(lower(s).drop_last() =~= lower(s.drop_last()));
        lemma_lower_strip_back(s.drop_last());
    }
}

proof fn lemma_lower_white_space(c: char)
    ensures
        white_space(lower_char(c)) == white_space(c),
{
    if 'A' <= c <= 'Z' {
        assert('a' <= lower_char(c) <= 'z');
    }
}

/// The position of the first character of `v` in `start..end` that is not white space.
pub fn skip_blank(v: &[char], start: usize, end: usize) -> (r: usize)
    requires
        start <= end <= v@.len(),
    ensures
        start <= r <= end,
        v@.subrange(r as int, end as int) == trimmed_start(v@.subrange(start as int, end as int)),
{
    let mut i: usize = start;
    while i < end && is_white_space(v[i])
        invariant
            start <= i <= end <= v@.len(),
            strip_front(v@.subrange(i as int, end as int), blank()) == trimmed_start(
                v@.subrange(start as int, end as int),
            ),
        decreases end - i,
    {
        assert(v@.subrange(i as int, end as int).drop_first() =~= v@.subrange(i + 1, end as int));
        i += 1;
    }
    i
}

/// The position after the last character of `v` in `start..end` that is not white space.
pub fn skip_blank_back(v: &[char], start: usize, end: usize) -> (r: usize)
    requires
        start <= end <= v@.len(),
    ensures
        start <= r <= end,
        v@.subrange(start as int, r as int) == trimmed_end(v@.subrange(start as int, end as int)),
{
    let mut i: usize = end;
    while i > start && is_white_space(v[i - 1])
        invariant
            start <= i <= end <= v@.len(),
            strip_back(v@.subrange(start as int, i as int), blank()) == trimmed_end(
                v@.subrange(start as int, end as int),
            ),
        decreases i,
    {
        assert(v@.subrange(start as int, i as int).drop_last() =~= v@.subrange(
            start as int,
            i - 1,
        ));
        i -= 1;
    }
    i
}

/// `s` without white space at either end.
pub fn trim(s: &str) -> (r: String)
    ensures
        r@ == trimmed(s@),
{
    let v = chars_of(s);
    let start: usize = skip_blank(v.as_slice(), 0, v.len());
    let end: usize = skip_blank_back(v.as_slice(), start, v.len());
    assert(v@.subrange(0, v@.len() as int) =~= v@);
    string_of_range(v.as_slice(), start, end)
}

/// `s` without white space at its front.
pub fn trim_start(s: &str) -> (r: String)
    ensures
        r@ == trimmed_start(s@),
{
    let v = chars_of(s);
    let start: usize = skip_blank(v.as_slice(), 0, v.len());
    assert(v@.subrange(0, v@.len() as int) =~= v@);
    string_of_range(v.as_slice(), start, v.len())
}

/// `s` without white space at its end.
pub fn trim_end(s: &str) -> (r: String)
    ensures
        r@ == trimmed_end(s@),
{
    let v = chars_of(s);
    let end: usize = skip_blank_back(v.as_slice(), 0, v.len());
    assert(v@.subrange(0, v@.len() as int) =~= v@);
    string_of_range(v.as_slice(), 0, end)
}

/// `s` holds nothing but white space.
pub open spec fn is_blank_text(s: Seq<char>) -> bool {
    trimmed(s).len() == 0
}

/// Whether `s` holds nothing but white space.
pub fn is_blank(s: &str) -> (r: bool)
    ensures
        r == is_blank_text(s@),
{
    trim(s).as_str().is_empty()
}

/// Whether `c` is one of the characters of `set`.
pub fn char_among(c: char, set: &[char]) -> (r: bool)
    ensures
        r == set@.contains(c),
{
    let mut i: usize = 0;
    while i < set.len()
        invariant
            i <= set@.len(),
            forall|j: int| 0 <= j < i ==> set@[j] != c,
        decreases set@.len() - i,
    {
        if set[i] == c {
            return true;
        }
        i += 1;
    }
    false
}

/// `s` without the characters of `set` at its front.
pub fn trim_start_set(s: &str, set: &[char]) -> (r: String)
    ensures
        r@ == strip_front(s@, among(set@)),
{
    let v = chars_of(s);
    let mut i: usize = 0;
    assert(v@.subrange(0, v@.len() as int) =~= v@);
    while i < v.len() && char_among(v[i], set)
        invariant
            i <= v@.len(),
            strip_front(v@.subrange(i as int, v@.len() as int), among(set@)) == strip_front(
                v@,
                among(set@),
            ),
        decreases v@.len() - i,
    {
        assert(v@.subrange(i as int, v@.len() as int).drop_first() =~= v@.subrange(
            i + 1,
            v@.len() as int,
        ));
        i += 1;
    }
    string_of_range(v.as_slice(), i, v.len())
}

/// `s` without the characters of `set` at its end.
pub fn trim_end_set(s: &str, set: &[char]) -> (r: String)
    ensures
        r@ == strip_back(s@, among(set@)),
{
    let v = chars_of(s);
    let mut i: usize = v.len();
    assert(v@.subrange(0, v@.len() as int) =~= v@);
    while i > 0 && char_among(v[i - 1], set)
        invariant
            i <= v@.len(),
            strip_back(v@.subrange(0, i as int), among(set@)) == strip_back(v@, among(set@)),
        decreases i,
    {
        assert(v@.subrange(0, i as int).drop_last() =~= v@.subrange(0, i - 1));
        i -= 1;
    }
    string_of_range(v.as_slice(), 0, i)
}

/// The first `n` characters of `s`, or all of it where it is shorter.
pub open spec fn first_chars(s: Seq<char>, n: int) -> Seq<char> {
    if s.len() <= n {
        s
    } else {
        s.take(n)
    }
}

/// The first `max_chars` characters of `value`.
pub fn truncate_chars(value: &str, max_chars: usize) -> (r: String)
    ensures
        r@ == first_chars(value@, max_chars as int),
{
    let v = chars_of(value);
    if v.len() <= max_chars {
        copy_str(value)
    } else {
        string_of_range(v.as_slice(), 0, max_chars)
    }
}

/// `s` without the prefix `p`, where it begins with it.
pub open spec fn without_prefix(s: Seq<char>, p: Seq<char>) -> Option<Seq<char>> {
    if has_prefix(s, p) {
        Some(s.skip(p.len() as int))
    } else {
        None
    }
}

/// `s` without the prefix `p`, where it begins with it.
pub fn strip_prefix(s: &str, p: &str) -> (r: Option<String>)
    ensures
        opt_text(r) == without_prefix(s@, p@),
{
    let v = chars_of(s);
    let pv = chars_of(p);
    if matches_at(v.as_slice(), pv.as_slice(), 0) {
        Some(string_of_range(v.as_slice(), pv.len(), v.len()))
    } else {
        None
    }
}

/// The text before and the text after the first `sep` in `s`.
pub open spec fn split_at_first(s: Seq<char>, sep: Seq<char>) -> Option<(Seq<char>, Seq<char>)> {
    match find_from(s, sep, 0) {
        Some(i) => Some((s.take(i), s.skip(i + sep.len()))),
        None => None,
    }
}

/// The text before and the text after the first `sep` in `s`.
pub fn split_once(s: &str, sep: &str) -> (r: Option<(String, String)>)
    ensures
        match r {
            Some((a, b)) => split_at_first(s@, sep@) == Some((a@, b@)),
            None => split_at_first(s@, sep@) is None,
        },
{
    let v = chars_of(s);
    let pv = chars_of(sep);
    let n: usize = v.len();
    match find_chars(v.as_slice(), pv.as_slice(), 0) {
        Some(i) => Some(
            (
                string_of_range(v.as_slice(), 0, i),
                string_of_range(v.as_slice(), i + pv.len(), n),
            ),
        ),
        None => None,
    }
}

/// The position of the first `c` in `s`, or the length of `s`.
pub open spec fn char_index(s: Seq<char>, c: char) -> int
    decreases s.len(),
{
    if s.len() == 0 || s[0] == c {
        0
    } else {
        1 + char_index(s.drop_first(), c)
    }
}

/// `char_index` lies in `s`, holds `c` where it is not the end, and nothing before it does.
pub proof fn lemma_char_index(s: Seq<char>, c: char)
    ensures
        0 <= char_index(s, c) <= s.len(),
        char_index(s, c) < s.len() ==> s[char_index(s, c)] == c,
        forall|j: int| 0 <= j < char_index(s, c) ==> s[j] != c,
    decreases s.len(),
{
    if s.len() == 0 || s[0] == c {
    } else {
        lemma_char_index(s.drop_first(), c);
        assert forall|j: int| 0 <= j < char_index(s, c) implies s[j] != c by {
            if j > 0 {
                assert(s.drop_first()[j - 1] == s[j]);
            }
        }
    }
}

/// A position that is the first to hold `c`, or the end where nothing does, is `char_index`.
pub proof fn lemma_char_index_unique(s: Seq<char>, c: char, i: int)
    requires
        0 <= i <= s.len(),
        i < s.len() ==> s[i] == c,
        forall|j: int| 0 <= j < i ==> s[j] != c,
    ensures
        char_index(s, c) == i,
{
    lemma_char_index(s, c);
    let k = char_index(s, c);
    if k < i {
        assert(s[k] != c);
    } else if i < k {
        assert(s[i] != c);
    }
}

/// The pieces of `s` between the characters `c`; there is always at least one.
pub open spec fn split_on(s: Seq<char>, c: char) -> Seq<Seq<char>>
    decreases s.len(),
    via split_on_decreases
{
    let i = char_index(s, c);
    if i >= s.len() {
        seq![s]
    } else {
        seq![s.take(i)] + split_on(s.skip(i + 1), c)
    }
}

#[via_fn]
proof fn split_on_decreases(s: Seq<char>, c: char) {
    lemma_char_index(s, c);
}

/// The pieces with one character more in front.
pub proof fn lemma_split_first(s: Seq<char>, c: char)
    requires
        s.len() > 0,
    ensures
        ({
            let rest = split_on(s.drop_first(), c);
            &&& rest.len() > 0
            &&& split_on(s, c) == if s[0] == c {
                seq![Seq::<char>::empty()] + rest
            } else {
                seq![seq![s[0]] + rest[0]] + rest.drop_first()
            }
        }),
{
    let t = s.drop_first();
    let i = char_index(t, c);
    lemma_char_index(t, c);
    lemma_char_index(s, c);
    if s[0] == c {
        assert(s.take(0) =~= Seq::<char>::empty());
        assert(s.skip(1) =~= t);
    } else if i >= t.len() {
        assert(s =~= seq![s[0]] + t);
        assert(split_on(s, c) =~= seq![seq![s[0]] + t] + seq![t].drop_first());
    } else {
        assert(s.take(i + 1) =~= seq![s[0]] + t.take(i));
        assert(s.skip(i + 2) =~= t.skip(i + 1));
        let rest = split_on(t, c);
        assert(rest.drop_first() =~= split_on(t.skip(i + 1), c));
    }
}

/// Two texts with `c` between them have the pieces of both.
pub proof fn lemma_split_concat(a: Seq<char>, b: Seq<char>, c: char)
    ensures
        split_on(a + seq![c] + b, c) == split_on(a, c) + split_on(b, c),
    decreases a.len(),
{
    let s = a + seq![c] + b;
    lemma_split_first(s, c);
    if a.len() == 0 {
        assert(s.drop_first() =~= b);
        assert(split_on(a, c) == seq![a]);
        assert(a =~= Seq::<char>::empty());
    } else {
        assert(s.drop_first() =~= a.drop_first() + seq![c] + b);
        lemma_split_concat(a.drop_first(), b, c);
        lemma_split_first(a, c);
        let rest = split_on(a.drop_first(), c);
        assert((rest + split_on(b, c)).drop_first() =~= rest.drop_first() + split_on(b, c));
        assert(split_on(s, c) =~= split_on(a, c) + split_on(b, c));
    }
}

/// The pieces with one character more at the end.
pub proof fn lemma_split_last(s: Seq<char>, c: char)
    requires
        s.len() > 0,
    ensures
        ({
            let rest = split_on(s.drop_last(), c);
            &&& rest.len() > 0
            &&& split_on(s, c) == if s.last() == c {
                rest.push(Seq::empty())
            } else {
                rest.drop_last().push(rest.last().push(s.last()))
            }
        }),
    decreases s.len(),
{
    let t = s.drop_last();
    let rest = split_on(t, c);
    lemma_char_index(t, c);
    if s.last() == c {
        assert(s =~= t + seq![c] + Seq::empty());
        lemma_split_concat(t, Seq::empty(), c);
        assert(split_on(Seq::empty(), c) == seq![Seq::<char>::empty()]);
        assert(split_on(s, c) =~= rest.push(Seq::empty()));
    } else if s.len() == 1 {
        assert(t =~= Seq::<char>::empty());
        lemma_char_index(s, c);
        assert(split_on(s, c) =~= seq![s]);
        assert(rest =~= seq![t]);
        assert(t.push(s.last()) =~= s);
    } else {
        let inner = s.drop_first();
        lemma_split_first(s, c);
        lemma_split_first(t, c);
        lemma_split_last(inner, c);
        assert(inner.drop_last() =~= t.drop_first());
        assert(inner.last() == s.last());
        let mid = split_on(t.drop_first(), c);
        let whole = split_on(inner, c);
        if s[0] == c {
            assert(split_on(s, c) =~= rest.drop_last().push(rest.last().push(s.last())));
        } else if mid.len() == 1 {
            assert((seq![s[0]] + mid[0]).push(s.last()) =~= seq![s[0]] + mid[0].push(s.last()));
            assert(split_on(s, c) =~= rest.drop_last().push(rest.last().push(s.last())));
        } else {
            assert(whole[0] == mid[0]);
            assert(rest.last() == mid.last());
            assert(split_on(s, c) =~= rest.drop_last().push(rest.last().push(s.last())));
        }
    }
}

/// The pieces of `s` between the characters `c`.
pub fn split_char(s: &str, c: char) -> (r: Vec<String>)
    ensures
        strings(r@) == split_on(s@, c),
        r@.len() > 0,
{
    let v = chars_of(s);
    let mut out: Vec<String> = Vec::new();
    let mut start: usize = 0;
    let mut i: usize = 0;
    assert(v@.skip(0) =~= v@);
    while i < v.len()
        invariant
            start <= i <= v@.len(),
            v@ == s@,
            strings(out@) + split_on(v@.skip(start as int), c) == split_on(v@, c),
            forall|j: int| start <= j < i ==> v@[j] != c,
        decreases v@.len() - i,
    {
        if v[i] == c {
            let ghost before = out@;
            proof {
                let rest = v@.skip(start as int);
                assert forall|j: int| 0 <= j < i - start implies rest[j] != c by {
                    assert(rest[j] == v@[start + j]);
                }
                lemma_char_index_unique(rest, c, i - start);
                assert(rest.take(i - start) =~= v@.subrange(start as int, i as int));
                assert(rest.skip(i - start + 1) =~= v@.skip(i + 1));
            }
            out.push(string_of_range(v.as_slice(), start, i));
            proof {
                assert(strings(out@) =~= strings(before).push(
                    v@.subrange(start as int, i as int),
                ));
                assert(strings(out@) + split_on(v@.skip(i + 1), c) =~= strings(before) + (seq![
                    v@.subrange(start as int, i as int),
                ] + split_on(v@.skip(i + 1), c)));
            }
            start = i + 1;
        }
        i += 1;
    }
    let ghost before = out@;
    proof {
        let rest = v@.skip(start as int);
        assert forall|j: int| 0 <= j < rest.len() implies rest[j] != c by {
            assert(rest[j] == v@[start + j]);
        }
        lemma_char_index_unique(rest, c, rest.len() as int);
        assert(rest =~= v@.subrange(start as int, v@.len() as int));
    }
    out.push(string_of_range(v.as_slice(), start, v.len()));
    proof {
        assert(strings(out@) =~= strings(before) + seq![
            v@.subrange(start as int, v@.len() as int),
        ]);
    }
    out
}

/// One line of text without the carriage return that belongs to its line end.
pub open spec fn without_cr(s: Seq<char>) -> Seq<char> {
    if s.len() > 0 && s.last() == '\r' {
        s.drop_last()
    } else {
        s
    }
}

/// The lines of `s`: a line ends at `\n` or `\r\n`, and an empty last line is left out.
pub open spec fn lines_of(s: Seq<char>) -> Seq<Seq<char>> {
    let parts = split_on(s, '\n');
    let ended = Seq::new((parts.len() - 1) as nat, |i: int| without_cr(parts[i]));
    if parts.last().len() == 0 {
        ended
    } else {
        ended.push(parts.last())
    }
}

/// The lines of `s`.
pub fn lines(s: &str) -> (r: Vec<String>)
    ensures
        strings(r@) == lines_of(s@),
{
    let parts = split_char(s, '\n');
    let ghost ps = strings(parts@);
    let mut out: Vec<String> = Vec::new();
    let last: usize = parts.len() - 1;
    let mut i: usize = 0;
    while i < last
        invariant
            i <= last,
            last == parts@.len() - 1,
            ps == strings(parts@),
            strings(out@) == Seq::new(i as nat, |k: int| without_cr(ps[k])),
        decreases last - i,
    {
        let line = chars_of(parts[i].as_str());
        let n: usize = line.len();
        let ghost before = out@;
        assert(ps[i as int] == line@);
        if n > 0 && line[n - 1] == '\r' {
            out.push(string_of_range(line.as_slice(), 0, n - 1));
            assert(out@.last()@ =~= without_cr(ps[i as int]));
        } else {
            out.push(string_of_range(line.as_slice(), 0, n));
            assert(out@.last()@ =~= without_cr(ps[i as int]));
        }
        assert(strings(out@) =~= strings(before).push(without_cr(ps[i as int])));
        assert(strings(out@) =~= Seq::new((i + 1) as nat, |k: int| without_cr(ps[k])));
        i += 1;
    }
    assert(ps.last() == parts@[last as int]@);
    if !parts[last].as_str().is_empty() {
        let ghost before = out@;
        out.push(parts[last].clone());
        assert(strings(out@) =~= strings(before).push(ps.last()));
    }
    out
}

/// Whether `c` stands in `s`.
pub fn has_char(s: &str, c: char) -> (r: bool)
    ensures
        r == s@.contains(c),
{
    let v = chars_of(s);
    char_among(c, v.as_slice())
}

/// `s` with `A`..`Z` folded to `a`..`z`.
pub open spec fn lower(s: Seq<char>) -> Seq<char> {
    Seq::new(s.len(), |i: int| lower_char(s[i]))
}

/// `s` with `A`..`Z` folded to `a`..`z`.
pub fn to_lower(s: &str) -> (r: String)
    ensures
        r@ == lower(s@),
{
    let v = chars_of(s);
    let mut out = String::new();
    let mut i: usize = 0;
    while i < v.len()
        invariant
            i <= v@.len(),
            out@ == lower(v@).take(i as int),
        decreases v@.len() - i,
    {
        out.push(to_lower_char(v[i]));
        assert(lower(v@).take(i + 1) =~= lower(v@).take(i as int).push(lower(v@)[i as int]));
        i += 1;
    }
    assert(lower(v@).take(v@.len() as int) =~= lower(v@));
    out
}

/// `s` with `a`..`z` raised to `A`..`Z`.
pub open spec fn upper(s: Seq<char>) -> Seq<char> {
    Seq::new(s.len(), |i: int| upper_char(s[i]))
}

/// `s` with `a`..`z` raised to `A`..`Z`.
pub fn to_upper(s: &str) -> (r: String)
    ensures
        r@ == upper(s@),
{
    let v = chars_of(s);
    let mut out = String::new();
    let mut i: usize = 0;
    while i < v.len()
        invariant
            i <= v@.len(),
            out@ == upper(v@).take(i as int),
        decreases v@.len() - i,
    {
        out.push(to_upper_char(v[i]));
        assert(upper(v@).take(i + 1) =~= upper(v@).take(i as int).push(upper(v@)[i as int]));
        i += 1;
    }
    assert(upper(v@).take(v@.len() as int) =~= upper(v@));
    out
}

/// How many times `p` stands in `s` from `from` on, no two of them overlapping;
/// between any two characters and at both ends where `p` is empty.
pub open spec fn count_from(s: Seq<char>, p: Seq<char>, from: int) -> nat
    decreases s.len() + 1 - from,
    via count_from_decreases
{
    if p.len() == 0 {
        if from < 0 || from > s.len() {
            0
        } else {
            (s.len() + 1 - from) as nat
        }
    } else {
        match find_from(s, p, from) {
            Some(i) => 1 + count_from(s, p, i + p.len()),
            None => 0,
        }
    }
}

#[via_fn]
proof fn count_from_decreases(s: Seq<char>, p: Seq<char>, from: int) {
    if 0 <= from {
        lemma_find_from(s, p, from);
    }
}

/// How many times `p` stands in `s` without overlap, up to the greatest `usize`.
pub fn count_matches(s: &str, p: &str) -> (r: usize)
    ensures
        r == if count_from(s@, p@, 0) > usize::MAX {
            usize::MAX as nat
        } else {
            count_from(s@, p@, 0)
        },
{
    let v = chars_of(s);
    let pv = chars_of(p);
    let n: usize = v.len();
    if pv.len() == 0 {
        return n.saturating_add(1);
    }
    let mut count: usize = 0;
    let mut from: usize = 0;
    while from <= n
        invariant
            from <= n,
            n == v@.len(),
            pv@.len() > 0,
            v@ == s@,
            pv@ == p@,
            count <= from,
            count + count_from(v@, pv@, from as int) == count_from(v@, pv@, 0),
        decreases n + 1 - from,
    {
        match find_chars(v.as_slice(), pv.as_slice(), from) {
            Some(i) => {
                proof {
                    lemma_find_from(v@, pv@, from as int);
                }
                count += 1;
                from = i + pv.len();
            },
            None => {
                return count;
            },
        }
    }
    count
}

/// `s` with the first `p` in it replaced by `by`.
pub open spec fn replaced_first(s: Seq<char>, p: Seq<char>, by: Seq<char>) -> Seq<char> {
    match find_from(s, p, 0) {
        Some(i) => s.take(i) + by + s.skip(i + p.len()),
        None => s,
    }
}

/// `s` with the first `p` in it replaced by `by`.
pub fn replace_first(s: &str, p: &str, by: &str) -> (r: String)
    ensures
        r@ == replaced_first(s@, p@, by@),
{
    match split_once(s, p) {
        Some((a, b)) => concat3(a.as_str(), by, b.as_str()),
        None => copy_str(s),
    }
}

/// The greatest position up to `i` at which `p` stands in `s`.
pub open spec fn find_back(s: Seq<char>, p: Seq<char>, i: int) -> Option<int>
    decreases i + 1,
{
    if i < 0 {
        None
    } else if occurs_at(s, p, i) {
        Some(i)
    } else {
        find_back(s, p, i - 1)
    }
}

/// The last position at which `p` stands in `v`.
pub fn rfind_chars(v: &[char], p: &[char]) -> (r: Option<usize>)
    ensures
        match r {
            Some(i) => find_back(v@, p@, v@.len() as int) == Some(i as int) && i + p@.len() <= v@.len(),
            None => find_back(v@, p@, v@.len() as int) is None,
        },
{
    let mut i: usize = v.len();
    loop
        invariant
            i <= v@.len(),
            find_back(v@, p@, v@.len() as int) == find_back(v@, p@, i as int),
        decreases i,
    {
        if matches_at(v, p, i) {
            return Some(i);
        }
        if i == 0 {
            assert(find_back(v@, p@, -1) is None);
            return None;
        }
        i -= 1;
    }
}

/// The longest runs of characters of `s` that are not separators.
pub open spec fn words_of(s: Seq<char>, separator: spec_fn(char) -> bool) -> Seq<Seq<char>>
    decreases s.len(),
{
    if s.len() == 0 {
        Seq::empty()
    } else {
        let before = words_of(s.drop_last(), separator);
        let c = s.last();
        if separator(c) {
            before
        } else if s.len() > 1 && !separator(s[s.len() - 2]) {
            before.drop_last().push(before.last().push(c))
        } else {
            before.push(seq![c])
        }
    }
}

/// The predicate of white space and ASCII punctuation.
pub open spec fn blank_or_punctuation() -> spec_fn(char) -> bool {
    |c: char| white_space(c) || ascii_punctuation(c)
}

/// The longest runs of characters of `s` that are neither white space nor ASCII punctuation.
pub fn split_words(s: &str) -> (r: Vec<String>)
    ensures
        strings(r@) == words_of(s@, blank_or_punctuation()),
{
    let v = chars_of(s);
    let mut out: Vec<String> = Vec::new();
    let mut open = false;
    let mut i: usize = 0;
    let ghost sep = blank_or_punctuation();
    while i < v.len()
        invariant
            i <= v@.len(),
            sep == blank_or_punctuation(),
            strings(out@) == words_of(v@.take(i as int), sep),
            open == (i > 0 && !sep(v@[i - 1])),
            open ==> out@.len() > 0,
        decreases v@.len() - i,
    {
        let c: char = v[i];
        let ghost before = out@;
        assert(v@.take(i + 1).drop_last() == v@.take(i as int));
        if is_white_space(c) || is_ascii_punctuation(c) {
            open = false;
        } else if open {
            if let Some(mut word) = out.pop() {
                assert(strings(out@) == strings(before).drop_last());
                let ghost mid = out@;
                word.push(c);
                out.push(word);
                assert(strings(out@) == strings(mid).push(strings(before).last().push(c)));
            }
        } else {
            let mut word = String::new();
            word.push(c);
            out.push(word);
            assert(strings(out@) == strings(before).push(seq![c]));
            open = true;
        }
        i += 1;
    }
    assert(v@.take(v@.len() as int) == v@);
    out
}

// ---------------------------------------------------------------------
// Putting text together
// ---------------------------------------------------------------------

/// The parts, one after another, with `sep` between neighbours.
pub open spec fn joined(parts: Seq<Seq<char>>, sep: Seq<char>) -> Seq<char>
    decreases parts.len(),
{
    if parts.len() == 0 {
        Seq::empty()
    } else if parts.len() == 1 {
        parts[0]
    } else {
        joined(parts.drop_last(), sep) + sep + parts.last()
    }
}

/// The parts, one after another, with `sep` between neighbours.
pub fn join(parts: &Vec<String>, sep: &str) -> (r: String)
    ensures
        r@ == joined(strings(parts@), sep@),
{
    let mut out = String::new();
    let ghost ps = strings(parts@);
    let mut i: usize = 0;
    while i < parts.len()
        invariant
            i <= parts@.len(),
            ps == strings(parts@),
            out@ == joined(ps.take(i as int), sep@),
        decreases parts@.len() - i,
    {
        assert(ps.take(i + 1).drop_last() =~= ps.take(i as int));
        if i > 0 {
            out.append(sep);
        }
        out.append(parts[i].as_str());
        assert(out@ =~= joined(ps.take(i + 1), sep@));
        i += 1;
    }
    assert(ps.take(ps.len() as int) =~= ps);
    out
}

/// The concatenation of two texts.
pub fn concat2(a: &str, b: &str) -> (r: String)
    ensures
        r@ == a@ + b@,
{
    let mut out = copy_str(a);
    out.append(b);
    out
}

/// The concatenation of three texts.
pub fn concat3(a: &str, b: &str, c: &str) -> (r: String)
    ensures
        r@ == a@ + b@ + c@,
{
    let mut out = copy_str(a);
    out.append(b);
    out.append(c);
    out
}

/// The concatenation of four texts.
pub fn concat4(a: &str, b: &str, c: &str, d: &str) -> (r: String)
    ensures
        r@ == a@ + b@ + c@ + d@,
{
    let mut out = concat3(a, b, c);
    out.append(d);
    out
}

/// The concatenation of five texts.
pub fn concat5(a: &str, b: &str, c: &str, d: &str, e: &str) -> (r: String)
    ensures
        r@ == a@ + b@ + c@ + d@ + e@,
{
    let mut out = concat4(a, b, c, d);
    out.append(e);
    out
}

/// One decimal digit as a character.
pub open spec fn digit_char(d: nat) -> char {
    (48 + d) as u8 as char
}

/// The decimal digits of `n`.
pub open spec fn decimal(n: nat) -> Seq<char>
    decreases n,
{
    if n < 10 {
        seq![digit_char(n)]
    } else {
        decimal(n / 10).push(digit_char(n % 10))
    }
}

/// The decimal digits of `n`.
pub fn decimal_of(n: u64) -> (r: String)
    ensures
        r@ == decimal(n as nat),
    decreases n,
{
    let d: u8 = (n % 10) as u8;
    let c: char = (48 + d) as char;
    let mut out = if n < 10 {
        String::new()
    } else {
        decimal_of(n / 10)
    };
    out.push(c);
    assert(out@ =~= decimal(n as nat));
    out
}

/// One lower-case hexadecimal digit as a character.
pub open spec fn hex_char(d: nat) -> char {
    if d < 10 {
        (48 + d) as u8 as char
    } else {
        (87 + d) as u8 as char
    }
}

/// One lower-case hexadecimal digit as a character.
pub fn hex_digit(d: u8) -> (r: char)
    requires
        d < 16,
    ensures
        r == hex_char(d as nat),
{
    if d < 10 {
        (48 + d) as char
    } else {
        (87 + d) as char
    }
}

/// The lower-case hexadecimal digits of `n`.
pub open spec fn hexadecimal(n: nat) -> Seq<char>
    decreases n,
{
    if n < 16 {
        seq![hex_char(n)]
    } else {
        hexadecimal(n / 16).push(hex_char(n % 16))
    }
}

/// The lower-case hexadecimal digits of `n`.
pub fn hexadecimal_of(n: u64) -> (r: String)
    ensures
        r@ == hexadecimal(n as nat),
    decreases n,
{
    let c: char = hex_digit((n % 16) as u8);
    let mut out = if n < 16 {
        String::new()
    } else {
        hexadecimal_of(n / 16)
    };
    out.push(c);
    assert(out@ =~= hexadecimal(n as nat));
    out
}

// ---------------------------------------------------------------------
// Laws
// ---------------------------------------------------------------------

/// `t` is what stands in `s` from `a` up to `b`; the rest of `s` is white space, and `t`
/// neither begins nor ends with white space.
pub open spec fn is_core(s: Seq<char>, t: Seq<char>, a: int, b: int) -> bool {
    &&& 0 <= a <= b <= s.len()
    &&& t == s.subrange(a, b)
    &&& forall|i: int| 0 <= i < a ==> white_space(#[trigger] s[i])
    &&& forall|i: int| b <= i < s.len() ==> white_space(#[trigger] s[i])
    &&& t.len() > 0 ==> !white_space(t[0]) && !white_space(t.last())
}

proof fn lemma_front_core(s: Seq<char>)
    ensures
        strip_front(s, blank()).len() <= s.len(),
        strip_front(s, blank()) == s.skip(s.len() - strip_front(s, blank()).len()),
        forall|i: int|
            0 <= i < s.len() - strip_front(s, blank()).len() ==> white_space(#[trigger] s[i]),
        strip_front(s, blank()).len() > 0 ==> !white_space(strip_front(s, blank())[0]),
    decreases s.len(),
{
    if s.len() > 0 && white_space(s[0]) {
        let t = s.drop_first();
        lemma_front_core(t);
        let n = s.len() - strip_front(s, blank()).len();
        assert(s.skip(n) =~= t.skip(n - 1));
        assert forall|i: int| 0 <= i < n implies white_space(#[trigger] s[i]) by {
            if i > 0 {
                assert(t[i - 1] == s[i]);
            }
        }
    } else {
        assert(s.skip(0) =~= s);
    }
}

proof fn lemma_back_core(s: Seq<char>)
    ensures
        strip_back(s, blank()).len() <= s.len(),
        strip_back(s, blank()) == s.take(strip_back(s, blank()).len() as int),
        forall|i: int|
            strip_back(s, blank()).len() <= i < s.len() ==> white_space(#[trigger] s[i]),
        strip_back(s, blank()).len() > 0 ==> !white_space(strip_back(s, blank()).last()),
    decreases s.len(),
{
    if s.len() > 0 && white_space(s.last()) {
        let t = s.drop_last();
        lemma_back_core(t);
        let n = strip_back(s, blank()).len() as int;
        assert(s.take(n) =~= t.take(n));
        assert forall|i: int| n <= i < s.len() implies white_space(#[trigger] s[i]) by {
            if i < s.len() - 1 {
                assert(t[i] == s[i]);
            }
        }
    } else {
        assert(s.take(s.len() as int) =~= s);
    }
}

/// Trimming takes white space off both ends, all of it and nothing else; at one end, off
/// that end alone. A text is blank where it is white space throughout.
pub proof fn law_trimming_takes_white_space(s: Seq<char>)
    ensures
        exists|a: int, b: int| is_core(s, trimmed(s), a, b),
        trimmed_end(s).len() <= s.len(),
        trimmed_end(s) == s.take(trimmed_end(s).len() as int),
        forall|i: int| trimmed_end(s).len() <= i < s.len() ==> white_space(#[trigger] s[i]),
        trimmed_end(s).len() > 0 ==> !white_space(trimmed_end(s).last()),
        trimmed_start(s).len() <= s.len(),
        trimmed_start(s) == s.skip(s.len() - trimmed_start(s).len()),
        forall|i: int| 0 <= i < s.len() - trimmed_start(s).len() ==> white_space(#[trigger] s[i]),
        trimmed_start(s).len() > 0 ==> !white_space(trimmed_start(s)[0]),
        is_blank_text(s) <==> forall|i: int| 0 <= i < s.len() ==> white_space(#[trigger] s[i]),
{
    lemma_front_core(s);
    lemma_back_core(s);
    let f = strip_front(s, blank());
    lemma_back_core(f);
    let t = trimmed(s);
    let a = s.len() - f.len();
    let b = a + t.len();
    assert(t =~= s.subrange(a, b));
    assert forall|i: int| b <= i < s.len() implies white_space(#[trigger] s[i]) by {
        assert(f[i - a] == s[i]);
    }
    assert(is_core(s, t, a, b));
    if is_blank_text(s) {
        assert forall|i: int| 0 <= i < s.len() implies white_space(#[trigger] s[i]) by {
            if i >= a {
                assert(i >= b);
            }
        }
    } else {
        assert(t[0] == s[a]);
        assert(!white_space(s[a]));
    }
}

/// The characters that are not white space, in order.
pub open spec fn visible(s: Seq<char>) -> Seq<char>
    decreases s.len(),
{
    if s.len() == 0 {
        Seq::empty()
    } else if white_space(s.last()) {
        visible(s.drop_last())
    } else {
        visible(s.drop_last()).push(s.last())
    }
}

pub proof fn lemma_visible_concat(a: Seq<char>, b: Seq<char>)
    ensures
        visible(a + b) == visible(a) + visible(b),
    decreases b.len(),
{
    if b.len() == 0 {
        assert(a + b =~= a);
        assert(visible(a) + visible(b) =~= visible(a));
    } else {
        lemma_visible_concat(a, b.drop_last());
        assert((a + b).drop_last() =~= a + b.drop_last());
        if !white_space(b.last()) {
            assert((visible(a) + visible(b.drop_last())).push(b.last()) =~= visible(a) + visible(
                b,
            ));
        }
    }
}

pub proof fn lemma_visible_blank(s: Seq<char>)
    requires
        forall|i: int| 0 <= i < s.len() ==> white_space(#[trigger] s[i]),
    ensures
        visible(s) == Seq::<char>::empty(),
    decreases s.len(),
{
    if s.len() > 0 {
        assert(white_space(s[s.len() - 1]));
        assert forall|i: int| 0 <= i < s.drop_last().len() implies white_space(
            #[trigger] s.drop_last()[i],
        ) by {
            assert(s.drop_last()[i] == s[i]);
        }
        lemma_visible_blank(s.drop_last());
    }
}

/// Trimming loses nothing that is seen.
pub proof fn law_trimming_keeps_what_is_seen(s: Seq<char>)
    ensures
        visible(trimmed(s)) == visible(s),
        visible(trimmed_end(s)) == visible(s),
        visible(trimmed_start(s)) == visible(s),
{
    law_trimming_takes_white_space(s);
    let (a, b) = choose|a: int, b: int| is_core(s, trimmed(s), a, b);
    lemma_visible_part(s, a, b);
    lemma_visible_part(s, 0, trimmed_end(s).len() as int);
    assert(s.subrange(0, trimmed_end(s).len() as int) =~= trimmed_end(s));
    let n = s.len() - trimmed_start(s).len();
    lemma_visible_part(s, n, s.len() as int);
    assert(s.subrange(n, s.len() as int) =~= trimmed_start(s));
}

proof fn lemma_visible_part(s: Seq<char>, a: int, b: int)
    requires
        0 <= a <= b <= s.len(),
        forall|i: int| 0 <= i < a ==> white_space(#[trigger] s[i]),
        forall|i: int| b <= i < s.len() ==> white_space(#[trigger] s[i]),
    ensures
        visible(s.subrange(a, b)) == visible(s),
{
    let front = s.take(a);
    let mid = s.subrange(a, b);
    let back = s.skip(b);
    assert(s =~= front + mid + back);
    assert forall|i: int| 0 <= i < front.len() implies white_space(#[trigger] front[i]) by {
        assert(front[i] == s[i]);
    }
    assert forall|i: int| 0 <= i < back.len() implies white_space(#[trigger] back[i]) by {
        assert(back[i] == s[b + i]);
    }
    lemma_visible_blank(front);
    lemma_visible_blank(back);
    lemma_visible_concat(front + mid, back);
    lemma_visible_concat(front, mid);
    assert(visible(s) =~= visible(mid));
}

proof fn lemma_split_plain(s: Seq<char>, c: char)
    requires
        !s.contains(c),
    ensures
        split_on(s, c) == seq![s],
{
    lemma_char_index(s, c);
    if char_index(s, c) < s.len() {
        assert(s.contains(s[char_index(s, c)]));
    }
}

/// Texts that are joined with a character between them come apart at that character into
/// the same texts.
pub proof fn law_joined_texts_come_apart(parts: Seq<Seq<char>>, c: char)
    requires
        parts.len() > 0,
        forall|i: int| 0 <= i < parts.len() ==> !(#[trigger] parts[i]).contains(c),
    ensures
        split_on(joined(parts, seq![c]), c) == parts,
    decreases parts.len(),
{
    if parts.len() == 1 {
        lemma_split_plain(parts[0], c);
        assert(parts =~= seq![parts[0]]);
    } else {
        let front = parts.drop_last();
        assert forall|i: int| 0 <= i < front.len() implies !(#[trigger] front[i]).contains(c) by {
            assert(front[i] == parts[i]);
        }
        law_joined_texts_come_apart(front, c);
        assert(!parts[parts.len() - 1].contains(c));
        lemma_split_plain(parts.last(), c);
        lemma_split_concat(joined(front, seq![c]), parts.last(), c);
        assert(front + seq![parts.last()] =~= parts);
    }
}

/// The length of joined texts is that of the texts and of the separators between them.
pub proof fn law_joined_texts_are_all_there(parts: Seq<Seq<char>>, sep: Seq<char>, x: Seq<char>)
    ensures
        parts.len() > 0 ==> joined(parts.push(x), sep) == joined(parts, sep) + sep + x,
        joined(seq![x], sep) == x,
{
    assert(parts.push(x).drop_last() =~= parts);
}

/// Lower-casing folds the letters `A` to `Z` and keeps every other character.
pub proof fn law_lower_folds_ascii_letters(s: Seq<char>)
    ensures
        lower(s).len() == s.len(),
        forall|i: int|
            0 <= i < s.len() ==> (#[trigger] lower(s)[i]) == if 'A' <= s[i] <= 'Z' {
                (s[i] as u8 + 32) as char
            } else {
                s[i]
            },
        lower(lower(s)) == lower(s),
{
    assert forall|i: int| 0 <= i < s.len() implies lower(lower(s))[i] == lower(s)[i] by {
        if 'A' <= s[i] <= 'Z' {
            assert('a' <= lower(s)[i] <= 'z');
        }
    }
    assert(lower(lower(s)) =~= lower(s));
}

/// The lines of a text lose nothing that is seen.
pub proof fn law_lines_keep_what_is_seen(s: Seq<char>)
    ensures
        visible(joined(lines_of(s), seq!['\n'])) == visible(s),
{
    let parts = split_on(s, '\n');
    lemma_visible_split(s);
    lemma_char_index(s, '\n');
    assert(parts.len() > 0);
    let ended = Seq::new((parts.len() - 1) as nat, |i: int| without_cr(parts[i]));
    let all = ended.push(parts.last());
    assert forall|i: int| 0 <= i < all.len() implies visible(#[trigger] all[i]) == visible(
        parts[i],
    ) by {
        let p = parts[i];
        if i < ended.len() && p.len() > 0 && p.last() == '\r' {
            assert(all[i] == p.drop_last());
        }
    }
    lemma_visible_same(all, parts);
    lemma_visible_joined(lines_of(s));
    if parts.last().len() == 0 {
        assert(all.drop_last() =~= ended);
        assert(visible_all(all) =~= visible_all(ended));
    }
}

/// What is seen of texts, one after another.
pub open spec fn visible_all(parts: Seq<Seq<char>>) -> Seq<char>
    decreases parts.len(),
{
    if parts.len() == 0 {
        Seq::empty()
    } else {
        visible_all(parts.drop_last()) + visible(parts.last())
    }
}

proof fn lemma_visible_same(a: Seq<Seq<char>>, b: Seq<Seq<char>>)
    requires
        a.len() == b.len(),
        forall|i: int| 0 <= i < a.len() ==> visible(#[trigger] a[i]) == visible(b[i]),
    ensures
        visible_all(a) == visible_all(b),
    decreases a.len(),
{
    if a.len() > 0 {
        assert(visible(a[a.len() - 1]) == visible(b[a.len() - 1]));
        assert forall|i: int| 0 <= i < a.drop_last().len() implies visible(
            #[trigger] a.drop_last()[i],
        ) == visible(b.drop_last()[i]) by {
            assert(visible(a[i]) == visible(b[i]));
        }
        lemma_visible_same(a.drop_last(), b.drop_last());
    }
}

pub proof fn lemma_visible_joined(parts: Seq<Seq<char>>)
    ensures
        visible(joined(parts, seq!['\n'])) == visible_all(parts),
    decreases parts.len(),
{
    if parts.len() == 0 {
    } else if parts.len() == 1 {
        assert(visible_all(parts.drop_last()) =~= Seq::<char>::empty());
        assert(visible_all(parts) =~= visible(parts[0]));
    } else {
        lemma_visible_joined(parts.drop_last());
        let front = joined(parts.drop_last(), seq!['\n']);
        lemma_visible_concat(front + seq!['\n'], parts.last());
        lemma_visible_concat(front, seq!['\n']);
        assert forall|i: int| 0 <= i < seq!['\n'].len() implies white_space(
            #[trigger] seq!['\n'][i],
        ) by {}
        lemma_visible_blank(seq!['\n']);
        assert(visible(front + seq!['\n']) =~= visible(front));
    }
}

proof fn lemma_visible_all_concat(a: Seq<Seq<char>>, b: Seq<Seq<char>>)
    ensures
        visible_all(a + b) == visible_all(a) + visible_all(b),
    decreases b.len(),
{
    if b.len() == 0 {
        assert(a + b =~= a);
        assert(visible_all(a) + visible_all(b) =~= visible_all(a));
    } else {
        lemma_visible_all_concat(a, b.drop_last());
        assert((a + b).drop_last() =~= a + b.drop_last());
        assert(visible_all(a + b) =~= visible_all(a) + visible_all(b));
    }
}

proof fn lemma_visible_split(s: Seq<char>)
    ensures
        visible_all(split_on(s, '\n')) == visible(s),
    decreases s.len(),
{
    lemma_char_index(s, '\n');
    let i = char_index(s, '\n');
    if i >= s.len() {
        assert(seq![s].drop_last() =~= Seq::<Seq<char>>::empty());
        assert(visible_all(seq![s].drop_last()) =~= Seq::<char>::empty());
        assert(visible_all(seq![s]) =~= visible(s));
    } else {
        let front = s.take(i);
        let rest = s.skip(i + 1);
        lemma_visible_split(rest);
        lemma_visible_all_concat(seq![front], split_on(rest, '\n'));
        assert(seq![front].drop_last() =~= Seq::<Seq<char>>::empty());
        assert(visible_all(seq![front].drop_last()) =~= Seq::<char>::empty());
        assert(visible_all(seq![front]) =~= visible(front));
        assert(s =~= front.push('\n') + rest);
        lemma_visible_concat(front.push('\n'), rest);
        assert(front.push('\n').drop_last() =~= front);
    }
}

/// Cutting a text at a character and joining the pieces with it gives the text back.
pub proof fn law_split_texts_join_again(s: Seq<char>, c: char)
    ensures
        joined(split_on(s, c), seq![c]) == s,
        split_on(s, c).len() > 0,
        forall|i: int|
            0 <= i < split_on(s, c).len() ==> !(#[trigger] split_on(s, c)[i]).contains(c),
    decreases s.len(),
{
    lemma_char_index(s, c);
    let i = char_index(s, c);
    if i < s.len() {
        let rest = s.skip(i + 1);
        law_split_texts_join_again(rest, c);
        let later = split_on(rest, c);
        lemma_joined_front(s.take(i), later, seq![c]);
        assert(s =~= s.take(i) + seq![c] + rest);
        let all = split_on(s, c);
        assert forall|k: int| 0 <= k < all.len() implies !(#[trigger] all[k]).contains(c) by {
            if k > 0 {
                assert(all[k] == later[k - 1]);
            } else {
                assert(all[k] == s.take(i));
            }
        }
    }
}

proof fn lemma_joined_front(x: Seq<char>, parts: Seq<Seq<char>>, sep: Seq<char>)
    requires
        parts.len() > 0,
    ensures
        joined(seq![x] + parts, sep) == x + sep + joined(parts, sep),
    decreases parts.len(),
{
    let all = seq![x] + parts;
    if parts.len() == 1 {
        assert(all.drop_last() =~= seq![x]);
        assert(joined(seq![x], sep) == x);
        assert(all.last() == parts[0]);
        assert(joined(all, sep) == joined(all.drop_last(), sep) + sep + all.last());
    } else {
        lemma_joined_front(x, parts.drop_last(), sep);
        assert(all.drop_last() =~= seq![x] + parts.drop_last());
        assert(all.last() == parts.last());
        assert(joined(all, sep) == joined(all.drop_last(), sep) + sep + all.last());
        assert(joined(all, sep) =~= x + sep + joined(parts, sep));
    }
}

/// A text is found at the first place at which it stands, and not found only where it
/// stands nowhere.
pub proof fn law_texts_are_found_where_they_stand(s: Seq<char>, p: Seq<char>, i: int)
    requires
        occurs_at(s, p, i),
    ensures
        find_from(s, p, 0) is Some,
        occurs_at(s, p, find_from(s, p, 0)->0),
        find_from(s, p, 0)->0 <= i,
{
    lemma_find_from(s, p, 0);
}

/// Replacing the first place at which a text stands leaves what is before it and after it.
pub proof fn law_replacing_keeps_the_rest(s: Seq<char>, p: Seq<char>, by: Seq<char>)
    ensures
        match find_from(s, p, 0) {
            Some(i) => occurs_at(s, p, i) && replaced_first(s, p, by) == s.take(i) + by + s.skip(
                i + p.len(),
            ),
            None => replaced_first(s, p, by) == s,
        },
{
    lemma_find_from(s, p, 0);
}

/// The number that a row of decimal digits stands for.
pub open spec fn number_of(s: Seq<char>) -> nat
    decreases s.len(),
{
    if s.len() == 0 {
        0
    } else {
        number_of(s.drop_last()) * 10 + (s.last() as nat - '0' as nat) as nat
    }
}

/// The decimal digits of a number stand for that number.
pub proof fn law_digits_stand_for_the_number(n: nat)
    ensures
        number_of(decimal(n)) == n,
        decimal(n).len() > 0,
        forall|i: int| 0 <= i < decimal(n).len() ==> '0' <= #[trigger] decimal(n)[i] <= '9',
        n > 0 ==> decimal(n)[0] != '0',
    decreases n,
{
    reveal_with_fuel(number_of, 2);
    if n >= 10 {
        law_digits_stand_for_the_number(n / 10);
        let d = decimal(n);
        assert(d.drop_last() =~= decimal(n / 10));
        assert(d.last() == digit_char(n % 10));
        assert(d[0] == decimal(n / 10)[0]);
    } else {
        assert(decimal(n).drop_last() =~= Seq::<char>::empty());
    }
}

/// What stands in texts, one after another, without anything between.
pub open spec fn run_together(parts: Seq<Seq<char>>) -> Seq<char>
    decreases parts.len(),
{
    if parts.len() == 0 {
        Seq::empty()
    } else {
        run_together(parts.drop_last()) + parts.last()
    }
}

/// The characters that are no separators, in order.
pub open spec fn kept_letters(s: Seq<char>, separator: spec_fn(char) -> bool) -> Seq<char>
    decreases s.len(),
{
    if s.len() == 0 {
        Seq::empty()
    } else if separator(s.last()) {
        kept_letters(s.drop_last(), separator)
    } else {
        kept_letters(s.drop_last(), separator).push(s.last())
    }
}

/// The words of a text hold every character that is no separator, in order; no word is
/// empty, and none holds a separator.
pub proof fn law_words_hold_every_letter(s: Seq<char>, separator: spec_fn(char) -> bool)
    ensures
        run_together(words_of(s, separator)) == kept_letters(s, separator),
        forall|i: int|
            0 <= i < words_of(s, separator).len() ==> (#[trigger] words_of(s, separator)[i]).len()
                > 0,
        forall|i: int, j: int|
            0 <= i < words_of(s, separator).len() && 0 <= j < words_of(s, separator)[i].len()
                ==> !separator(#[trigger] words_of(s, separator)[i][j]),
        s.len() > 0 && !separator(s.last()) ==> words_of(s, separator).len() > 0,
    decreases s.len(),
{
    if s.len() > 0 {
        let front = s.drop_last();
        let c = s.last();
        law_words_hold_every_letter(front, separator);
        let before = words_of(front, separator);
        let words = words_of(s, separator);
        if separator(c) {
        } else if s.len() > 1 && !separator(s[s.len() - 2]) {
            assert(front.last() == s[s.len() - 2]);
            assert(before.len() > 0);
            assert(words.drop_last() =~= before.drop_last());
            assert(words.last() == before.last().push(c));
            assert(run_together(words) =~= run_together(before).push(c));
            assert forall|i: int, j: int|
                0 <= i < words.len() && 0 <= j < words[i].len() implies !separator(
                #[trigger] words[i][j],
            ) by {
                if i < words.len() - 1 {
                    assert(words[i] == before[i]);
                    assert(!separator(before[i][j]));
                } else if j < before.last().len() {
                    assert(words[i][j] == before[before.len() - 1][j]);
                    assert(!separator(before[before.len() - 1][j]));
                }
            }
            assert forall|i: int| 0 <= i < words.len() implies (#[trigger] words[i]).len() > 0 by {
                if i < words.len() - 1 {
                    assert(words[i] == before[i]);
                }
            }
        } else {
            assert(words.drop_last() =~= before);
            assert(run_together(words) =~= run_together(before).push(c));
            assert forall|i: int, j: int|
                0 <= i < words.len() && 0 <= j < words[i].len() implies !separator(
                #[trigger] words[i][j],
            ) by {
                if i < words.len() - 1 {
                    assert(words[i] == before[i]);
                    assert(!separator(before[i][j]));
                }
            }
            assert forall|i: int| 0 <= i < words.len() implies (#[trigger] words[i]).len() > 0 by {
                if i < words.len() - 1 {
                    assert(words[i] == before[i]);
                }
            }
        }
    }
}

/// Two characters of a text are in one word only where no separator stands between them: a
/// separator ends a word.
pub proof fn law_separators_end_words(
    a: Seq<char>,
    c: char,
    b: Seq<char>,
    separator: spec_fn(char) -> bool,
)
    requires
        separator(c),
    ensures
        words_of(a.push(c) + b, separator) == words_of(a, separator) + words_of(b, separator),
    decreases b.len(),
{
    let s = a.push(c) + b;
    if b.len() == 0 {
        assert(s =~= a.push(c));
        assert(s.drop_last() =~= a);
        assert(words_of(a, separator) + words_of(b, separator) =~= words_of(a, separator));
    } else {
        law_separators_end_words(a, c, b.drop_last(), separator);
        assert(s.drop_last() =~= a.push(c) + b.drop_last());
        let x = b.last();
        let wa = words_of(a, separator);
        let wb = words_of(b.drop_last(), separator);
        law_words_hold_every_letter(b.drop_last(), separator);
        if separator(x) {
        } else if b.len() > 1 && !separator(b[b.len() - 2]) {
            assert(s[s.len() - 2] == b[b.len() - 2]);
            assert(b.drop_last().last() == b[b.len() - 2]);
            assert(wb.len() > 0);
            assert((wa + wb).drop_last() =~= wa + wb.drop_last());
            assert((wa + wb).last() == wb.last());
            assert(words_of(s, separator) =~= wa + words_of(b, separator));
        } else {
            if b.len() > 1 {
                assert(s[s.len() - 2] == b[b.len() - 2]);
            } else {
                assert(s[s.len() - 2] == c);
            }
            assert(words_of(s, separator) =~= wa + words_of(b, separator));
        }
    }
}

/// The last place before `i` at which a text stands is found.
pub proof fn lemma_find_back(s: Seq<char>, p: Seq<char>, i: int)
    ensures
        match find_back(s, p, i) {
            Some(k) => k <= i && occurs_at(s, p, k) && forall|j: int|
                k < j <= i ==> !occurs_at(s, p, j),
            None => forall|j: int| j <= i ==> !occurs_at(s, p, j),
        },
    decreases i + 1,
{
    if i >= 0 && !occurs_at(s, p, i) {
        lemma_find_back(s, p, i - 1);
    }
}

/// A text is cut after as many characters as fit, and none fewer.
pub proof fn law_cuts_keep_what_fits(s: Seq<char>, max: nat)
    ensures
        0 <= fitting(s, max, s.len() as int) <= s.len(),
        utf8_len(s.take(fitting(s, max, s.len() as int))) <= max,
        fitting(s, max, s.len() as int) < s.len() ==> utf8_len(
            s.take(fitting(s, max, s.len() as int) + 1),
        ) > max,
{
    lemma_fitting_end(s, max, s.len() as int);
}

proof fn lemma_fitting_end(s: Seq<char>, max: nat, n: int)
    requires
        0 <= n <= s.len(),
        n < s.len() ==> utf8_len(s.take(n + 1)) > max,
    ensures
        0 <= fitting(s, max, n) <= n,
        utf8_len(s.take(fitting(s, max, n))) <= max,
        fitting(s, max, n) < s.len() ==> utf8_len(s.take(fitting(s, max, n) + 1)) > max,
    decreases n,
{
    if n > 0 && utf8_len(s.take(n)) > max {
        lemma_fitting_end(s, max, n - 1);
    } else if n == 0 {
        assert(s.take(0) =~= Seq::<char>::empty());
        lemma_utf8_len_empty();
    }
}

proof fn lemma_utf8_len_empty()
    ensures
        utf8_len(Seq::<char>::empty()) == 0,
{
}

/// Where a text stands once, it is counted once; and only there.
pub proof fn law_one_place_is_counted_once(s: Seq<char>, p: Seq<char>)
    requires
        p.len() > 0,
    ensures
        count_from(s, p, 0) == 0 <==> !has_infix(s, p),
        count_from(s, p, 0) == 1 <==> exists|i: int|
            #[trigger] occurs_at(s, p, i) && (forall|j: int| j < i ==> !occurs_at(s, p, j)) && (
            forall|j: int| i + p.len() <= j ==> !occurs_at(s, p, j)),
{
    reveal_with_fuel(count_from, 2);
    lemma_find_from(s, p, 0);
    match find_from(s, p, 0) {
        Some(i) => {
            lemma_find_from(s, p, i + p.len());
            assert(occurs_at(s, p, i));
            if count_from(s, p, 0) == 1 {
                assert(count_from(s, p, i + p.len()) == 0);
                assert(find_from(s, p, i + p.len()) is None);
            } else {
                assert(find_from(s, p, i + p.len()) is Some);
                let k = find_from(s, p, i + p.len())->0;
                assert(occurs_at(s, p, k));
            }
        },
        None => {},
    }
}

/// White space around a text that neither begins nor ends with any is what trimming takes.
pub proof fn law_trimming_finds_the_core(a: Seq<char>, core: Seq<char>, b: Seq<char>)
    requires
        forall|i: int| 0 <= i < a.len() ==> white_space(#[trigger] a[i]),
        forall|i: int| 0 <= i < b.len() ==> white_space(#[trigger] b[i]),
        core.len() > 0,
        !white_space(core[0]),
        !white_space(core.last()),
    ensures
        trimmed(a + core + b) == core,
        trimmed_end(core + b) == core,
{
    let s = a + core + b;
    lemma_front_core(s);
    let f = strip_front(s, blank());
    let n = s.len() - f.len();
    assert(s[a.len() as int] == core[0]);
    assert(n <= a.len());
    if n < a.len() {
        assert(f[0] == s[n]);
        assert(s[n] == a[n]);
    }
    assert(f =~= core + b);
    lemma_back_core(f);
    let t = strip_back(f, blank());
    let k = core.len() as int;
    assert(f[k - 1] == core.last());
    assert(t.len() >= k);
    if t.len() > k {
        assert(t.last() == f[t.len() - 1]);
        assert(f[t.len() - 1] == b[t.len() - 1 - k]);
    }
    assert(t =~= core);
}

/// The first characters of a text are its beginning: all of it where it is not longer.
pub proof fn law_first_characters_are_the_beginning(s: Seq<char>, n: int)
    requires
        n >= 0,
    ensures
        s.len() <= n ==> first_chars(s, n) == s,
        s.len() > n ==> first_chars(s, n) == s.take(n),
{
    if s.len() <= n {
        assert(first_chars(s, n) =~= s);
    } else {
        assert(first_chars(s, n) =~= s.take(n));
    }
}

/// A prefix is taken off where it is there; a text comes apart at the first place where
/// the separator stands, and nowhere where it does not.
pub proof fn law_texts_come_apart(a: Seq<char>, sep: Seq<char>, b: Seq<char>)
    requires
        sep.len() > 0,
        forall|j: int| 0 <= j < a.len() ==> !occurs_at(a + sep + b, sep, j),
    ensures
        without_prefix(a + b, a) == Some(b),
        split_at_first(a + sep + b, sep) == Some((a, b)),
        !has_infix(b, sep) ==> split_at_first(b, sep) is None,
{
    let ab = a + b;
    assert(ab.subrange(0, a.len() as int) =~= a);
    assert(ab.skip(a.len() as int) =~= b);
    let s = a + sep + b;
    let n = a.len() as int;
    assert(s.subrange(n, n + sep.len()) =~= sep);
    assert(occurs_at(s, sep, n));
    lemma_find_from(s, sep, 0);
    assert(find_from(s, sep, 0) == Some(n));
    assert(s.take(n) =~= a);
    assert(s.subrange(0, n) =~= a);
    assert(s.skip(n + sep.len()) =~= b);
    lemma_find_from(b, sep, 0);
}

/// Upper-casing folds the letters `a` to `z` and keeps every other character.
pub proof fn law_upper_folds_ascii_letters(s: Seq<char>)
    ensures
        upper(s).len() == s.len(),
        forall|i: int|
            0 <= i < s.len() ==> (#[trigger] upper(s)[i]) == if 'a' <= s[i] <= 'z' {
                (s[i] as u8 - 32) as char
            } else {
                s[i]
            },
{
}

/// The number that a row of hexadecimal digits stands for.
pub open spec fn hex_number_of(s: Seq<char>) -> nat
    decreases s.len(),
{
    if s.len() == 0 {
        0
    } else {
        let c = s.last();
        hex_number_of(s.drop_last()) * 16 + if '0' <= c <= '9' {
            (c as nat - '0' as nat) as nat
        } else {
            (c as nat - 'a' as nat + 10) as nat
        }
    }
}

/// The hexadecimal digits of a number stand for that number.
pub proof fn law_hexadecimal_digits_stand_for_the_number(n: nat)
    ensures
        hex_number_of(hexadecimal(n)) == n,
        hexadecimal(n).len() > 0,
    decreases n,
{
    reveal_with_fuel(hex_number_of, 2);
    if n >= 16 {
        law_hexadecimal_digits_stand_for_the_number(n / 16);
        let d = hexadecimal(n);
        assert(d.drop_last() =~= hexadecimal(n / 16));
        assert(d.last() == hex_char(n % 16));
    } else {
        assert(hexadecimal(n).drop_last() =~= Seq::<char>::empty());
    }
}

} // verus!
