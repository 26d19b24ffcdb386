//! Cutting documents into chunks.
//!
//! A document is cut along its lines into chunks of a token budget; in markdown
//! a heading starts a new section. Tokens are estimated: each CJK character
//! counts as one token, four other characters count as one. The estimate is
//! only used for sizing. Positions are character positions, so that a citation
//! points at the same place whatever the script.

use vstd::prelude::*;

use crate::text::{
    chars_of, concat3, copy_opt, copy_str, is_blank, is_white_space, join, opt_text_eq, split_char,
    string_of_range, trim, trim_end_set, trim_start,
};
use crate::text::{
    among, char_index, has_suffix, is_blank_text, joined, lemma_char_index, opt_text, split_on, strings,
    strip_back, trimmed, trimmed_start, white_space,
};

verus! {

pub const TARGET_TOKENS: usize = 480;

pub const OVERLAP_TOKENS: usize = 64;

pub const MIN_TOKENS: usize = 80;

/// One chunk of a document.
#[derive(Debug)]
pub struct ChunkPiece {
    pub text: String,
    pub char_start: usize,
    pub char_end: usize,
    pub heading_path: Option<String>,
}

/// The value of a chunk.
#[verifier::ext_equal]
pub struct PieceView {
    pub text: Seq<char>,
    pub start: int,
    pub end: int,
    pub heading: Option<Seq<char>>,
}

impl View for ChunkPiece {
    type V = PieceView;

    open spec fn view(&self) -> PieceView {
        PieceView {
            text: self.text@,
            start: self.char_start as int,
            end: self.char_end as int,
            heading: opt_text(self.heading_path),
        }
    }
}

/// The values of the chunks, in order.
pub open spec fn piece_views(pieces: Seq<ChunkPiece>) -> Seq<PieceView> {
    Seq::new(pieces.len(), |i: int| pieces[i]@)
}

// ---------------------------------------------------------------------
// Tokens
// ---------------------------------------------------------------------

/// Chinese, Japanese and Korean characters, their punctuation and full-width forms.
pub open spec fn cjk(c: char) -> bool {
    ||| '\u{4E00}' <= c <= '\u{9FFF}'
    ||| '\u{3400}' <= c <= '\u{4DBF}'
    ||| '\u{3040}' <= c <= '\u{30FF}'
    ||| '\u{AC00}' <= c <= '\u{D7AF}'
    ||| '\u{F900}' <= c <= '\u{FAFF}'
    ||| '\u{3000}' <= c <= '\u{303F}'
    ||| '\u{FF00}' <= c <= '\u{FFEF}'
}

/// Whether `ch` is a CJK character.
pub fn is_cjk(ch: char) -> (r: bool)
    ensures
        r == cjk(ch),
{
    ('\u{4E00}' <= ch && ch <= '\u{9FFF}') || ('\u{3400}' <= ch && ch <= '\u{4DBF}') || ('\u{3040}'
        <= ch && ch <= '\u{30FF}') || ('\u{AC00}' <= ch && ch <= '\u{D7AF}') || ('\u{F900}' <= ch
        && ch <= '\u{FAFF}') || ('\u{3000}' <= ch && ch <= '\u{303F}') || ('\u{FF00}' <= ch && ch
        <= '\u{FFEF}')
}

/// How many CJK characters `s` holds, white space left out.
pub open spec fn cjk_count(s: Seq<char>) -> nat
    decreases s.len(),
{
    if s.len() == 0 {
        0
    } else {
        cjk_count(s.drop_last()) + if !white_space(s.last()) && cjk(s.last()) {
            1nat
        } else {
            0nat
        }
    }
}

/// How many characters of `s` are neither CJK nor white space.
pub open spec fn other_count(s: Seq<char>) -> nat
    decreases s.len(),
{
    if s.len() == 0 {
        0
    } else {
        other_count(s.drop_last()) + if !white_space(s.last()) && !cjk(s.last()) {
            1nat
        } else {
            0nat
        }
    }
}

/// The estimate of the tokens of `s`: one for a CJK character, one for every
/// four others, rounded up.
pub open spec fn tokens(s: Seq<char>) -> nat {
    cjk_count(s) + (other_count(s) + 3) / 4
}

/// A text has no more tokens than characters.
pub proof fn lemma_tokens_at_most_chars(s: Seq<char>)
    ensures
        cjk_count(s) + other_count(s) <= s.len(),
        tokens(s) <= s.len(),
    decreases s.len(),
{
    if s.len() > 0 {
        lemma_tokens_at_most_chars(s.drop_last());
    }
}

/// One more character makes at most one more token.
pub proof fn lemma_tokens_push(s: Seq<char>, c: char)
    ensures
        tokens(s) <= tokens(s.push(c)) <= tokens(s) + 1,
{
    assert(s.push(c).drop_last() == s);
}

/// The estimate of the tokens of a range of characters.
fn tokens_of_range(v: &[char], start: usize, end: usize) -> (r: usize)
    requires
        start <= end <= v@.len(),
    ensures
        r == tokens(v@.subrange(start as int, end as int)),
{
    let mut cjk_seen: usize = 0;
    let mut other_seen: usize = 0;
    let mut i: usize = start;
    while i < end
        invariant
            start <= i <= end <= v@.len(),
            cjk_seen == cjk_count(v@.subrange(start as int, i as int)),
            other_seen == other_count(v@.subrange(start as int, i as int)),
            cjk_seen + other_seen <= i - start,
        decreases end - i,
    {
        assert(v@.subrange(start as int, i + 1).drop_last() == v@.subrange(start as int, i as int));
        if !is_white_space(v[i]) {
            if is_cjk(v[i]) {
                cjk_seen += 1;
            } else {
                other_seen += 1;
            }
        }
        i += 1;
    }
    let quarter: usize = other_seen / 4;
    let rounded: usize = if other_seen % 4 == 0 {
        quarter
    } else {
        quarter + 1
    };
    cjk_seen + rounded
}

/// A cheap estimate of the tokens of `text`.
pub fn estimate_tokens(text: &str) -> (r: usize)
    ensures
        r == tokens(text@),
{
    let v = chars_of(text);
    assert(v@.subrange(0, v@.len() as int) == v@);
    tokens_of_range(v.as_slice(), 0, v.len())
}

// ---------------------------------------------------------------------
// Headings
// ---------------------------------------------------------------------

/// How many `#` stand at the front of `s`.
pub open spec fn leading_hashes(s: Seq<char>) -> nat
    decreases s.len(),
{
    if s.len() > 0 && s[0] == '#' {
        1 + leading_hashes(s.drop_first())
    } else {
        0
    }
}

/// The level and the title of a markdown heading: one to six `#` after optional
/// white space, then white space, then a title.
pub open spec fn heading_of(line: Seq<char>) -> Option<(nat, Seq<char>)> {
    let t = trimmed_start(line);
    let level = leading_hashes(t);
    let rest = t.skip(level as int);
    if 1 <= level <= 6 && !is_blank_text(rest) && white_space(rest[0]) {
        Some((level, trimmed(rest)))
    } else {
        None
    }
}

/// `leading_hashes` is the length of the longest prefix of `#`.
proof fn lemma_leading_hashes(s: Seq<char>, n: int)
    requires
        0 <= n <= s.len(),
        forall|j: int| 0 <= j < n ==> s[j] == '#',
        n < s.len() ==> s[n] != '#',
    ensures
        leading_hashes(s) == n,
    decreases s.len(),
{
    if n > 0 {
        lemma_leading_hashes(s.drop_first(), n - 1);
    }
}

/// The level and the title of a markdown heading line.
pub fn parse_heading(line: &str) -> (r: Option<(usize, String)>)
    ensures
        match r {
            Some((level, title)) => heading_of(line@) == Some((level as nat, title@)),
            None => heading_of(line@) is None,
        },
{
    let trimmed_line = trim_start(line);
    let v = chars_of(trimmed_line.as_str());
    let mut hashes: usize = 0;
    while hashes < v.len() && v[hashes] == '#'
        invariant
            hashes <= v@.len(),
            forall|j: int| 0 <= j < hashes ==> v@[j] == '#',
        decreases v@.len() - hashes,
    {
        hashes += 1;
    }
    proof {
        lemma_leading_hashes(v@, hashes as int);
        assert(v@.skip(hashes as int) == v@.subrange(hashes as int, v@.len() as int));
    }
    if hashes == 0 || hashes > 6 {
        return None;
    }
    let rest = string_of_range(v.as_slice(), hashes, v.len());
    let title = trim(rest.as_str());
    if title.as_str().is_empty() {
        return None;
    }
    if hashes == v.len() {
        assert(rest@.len() == 0);
        assert(trimmed(rest@).len() == 0);
        return None;
    }
    if !is_white_space(v[hashes]) {
        return None;
    }
    Some((hashes, title))
}

/// The titles of the open sections, outermost first.
pub open spec fn titles(stack: Seq<(usize, String)>) -> Seq<Seq<char>> {
    Seq::new(stack.len(), |i: int| stack[i].1@)
}

/// The open sections over values.
pub open spec fn stack_view(stack: Seq<(usize, String)>) -> Seq<(nat, Seq<char>)> {
    Seq::new(stack.len(), |i: int| (stack[i].0 as nat, stack[i].1@))
}

/// The titles of the open sections joined by ` > `; nothing outside any section.
pub open spec fn path_of(stack: Seq<(nat, Seq<char>)>) -> Option<Seq<char>> {
    if stack.len() == 0 {
        None
    } else {
        Some(joined(Seq::new(stack.len(), |i: int| stack[i].1), " > "@))
    }
}

/// The titles of the open sections joined by ` > `.
pub fn heading_path(stack: &Vec<(usize, String)>) -> (r: Option<String>)
    ensures
        opt_text(r) == path_of(stack_view(stack@)),
{
    if stack.len() == 0 {
        return None;
    }
    let mut parts: Vec<String> = Vec::new();
    let mut i: usize = 0;
    while i < stack.len()
        invariant
            i <= stack@.len(),
            parts@.len() == i,
            forall|j: int| 0 <= j < i ==> parts@[j]@ == #[trigger] stack@[j].1@,
        decreases stack@.len() - i,
    {
        parts.push(stack[i].1.clone());
        i += 1;
    }
    proof {
        let v = stack_view(stack@);
        assert(strings(parts@) == Seq::new(v.len(), |i: int| v[i].1));
    }
    Some(join(&parts, " > "))
}

/// The open sections of a level below `level`.
pub open spec fn shallower(stack: Seq<(nat, Seq<char>)>, level: nat) -> Seq<(nat, Seq<char>)>
    decreases stack.len(),
{
    if stack.len() == 0 {
        stack
    } else {
        let rest = shallower(stack.drop_last(), level);
        if stack.last().0 < level {
            rest.push(stack.last())
        } else {
            rest
        }
    }
}

/// Keeps the open sections of a level below `level`.
fn keep_shallower(stack: &Vec<(usize, String)>, level: usize) -> (r: Vec<(usize, String)>)
    ensures
        stack_view(r@) == shallower(stack_view(stack@), level as nat),
{
    let mut out: Vec<(usize, String)> = Vec::new();
    let ghost all = stack_view(stack@);
    let mut i: usize = 0;
    while i < stack.len()
        invariant
            i <= stack@.len(),
            all == stack_view(stack@),
            stack_view(out@) == shallower(all.take(i as int), level as nat),
        decreases stack@.len() - i,
    {
        let ghost before = out@;
        assert(all.take(i + 1).drop_last() == all.take(i as int));
        if stack[i].0 < level {
            out.push((stack[i].0, stack[i].1.clone()));
            assert(stack_view(out@) == stack_view(before).push(all[i as int]));
        }
        i += 1;
    }
    assert(all.take(all.len() as int) == all);
    out
}

// ---------------------------------------------------------------------
// Lines
// ---------------------------------------------------------------------

/// A line that waits to become part of a chunk.
pub struct BufferedLine {
    pub text: String,
    pub start: usize,
    pub end: usize,
    pub tokens: usize,
}

/// A line with the positions of its content in the document.
#[verifier::ext_equal]
pub struct LineView {
    pub text: Seq<char>,
    pub start: int,
    pub end: int,
}

impl View for BufferedLine {
    type V = LineView;

    open spec fn view(&self) -> LineView {
        LineView { text: self.text@, start: self.start as int, end: self.end as int }
    }
}

/// The values of the waiting lines, in order.
pub open spec fn line_views(buf: Seq<BufferedLine>) -> Seq<LineView> {
    Seq::new(buf.len(), |i: int| buf[i]@)
}

/// Each waiting line carries the estimate of its tokens.
pub open spec fn counted(buf: Seq<BufferedLine>) -> bool {
    forall|i: int| 0 <= i < buf.len() ==> #[trigger] buf[i].tokens == tokens(buf[i].text@)
}

/// The tokens of the waiting lines together.
pub open spec fn buf_tokens(buf: Seq<LineView>) -> nat
    decreases buf.len(),
{
    if buf.len() == 0 {
        0
    } else {
        buf_tokens(buf.drop_last()) + tokens(buf.last().text)
    }
}

/// The texts of the waiting lines.
pub open spec fn line_texts(buf: Seq<LineView>) -> Seq<Seq<char>> {
    Seq::new(buf.len(), |i: int| buf[i].text)
}

/// The greatest `s <= from` such that the lines from `s` on reach `overlap`
/// tokens, or 0 where they never do.
pub open spec fn overlap_start(buf: Seq<LineView>, overlap: nat, from: int) -> int
    decreases from,
{
    if from <= 0 || buf_tokens(buf.skip(from)) >= overlap {
        from
    } else {
        overlap_start(buf, overlap, from - 1)
    }
}

/// The waiting lines that lead into the next chunk: the last ones that reach
/// `overlap` tokens, but never all of several lines.
pub open spec fn carried(buf: Seq<LineView>, overlap: nat) -> Seq<LineView> {
    let s = overlap_start(buf, overlap, buf.len() as int);
    if s == 0 && buf.len() > 1 {
        buf.skip(1)
    } else {
        buf.skip(s)
    }
}

proof fn lemma_overlap_start(buf: Seq<LineView>, overlap: nat, from: int)
    requires
        0 <= from <= buf.len(),
    ensures
        0 <= overlap_start(buf, overlap, from) <= from,
    decreases from,
{
    if from > 0 && buf_tokens(buf.skip(from)) < overlap {
        lemma_overlap_start(buf, overlap, from - 1);
    }
}

/// Splitting off the first line splits off its tokens.
proof fn lemma_buf_tokens_first(buf: Seq<LineView>)
    requires
        buf.len() > 0,
    ensures
        buf_tokens(buf) == tokens(buf[0].text) + buf_tokens(buf.drop_first()),
    decreases buf.len(),
{
    if buf.len() == 1 {
        assert(buf.drop_last() == Seq::<LineView>::empty());
        assert(buf.drop_first() == Seq::<LineView>::empty());
    } else {
        lemma_buf_tokens_first(buf.drop_last());
        assert(buf.drop_last().drop_first() == buf.drop_first().drop_last());
    }
}

proof fn lemma_buf_tokens_skip(buf: Seq<LineView>, s: int)
    requires
        0 <= s <= buf.len(),
    ensures
        buf_tokens(buf.skip(s)) <= buf_tokens(buf),
    decreases s,
{
    if s == 0 {
        assert(buf.skip(0) == buf);
    } else {
        lemma_buf_tokens_skip(buf, s - 1);
        lemma_buf_tokens_first(buf.skip(s - 1));
        assert(buf.skip(s - 1).drop_first() == buf.skip(s));
    }
}

proof fn lemma_carried_tokens(buf: Seq<LineView>, overlap: nat)
    ensures
        buf_tokens(carried(buf, overlap)) <= buf_tokens(buf),
{
    lemma_overlap_start(buf, overlap, buf.len() as int);
    lemma_buf_tokens_skip(buf, overlap_start(buf, overlap, buf.len() as int));
    if buf.len() > 1 {
        lemma_buf_tokens_skip(buf, 1);
    }
}

/// The waiting lines that lead into the next chunk, in order.
pub fn take_overlap(buf: &Vec<BufferedLine>, overlap: usize) -> (r: Vec<BufferedLine>)
    requires
        counted(buf@),
        buf_tokens(line_views(buf@)) <= usize::MAX,
    ensures
        line_views(r@) == carried(line_views(buf@), overlap as nat),
        counted(r@),
{
    let ghost all = line_views(buf@);
    let mut acc: usize = 0;
    let mut start: usize = buf.len();
    assert(all.skip(start as int) == Seq::<LineView>::empty());
    while start > 0 && acc < overlap
        invariant
            start <= buf@.len(),
            all == line_views(buf@),
            counted(buf@),
            buf_tokens(all) <= usize::MAX,
            acc == buf_tokens(all.skip(start as int)),
            overlap_start(all, overlap as nat, all.len() as int) == overlap_start(
                all,
                overlap as nat,
                start as int,
            ),
        decreases start,
    {
        proof {
            lemma_buf_tokens_first(all.skip(start - 1));
            assert(all.skip(start - 1).drop_first() == all.skip(start as int));
            lemma_buf_tokens_skip(all, start - 1);
            assert(all[start - 1].text == buf@[start - 1].text@);
        }
        start -= 1;
        acc += buf[start].tokens;
    }
    if start == 0 && buf.len() > 1 {
        start = 1;
    }
    let mut out: Vec<BufferedLine> = Vec::new();
    let mut i: usize = start;
    while i < buf.len()
        invariant
            start <= i <= buf@.len(),
            all == line_views(buf@),
            counted(buf@),
            counted(out@),
            line_views(out@) == all.subrange(start as int, i as int),
        decreases buf@.len() - i,
    {
        let ghost before = out@;
        out.push(
            BufferedLine {
                text: buf[i].text.clone(),
                start: buf[i].start,
                end: buf[i].end,
                tokens: buf[i].tokens,
            },
        );
        assert(line_views(out@) == line_views(before).push(all[i as int]));
        i += 1;
    }
    assert(all.skip(start as int) == all.subrange(start as int, all.len() as int));
    out
}

/// The tokens of the waiting lines together.
fn total_tokens(buf: &Vec<BufferedLine>) -> (r: usize)
    requires
        counted(buf@),
        buf_tokens(line_views(buf@)) <= usize::MAX,
    ensures
        r == buf_tokens(line_views(buf@)),
{
    let ghost all = line_views(buf@);
    let mut acc: usize = 0;
    let mut i: usize = buf.len();
    assert(all.skip(i as int) == Seq::<LineView>::empty());
    while i > 0
        invariant
            i <= buf@.len(),
            all == line_views(buf@),
            counted(buf@),
            buf_tokens(all) <= usize::MAX,
            acc == buf_tokens(all.skip(i as int)),
        decreases i,
    {
        proof {
            lemma_buf_tokens_first(all.skip(i - 1));
            assert(all.skip(i - 1).drop_first() == all.skip(i as int));
            lemma_buf_tokens_skip(all, i - 1);
            assert(all[i - 1].text == buf@[i - 1].text@);
        }
        i -= 1;
        acc += buf[i].tokens;
    }
    assert(all.skip(0) == all);
    acc
}

/// Characters after which an over-long line is cut by preference.
pub open spec fn sentence_end(c: char) -> bool {
    c == '。' || c == '！' || c == '？' || c == '；' || c == '.' || c == '!' || c == '?' || c == ';' || c
        == '\n'
}

fn is_sentence_end(c: char) -> (r: bool)
    ensures
        r == sentence_end(c),
{
    c == '。' || c == '！' || c == '？' || c == '；' || c == '.' || c == '!' || c == '?' || c == ';' || c
        == '\n'
}

/// The window from `start` to `i` is full: it reaches the budget, or half of it
/// at the end of a sentence.
pub open spec fn window_full(s: Seq<char>, start: int, i: int, target: nat) -> bool {
    let n = tokens(s.subrange(start, i + 1));
    n >= target || (sentence_end(s[i]) && n >= target / 2)
}

/// The first position from `i` on at which the window from `start` is full, or
/// the end of the line.
pub open spec fn window_end(s: Seq<char>, start: int, i: int, target: nat) -> int
    decreases s.len() - i,
{
    if i >= s.len() || window_full(s, start, i, target) {
        i
    } else {
        window_end(s, start, i + 1, target)
    }
}

proof fn lemma_window_end(s: Seq<char>, start: int, i: int, target: nat)
    requires
        0 <= start <= i <= s.len(),
    ensures
        i <= window_end(s, start, i, target) <= s.len(),
        window_end(s, start, i, target) < s.len() ==> window_full(
            s,
            start,
            window_end(s, start, i, target),
            target,
        ),
        forall|j: int|
            i <= j < window_end(s, start, i, target) ==> !window_full(s, start, j, target),
    decreases s.len() - i,
{
    if i < s.len() && !window_full(s, start, i, target) {
        lemma_window_end(s, start, i + 1, target);
    }
}

/// The windows into which the line `s` is cut from `start` on, each with its
/// positions in the document; the line stands at `base`.
pub open spec fn windows(s: Seq<char>, start: int, base: int, target: nat) -> Seq<LineView>
    decreases s.len() - start,
    via windows_decreases
{
    if start < 0 || start >= s.len() {
        Seq::empty()
    } else {
        let e = window_end(s, start, start, target);
        if e >= s.len() {
            seq![
                LineView {
                    text: s.subrange(start, s.len() as int),
                    start: base + start,
                    end: base + s.len(),
                },
            ]
        } else {
            seq![
                LineView {
                    text: s.subrange(start, e + 1),
                    start: base + start,
                    end: base + e + 1,
                },
            ] + windows(s, e + 1, base, target)
        }
    }
}

#[via_fn]
proof fn windows_decreases(s: Seq<char>, start: int, base: int, target: nat) {
    if 0 <= start < s.len() {
        lemma_window_end(s, start, start, target);
    }
}

/// The values of the windows.
pub open spec fn window_views(v: Seq<(String, usize, usize)>) -> Seq<LineView> {
    Seq::new(
        v.len(),
        |i: int| LineView { text: v[i].0@, start: v[i].1 as int, end: v[i].2 as int },
    )
}

/// Cuts one over-long line into windows of the budget, by preference after the
/// end of a sentence. `base` is the position of the line in the document.
pub fn split_long_line(line: &str, base: usize, target: usize) -> (r: Vec<(String, usize, usize)>)
    requires
        base + line@.len() <= usize::MAX,
    ensures
        window_views(r@) == windows(line@, 0, base as int, target as nat),
{
    let chars = chars_of(line);
    let mut out: Vec<(String, usize, usize)> = Vec::new();
    let mut start: usize = 0;
    let mut i: usize = 0;
    while i < chars.len()
        invariant
            start <= i <= chars@.len(),
            chars@ == line@,
            base + line@.len() <= usize::MAX,
            start < chars@.len() ==> window_end(
                chars@,
                start as int,
                start as int,
                target as nat,
            ) == window_end(chars@, start as int, i as int, target as nat),
            window_views(out@) + windows(chars@, start as int, base as int, target as nat)
                == windows(chars@, 0, base as int, target as nat),
        decreases chars@.len() - i,
    {
        let piece_tokens: usize = tokens_of_range(chars.as_slice(), start, i + 1);
        if (is_sentence_end(chars[i]) && piece_tokens >= target / 2) || piece_tokens >= target {
            let ghost before = out@;
            let ghost tail = windows(chars@, i + 1, base as int, target as nat);
            out.push((string_of_range(chars.as_slice(), start, i + 1), base + start, base + i + 1));
            proof {
                let w = LineView {
                    text: chars@.subrange(start as int, i + 1),
                    start: base + start,
                    end: base + i + 1,
                };
                assert(window_views(out@) == window_views(before).push(w));
                assert(window_views(before) + (seq![w] + tail) == window_views(out@) + tail);
            }
            start = i + 1;
        }
        i += 1;
    }
    if start < chars.len() {
        let ghost before = out@;
        out.push(
            (
                string_of_range(chars.as_slice(), start, chars.len()),
                base + start,
                base + chars.len(),
            ),
        );
        assert(window_views(out@) == window_views(before) + windows(
            chars@,
            start as int,
            base as int,
            target as nat,
        ));
    }
    out
}

// ---------------------------------------------------------------------
// Chunks
// ---------------------------------------------------------------------

/// What cutting has produced after some lines.
#[verifier::ext_equal]
pub struct ChunkState {
    /// The finished chunks.
    pub pieces: Seq<PieceView>,
    /// The open sections: level and title, outermost first.
    pub stack: Seq<(nat, Seq<char>)>,
    /// The lines that wait for the next chunk.
    pub buf: Seq<LineView>,
    /// The position at which the next line starts.
    pub offset: int,
}

/// The content of a line, without carriage returns at its end.
pub open spec fn content_of(line: Seq<char>) -> Seq<char> {
    strip_back(line, among(seq!['\r']))
}

/// The heading that a line is, where headings count.
pub open spec fn heading_in(markdown: bool, content: Seq<char>) -> Option<(nat, Seq<char>)> {
    if markdown {
        heading_of(content)
    } else {
        None
    }
}

/// A body under its heading path.
pub open spec fn under_heading(heading: Option<Seq<char>>, body: Seq<char>) -> Seq<char> {
    match heading {
        Some(h) => h + "\n"@ + body,
        None => body,
    }
}

/// The chunks after the waiting lines have become one.
pub open spec fn flushed(
    pieces: Seq<PieceView>,
    buf: Seq<LineView>,
    heading: Option<Seq<char>>,
) -> Seq<PieceView> {
    if buf.len() == 0 {
        pieces
    } else {
        pieces.push(
            PieceView {
                text: under_heading(heading, joined(line_texts(buf), "\n"@)),
                start: buf[0].start,
                end: buf.last().end,
                heading,
            },
        )
    }
}

/// The chunks that the windows of an over-long line make.
pub open spec fn window_pieces(ws: Seq<LineView>, heading: Option<Seq<char>>) -> Seq<PieceView> {
    Seq::new(
        ws.len(),
        |i: int|
            PieceView {
                text: under_heading(heading, ws[i].text),
                start: ws[i].start,
                end: ws[i].end,
                heading,
            },
    )
}

/// One line more: a heading opens a section, a blank line is passed over, an
/// over-long line is cut into windows, and any other line joins the waiting
/// ones, which become a chunk first where the line would exceed the budget.
pub open spec fn chunk_step(
    st: ChunkState,
    line: Seq<char>,
    markdown: bool,
    target: nat,
    overlap: nat,
) -> ChunkState {
    let content = content_of(line);
    let here = LineView { text: content, start: st.offset, end: st.offset + content.len() };
    let offset = st.offset + line.len() + 1;
    let heading = path_of(st.stack);
    let pieces = flushed(st.pieces, st.buf, heading);
    match heading_in(markdown, content) {
        Some((level, title)) => ChunkState {
            pieces,
            stack: shallower(st.stack, level).push((level, title)),
            buf: Seq::empty(),
            offset,
        },
        None => if is_blank_text(content) {
            ChunkState { pieces: st.pieces, stack: st.stack, buf: st.buf, offset }
        } else if tokens(content) > target {
            ChunkState {
                pieces: pieces + window_pieces(windows(content, 0, st.offset, target), heading),
                stack: st.stack,
                buf: Seq::empty(),
                offset,
            }
        } else if st.buf.len() > 0 && buf_tokens(st.buf) + tokens(content) > target {
            ChunkState {
                pieces,
                stack: st.stack,
                buf: carried(st.buf, overlap).push(here),
                offset,
            }
        } else {
            ChunkState { pieces: st.pieces, stack: st.stack, buf: st.buf.push(here), offset }
        },
    }
}

/// Line after line, from the first.
pub open spec fn chunk_lines(
    lines: Seq<Seq<char>>,
    markdown: bool,
    target: nat,
    overlap: nat,
) -> ChunkState
    decreases lines.len(),
{
    if lines.len() == 0 {
        ChunkState { pieces: Seq::empty(), stack: Seq::empty(), buf: Seq::empty(), offset: 0 }
    } else {
        chunk_step(
            chunk_lines(lines.drop_last(), markdown, target, overlap),
            lines.last(),
            markdown,
            target,
            overlap,
        )
    }
}

/// A last chunk of fewer than `min_tokens` tokens joins the one before it where
/// both stand under the same heading.
pub open spec fn tail_merged(pieces: Seq<PieceView>, min_tokens: nat) -> Seq<PieceView> {
    if pieces.len() < 2 || tokens(pieces.last().text) >= min_tokens {
        pieces
    } else {
        let last = pieces.last();
        let prev = pieces[pieces.len() - 2];
        if prev.heading == last.heading {
            pieces.drop_last().drop_last().push(
                PieceView {
                    text: prev.text.push('\n') + last.text,
                    start: prev.start,
                    end: last.end,
                    heading: prev.heading,
                },
            )
        } else {
            pieces
        }
    }
}

/// The chunks of a document.
pub open spec fn chunks_of(
    text: Seq<char>,
    markdown: bool,
    target: nat,
    overlap: nat,
    min_tokens: nat,
) -> Seq<PieceView> {
    let st = chunk_lines(split_on(text, '\n'), markdown, target, overlap);
    tail_merged(flushed(st.pieces, st.buf, path_of(st.stack)), min_tokens)
}

/// The characters that the lines take up, each with the break after it.
pub open spec fn span(lines: Seq<Seq<char>>) -> nat
    decreases lines.len(),
{
    if lines.len() == 0 {
        0
    } else {
        span(lines.drop_last()) + lines.last().len() + 1
    }
}

proof fn lemma_span_concat(a: Seq<Seq<char>>, b: Seq<Seq<char>>)
    ensures
        span(a + b) == span(a) + span(b),
    decreases b.len(),
{
    if b.len() == 0 {
        assert(a + b == a);
    } else {
        lemma_span_concat(a, b.drop_last());
        assert((a + b).drop_last() == a + b.drop_last());
    }
}

proof fn lemma_span_of_split(s: Seq<char>)
    ensures
        span(split_on(s, '\n')) == s.len() + 1,
    decreases s.len(),
{
    lemma_char_index(s, '\n');
    let i = char_index(s, '\n');
    reveal_with_fuel(span, 2);
    if i >= s.len() {
        assert(seq![s].drop_last() == Seq::<Seq<char>>::empty());
    } else {
        lemma_span_of_split(s.skip(i + 1));
        lemma_span_concat(seq![s.take(i)], split_on(s.skip(i + 1), '\n'));
        assert(seq![s.take(i)].drop_last() == Seq::<Seq<char>>::empty());
    }
}

proof fn lemma_span_take(lines: Seq<Seq<char>>, n: int)
    requires
        0 <= n <= lines.len(),
    ensures
        span(lines.take(n)) <= span(lines),
        n < lines.len() ==> span(lines.take(n + 1)) == span(lines.take(n)) + lines[n].len() + 1,
        n < lines.len() ==> span(lines.take(n + 1)) <= span(lines),
{
    lemma_span_concat(lines.take(n), lines.skip(n));
    assert(lines.take(n) + lines.skip(n) == lines);
    if n < lines.len() {
        assert(lines.take(n + 1).drop_last() == lines.take(n));
        lemma_span_concat(lines.take(n + 1), lines.skip(n + 1));
        assert(lines.take(n + 1) + lines.skip(n + 1) == lines);
    }
}

proof fn lemma_strip_back_len(s: Seq<char>, p: spec_fn(char) -> bool)
    ensures
        strip_back(s, p).len() <= s.len(),
    decreases s.len(),
{
    if s.len() > 0 && p(s.last()) {
        lemma_strip_back_len(s.drop_last(), p);
    }
}

/// The cutting has consumed `st.offset` characters, and the waiting lines have
/// no more tokens than that.
proof fn lemma_chunk_lines_bounds(
    lines: Seq<Seq<char>>,
    markdown: bool,
    target: nat,
    overlap: nat,
)
    ensures
        chunk_lines(lines, markdown, target, overlap).offset == span(lines),
        buf_tokens(chunk_lines(lines, markdown, target, overlap).buf) <= span(lines),
    decreases lines.len(),
{
    if lines.len() > 0 {
        lemma_chunk_lines_bounds(lines.drop_last(), markdown, target, overlap);
        let st = chunk_lines(lines.drop_last(), markdown, target, overlap);
        let line = lines.last();
        let content = content_of(line);
        lemma_strip_back_len(line, among(seq!['\r']));
        lemma_tokens_at_most_chars(content);
        let here = LineView { text: content, start: st.offset, end: st.offset + content.len() };
        assert(st.buf.push(here).drop_last() == st.buf);
        let c = carried(st.buf, overlap);
        assert(c.push(here).drop_last() == c);
        lemma_carried_tokens(st.buf, overlap);
    }
}

/// A body under its heading path.
fn put_under_heading(heading: &Option<String>, body: &str) -> (r: String)
    ensures
        r@ == under_heading(opt_text(*heading), body@),
{
    match heading {
        Some(h) => concat3(h.as_str(), "\n", body),
        None => copy_str(body),
    }
}

/// Makes the waiting lines one chunk.
fn flush(buf: &Vec<BufferedLine>, heading: &Option<String>, pieces: &mut Vec<ChunkPiece>)
    ensures
        piece_views(final(pieces)@) == flushed(
            piece_views(old(pieces)@),
            line_views(buf@),
            opt_text(*heading),
        ),
{
    if buf.len() == 0 {
        return;
    }
    let mut texts: Vec<String> = Vec::new();
    let mut i: usize = 0;
    while i < buf.len()
        invariant
            i <= buf@.len(),
            texts@.len() == i,
            forall|j: int| 0 <= j < i ==> texts@[j]@ == #[trigger] buf@[j].text@,
        decreases buf@.len() - i,
    {
        texts.push(buf[i].text.clone());
        i += 1;
    }
    assert(strings(texts@) == line_texts(line_views(buf@)));
    let body = join(&texts, "\n");
    pieces.push(
        ChunkPiece {
            text: put_under_heading(heading, body.as_str()),
            char_start: buf[0].start,
            char_end: buf[buf.len() - 1].end,
            heading_path: copy_opt(heading),
        },
    );
    assert(piece_views(pieces@) == piece_views(old(pieces)@).push(pieces@.last()@));
}

/// Adds one chunk per window of an over-long line.
fn push_windows(
    windows_cut: Vec<(String, usize, usize)>,
    heading: &Option<String>,
    pieces: &mut Vec<ChunkPiece>,
)
    ensures
        piece_views(final(pieces)@) == piece_views(old(pieces)@) + window_pieces(
            window_views(windows_cut@),
            opt_text(*heading),
        ),
{
    let ghost all = window_pieces(window_views(windows_cut@), opt_text(*heading));
    let mut i: usize = 0;
    while i < windows_cut.len()
        invariant
            i <= windows_cut@.len(),
            all == window_pieces(window_views(windows_cut@), opt_text(*heading)),
            piece_views(pieces@) == piece_views(old(pieces)@) + all.take(i as int),
        decreases windows_cut@.len() - i,
    {
        let ghost before = pieces@;
        pieces.push(
            ChunkPiece {
                text: put_under_heading(heading, windows_cut[i].0.as_str()),
                char_start: windows_cut[i].1,
                char_end: windows_cut[i].2,
                heading_path: copy_opt(heading),
            },
        );
        assert(piece_views(pieces@) == piece_views(before).push(all[i as int]));
        i += 1;
    }
}

/// Folds a tiny last chunk into the one before it, where both share a heading.
pub fn merge_tiny_tail(pieces: &mut Vec<ChunkPiece>, min_tokens: usize)
    ensures
        piece_views(final(pieces)@) == tail_merged(piece_views(old(pieces)@), min_tokens as nat),
{
    let n: usize = pieces.len();
    if n < 2 {
        return;
    }
    if estimate_tokens(pieces[n - 1].text.as_str()) >= min_tokens {
        return;
    }
    if !opt_text_eq(&pieces[n - 2].heading_path, &pieces[n - 1].heading_path) {
        return;
    }
    let ghost all = piece_views(pieces@);
    assert(all.last() == pieces@[n - 1]@);
    assert(all[all.len() - 2] == pieces@[n - 2]@);
    let last = pieces.pop();
    let prev = pieces.pop();
    if let (Some(last), Some(prev)) = (last, prev) {
        let mut text = prev.text;
        text.push('\n');
        text.append(last.text.as_str());
        pieces.push(
            ChunkPiece {
                text,
                char_start: prev.char_start,
                char_end: last.char_end,
                heading_path: prev.heading_path,
            },
        );
    }
    assert(piece_views(pieces@) == tail_merged(all, min_tokens as nat));
}

/// Cuts a document into chunks. With `markdown`, heading lines start a new
/// section and are recorded in `heading_path`.
pub fn chunk_document(text: &str, markdown: bool) -> (r: Vec<ChunkPiece>)
    ensures
        piece_views(r@) == chunks_of(
            text@,
            markdown,
            TARGET_TOKENS as nat,
            OVERLAP_TOKENS as nat,
            MIN_TOKENS as nat,
        ),
{
    chunk_with(text, markdown, TARGET_TOKENS, OVERLAP_TOKENS, MIN_TOKENS)
}

/// Cuts a document into chunks of `target` tokens, each led in by about
/// `overlap` tokens of the one before it.
pub fn chunk_with(
    text: &str,
    markdown: bool,
    target: usize,
    overlap: usize,
    min_tokens: usize,
) -> (r: Vec<ChunkPiece>)
    ensures
        piece_views(r@) == chunks_of(
            text@,
            markdown,
            target as nat,
            overlap as nat,
            min_tokens as nat,
        ),
{
    let lines = split_char(text, '\n');
    let total: usize = chars_of(text).len();
    let ghost all = strings(lines@);
    proof {
        lemma_span_of_split(text@);
    }
    let mut pieces: Vec<ChunkPiece> = Vec::new();
    let mut stack: Vec<(usize, String)> = Vec::new();
    let mut buf: Vec<BufferedLine> = Vec::new();
    let mut waiting: usize = 0;
    let mut heading: Option<String> = None;
    let mut offset: usize = 0;
    let mut n: usize = 0;
    let cr = ['\r'];
    assert(piece_views(pieces@) == Seq::<PieceView>::empty());
    assert(stack_view(stack@) == Seq::<(nat, Seq<char>)>::empty());
    assert(line_views(buf@) == Seq::<LineView>::empty());
    while n < lines.len()
        invariant
            n <= lines@.len(),
            all == strings(lines@),
            all == split_on(text@, '\n'),
            span(all) == total + 1,
            cr@ == seq!['\r'],
            ({
                let st = chunk_lines(all.take(n as int), markdown, target as nat, overlap as nat);
                &&& st.pieces == piece_views(pieces@)
                &&& st.stack == stack_view(stack@)
                &&& st.buf == line_views(buf@)
                &&& n < lines@.len() ==> st.offset == offset
                &&& opt_text(heading) == path_of(st.stack)
                &&& waiting == buf_tokens(st.buf)
            }),
            counted(buf@),
        decreases lines@.len() - n,
    {
        let ghost st = chunk_lines(all.take(n as int), markdown, target as nat, overlap as nat);
        let ghost line = all[n as int];
        let line_chars: usize = chars_of(lines[n].as_str()).len();
        let content = trim_end_set(lines[n].as_str(), &cr);
        let content_chars: usize = chars_of(content.as_str()).len();
        proof {
            assert(all.take(n + 1).drop_last() == all.take(n as int));
            assert(all.take(n + 1).last() == line);
            lemma_chunk_lines_bounds(
                all.take(n as int),
                markdown,
                target as nat,
                overlap as nat,
            );
            lemma_span_take(all, n as int);
            lemma_strip_back_len(line, among(seq!['\r']));
            lemma_tokens_at_most_chars(content@);
            lemma_carried_tokens(st.buf, overlap as nat);
        }
        let line_start: usize = offset;
        let line_end: usize = offset + content_chars;
        if n + 1 < lines.len() {
            assert(n + 1 < all.len());
            proof {
                lemma_span_take(all, n + 1);
            }
            offset = offset + line_chars + 1;
        }
        n += 1;
        let found = if markdown {
            parse_heading(content.as_str())
        } else {
            None
        };
        if let Some((level, title)) = found {
            flush(&buf, &heading, &mut pieces);
            buf = Vec::new();
            waiting = 0;
            stack = keep_shallower(&stack, level);
            let ghost kept = stack@;
            stack.push((level, title));
            assert(stack_view(stack@) == stack_view(kept).push((level as nat, title@)));
            assert(line_views(buf@) == Seq::<LineView>::empty());
            heading = heading_path(&stack);
            continue ;
        }
        if is_blank(content.as_str()) {
            continue ;
        }
        let line_tokens: usize = estimate_tokens(content.as_str());
        if line_tokens > target {
            flush(&buf, &heading, &mut pieces);
            buf = Vec::new();
            waiting = 0;
            assert(line_views(buf@) == Seq::<LineView>::empty());
            let cut = split_long_line(content.as_str(), line_start, target);
            push_windows(cut, &heading, &mut pieces);
            continue ;
        }
        let ghost here = LineView { text: content@, start: st.offset, end: st.offset + content@.len() };
        if buf.len() > 0 && (waiting > target || line_tokens > target - waiting) {
            let carry = take_overlap(&buf, overlap);
            flush(&buf, &heading, &mut pieces);
            buf = carry;
            waiting = total_tokens(&buf);
        }
        let ghost before = buf@;
        buf.push(
            BufferedLine { text: content, start: line_start, end: line_end, tokens: line_tokens },
        );
        proof {
            assert(line_views(buf@) == line_views(before).push(here));
            assert(line_views(buf@).drop_last() == line_views(before));
        }
        waiting = waiting + line_tokens;
    }
    assert(all.take(all.len() as int) == all);
    flush(&buf, &heading, &mut pieces);
    merge_tiny_tail(&mut pieces, min_tokens);
    pieces
}

// ---------------------------------------------------------------------
// Laws
// ---------------------------------------------------------------------

/// The windows stand one after another, from `from` to the end of the line, and
/// each holds the characters at its positions.
pub open spec fn tiles(ws: Seq<LineView>, line: Seq<char>, from: int, base: int) -> bool {
    &&& ws.len() == 0 <==> from >= line.len()
    &&& ws.len() > 0 ==> ws[0].start == base + from && ws.last().end == base + line.len()
    &&& forall|i: int|
        0 <= i < ws.len() ==> {
            &&& base + from <= (#[trigger] ws[i]).start < ws[i].end <= base + line.len()
            &&& ws[i].text == line.subrange(ws[i].start - base, ws[i].end - base)
        }
    &&& forall|i: int, j: int|
        0 <= i < ws.len() && j == i + 1 && j < ws.len() ==> (#[trigger] ws[i]).end == (
        #[trigger] ws[j]).start
    &&& forall|i: int, j: int|
        0 <= i < j < ws.len() ==> (#[trigger] ws[i]).end <= (#[trigger] ws[j]).start
}

/// No window of an over-long line exceeds the budget, and together the windows
/// are the line: nothing is lost, repeated or moved.
pub proof fn law_windows_tile_the_line(s: Seq<char>, from: int, base: int, target: nat)
    requires
        0 <= from <= s.len(),
    ensures
        tiles(windows(s, from, base, target), s, from, base),
        forall|i: int|
            0 <= i < windows(s, from, base, target).len() ==> tokens(
                (#[trigger] windows(s, from, base, target)[i]).text,
            ) <= if target == 0 {
                1
            } else {
                target
            },
    decreases s.len() - from,
{
    if from < s.len() {
        let e = window_end(s, from, from, target);
        lemma_window_end(s, from, from, target);
        let limit = if target == 0 {
            1nat
        } else {
            target
        };
        if e >= s.len() {
            assert(!window_full(s, from, s.len() - 1, target));
            assert(s.subrange(from, s.len() as int) == s.subrange(from, s.len() - 1 + 1));
        } else {
            law_windows_tile_the_line(s, e + 1, base, target);
            let rest = windows(s, e + 1, base, target);
            let ws = windows(s, from, base, target);
            let before = s.subrange(from, e);
            assert(s.subrange(from, e + 1) == before.push(s[e]));
            lemma_tokens_push(before, s[e]);
            if e > from {
                assert(!window_full(s, from, e - 1, target));
                assert(s.subrange(from, e - 1 + 1) == before);
            } else {
                lemma_tokens_at_most_chars(s.subrange(from, e + 1));
            }
            assert(tokens(ws[0].text) <= limit);
            assert forall|i: int| 0 <= i < ws.len() implies tokens((#[trigger] ws[i]).text)
                <= limit by {
                if i > 0 {
                    assert(ws[i] == rest[i - 1]);
                }
            }
            assert forall|i: int| 0 <= i < ws.len() implies {
                &&& base + from <= (#[trigger] ws[i]).start < ws[i].end <= base + s.len()
                &&& ws[i].text == s.subrange(ws[i].start - base, ws[i].end - base)
            } by {
                if i > 0 {
                    assert(ws[i] == rest[i - 1]);
                }
            }
            assert forall|i: int, j: int|
                0 <= i < ws.len() && j == i + 1 && j < ws.len() implies (#[trigger] ws[i]).end == (
            #[trigger] ws[j]).start by {
                assert(ws[j] == rest[j - 1]);
                if i > 0 {
                    assert(ws[i] == rest[i - 1]);
                }
            }
            assert forall|i: int, j: int| 0 <= i < j < ws.len() implies (#[trigger] ws[i]).end <= (
            #[trigger] ws[j]).start by {
                assert(ws[j] == rest[j - 1]);
                if i > 0 {
                    assert(ws[i] == rest[i - 1]);
                }
            }
            if rest.len() > 0 {
                assert(ws.last() == rest.last());
            }
        }
    }
}

/// The chunks run forward through the first `limit` characters: none is empty, where
/// they start never goes back, and where they end grows.
pub open spec fn in_order(pieces: Seq<PieceView>, limit: int) -> bool {
    &&& forall|i: int|
        0 <= i < pieces.len() ==> 0 <= (#[trigger] pieces[i]).start < pieces[i].end <= limit
            && pieces[i].text.len() > 0
    &&& forall|i: int, j: int|
        0 <= i < j < pieces.len() ==> (#[trigger] pieces[i]).start <= (#[trigger] pieces[j]).start
            && pieces[i].end < pieces[j].end
}

/// The finished chunks and the waiting lines run forward.
spec fn settled(st: ChunkState) -> bool {
    &&& st.offset >= 0
    &&& in_order(st.pieces, st.offset - 1)
    &&& forall|i: int|
        0 <= i < st.buf.len() ==> 0 <= (#[trigger] st.buf[i]).start < st.buf[i].end < st.offset
            && st.buf[i].text.len() > 0
    &&& forall|i: int, j: int|
        0 <= i < j < st.buf.len() ==> (#[trigger] st.buf[i]).end <= (#[trigger] st.buf[j]).start
    &&& st.buf.len() > 0 ==> forall|i: int|
        0 <= i < st.pieces.len() ==> (#[trigger] st.pieces[i]).start <= st.buf[0].start
            && st.pieces[i].end < st.buf.last().end
}

proof fn lemma_flushed_in_order(st: ChunkState)
    requires
        settled(st),
    ensures
        in_order(flushed(st.pieces, st.buf, path_of(st.stack)), st.offset - 1),
        forall|i: int|
            0 <= i < flushed(st.pieces, st.buf, path_of(st.stack)).len() && st.buf.len() > 0 ==> (
            #[trigger] flushed(st.pieces, st.buf, path_of(st.stack))[i]).start <= st.buf[0].start,
{
    if st.buf.len() > 1 {
        assert(st.buf[0].end <= st.buf[st.buf.len() - 1].start);
    }
    if st.buf.len() > 0 {
        let texts = line_texts(st.buf);
        assert(texts.last() == st.buf.last().text);
        assert(joined(texts, "\n"@).len() >= texts.last().len());
    }
}

proof fn lemma_step_settled(
    st: ChunkState,
    line: Seq<char>,
    markdown: bool,
    target: nat,
    overlap: nat,
)
    requires
        settled(st),
    ensures
        settled(chunk_step(st, line, markdown, target, overlap)),
{
    let content = content_of(line);
    let next = chunk_step(st, line, markdown, target, overlap);
    let pieces = flushed(st.pieces, st.buf, path_of(st.stack));
    lemma_strip_back_len(line, among(seq!['\r']));
    lemma_flushed_in_order(st);
    if heading_in(markdown, content) is Some || is_blank_text(content) {
    } else if tokens(content) > target {
        let ws = windows(content, 0, st.offset, target);
        law_windows_tile_the_line(content, 0, st.offset, target);
        let wp = window_pieces(ws, path_of(st.stack));
        assert forall|i: int| 0 <= i < next.pieces.len() implies 0 <= (#[trigger] next.pieces[i]).start
            < next.pieces[i].end <= next.offset - 1 && next.pieces[i].text.len() > 0 by {
            if i >= pieces.len() {
                assert(next.pieces[i] == wp[i - pieces.len()]);
                assert(wp[i - pieces.len()].start == ws[i - pieces.len()].start);
            } else {
                assert(next.pieces[i] == pieces[i]);
            }
        }
        assert forall|i: int, j: int| 0 <= i < j < next.pieces.len() implies (
        #[trigger] next.pieces[i]).start <= (#[trigger] next.pieces[j]).start && next.pieces[i].end
            < next.pieces[j].end by {
            if j < pieces.len() {
                assert(next.pieces[i] == pieces[i] && next.pieces[j] == pieces[j]);
            } else {
                let b = j - pieces.len();
                assert(next.pieces[j] == wp[b]);
                assert(ws[b].start >= st.offset);
                if i < pieces.len() {
                    assert(next.pieces[i] == pieces[i]);
                } else {
                    let a = i - pieces.len();
                    assert(next.pieces[i] == wp[a]);
                    if a < b {
                        assert(ws[a].end <= ws[b].start);
                    }
                    assert(ws[a].start < ws[a].end);
                    assert(ws[b].start < ws[b].end);
                }
            }
        }
    } else if st.buf.len() > 0 && buf_tokens(st.buf) + tokens(content) > target {
        lemma_overlap_start(st.buf, overlap, st.buf.len() as int);
        let c = carried(st.buf, overlap);
        let k = st.buf.len() - c.len();
        assert(forall|i: int| 0 <= i < c.len() ==> c[i] == st.buf[i + k]);
        assert(c.len() > 0 ==> st.buf[0].start <= c[0].start);
    } else {
    }
}

proof fn lemma_lines_settled(
    lines: Seq<Seq<char>>,
    markdown: bool,
    target: nat,
    overlap: nat,
)
    ensures
        settled(chunk_lines(lines, markdown, target, overlap)),
    decreases lines.len(),
{
    if lines.len() > 0 {
        lemma_lines_settled(lines.drop_last(), markdown, target, overlap);
        lemma_step_settled(
            chunk_lines(lines.drop_last(), markdown, target, overlap),
            lines.last(),
            markdown,
            target,
            overlap,
        );
    }
}

/// The chunks of a document lie inside it and make progress: none is empty, and each
/// next chunk starts no earlier and ends later than the one before it.
pub proof fn law_chunks_run_forward(
    text: Seq<char>,
    markdown: bool,
    target: nat,
    overlap: nat,
    min_tokens: nat,
)
    ensures
        in_order(chunks_of(text, markdown, target, overlap, min_tokens), text.len() as int),
{
    let lines = split_on(text, '\n');
    let st = chunk_lines(lines, markdown, target, overlap);
    lemma_lines_settled(lines, markdown, target, overlap);
    lemma_chunk_lines_bounds(lines, markdown, target, overlap);
    lemma_span_of_split(text);
    lemma_flushed_in_order(st);
    lemma_merge_in_order(
        flushed(st.pieces, st.buf, path_of(st.stack)),
        min_tokens,
        text.len() as int,
    );
}

proof fn lemma_merge_in_order(pieces: Seq<PieceView>, min_tokens: nat, limit: int)
    requires
        in_order(pieces, limit),
    ensures
        in_order(tail_merged(pieces, min_tokens), limit),
{
    let out = tail_merged(pieces, min_tokens);
    if out.len() < pieces.len() {
        let n = pieces.len();
        assert(forall|i: int| 0 <= i < n - 2 ==> out[i] == pieces[i]);
        assert(out[n - 2].start == pieces[n - 2].start && out[n - 2].end == pieces[n - 1].end);
        assert(pieces[n - 2].end <= pieces[n - 1].end);
    }
}

/// A chunk holds position `p` of the document.
pub open spec fn covered(pieces: Seq<PieceView>, p: int) -> bool {
    exists|j: int| 0 <= j < pieces.len() && (#[trigger] pieces[j]).start <= p < pieces[j].end
}

/// Position `p` lies in the content of line `k`, which is neither blank nor a heading.
pub open spec fn in_content(lines: Seq<Seq<char>>, markdown: bool, k: int, p: int) -> bool {
    let content = content_of(lines[k]);
    let start = span(lines.take(k));
    &&& 0 <= k < lines.len()
    &&& heading_in(markdown, content) is None
    &&& !is_blank_text(content)
    &&& start <= p < start + content.len()
}

spec fn waiting_at(buf: Seq<LineView>, p: int) -> bool {
    buf.len() > 0 && buf[0].start <= p < buf.last().end
}

spec fn all_held(lines: Seq<Seq<char>>, markdown: bool, st: ChunkState) -> bool {
    forall|k: int, p: int|
        #[trigger] in_content(lines, markdown, k, p) ==> covered(st.pieces, p) || waiting_at(
            st.buf,
            p,
        )
}

proof fn lemma_covered_extend(a: Seq<PieceView>, b: Seq<PieceView>, p: int)
    requires
        covered(a, p),
    ensures
        covered(a + b, p),
{
    let j = choose|j: int| 0 <= j < a.len() && (#[trigger] a[j]).start <= p < a[j].end;
    assert((a + b)[j] == a[j]);
}

proof fn lemma_flushed_covers(st: ChunkState, p: int)
    requires
        covered(st.pieces, p) || waiting_at(st.buf, p),
    ensures
        covered(flushed(st.pieces, st.buf, path_of(st.stack)), p),
{
    let out = flushed(st.pieces, st.buf, path_of(st.stack));
    if covered(st.pieces, p) {
        if st.buf.len() > 0 {
            lemma_covered_extend(st.pieces, seq![out.last()], p);
            assert(out == st.pieces + seq![out.last()]);
        }
    } else {
        let j = out.len() - 1;
        assert(out[j].start <= p < out[j].end);
    }
}

proof fn lemma_windows_cover(ws: Seq<LineView>, line: Seq<char>, from: int, base: int, p: int)
    requires
        tiles(ws, line, from, base),
        0 <= from,
        base + from <= p < base + line.len(),
    ensures
        exists|j: int| 0 <= j < ws.len() && (#[trigger] ws[j]).start <= p < ws[j].end,
    decreases ws.len(),
{
    assert(ws[0].start == base + from);
    if p >= ws[0].end {
        let rest = ws.drop_first();
        let e = ws[0].end - base;
        assert(forall|i: int| 0 <= i < rest.len() ==> rest[i] == ws[i + 1]);
        if rest.len() == 0 {
            assert(ws.last() == ws[0]);
        } else {
            assert(ws[0].end == ws[1].start);
            assert forall|i: int| 0 <= i < rest.len() implies base + e <= (#[trigger] rest[i]).start by {
                assert(ws[0].end <= ws[i + 1].start);
            }
            assert(rest[0].start < rest[0].end);
            lemma_windows_cover(rest, line, e, base, p);
            let j = choose|j: int|
                0 <= j < rest.len() && (#[trigger] rest[j]).start <= p < rest[j].end;
            assert(ws[j + 1] == rest[j]);
        }
    }
}

proof fn lemma_step_held(
    lines: Seq<Seq<char>>,
    markdown: bool,
    target: nat,
    overlap: nat,
)
    requires
        lines.len() > 0,
        all_held(
            lines.drop_last(),
            markdown,
            chunk_lines(lines.drop_last(), markdown, target, overlap),
        ),
    ensures
        all_held(lines, markdown, chunk_lines(lines, markdown, target, overlap)),
{
    let n = lines.len() - 1;
    let front = lines.drop_last();
    let st = chunk_lines(front, markdown, target, overlap);
    let next = chunk_lines(lines, markdown, target, overlap);
    let line = lines.last();
    let content = content_of(line);
    let pieces = flushed(st.pieces, st.buf, path_of(st.stack));
    lemma_lines_settled(front, markdown, target, overlap);
    lemma_lines_settled(lines, markdown, target, overlap);
    lemma_chunk_lines_bounds(front, markdown, target, overlap);
    assert(lines.take(n) == front);
    assert forall|k: int, p: int| #[trigger] in_content(lines, markdown, k, p) implies covered(
        next.pieces,
        p,
    ) || waiting_at(next.buf, p) by {
        if k < n {
            assert(front.take(k) == lines.take(k));
            assert(front[k] == lines[k]);
            assert(in_content(front, markdown, k, p));
            lemma_flushed_covers(st, p);
            if heading_in(markdown, content) is Some || is_blank_text(content) {
            } else if tokens(content) > target {
                let wp = window_pieces(
                    windows(content, 0, st.offset, target),
                    path_of(st.stack),
                );
                lemma_covered_extend(pieces, wp, p);
            } else if st.buf.len() > 0 && buf_tokens(st.buf) + tokens(content) > target {
            } else {
                if waiting_at(st.buf, p) {
                    assert(next.buf[0] == st.buf[0]);
                    assert(st.buf[st.buf.len() - 1].end < st.offset);
                    assert(next.buf.last().end >= st.offset);
                }
            }
        } else {
            if tokens(content) > target {
                let ws = windows(content, 0, st.offset, target);
                let wp = window_pieces(ws, path_of(st.stack));
                law_windows_tile_the_line(content, 0, st.offset, target);
                lemma_windows_cover(ws, content, 0, st.offset, p);
                let j = choose|j: int|
                    0 <= j < ws.len() && (#[trigger] ws[j]).start <= p < ws[j].end;
                let m = pieces.len() + j;
                assert(next.pieces[m] == wp[j]);
                assert(next.pieces[m].start <= p < next.pieces[m].end);
            } else {
                assert(next.buf.last().start == st.offset);
                if next.buf.len() > 1 {
                    let m = next.buf.len() - 1;
                    assert(next.buf[0].end <= next.buf[m].start);
                    assert(next.buf[0].start <= next.buf[0].end);
                }
            }
        }
    }
}

proof fn lemma_lines_held(
    lines: Seq<Seq<char>>,
    markdown: bool,
    target: nat,
    overlap: nat,
)
    ensures
        all_held(lines, markdown, chunk_lines(lines, markdown, target, overlap)),
    decreases lines.len(),
{
    if lines.len() > 0 {
        lemma_lines_held(lines.drop_last(), markdown, target, overlap);
        lemma_step_held(lines, markdown, target, overlap);
    }
}

proof fn lemma_merge_covers(pieces: Seq<PieceView>, min_tokens: nat, limit: int, p: int)
    requires
        in_order(pieces, limit),
        covered(pieces, p),
    ensures
        covered(tail_merged(pieces, min_tokens), p),
{
    let out = tail_merged(pieces, min_tokens);
    if out.len() < pieces.len() {
        let n = pieces.len();
        let j = choose|j: int|
            0 <= j < pieces.len() && (#[trigger] pieces[j]).start <= p < pieces[j].end;
        assert(out[n - 2].start == pieces[n - 2].start && out[n - 2].end == pieces[n - 1].end);
        assert(pieces[n - 2].end <= pieces[n - 1].end);
        if j < n - 2 {
            assert(out[j] == pieces[j]);
        } else {
            assert(out[n - 2].start <= p < out[n - 2].end);
        }
    }
}

/// No content is lost: every character of a line that is neither blank nor a
/// heading lies between the start and the end of some chunk.
pub proof fn law_chunks_cover_the_document(
    text: Seq<char>,
    markdown: bool,
    target: nat,
    overlap: nat,
    min_tokens: nat,
    k: int,
    p: int,
)
    requires
        in_content(split_on(text, '\n'), markdown, k, p),
    ensures
        covered(chunks_of(text, markdown, target, overlap, min_tokens), p),
{
    let lines = split_on(text, '\n');
    let st = chunk_lines(lines, markdown, target, overlap);
    lemma_lines_settled(lines, markdown, target, overlap);
    lemma_lines_held(lines, markdown, target, overlap);
    lemma_flushed_in_order(st);
    lemma_flushed_covers(st, p);
    lemma_merge_covers(
        flushed(st.pieces, st.buf, path_of(st.stack)),
        min_tokens,
        st.offset - 1,
        p,
    );
}

/// The tokens that a heading path brings to its chunk.
pub open spec fn heading_tokens(heading: Option<Seq<char>>) -> nat {
    match heading {
        Some(h) => tokens(h),
        None => 0,
    }
}

/// The most tokens of waiting lines: without an overlap those of a full window; with
/// one, also those of the overlap and of the line that reaches it.
pub open spec fn most_tokens(target: nat, overlap: nat) -> nat {
    if overlap == 0 {
        target
    } else {
        2 * target + overlap
    }
}

/// No chunk has more than `limit` tokens beside those of its heading path.
pub open spec fn within_budget(pieces: Seq<PieceView>, limit: nat) -> bool {
    forall|i: int|
        0 <= i < pieces.len() ==> tokens((#[trigger] pieces[i]).text) <= heading_tokens(
            pieces[i].heading,
        ) + limit
}

proof fn lemma_tokens_concat(a: Seq<char>, b: Seq<char>)
    ensures
        cjk_count(a + b) == cjk_count(a) + cjk_count(b),
        other_count(a + b) == other_count(a) + other_count(b),
        tokens(a + b) <= tokens(a) + tokens(b),
    decreases b.len(),
{
    if b.len() == 0 {
        assert(a + b == a);
    } else {
        lemma_tokens_concat(a, b.drop_last());
        assert((a + b).drop_last() == a + b.drop_last());
    }
}

proof fn lemma_newline_tokens(s: Seq<char>)
    ensures
        tokens(s + "\n"@) == tokens(s),
{
    reveal_strlit("\n");
    assert((s + "\n"@).drop_last() == s);
    assert((s + "\n"@).last() == '\n');
}

proof fn lemma_joined_tokens(buf: Seq<LineView>)
    ensures
        tokens(joined(line_texts(buf), "\n"@)) <= buf_tokens(buf),
    decreases buf.len(),
{
    let texts = line_texts(buf);
    if buf.len() == 1 {
        assert(buf.drop_last() == Seq::<LineView>::empty());
        assert(buf_tokens(buf.drop_last()) == 0);
    } else if buf.len() > 1 {
        let front = joined(texts.drop_last(), "\n"@);
        lemma_joined_tokens(buf.drop_last());
        assert(line_texts(buf.drop_last()) == texts.drop_last());
        lemma_newline_tokens(front);
        lemma_tokens_concat(front + "\n"@, texts.last());
    }
}

proof fn lemma_under_heading_tokens(heading: Option<Seq<char>>, body: Seq<char>)
    ensures
        tokens(under_heading(heading, body)) <= heading_tokens(heading) + tokens(body),
{
    if let Some(h) = heading {
        lemma_newline_tokens(h);
        lemma_tokens_concat(h + "\n"@, body);
    }
}

proof fn lemma_before_overlap(buf: Seq<LineView>, overlap: nat, from: int)
    requires
        0 <= from <= buf.len(),
    ensures
        overlap_start(buf, overlap, from) < from ==> buf_tokens(
            buf.skip(overlap_start(buf, overlap, from) + 1),
        ) < overlap,
    decreases from,
{
    if from > 0 && buf_tokens(buf.skip(from)) < overlap {
        lemma_before_overlap(buf, overlap, from - 1);
        lemma_overlap_start(buf, overlap, from - 1);
    }
}

/// No more than the overlap and one line are carried over, and without an overlap
/// nothing.
proof fn lemma_carried_within(buf: Seq<LineView>, target: nat, overlap: nat)
    requires
        forall|i: int| 0 <= i < buf.len() ==> tokens((#[trigger] buf[i]).text) <= target,
    ensures
        buf_tokens(carried(buf, overlap)) + target <= most_tokens(target, overlap),
{
    let n = buf.len() as int;
    let s = overlap_start(buf, overlap, n);
    lemma_overlap_start(buf, overlap, n);
    lemma_before_overlap(buf, overlap, n);
    if s < n {
        lemma_buf_tokens_first(buf.skip(s));
        assert(buf.skip(s).drop_first() == buf.skip(s + 1));
        assert(buf.skip(s)[0] == buf[s]);
    } else {
        assert(buf.skip(s) == Seq::<LineView>::empty());
    }
}

/// The finished chunks and the waiting lines keep to the budget.
spec fn kept_small(st: ChunkState, target: nat, overlap: nat) -> bool {
    &&& within_budget(st.pieces, most_tokens(target, overlap))
    &&& forall|i: int| 0 <= i < st.buf.len() ==> tokens((#[trigger] st.buf[i]).text) <= target
    &&& buf_tokens(st.buf) <= most_tokens(target, overlap)
}

proof fn lemma_flushed_small(st: ChunkState, target: nat, overlap: nat)
    requires
        kept_small(st, target, overlap),
    ensures
        within_budget(
            flushed(st.pieces, st.buf, path_of(st.stack)),
            most_tokens(target, overlap),
        ),
{
    if st.buf.len() > 0 {
        lemma_joined_tokens(st.buf);
        lemma_under_heading_tokens(path_of(st.stack), joined(line_texts(st.buf), "\n"@));
    }
}

proof fn lemma_step_small(
    st: ChunkState,
    line: Seq<char>,
    markdown: bool,
    target: nat,
    overlap: nat,
)
    requires
        target > 0,
        kept_small(st, target, overlap),
    ensures
        kept_small(chunk_step(st, line, markdown, target, overlap), target, overlap),
{
    let content = content_of(line);
    let next = chunk_step(st, line, markdown, target, overlap);
    let heading = path_of(st.stack);
    let pieces = flushed(st.pieces, st.buf, heading);
    lemma_flushed_small(st, target, overlap);
    if heading_in(markdown, content) is Some || is_blank_text(content) {
    } else if tokens(content) > target {
        let ws = windows(content, 0, st.offset, target);
        law_windows_tile_the_line(content, 0, st.offset, target);
        assert forall|i: int| 0 <= i < next.pieces.len() implies tokens(
            (#[trigger] next.pieces[i]).text,
        ) <= heading_tokens(next.pieces[i].heading) + most_tokens(target, overlap) by {
            if i < pieces.len() {
                assert(next.pieces[i] == pieces[i]);
            } else {
                let w = ws[i - pieces.len()];
                assert(next.pieces[i] == window_pieces(ws, heading)[i - pieces.len()]);
                lemma_under_heading_tokens(heading, w.text);
            }
        }
    } else if st.buf.len() > 0 && buf_tokens(st.buf) + tokens(content) > target {
        let c = carried(st.buf, overlap);
        lemma_overlap_start(st.buf, overlap, st.buf.len() as int);
        lemma_carried_within(st.buf, target, overlap);
        let k = st.buf.len() - c.len();
        assert(forall|i: int| 0 <= i < c.len() ==> c[i] == st.buf[i + k]);
        assert(next.buf.drop_last() == c);
    } else {
        assert(next.buf.drop_last() == st.buf);
    }
}

proof fn lemma_lines_small(lines: Seq<Seq<char>>, markdown: bool, target: nat, overlap: nat)
    requires
        target > 0,
    ensures
        kept_small(chunk_lines(lines, markdown, target, overlap), target, overlap),
    decreases lines.len(),
{
    if lines.len() > 0 {
        lemma_lines_small(lines.drop_last(), markdown, target, overlap);
        lemma_step_small(
            chunk_lines(lines.drop_last(), markdown, target, overlap),
            lines.last(),
            markdown,
            target,
            overlap,
        );
    }
}

/// No chunk grows without bound, however long the lines of the document are. Beside
/// its heading a chunk holds at most `target` tokens where neither an overlap nor a
/// least size is asked for; an overlap adds itself and the line that reaches it, and
/// a tail of fewer than `min_tokens` tokens may join the last.
pub proof fn law_chunks_are_bounded(
    text: Seq<char>,
    markdown: bool,
    target: nat,
    overlap: nat,
    min_tokens: nat,
)
    requires
        target > 0,
    ensures
        within_budget(
            chunks_of(text, markdown, target, overlap, min_tokens),
            most_tokens(target, overlap) + min_tokens,
        ),
{
    let lines = split_on(text, '\n');
    let st = chunk_lines(lines, markdown, target, overlap);
    lemma_lines_small(lines, markdown, target, overlap);
    lemma_flushed_small(st, target, overlap);
    let pieces = flushed(st.pieces, st.buf, path_of(st.stack));
    let out = tail_merged(pieces, min_tokens);
    if out.len() < pieces.len() {
        let n = pieces.len();
        let prev = pieces[n - 2].text;
        reveal_strlit("\n");
        assert(prev.push('\n') == prev + "\n"@);
        lemma_newline_tokens(prev);
        lemma_tokens_concat(prev.push('\n'), pieces[n - 1].text);
        assert(forall|i: int| 0 <= i < n - 2 ==> out[i] == pieces[i]);
    }
}

/// The lines of a document that hold content, with their positions: all but the blank
/// ones and the headings, without carriage returns at their ends.
pub open spec fn content_lines(lines: Seq<Seq<char>>, markdown: bool) -> Seq<LineView>
    decreases lines.len(),
{
    if lines.len() == 0 {
        Seq::empty()
    } else {
        let before = content_lines(lines.drop_last(), markdown);
        let text = content_of(lines.last());
        let start = span(lines.drop_last()) as int;
        if is_blank_text(text) || (markdown && heading_of(text) is Some) {
            before
        } else {
            before.push(LineView { text, start, end: start + text.len() })
        }
    }
}

/// What a chunk says beside its heading path, which stands on a line of its own.
pub open spec fn says(p: PieceView, body: Seq<char>) -> bool {
    p.text == match p.heading {
        Some(h) => h + seq!['\n'] + body,
        None => body,
    }
}

/// A chunk is the lines from `a` up to `b`: all of them, in order, one per line.
pub open spec fn is_run(all: Seq<LineView>, p: PieceView, a: int, b: int) -> bool {
    &&& 0 <= a < b <= all.len()
    &&& p.start == all[a].start
    &&& p.end == all[b - 1].end
    &&& says(p, joined(Seq::new((b - a) as nat, |i: int| all[a + i].text), seq!['\n']))
}

/// A chunk is the part of line `k` between its positions.
pub open spec fn is_cut(all: Seq<LineView>, p: PieceView, k: int) -> bool {
    &&& 0 <= k < all.len()
    &&& all[k].start <= p.start < p.end <= all[k].end
    &&& says(p, all[k].text.subrange(p.start - all[k].start, p.end - all[k].start))
}

/// A chunk is made of lines of the document: of a run of them, or of a part of one.
pub open spec fn from_lines(all: Seq<LineView>, p: PieceView) -> bool {
    ||| exists|a: int, b: int| is_run(all, p, a, b)
    ||| exists|k: int| is_cut(all, p, k)
}

/// A chunk is two chunks of one section, the second of fewer than `min_tokens` tokens, on
/// lines of their own.
pub open spec fn is_pair(
    all: Seq<LineView>,
    p: PieceView,
    first: PieceView,
    second: PieceView,
    min_tokens: nat,
) -> bool {
    &&& from_lines(all, first)
    &&& from_lines(all, second)
    &&& tokens(second.text) < min_tokens
    &&& first.heading == p.heading && second.heading == p.heading
    &&& p.start == first.start && p.end == second.end
    &&& p.text == first.text + seq!['\n'] + second.text
}

proof fn lemma_content_lines_extend(lines: Seq<Seq<char>>, markdown: bool)
    requires
        lines.len() > 0,
    ensures
        ({
            let before = content_lines(lines.drop_last(), markdown);
            let all = content_lines(lines, markdown);
            &&& before.len() <= all.len() <= before.len() + 1
            &&& before == all.take(before.len() as int)
        }),
{
    let before = content_lines(lines.drop_last(), markdown);
    assert(before.take(before.len() as int) =~= before);
    let all = content_lines(lines, markdown);
    if all.len() > before.len() {
        assert(all.take(before.len() as int) =~= before);
    }
}

proof fn lemma_from_lines_extend(before: Seq<LineView>, all: Seq<LineView>, p: PieceView)
    requires
        before.len() <= all.len(),
        before == all.take(before.len() as int),
        from_lines(before, p),
    ensures
        from_lines(all, p),
{
    assert forall|i: int| 0 <= i < before.len() implies before[i] == all[i] by {
        assert(all.take(before.len() as int)[i] == all[i]);
    }
    if exists|a: int, b: int| is_run(before, p, a, b) {
        let (a, b) = choose|a: int, b: int| is_run(before, p, a, b);
        assert(Seq::new((b - a) as nat, |i: int| all[a + i].text) =~= Seq::new(
            (b - a) as nat,
            |i: int| before[a + i].text,
        ));
        assert(is_run(all, p, a, b));
    } else {
        let k = choose|k: int| is_cut(before, p, k);
        assert(is_cut(all, p, k));
    }
}

/// The waiting lines are the last lines with content, and every chunk is made of lines.
spec fn traced(lines: Seq<Seq<char>>, markdown: bool, st: ChunkState) -> bool {
    let all = content_lines(lines, markdown);
    &&& forall|i: int| 0 <= i < st.pieces.len() ==> from_lines(all, #[trigger] st.pieces[i])
    &&& st.buf.len() <= all.len()
    &&& st.buf == all.skip(all.len() - st.buf.len())
}

proof fn lemma_flushed_traced(lines: Seq<Seq<char>>, markdown: bool, st: ChunkState)
    requires
        traced(lines, markdown, st),
    ensures
        ({
            let out = flushed(st.pieces, st.buf, path_of(st.stack));
            let all = content_lines(lines, markdown);
            &&& forall|i: int| 0 <= i < out.len() ==> from_lines(all, #[trigger] out[i])
            &&& st.buf.len() > 0 ==> is_run(
                all,
                out.last(),
                all.len() - st.buf.len(),
                all.len() as int,
            )
        }),
{
    let all = content_lines(lines, markdown);
    let out = flushed(st.pieces, st.buf, path_of(st.stack));
    if st.buf.len() > 0 {
        let a = all.len() - st.buf.len();
        let b = all.len() as int;
        reveal_strlit("\n");
        assert("\n"@ =~= seq!['\n']);
        assert forall|i: int| 0 <= i < st.buf.len() implies st.buf[i] == all[a + i] by {
            assert(all.skip(a)[i] == all[a + i]);
        }
        assert(line_texts(st.buf) =~= Seq::new((b - a) as nat, |i: int| all[a + i].text));
        assert(is_run(all, out.last(), a, b));
        assert forall|i: int| 0 <= i < out.len() implies from_lines(all, #[trigger] out[i]) by {
            if i < st.pieces.len() {
                assert(out[i] == st.pieces[i]);
            } else {
                assert(out[i] == out.last());
            }
        }
    }
}

proof fn lemma_lines_traced(lines: Seq<Seq<char>>, markdown: bool, target: nat, overlap: nat)
    ensures
        traced(lines, markdown, chunk_lines(lines, markdown, target, overlap)),
    decreases lines.len(),
{
    if lines.len() > 0 {
        let front = lines.drop_last();
        lemma_lines_traced(front, markdown, target, overlap);
        lemma_chunk_lines_bounds(front, markdown, target, overlap);
        lemma_content_lines_extend(lines, markdown);
        let st = chunk_lines(front, markdown, target, overlap);
        let next = chunk_lines(lines, markdown, target, overlap);
        let before = content_lines(front, markdown);
        let all = content_lines(lines, markdown);
        let content = content_of(lines.last());
        let heading = path_of(st.stack);
        let pieces = flushed(st.pieces, st.buf, heading);
        lemma_flushed_traced(front, markdown, st);
        assert forall|i: int| 0 <= i < pieces.len() implies from_lines(all, #[trigger] pieces[i]) by {
            lemma_from_lines_extend(before, all, pieces[i]);
        }
        assert forall|i: int| 0 <= i < st.pieces.len() implies from_lines(
            all,
            #[trigger] st.pieces[i],
        ) by {
            lemma_from_lines_extend(before, all, st.pieces[i]);
        }
        if heading_in(markdown, content) is Some {
            assert(next.buf =~= all.skip(all.len() - next.buf.len()));
        } else if is_blank_text(content) {
        } else if tokens(content) > target {
            let ws = windows(content, 0, st.offset, target);
            law_windows_tile_the_line(content, 0, st.offset, target);
            reveal_strlit("\n");
            assert("\n"@ =~= seq!['\n']);
            let k = all.len() - 1;
            assert forall|i: int| 0 <= i < next.pieces.len() implies from_lines(
                all,
                #[trigger] next.pieces[i],
            ) by {
                if i < pieces.len() {
                    assert(next.pieces[i] == pieces[i]);
                } else {
                    let w = ws[i - pieces.len()];
                    let p = window_pieces(ws, heading)[i - pieces.len()];
                    assert(next.pieces[i] == p);
                    assert(w.text == content.subrange(w.start - st.offset, w.end - st.offset));
                    assert(is_cut(all, p, k));
                }
            }
            assert(next.buf =~= all.skip(all.len() - next.buf.len()));
        } else if st.buf.len() > 0 && buf_tokens(st.buf) + tokens(content) > target {
            lemma_overlap_start(st.buf, overlap, st.buf.len() as int);
            let c = carried(st.buf, overlap);
            assert(c =~= before.skip(before.len() - c.len()));
            assert(next.buf =~= all.skip(all.len() - next.buf.len()));
        } else {
            assert(next.buf =~= all.skip(all.len() - next.buf.len()));
        }
    } else {
        let all = content_lines(lines, markdown);
        assert(all.skip(0) =~= all);
    }
}

/// A chunk holds the content at its positions: under its heading path it is the lines of
/// the document from where it starts to where it ends, every one of them and nothing
/// else, or the part of an over-long line between its positions. Only the last chunk may
/// be two such chunks, where the second is small.
pub proof fn law_chunks_hold_their_lines(
    text: Seq<char>,
    markdown: bool,
    target: nat,
    overlap: nat,
    min_tokens: nat,
    i: int,
)
    requires
        0 <= i < chunks_of(text, markdown, target, overlap, min_tokens).len(),
    ensures
        ({
            let all = content_lines(split_on(text, '\n'), markdown);
            let chunks = chunks_of(text, markdown, target, overlap, min_tokens);
            ||| from_lines(all, chunks[i])
            ||| i == chunks.len() - 1 && exists|first: PieceView, second: PieceView|
                is_pair(all, chunks[i], first, second, min_tokens)
        }),
{
    let lines = split_on(text, '\n');
    let all = content_lines(lines, markdown);
    let st = chunk_lines(lines, markdown, target, overlap);
    lemma_lines_traced(lines, markdown, target, overlap);
    lemma_flushed_traced(lines, markdown, st);
    let pieces = flushed(st.pieces, st.buf, path_of(st.stack));
    let out = tail_merged(pieces, min_tokens);
    if out.len() < pieces.len() {
        let n = pieces.len();
        if i < n - 2 {
            assert(out[i] == pieces[i]);
        } else {
            assert(pieces[n - 2].text.push('\n') =~= pieces[n - 2].text + seq!['\n']);
            assert(is_pair(all, out[i], pieces[n - 2], pieces[n - 1], min_tokens));
        }
    } else {
        assert(out[i] == pieces[i]);
    }
}

proof fn lemma_split_places(text: Seq<char>, k: int)
    requires
        0 <= k < split_on(text, '\n').len(),
    ensures
        ({
            let lines = split_on(text, '\n');
            let at = span(lines.take(k)) as int;
            at + lines[k].len() <= text.len() && text.subrange(at, at + lines[k].len()) == lines[k]
        }),
    decreases text.len(),
{
    lemma_char_index(text, '\n');
    let i = char_index(text, '\n');
    let lines = split_on(text, '\n');
    if i >= text.len() {
        assert(lines.take(0) =~= Seq::<Seq<char>>::empty());
        assert(text.subrange(0, text.len() as int) =~= text);
    } else {
        let rest = text.skip(i + 1);
        let later = split_on(rest, '\n');
        if k == 0 {
            assert(lines.take(0) =~= Seq::<Seq<char>>::empty());
            assert(text.subrange(0, i) =~= text.take(i));
        } else {
            lemma_split_places(rest, k - 1);
            assert(lines.take(k) =~= seq![text.take(i)] + later.take(k - 1));
            lemma_span_concat(seq![text.take(i)], later.take(k - 1));
            reveal_with_fuel(span, 2);
            assert(seq![text.take(i)].drop_last() =~= Seq::<Seq<char>>::empty());
            let at = span(later.take(k - 1)) as int;
            assert(text.subrange(i + 1 + at, i + 1 + at + lines[k].len()) =~= rest.subrange(
                at,
                at + later[k - 1].len(),
            ));
        }
    }
}

/// The content of a line is the line up to the carriage returns at its end.
pub proof fn law_content_is_the_line(line: Seq<char>)
    ensures
        content_of(line).len() <= line.len(),
        content_of(line) == line.take(content_of(line).len() as int),
        forall|i: int| content_of(line).len() <= i < line.len() ==> #[trigger] line[i] == '\r',
        content_of(line).len() > 0 ==> content_of(line).last() != '\r',
    decreases line.len(),
{
    if line.len() > 0 && line.last() == '\r' {
        assert(among(seq!['\r'])('\r')) by {
            assert(seq!['\r'][0] == '\r');
        }
        law_content_is_the_line(line.drop_last());
        let n = content_of(line).len() as int;
        assert(line.take(n) =~= line.drop_last().take(n));
        assert forall|i: int| n <= i < line.len() implies #[trigger] line[i] == '\r' by {
            if i < line.len() - 1 {
                assert(line.drop_last()[i] == line[i]);
            }
        }
    } else {
        if line.len() > 0 {
            assert(!among(seq!['\r'])(line.last()));
        }
        assert(line.take(line.len() as int) =~= line);
    }
}

/// The positions of a line with content are those at which it stands in the document.
pub proof fn law_lines_stand_at_their_positions(text: Seq<char>, markdown: bool, i: int)
    requires
        0 <= i < content_lines(split_on(text, '\n'), markdown).len(),
    ensures
        ({
            let l = content_lines(split_on(text, '\n'), markdown)[i];
            0 <= l.start <= l.end <= text.len() && text.subrange(l.start, l.end) == l.text
        }),
{
    let lines = split_on(text, '\n');
    assert(lines.take(lines.len() as int) =~= lines);
    lemma_lines_stand(text, markdown, lines.len() as int, i);
}

proof fn lemma_lines_stand(text: Seq<char>, markdown: bool, n: int, i: int)
    requires
        0 <= n <= split_on(text, '\n').len(),
        0 <= i < content_lines(split_on(text, '\n').take(n), markdown).len(),
    ensures
        ({
            let l = content_lines(split_on(text, '\n').take(n), markdown)[i];
            0 <= l.start <= l.end <= text.len() && text.subrange(l.start, l.end) == l.text
        }),
    decreases n,
{
    let lines = split_on(text, '\n');
    let now = lines.take(n);
    assert(now.drop_last() =~= lines.take(n - 1));
    if i < content_lines(lines.take(n - 1), markdown).len() {
        lemma_lines_stand(text, markdown, n - 1, i);
    } else {
        lemma_split_places(text, n - 1);
        law_content_is_the_line(lines[n - 1]);
        let at = span(lines.take(n - 1)) as int;
        let m = content_of(lines[n - 1]).len() as int;
        assert(text.subrange(at, at + m) =~= text.subrange(at, at + lines[n - 1].len()).take(m));
    }
}

proof fn lemma_buf_tokens_push(buf: Seq<LineView>, l: LineView)
    ensures
        buf_tokens(buf.push(l)) == buf_tokens(buf) + tokens(l.text),
{
    assert(buf.push(l).drop_last() =~= buf);
}

/// No line is a heading.
pub open spec fn no_headings(lines: Seq<Seq<char>>, markdown: bool) -> bool {
    markdown ==> forall|i: int|
        0 <= i < lines.len() ==> heading_of(content_of(#[trigger] lines[i])) is None
}

proof fn lemma_small_document(lines: Seq<Seq<char>>, markdown: bool, target: nat, overlap: nat)
    requires
        no_headings(lines, markdown),
        buf_tokens(content_lines(lines, markdown)) <= target,
    ensures
        ({
            let st = chunk_lines(lines, markdown, target, overlap);
            &&& st.pieces.len() == 0
            &&& st.stack.len() == 0
            &&& st.buf == content_lines(lines, markdown)
        }),
    decreases lines.len(),
{
    if lines.len() > 0 {
        let front = lines.drop_last();
        let before = content_lines(front, markdown);
        let content = content_of(lines.last());
        assert(lines[lines.len() - 1] == lines.last());
        if markdown {
            assert(heading_of(content_of(lines[lines.len() - 1])) is None);
            assert forall|i: int| 0 <= i < front.len() implies heading_of(
                content_of(#[trigger] front[i]),
            ) is None by {
                assert(front[i] == lines[i]);
            }
        }
        let start = span(front) as int;
        lemma_buf_tokens_push(
            before,
            LineView { text: content, start, end: start + content.len() },
        );
        lemma_chunk_lines_bounds(front, markdown, target, overlap);
        lemma_small_document(front, markdown, target, overlap);
    }
}

/// A document without headings whose content fits into one chunk becomes that chunk: all
/// its content lines, in order, from the first to the last.
pub proof fn law_small_documents_are_one_chunk(
    text: Seq<char>,
    markdown: bool,
    target: nat,
    overlap: nat,
    min_tokens: nat,
)
    requires
        no_headings(split_on(text, '\n'), markdown),
        buf_tokens(content_lines(split_on(text, '\n'), markdown)) <= target,
        content_lines(split_on(text, '\n'), markdown).len() > 0,
    ensures
        ({
            let all = content_lines(split_on(text, '\n'), markdown);
            let chunks = chunks_of(text, markdown, target, overlap, min_tokens);
            &&& chunks.len() == 1
            &&& chunks[0].heading is None
            &&& is_run(all, chunks[0], 0, all.len() as int)
        }),
{
    let lines = split_on(text, '\n');
    lemma_small_document(lines, markdown, target, overlap);
    lemma_lines_traced(lines, markdown, target, overlap);
    lemma_flushed_traced(lines, markdown, chunk_lines(lines, markdown, target, overlap));
}

/// What is carried over into the next chunk is the end of the one before, as little as
/// makes up the overlap: with fewer lines it would not. Only where all lines but the first
/// do not make it up either is it less. Without an overlap nothing is carried over.
pub proof fn law_overlap_is_as_asked(buf: Seq<LineView>, overlap: nat)
    requires
        buf.len() > 0,
    ensures
        ({
            let c = carried(buf, overlap);
            &&& c.len() <= buf.len()
            &&& c == buf.skip(buf.len() - c.len())
            &&& overlap == 0 ==> c.len() == 0
            &&& overlap > 0 ==> c.len() > 0 && buf_tokens(c.skip(1)) < overlap
            &&& buf_tokens(c) >= overlap || c.len() >= buf.len() - 1
            &&& buf.len() > 1 ==> c.len() < buf.len()
        }),
{
    let n = buf.len() as int;
    let s = overlap_start(buf, overlap, n);
    lemma_overlap_start(buf, overlap, n);
    lemma_before_overlap(buf, overlap, n);
    lemma_overlap_reached(buf, overlap, n);
    let c = carried(buf, overlap);
    assert(buf.skip(n) =~= Seq::<LineView>::empty());
    assert(c =~= buf.skip(buf.len() - c.len()));
    if overlap > 0 {
        assert(s < n);
        if s == 0 && n > 1 {
            lemma_buf_tokens_skip(buf.skip(1), 1);
            assert(buf.skip(s + 1) =~= c);
        } else {
            assert(c.skip(1) =~= buf.skip(s + 1));
        }
    }
}

proof fn lemma_overlap_reached(buf: Seq<LineView>, overlap: nat, from: int)
    requires
        0 <= from <= buf.len(),
    ensures
        overlap_start(buf, overlap, from) > 0 ==> buf_tokens(
            buf.skip(overlap_start(buf, overlap, from)),
        ) >= overlap,
    decreases from,
{
    if from > 0 && buf_tokens(buf.skip(from)) < overlap {
        lemma_overlap_reached(buf, overlap, from - 1);
    }
}

/// A document of lines that each fit into a chunk, without headings.
pub open spec fn plain_lines(lines: Seq<Seq<char>>, markdown: bool, target: nat) -> bool {
    &&& no_headings(lines, markdown)
    &&& forall|i: int|
        0 <= i < content_lines(lines, markdown).len() ==> tokens(
            (#[trigger] content_lines(lines, markdown)[i]).text,
        ) <= target
}

/// A chunk is full: it is a run of lines, and with the line after it it would have more
/// than `target` tokens.
pub open spec fn is_full(all: Seq<LineView>, p: PieceView, target: nat) -> bool {
    exists|a: int, b: int| #[trigger]
        is_run(all, p, a, b) && b < all.len() && buf_tokens(all.subrange(a, b)) + tokens(
            all[b].text,
        ) > target
}

/// Chunks of a plain document: each but the last is full, and each next one begins inside
/// the one before where there is to be an overlap, and right behind it where not.
spec fn chained(all: Seq<LineView>, pieces: Seq<PieceView>, overlap: nat) -> bool {
    forall|i: int, j: int|
        0 <= i && j == i + 1 && j < pieces.len() ==> if overlap > 0 {
            (#[trigger] pieces[j]).start < (#[trigger] pieces[i]).end
        } else {
            pieces[j].start >= pieces[i].end
        }
}

spec fn plainly(
    lines: Seq<Seq<char>>,
    markdown: bool,
    target: nat,
    overlap: nat,
    st: ChunkState,
) -> bool {
    let all = content_lines(lines, markdown);
    &&& st.stack.len() == 0
    &&& forall|i: int| 0 <= i < st.pieces.len() ==> is_full(all, #[trigger] st.pieces[i], target)
    &&& chained(all, st.pieces, overlap)
    &&& st.pieces.len() > 0 ==> st.buf.len() > 0 && if overlap > 0 {
        st.buf[0].start < st.pieces.last().end
    } else {
        st.buf[0].start >= st.pieces.last().end
    }
}

proof fn lemma_full_extend(before: Seq<LineView>, all: Seq<LineView>, p: PieceView, target: nat)
    requires
        before.len() <= all.len(),
        before == all.take(before.len() as int),
        is_full(before, p, target),
    ensures
        is_full(all, p, target),
{
    let (a, b) = choose|a: int, b: int| #[trigger]
        is_run(before, p, a, b) && b < before.len() && buf_tokens(before.subrange(a, b)) + tokens(
            before[b].text,
        ) > target;
    assert forall|i: int| 0 <= i < before.len() implies before[i] == all[i] by {
        assert(all.take(before.len() as int)[i] == all[i]);
    }
    assert(Seq::new((b - a) as nat, |i: int| all[a + i].text) =~= Seq::new(
        (b - a) as nat,
        |i: int| before[a + i].text,
    ));
    assert(all.subrange(a, b) =~= before.subrange(a, b));
    assert(is_run(all, p, a, b));
}

proof fn lemma_lines_plainly(lines: Seq<Seq<char>>, markdown: bool, target: nat, overlap: nat)
    requires
        plain_lines(lines, markdown, target),
    ensures
        plainly(
            lines,
            markdown,
            target,
            overlap,
            chunk_lines(lines, markdown, target, overlap),
        ),
    decreases lines.len(),
{
    if lines.len() > 0 {
        let front = lines.drop_last();
        let before = content_lines(front, markdown);
        let all = content_lines(lines, markdown);
        let st = chunk_lines(front, markdown, target, overlap);
        let next = chunk_lines(lines, markdown, target, overlap);
        let content = content_of(lines.last());
        lemma_content_lines_extend(lines, markdown);
        assert(lines[lines.len() - 1] == lines.last());
        if markdown {
            assert(heading_of(content_of(lines[lines.len() - 1])) is None);
            assert forall|i: int| 0 <= i < front.len() implies heading_of(
                content_of(#[trigger] front[i]),
            ) is None by {
                assert(front[i] == lines[i]);
            }
        }
        assert forall|i: int| 0 <= i < before.len() implies tokens((#[trigger] before[i]).text)
            <= target by {
            assert(all[i] == all.take(before.len() as int)[i]);
        }
        lemma_lines_plainly(front, markdown, target, overlap);
        lemma_lines_traced(front, markdown, target, overlap);
        lemma_lines_settled(front, markdown, target, overlap);
        lemma_flushed_traced(front, markdown, st);
        lemma_chunk_lines_bounds(front, markdown, target, overlap);
        assert forall|i: int| 0 <= i < st.pieces.len() implies is_full(
            all,
            #[trigger] st.pieces[i],
            target,
        ) by {
            lemma_full_extend(before, all, st.pieces[i], target);
        }
        if is_blank_text(content) {
        } else {
            assert(all[all.len() - 1].text == content);
            assert(tokens(content) <= target);
            if st.buf.len() > 0 && buf_tokens(st.buf) + tokens(content) > target {
                let a = before.len() - st.buf.len();
                let b = before.len() as int;
                let p = next.pieces.last();
                assert(is_run(before, p, a, b));
                assert forall|i: int| 0 <= i < before.len() implies before[i] == all[i] by {
                    assert(all.take(before.len() as int)[i] == all[i]);
                }
                assert(Seq::new((b - a) as nat, |i: int| all[a + i].text) =~= Seq::new(
                    (b - a) as nat,
                    |i: int| before[a + i].text,
                ));
                assert(is_run(all, p, a, b));
                assert(all.subrange(a, b) =~= st.buf);
                assert(is_full(all, p, target));
                assert forall|i: int| 0 <= i < next.pieces.len() implies is_full(
                    all,
                    #[trigger] next.pieces[i],
                    target,
                ) by {
                    if i < st.pieces.len() {
                        assert(next.pieces[i] == st.pieces[i]);
                    }
                }
                law_overlap_is_as_asked(st.buf, overlap);
                let c = carried(st.buf, overlap);
                if overlap > 0 {
                    assert(next.buf[0] == c[0]);
                    assert(c[0] == st.buf[st.buf.len() - c.len()]);
                    let m = st.buf.len() - c.len();
                    if m < st.buf.len() - 1 {
                        assert(st.buf[m].end <= st.buf[st.buf.len() - 1].start);
                    }
                } else {
                    assert(next.buf[0].start == st.offset);
                }
                assert(chained(all, next.pieces, overlap));
            } else {
                if st.buf.len() > 0 {
                    assert(next.buf[0] == st.buf[0]);
                }
            }
        }
    }
}

/// In a document of lines that each fit into a chunk, without headings, no chunk is cut
/// short: each but the last is so full that the line after it would exceed the budget.
/// Where there is to be an overlap each next chunk begins inside the one before; where
/// not, behind it.
pub proof fn law_chunks_are_full_and_overlap(
    text: Seq<char>,
    markdown: bool,
    target: nat,
    overlap: nat,
    min_tokens: nat,
    i: int,
)
    requires
        plain_lines(split_on(text, '\n'), markdown, target),
        0 <= i < chunks_of(text, markdown, target, overlap, min_tokens).len() - 1,
    ensures
        ({
            let all = content_lines(split_on(text, '\n'), markdown);
            let chunks = chunks_of(text, markdown, target, overlap, min_tokens);
            &&& is_full(all, chunks[i], target)
            &&& if overlap > 0 {
                chunks[i + 1].start < chunks[i].end
            } else {
                chunks[i + 1].start >= chunks[i].end
            }
        }),
{
    let lines = split_on(text, '\n');
    let st = chunk_lines(lines, markdown, target, overlap);
    lemma_lines_plainly(lines, markdown, target, overlap);
    let pieces = flushed(st.pieces, st.buf, path_of(st.stack));
    let out = tail_merged(pieces, min_tokens);
    assert(pieces[i] == st.pieces[i]);
    assert(out[i] == pieces[i]);
    assert(out[i + 1].start == pieces[i + 1].start);
    if i + 1 < st.pieces.len() {
        assert(pieces[i + 1] == st.pieces[i + 1]);
    }
}

/// The title of the last heading that stands before position `at`.
pub open spec fn title_before(lines: Seq<Seq<char>>, at: int) -> Option<Seq<char>>
    decreases lines.len(),
{
    if lines.len() == 0 {
        None
    } else {
        let heading = heading_of(content_of(lines.last()));
        if span(lines.drop_last()) < at && heading is Some {
            Some((heading->0).1)
        } else {
            title_before(lines.drop_last(), at)
        }
    }
}

/// A chunk stands under the heading before it: its path ends with that title, and without
/// one it has no path.
pub open spec fn under_its_heading(lines: Seq<Seq<char>>, markdown: bool, p: PieceView) -> bool {
    match title_before(lines, p.start) {
        Some(title) => if markdown {
            p.heading is Some && has_suffix(p.heading->0, title)
        } else {
            p.heading is None
        },
        None => p.heading is None,
    }
}

spec fn placed(lines: Seq<Seq<char>>, markdown: bool, st: ChunkState) -> bool {
    &&& forall|i: int|
        0 <= i < st.pieces.len() ==> under_its_heading(lines, markdown, #[trigger] st.pieces[i])
    &&& match title_before(lines, span(lines) as int) {
        Some(title) => if markdown {
            st.stack.len() > 0 && st.stack.last().1 == title
        } else {
            st.stack.len() == 0
        },
        None => st.stack.len() == 0,
    }
    &&& st.buf.len() > 0 ==> title_before(lines, st.buf[0].start) == title_before(
        lines,
        span(lines) as int,
    ) || !markdown
    &&& markdown ==> forall|i: int|
        0 <= i < st.buf.len() ==> title_before(lines, (#[trigger] st.buf[i]).start)
            == title_before(lines, span(lines) as int)
}

proof fn lemma_title_stays(lines: Seq<Seq<char>>, at: int)
    requires
        lines.len() > 0,
    ensures
        at <= span(lines.drop_last()) ==> title_before(lines, at) == title_before(
            lines.drop_last(),
            at,
        ),
{
}

proof fn lemma_title_all(lines: Seq<Seq<char>>, at: int)
    requires
        at >= span(lines),
    ensures
        title_before(lines, at) == title_before(lines, span(lines) as int),
    decreases lines.len(),
{
    if lines.len() > 0 {
        lemma_title_all(lines.drop_last(), at);
        lemma_title_all(lines.drop_last(), span(lines) as int);
    }
}

proof fn lemma_path_ends(stack: Seq<(nat, Seq<char>)>)
    requires
        stack.len() > 0,
    ensures
        path_of(stack) is Some,
        has_suffix(path_of(stack)->0, stack.last().1),
{
    let names = Seq::new(stack.len(), |i: int| stack[i].1);
    let path = joined(names, " > "@);
    let t = stack.last().1;
    assert(names.last() == t);
    let n = path.len() - t.len();
    if stack.len() == 1 {
        assert(path.subrange(0, t.len() as int) =~= t);
    } else {
        assert(path =~= joined(names.drop_last(), " > "@) + " > "@ + t);
        assert(path.subrange(n, n + t.len()) =~= t);
    }
}

proof fn lemma_flushed_placed(lines: Seq<Seq<char>>, markdown: bool, st: ChunkState)
    requires
        placed(lines, markdown, st),
    ensures
        ({
            let out = flushed(st.pieces, st.buf, path_of(st.stack));
            forall|i: int| 0 <= i < out.len() ==> under_its_heading(lines, markdown, #[trigger] out[i])
        }),
{
    let out = flushed(st.pieces, st.buf, path_of(st.stack));
    if st.stack.len() > 0 {
        lemma_path_ends(st.stack);
    }
    if st.buf.len() > 0 {
        let p = out.last();
        assert(p.start == st.buf[0].start);
        assert(under_its_heading(lines, markdown, p));
        assert forall|i: int| 0 <= i < out.len() implies under_its_heading(
            lines,
            markdown,
            #[trigger] out[i],
        ) by {
            if i < st.pieces.len() {
                assert(out[i] == st.pieces[i]);
            }
        }
    }
}

proof fn lemma_lines_placed(lines: Seq<Seq<char>>, markdown: bool, target: nat, overlap: nat)
    ensures
        placed(lines, markdown, chunk_lines(lines, markdown, target, overlap)),
    decreases lines.len(),
{
    if lines.len() > 0 {
        let front = lines.drop_last();
        let st = chunk_lines(front, markdown, target, overlap);
        let next = chunk_lines(lines, markdown, target, overlap);
        let content = content_of(lines.last());
        let here = span(front) as int;
        lemma_lines_placed(front, markdown, target, overlap);
        lemma_lines_settled(front, markdown, target, overlap);
        lemma_chunk_lines_bounds(front, markdown, target, overlap);
        lemma_flushed_placed(front, markdown, st);
        lemma_flushed_in_order(st);
        let pieces = flushed(st.pieces, st.buf, path_of(st.stack));
        lemma_title_all(front, span(lines) as int);
        assert forall|i: int| 0 <= i < pieces.len() implies under_its_heading(
            lines,
            markdown,
            #[trigger] pieces[i],
        ) by {
            lemma_title_stays(lines, pieces[i].start);
        }
        assert forall|i: int| 0 <= i < st.pieces.len() implies under_its_heading(
            lines,
            markdown,
            #[trigger] st.pieces[i],
        ) by {
            lemma_title_stays(lines, st.pieces[i].start);
        }
        assert forall|i: int| 0 <= i < st.buf.len() implies title_before(
            lines,
            (#[trigger] st.buf[i]).start,
        ) == title_before(front, st.buf[i].start) by {
            lemma_title_stays(lines, st.buf[i].start);
        }
        lemma_title_stays(lines, here);
        if heading_in(markdown, content) is Some {
        } else if is_blank_text(content) {
            if heading_of(content) is Some {
                lemma_blank_is_no_heading(content);
            }
        } else if tokens(content) > target {
            let ws = windows(content, 0, st.offset, target);
            law_windows_tile_the_line(content, 0, st.offset, target);
            if st.stack.len() > 0 {
                lemma_path_ends(st.stack);
            }
            assert forall|i: int| 0 <= i < next.pieces.len() implies under_its_heading(
                lines,
                markdown,
                #[trigger] next.pieces[i],
            ) by {
                if i < pieces.len() {
                    assert(next.pieces[i] == pieces[i]);
                } else {
                    let w = ws[i - pieces.len()];
                    assert(next.pieces[i] == window_pieces(ws, path_of(st.stack))[i - pieces.len()]);
                    lemma_title_all(front, w.start);
                }
            }
        } else if st.buf.len() > 0 && buf_tokens(st.buf) + tokens(content) > target {
            lemma_overlap_start(st.buf, overlap, st.buf.len() as int);
            let c = carried(st.buf, overlap);
            let k = st.buf.len() - c.len();
            assert(forall|i: int| 0 <= i < c.len() ==> c[i] == st.buf[i + k]);
        } else {
        }
    }
}

proof fn lemma_blank_is_no_heading(content: Seq<char>)
    requires
        is_blank_text(content),
    ensures
        heading_of(content) is None,
{
    let t = trimmed_start(content);
    crate::text::lemma_strip_front(content, crate::text::blank());
    crate::text::lemma_strip_back(t, crate::text::blank());
    assert(t.len() == 0);
    assert(leading_hashes(t) == 0);
}

/// Every chunk stands under the heading before it in the document: its path ends with that
/// title. Before the first heading, and where headings do not count, it has no path.
pub proof fn law_chunks_stand_under_their_heading(
    text: Seq<char>,
    markdown: bool,
    target: nat,
    overlap: nat,
    min_tokens: nat,
    i: int,
)
    requires
        0 <= i < chunks_of(text, markdown, target, overlap, min_tokens).len(),
    ensures
        under_its_heading(
            split_on(text, '\n'),
            markdown,
            chunks_of(text, markdown, target, overlap, min_tokens)[i],
        ),
{
    let lines = split_on(text, '\n');
    let st = chunk_lines(lines, markdown, target, overlap);
    lemma_lines_placed(lines, markdown, target, overlap);
    lemma_flushed_placed(lines, markdown, st);
    let pieces = flushed(st.pieces, st.buf, path_of(st.stack));
    let out = tail_merged(pieces, min_tokens);
    if out.len() < pieces.len() && i == out.len() - 1 {
        assert(under_its_heading(lines, markdown, pieces[i]));
    } else {
        assert(out[i] == pieces[i]);
    }
}

/// A heading closes the sections of its own level and of deeper ones, and no others; the
/// path names what stays open, outermost first.
pub proof fn law_headings_close_their_level(stack: Seq<(nat, Seq<char>)>, level: nat)
    ensures
        forall|i: int|
            0 <= i < shallower(stack, level).len() ==> (#[trigger] shallower(stack, level)[i]).0
                < level,
        forall|i: int|
            0 <= i < stack.len() && (#[trigger] stack[i]).0 < level ==> shallower(
                stack,
                level,
            ).contains(stack[i]),
        (forall|i: int| 0 <= i < stack.len() ==> (#[trigger] stack[i]).0 < level) ==> shallower(
            stack,
            level,
        ) == stack,
        shallower(stack, level).len() <= stack.len(),
    decreases stack.len(),
{
    if stack.len() > 0 {
        let front = stack.drop_last();
        law_headings_close_their_level(front, level);
        let out = shallower(stack, level);
        let rest = shallower(front, level);
        assert forall|i: int| 0 <= i < stack.len() && (#[trigger] stack[i]).0 < level implies out.contains(
            stack[i],
        ) by {
            if i < front.len() {
                assert(front[i] == stack[i]);
                let j = choose|j: int| 0 <= j < rest.len() && rest[j] == front[i];
                assert(out[j] == stack[i]);
            } else {
                assert(out[out.len() - 1] == stack[i]);
            }
        }
        if forall|i: int| 0 <= i < stack.len() ==> (#[trigger] stack[i]).0 < level {
            assert forall|i: int| 0 <= i < front.len() implies (#[trigger] front[i]).0 < level by {
                assert(front[i] == stack[i]);
            }
            assert(stack[stack.len() - 1].0 < level);
            assert(out =~= stack);
        }
    }
}

/// The characters that count are counted one by one.
pub proof fn law_characters_are_counted_one_by_one(a: Seq<char>, b: Seq<char>)
    ensures
        cjk_count(a + b) == cjk_count(a) + cjk_count(b),
        other_count(a + b) == other_count(a) + other_count(b),
    decreases b.len(),
{
    if b.len() == 0 {
        assert(a + b =~= a);
        assert(cjk_count(a) + cjk_count(b) == cjk_count(a));
        assert(other_count(a) + other_count(b) == other_count(a));
    } else {
        law_characters_are_counted_one_by_one(a, b.drop_last());
        assert((a + b).drop_last() =~= a + b.drop_last());
        assert((a + b).last() == b.last());
        assert(cjk_count(a + b) == cjk_count(a) + cjk_count(b));
        assert(other_count(a + b) == other_count(a) + other_count(b));
    }
}

/// A CJK character is one token, four other characters are one, and white space is none.
pub proof fn law_tokens_are_counted(s: Seq<char>, c: char)
    ensures
        white_space(c) ==> tokens(s.push(c)) == tokens(s),
        !white_space(c) && cjk(c) ==> tokens(s.push(c)) == tokens(s) + 1,
        cjk_count(s) == 0 ==> 4 * tokens(s) >= other_count(s) && 4 * tokens(s) < other_count(s) + 4,
        (forall|i: int| 0 <= i < s.len() ==> !white_space(#[trigger] s[i]) && !cjk(s[i]))
            ==> other_count(s) == s.len() && cjk_count(s) == 0,
        (forall|i: int| 0 <= i < s.len() ==> !white_space(#[trigger] s[i]) && cjk(s[i])) ==> tokens(
            s,
        ) == s.len(),
        (forall|i: int| 0 <= i < s.len() ==> white_space(#[trigger] s[i])) ==> tokens(s) == 0,
    decreases s.len(),
{
    assert(s.push(c).drop_last() =~= s);
    if s.len() > 0 {
        let front = s.drop_last();
        law_tokens_are_counted(front, c);
        assert(s[s.len() - 1] == s.last());
        assert forall|i: int| 0 <= i < front.len() implies front[i] == s[i] by {}
        if forall|i: int| 0 <= i < s.len() ==> !white_space(#[trigger] s[i]) && !cjk(s[i]) {
            assert forall|i: int| 0 <= i < front.len() implies !white_space(#[trigger] front[i])
                && !cjk(front[i]) by {
                assert(s[i] == front[i]);
            }
        }
        if forall|i: int| 0 <= i < s.len() ==> !white_space(#[trigger] s[i]) && cjk(s[i]) {
            assert forall|i: int| 0 <= i < front.len() implies !white_space(#[trigger] front[i])
                && cjk(front[i]) by {
                assert(s[i] == front[i]);
            }
            lemma_all_cjk(s);
        }
        if forall|i: int| 0 <= i < s.len() ==> white_space(#[trigger] s[i]) {
            assert forall|i: int| 0 <= i < front.len() implies white_space(#[trigger] front[i]) by {
                assert(s[i] == front[i]);
            }
        }
    }
}

proof fn lemma_all_cjk(s: Seq<char>)
    requires
        forall|i: int| 0 <= i < s.len() ==> !white_space(#[trigger] s[i]) && cjk(s[i]),
    ensures
        cjk_count(s) == s.len(),
        other_count(s) == 0,
    decreases s.len(),
{
    if s.len() > 0 {
        let front = s.drop_last();
        assert(s[s.len() - 1] == s.last());
        assert forall|i: int| 0 <= i < front.len() implies !white_space(#[trigger] front[i]) && cjk(
            front[i],
        ) by {
            assert(s[i] == front[i]);
        }
        lemma_all_cjk(front);
    }
}

/// A line of one to six `#`, a space and a title is a heading of that level and title; a
/// line with more of them, or with none, is no heading.
pub proof fn law_headings_are_read(hashes: Seq<char>, title: Seq<char>)
    requires
        forall|i: int| 0 <= i < hashes.len() ==> hashes[i] == '#',
        title.len() > 0,
        trimmed(title) == title,
        title[0] != '#',
    ensures
        1 <= hashes.len() <= 6 ==> heading_of(hashes + seq![' '] + title) == Some(
            (hashes.len(), title),
        ),
        hashes.len() > 6 || hashes.len() == 0 ==> heading_of(hashes + seq![' '] + title) is None,
        hashes.len() > 0 ==> heading_of(hashes + title) is None,
{
    lemma_title_ends(title);
    let lead = seq![' '];
    let rest = lead + title;
    lemma_spaced(title);
    let line = hashes + lead + title;
    let n = hashes.len() as int;
    if n > 0 {
        lemma_no_front(line);
        lemma_leading_hashes(line, n);
        assert(line.skip(n) =~= rest);
        let tight = hashes + title;
        lemma_no_front(tight);
        lemma_leading_hashes(tight, n);
        assert(tight.skip(n) =~= title);
    } else {
        assert(line =~= rest);
        lemma_front_of(lead, title);
        lemma_leading_hashes(title, 0);
    }
}

proof fn lemma_title_ends(title: Seq<char>)
    requires
        title.len() > 0,
        trimmed(title) == title,
    ensures
        !white_space(title[0]),
        !white_space(title.last()),
{
    crate::text::law_trimming_takes_white_space(title);
}

proof fn lemma_spaced(title: Seq<char>)
    requires
        title.len() > 0,
        !white_space(title[0]),
        !white_space(title.last()),
    ensures
        trimmed(seq![' '] + title) == title,
        !is_blank_text(seq![' '] + title),
        white_space((seq![' '] + title)[0]),
{
    let none = Seq::<char>::empty();
    let lead = seq![' '];
    crate::text::law_trimming_finds_the_core(lead, title, none);
    assert(lead + title + none =~= lead + title);
}

proof fn lemma_no_front(s: Seq<char>)
    requires
        s.len() > 0,
        !white_space(s[0]),
    ensures
        trimmed_start(s) == s,
{
    crate::text::law_trimming_takes_white_space(s);
    if trimmed_start(s).len() < s.len() {
        assert(white_space(s[0]));
    }
    assert(s.skip(0) =~= s);
}

proof fn lemma_front_of(lead: Seq<char>, title: Seq<char>)
    requires
        lead == seq![' '],
        title.len() > 0,
        !white_space(title[0]),
    ensures
        trimmed_start(lead + title) == title,
{
    let s = lead + title;
    crate::text::law_trimming_takes_white_space(s);
    let t = trimmed_start(s);
    let n = s.len() - t.len();
    if n == 0 {
        assert(s.skip(0) =~= s);
        assert(t[0] == ' ');
    }
    if n > 1 {
        assert(s[1] == title[0]);
        assert(white_space(s[1]));
    }
    assert(s.skip(1) =~= title);
}

/// A window ends as soon as it is full: when it has the tokens that are aimed at, or with
/// the end of a sentence when it has half of them.
pub proof fn law_windows_end_when_full(s: Seq<char>, start: int, from: int, target: nat)
    requires
        0 <= start <= from,
    ensures
        ({
            let e = window_end(s, start, from, target);
            &&& from < s.len() ==> from <= e <= s.len()
            &&& from <= e < s.len() ==> tokens(s.subrange(start, e + 1)) >= target || (
            sentence_end(s[e]) && tokens(s.subrange(start, e + 1)) >= target / 2)
            &&& forall|i: int|
                from <= i < e && i < s.len() ==> tokens(#[trigger] s.subrange(start, i + 1))
                    < target && (!sentence_end(s[i]) || tokens(s.subrange(start, i + 1)) < target
                    / 2)
        }),
    decreases s.len() - from,
{
    if from < s.len() && !window_full(s, start, from, target) {
        law_windows_end_when_full(s, start, from + 1, target);
        let e = window_end(s, start, from, target);
        assert forall|i: int| from <= i < e && i < s.len() implies tokens(
            #[trigger] s.subrange(start, i + 1),
        ) < target && (!sentence_end(s[i]) || tokens(s.subrange(start, i + 1)) < target / 2) by {
            if i == from {
                assert(!window_full(s, start, from, target));
            }
        }
    }
}

/// A last chunk that is too small joins the one before it, where both stand under the same
/// heading: the text of the first, a line break, and the text of the second. Nothing else
/// changes, and no text is lost.
pub proof fn law_small_tails_join(pieces: Seq<PieceView>, min_tokens: nat)
    ensures
        ({
            let after = tail_merged(pieces, min_tokens);
            let joins = pieces.len() >= 2 && tokens(pieces.last().text) < min_tokens
                && pieces[pieces.len() - 2].heading == pieces.last().heading;
            &&& !joins ==> after == pieces
            &&& joins ==> ({
                let n = pieces.len() - 2;
                &&& after.len() == pieces.len() - 1
                &&& after.take(n) == pieces.take(n)
                &&& after[n].text == pieces[n].text + seq!['\n'] + pieces[n + 1].text
                &&& after[n].start == pieces[n].start && after[n].end == pieces[n + 1].end
                &&& after[n].heading == pieces[n].heading
            })
        }),
{
    let after = tail_merged(pieces, min_tokens);
    if pieces.len() >= 2 && tokens(pieces.last().text) < min_tokens && pieces[pieces.len()
        - 2].heading == pieces.last().heading {
        let n = pieces.len() - 2;
        assert(after.take(n) =~= pieces.take(n));
        assert(after[n].text =~= pieces[n].text + seq!['\n'] + pieces[n + 1].text);
    }
}

/// The path of headings names the open headings from the outermost in.
pub proof fn law_paths_name_the_headings(
    stack: Seq<(nat, Seq<char>)>,
    level: nat,
    title: Seq<char>,
)
    ensures
        path_of(Seq::<(nat, Seq<char>)>::empty()) is None,
        path_of(seq![(level, title)]) == Some(title),
        stack.len() > 0 ==> path_of(stack.push((level, title))) == Some(
            path_of(stack)->0 + seq![' ', '>', ' '] + title,
        ),
{
    reveal_strlit(" > ");
    assert(" > "@ =~= seq![' ', '>', ' ']);
    let all = stack.push((level, title));
    let names = Seq::new(all.len(), |i: int| all[i].1);
    assert(names.drop_last() =~= Seq::new(stack.len(), |i: int| stack[i].1));
    assert(names.last() == title);
}

} // verus!
