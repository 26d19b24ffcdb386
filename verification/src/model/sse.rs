//! Lines of a server-sent event stream.

use vstd::prelude::*;

use crate::text::{chars_of, copy_str, matches_at, split_char, string_of_range, trim};
use crate::text::{
    char_index, has_prefix, lemma_char_index, lemma_char_index_unique, split_on, strings, trimmed,
};

use crate::text::{law_trimming_finds_the_core, law_trimming_takes_white_space, white_space};

verus! {

/// What `String::from_utf8_lossy` makes of bytes.
pub uninterp spec fn lossy_text(bytes: Seq<u8>) -> Seq<char>;

/// Calls `String::from_utf8_lossy`, which reads bytes as UTF-8 and puts U+FFFD in
/// place of what is not. The text is a function of the bytes.
#[verifier::external_body]
fn text_from_bytes(bytes: &[u8]) -> (r: String)
    ensures
        r@ == lossy_text(bytes@),
{
    String::from_utf8_lossy(bytes).into_owned()
}

/// The text that a chunk of a stream stands for.
pub fn chunk_text(bytes: &[u8]) -> (r: String)
    ensures
        r@ == lossy_text(bytes@),
{
    text_from_bytes(bytes)
}

/// `s` without every `p` at its front.
pub open spec fn without_prefixes(s: Seq<char>, p: Seq<char>) -> Seq<char>
    decreases s.len(),
{
    if p.len() > 0 && has_prefix(s, p) {
        without_prefixes(s.skip(p.len() as int), p)
    } else {
        s
    }
}

/// `s` without every `p` at its front.
pub fn strip_prefixes(s: &str, p: &str) -> (r: String)
    ensures
        r@ == without_prefixes(s@, p@),
{
    let v = chars_of(s);
    let pv = chars_of(p);
    let n: usize = v.len();
    if pv.len() == 0 {
        return copy_str(s);
    }
    let mut i: usize = 0;
    assert(v@.skip(0) == v@);
    while matches_at(v.as_slice(), pv.as_slice(), i)
        invariant
            i <= n,
            n == v@.len(),
            pv@.len() > 0,
            v@ == s@,
            pv@ == p@,
            without_prefixes(v@.skip(i as int), pv@) == without_prefixes(s@, p@),
        decreases n - i,
    {
        proof {
            let rest = v@.skip(i as int);
            assert(rest.subrange(0, pv@.len() as int) == v@.subrange(i as int, i + pv@.len()));
            assert(rest.skip(pv@.len() as int) == v@.skip(i + pv@.len()));
        }
        i = i + pv.len();
    }
    proof {
        let rest = v@.skip(i as int);
        if has_prefix(rest, pv@) {
            assert(rest.subrange(0, pv@.len() as int) == v@.subrange(i as int, i + pv@.len()));
        }
        assert(rest == v@.subrange(i as int, n as int));
    }
    string_of_range(v.as_slice(), i, n)
}

/// The data that a line of the stream carries.
pub open spec fn line_data(line: Seq<char>) -> Option<Seq<char>> {
    let t = trimmed(line);
    if has_prefix(t, "data:"@) {
        let data = trimmed(without_prefixes(t, "data:"@));
        if data.len() == 0 {
            None
        } else {
            Some(data)
        }
    } else {
        None
    }
}

/// The data that a line of the stream carries; nothing for other lines and for
/// empty data.
pub fn data_of_line(line: &str) -> (r: Option<String>)
    ensures
        crate::text::opt_text(r) == line_data(line@),
{
    let t = trim(line);
    if !crate::text::starts_with(t.as_str(), "data:") {
        return None;
    }
    let rest = strip_prefixes(t.as_str(), "data:");
    let data = trim(rest.as_str());
    if data.as_str().is_empty() {
        None
    } else {
        Some(data)
    }
}

/// The lines that have ended in the text so far.
pub open spec fn ended_lines(text: Seq<char>) -> Seq<Seq<char>> {
    split_on(text, '\n').drop_last()
}

/// What has arrived of the line that has not ended yet.
pub open spec fn open_line(text: Seq<char>) -> Seq<char> {
    split_on(text, '\n').last()
}

/// Parts the text so far into the lines that have ended and the open one.
pub fn split_lines(text: &str) -> (r: (Vec<String>, String))
    ensures
        strings(r.0@) == ended_lines(text@),
        r.1@ == open_line(text@),
{
    let mut parts = split_char(text, '\n');
    let ghost all = strings(parts@);
    let last = match parts.pop() {
        Some(l) => l,
        None => String::new(),
    };
    assert(all.last() == last@);
    assert(strings(parts@) == all.drop_last());
    (parts, last)
}

/// There is always at least one piece.
pub proof fn lemma_split_on_some(s: Seq<char>, c: char)
    ensures
        split_on(s, c).len() > 0,
{
}

/// Splitting goes on where it left off: only the open piece can still change.
pub proof fn lemma_split_concat(a: Seq<char>, b: Seq<char>, c: char)
    ensures
        split_on(a + b, c) == split_on(a, c).drop_last() + split_on(split_on(a, c).last() + b, c),
    decreases a.len(),
{
    lemma_char_index(a, c);
    let i = char_index(a, c);
    if i >= a.len() {
        assert(split_on(a, c) == seq![a]);
        assert(split_on(a, c).drop_last() == Seq::<Seq<char>>::empty());
    } else {
        let rest = a.skip(i + 1);
        lemma_split_concat(rest, b, c);
        lemma_split_on_some(rest, c);
        lemma_char_index_unique(a + b, c, i);
        assert((a + b).take(i) == a.take(i));
        assert((a + b).skip(i + 1) == rest + b);
        let tail = split_on(rest, c);
        assert(split_on(a, c) == seq![a.take(i)] + tail);
        assert(split_on(a, c).last() == tail.last());
        assert(split_on(a, c).drop_last() == seq![a.take(i)] + tail.drop_last());
        assert(split_on(a + b, c) == seq![a.take(i)] + split_on(rest + b, c));
    }
}

/// However the text of a stream is cut, the same lines arrive: those that ended
/// with the first chunk, and those that end once the second continues the open
/// line.
pub proof fn law_cuts_do_not_change_lines(a: Seq<char>, b: Seq<char>)
    ensures
        ended_lines(a + b) == ended_lines(a) + ended_lines(open_line(a) + b),
        open_line(a + b) == open_line(open_line(a) + b),
{
    lemma_split_concat(a, b, '\n');
    let x = split_on(a, '\n').drop_last();
    let y = split_on(open_line(a) + b, '\n');
    lemma_split_on_some(open_line(a) + b, '\n');
    assert((x + y).drop_last() == x + y.drop_last());
}

/// A line `data:` and a text carries the text, white space around it aside; a line that
/// begins otherwise carries nothing.
pub proof fn law_lines_carry_their_data(lead: Seq<char>, data: Seq<char>)
    requires
        forall|i: int| 0 <= i < lead.len() ==> lead[i] == ' ',
        data.len() > 0,
        trimmed(data) == data,
        !has_prefix(data, "data:"@),
    ensures
        line_data("data:"@ + lead + data) == Some(data),
{
    reveal_strlit("data:");
    let p = "data:"@;
    let line = p + lead + data;
    let none = Seq::<char>::empty();
    lemma_fixed_ends(data);
    assert(line[0] == 'd');
    assert(line.last() == data.last());
    law_trimming_finds_the_core(none, line, none);
    assert(none + line + none =~= line);
    assert(line.subrange(0, p.len() as int) =~= p);
    let rest = lead + data;
    assert(line.skip(p.len() as int) =~= rest);
    assert(!has_prefix(rest, p)) by {
        if has_prefix(rest, p) {
            assert(rest.subrange(0, p.len() as int)[0] == 'd');
            if lead.len() > 0 {
                assert(rest[0] == ' ');
            } else {
                assert(rest =~= data);
            }
        }
    }
    assert(without_prefixes(rest, p) == rest);
    assert(without_prefixes(line, p) == without_prefixes(rest, p));
    law_trimming_finds_the_core(lead, data, none);
    assert(lead + data + none =~= rest);
}

proof fn lemma_fixed_ends(data: Seq<char>)
    requires
        data.len() > 0,
        trimmed(data) == data,
    ensures
        !white_space(data[0]),
        !white_space(data.last()),
{
    law_trimming_takes_white_space(data);
}

} // verus!
