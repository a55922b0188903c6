//! The manifest as a text: its lines, their words, and what they declare.

use crate::text::{lowercase, white_space};
use vstd::prelude::*;

verus! {

/// The character sequences of a list of rows, in order.
pub open spec fn rows(list: Seq<Vec<char>>) -> Seq<Seq<char>> {
    Seq::new(list.len(), |i: int| list[i]@)
}

/// The number of characters before the first line feed, or the length of
/// the text where it has none.
pub open spec fn line_len(text: Seq<char>) -> int
    decreases text.len(),
{
    if text.len() == 0 || text[0] == '\n' {
        0
    } else {
        1 + line_len(text.drop_first())
    }
}

/// The line without the carriage return at its end, if it has one.
pub open spec fn strip_cr(line: Seq<char>) -> Seq<char> {
    if line.len() > 0 && line.last() == '\r' {
        line.drop_last()
    } else {
        line
    }
}

/// The lines of a text. A line ends at a line feed; the line feed, and a
/// carriage return right before it, are not part of the line. What follows
/// the last line feed is a line if it is not empty.
pub open spec fn lines_of(text: Seq<char>) -> Seq<Seq<char>>
    decreases text.len(),
{
    let n = line_len(text);
    if text.len() == 0 {
        Seq::empty()
    } else if 0 <= n < text.len() {
        seq![strip_cr(text.take(n))] + lines_of(text.skip(n + 1))
    } else {
        seq![text]
    }
}

/// The number of characters before the first gap, or the number of all
/// where there is none. `gaps` tells of each character whether it is one.
pub open spec fn word_len(gaps: Seq<bool>) -> int
    decreases gaps.len(),
{
    if gaps.len() == 0 || gaps[0] {
        0
    } else {
        1 + word_len(gaps.drop_first())
    }
}

/// The words of a line, where `gaps` tells of each character whether it
/// is a gap between words: the longest runs of characters that are none, in
/// order.
pub open spec fn words_between(line: Seq<char>, gaps: Seq<bool>) -> Seq<Seq<char>>
    decreases line.len(),
{
    let n = word_len(gaps);
    if line.len() == 0 || gaps.len() != line.len() {
        Seq::empty()
    } else if gaps[0] {
        words_between(line.drop_first(), gaps.drop_first())
    } else if 0 < n <= line.len() {
        seq![line.take(n)] + words_between(line.skip(n), gaps.skip(n))
    } else {
        seq![line]
    }
}

/// Of each character of the line, whether it is white space.
pub open spec fn white_marks(line: Seq<char>) -> Seq<bool> {
    Seq::new(line.len(), |i: int| white_space(line[i]))
}

/// The words of a line: its longest runs of characters without white
/// space, in order.
pub open spec fn words_of(line: Seq<char>) -> Seq<Seq<char>> {
    words_between(line, white_marks(line))
}

/// A line that declares a tag: the marker `#-` and at least one character
/// more.
pub open spec fn is_tag_line(line: Seq<char>) -> bool {
    line.len() > 2 && line[0] == '#' && line[1] == '-'
}

/// The tag that a tag line declares: what follows the marker, in lower
/// case.
pub open spec fn tag_of(line: Seq<char>) -> Seq<char> {
    lowercase(line.skip(2))
}

/// Some line of the manifest declares `tag`.
pub open spec fn is_manifest_tag(text: Seq<char>, tag: Seq<char>) -> bool {
    exists|i: int|
        0 <= i < lines_of(text).len() && is_tag_line(#[trigger] lines_of(text)[i]) && tag_of(
            lines_of(text)[i],
        ) == tag
}

/// The word without its double quotes.
pub open spec fn unquoted(word: Seq<char>) -> Seq<char> {
    word.filter(|c: char| c != '"')
}

/// The name that a line declares, if it declares one: the line's first
/// word is `name`, and its third word, without quotes and in lower case, is
/// the name.
pub open spec fn declared_name(line: Seq<char>) -> Option<Seq<char>> {
    let words = words_of(line);
    if words.len() >= 3 && words[0] == "name"@ {
        Some(lowercase(unquoted(words[2])))
    } else {
        None
    }
}

/// The name that the first declaring line among `lines` declares, or
/// `none` where no line declares one.
pub open spec fn name_in(lines: Seq<Seq<char>>) -> Seq<char>
    decreases lines.len(),
{
    if lines.len() == 0 {
        "none"@
    } else {
        match declared_name(lines[0]) {
            Some(name) => name,
            None => name_in(lines.drop_first()),
        }
    }
}

/// The name of the project that a manifest describes.
pub open spec fn manifest_name(text: Seq<char>) -> Seq<char> {
    name_in(lines_of(text))
}

/// A text that reaches its first line feed after `m` characters, or ends
/// there without one, has a first line of `m` characters.
pub proof fn lemma_line_len(text: Seq<char>, m: int)
    requires
        0 <= m <= text.len(),
        forall|k: int| 0 <= k < m ==> text[k] != '\n',
        m < text.len() ==> text[m] == '\n',
    ensures
        line_len(text) == m,
    decreases m,
{
    if m > 0 {
        lemma_line_len(text.drop_first(), m - 1);
    }
}

/// Marks that reach their first gap after `m` characters, or end there
/// without one, start with a word of `m` characters.
pub proof fn lemma_word_len(gaps: Seq<bool>, m: int)
    requires
        0 <= m <= gaps.len(),
        forall|k: int| 0 <= k < m ==> !gaps[k],
        m < gaps.len() ==> gaps[m],
    ensures
        word_len(gaps) == m,
    decreases m,
{
    if m > 0 {
        lemma_word_len(gaps.drop_first(), m - 1);
    }
}

/// The characters `from..to` of `chars`.
fn slice_of(chars: &Vec<char>, from: usize, to: usize) -> (part: Vec<char>)
    requires
        from <= to <= chars.len(),
    ensures
        part@ == chars@.subrange(from as int, to as int),
{
    let mut part: Vec<char> = Vec::new();
    let mut i: usize = from;
    while i < to
        invariant
            from <= i <= to <= chars.len(),
            part@ == chars@.subrange(from as int, i as int),
        decreases to - i,
    {
        part.push(chars[i]);
        assert(chars@.subrange(from as int, i + 1) =~= chars@.subrange(from as int, i as int).push(
            chars@[i as int],
        ));
        i += 1;
    }
    part
}

/// Splits a text into its lines.
pub fn split_lines(text: &Vec<char>) -> (lines: Vec<Vec<char>>)
    ensures
        rows(lines@) == lines_of(text@),
{
    let mut lines: Vec<Vec<char>> = Vec::new();
    let mut start: usize = 0;
    let mut i: usize = 0;
    proof {
        assert(text@.skip(0) =~= text@);
        assert(rows(lines@) + lines_of(text@) =~= lines_of(text@));
    }
    while i < text.len()
        invariant
            start <= i <= text.len(),
            forall|k: int| start <= k < i ==> text@[k] != '\n',
            rows(lines@) + lines_of(text@.skip(start as int)) == lines_of(text@),
        decreases text.len() - i,
    {
        if text[i] == '\n' {
            let mut end: usize = i;
            if end > start && text[end - 1] == '\r' {
                end -= 1;
            }
            let line = slice_of(text, start, end);
            proof {
                let rest = text@.skip(start as int);
                lemma_line_len(rest, i - start);
                assert(rest.take(i - start) =~= text@.subrange(start as int, i as int));
                assert(rest.skip(i - start + 1) =~= text@.skip(i + 1));
                assert(line@ =~= strip_cr(text@.subrange(start as int, i as int)));
                assert(rows(lines@.push(line)) =~= rows(lines@) + seq![line@]);
                assert(rows(lines@) + (seq![line@] + lines_of(text@.skip(i + 1))) =~= rows(lines@)
                    + seq![line@] + lines_of(text@.skip(i + 1)));
            }
            lines.push(line);
            start = i + 1;
        }
        i += 1;
    }
    if start < text.len() {
        let line = slice_of(text, start, text.len());
        proof {
            let rest = text@.skip(start as int);
            lemma_line_len(rest, rest.len() as int);
            assert(line@ =~= rest);
            assert(rows(lines@.push(line)) =~= rows(lines@) + seq![line@]);
        }
        lines.push(line);
    } else {
        assert(rows(lines@) + Seq::<Seq<char>>::empty() =~= rows(lines@));
    }
    lines
}

/// Splits a line into its words, given of each character whether it is a
/// gap between words.
pub fn split_at_gaps(line: &Vec<char>, gaps: &Vec<bool>) -> (words: Vec<Vec<char>>)
    requires
        gaps.len() == line.len(),
    ensures
        rows(words@) == words_between(line@, gaps@),
{
    let mut words: Vec<Vec<char>> = Vec::new();
    let mut i: usize = 0;
    proof {
        assert(line@.skip(0) =~= line@);
        assert(gaps@.skip(0) =~= gaps@);
        assert(rows(words@) + words_between(line@, gaps@) =~= words_between(line@, gaps@));
    }
    while i < line.len()
        invariant
            i <= line.len(),
            gaps.len() == line.len(),
            rows(words@) + words_between(line@.skip(i as int), gaps@.skip(i as int))
                == words_between(line@, gaps@),
        decreases line.len() - i,
    {
        if gaps[i] {
            assert(line@.skip(i as int).drop_first() =~= line@.skip(i + 1));
            assert(gaps@.skip(i as int).drop_first() =~= gaps@.skip(i + 1));
            i += 1;
        } else {
            let start: usize = i;
            while i < line.len() && !gaps[i]
                invariant
                    start <= i <= line.len(),
                    start < line.len(),
                    gaps.len() == line.len(),
                    !gaps@[start as int],
                    forall|k: int| start <= k < i ==> !gaps@[k],
                decreases line.len() - i,
            {
                i += 1;
            }
            let word = slice_of(line, start, i);
            proof {
                let rest = line@.skip(start as int);
                let marks = gaps@.skip(start as int);
                assert(i > start);
                lemma_word_len(marks, i - start);
                assert(rest.take(i - start) =~= line@.subrange(start as int, i as int));
                assert(rest.skip(i - start) =~= line@.skip(i as int));
                assert(marks.skip(i - start) =~= gaps@.skip(i as int));
                let tail = words_between(line@.skip(i as int), gaps@.skip(i as int));
                assert(rows(words@.push(word)) =~= rows(words@) + seq![word@]);
                assert(rows(words@) + (seq![word@] + tail) =~= rows(words@) + seq![word@] + tail);
            }
            words.push(word);
        }
    }
    assert(rows(words@) + Seq::<Seq<char>>::empty() =~= rows(words@));
    words
}

/// Splits a line into its words.
pub fn split_words(line: &Vec<char>) -> (words: Vec<Vec<char>>)
    ensures
        rows(words@) == words_of(line@),
{
    let mut gaps: Vec<bool> = Vec::new();
    let mut i: usize = 0;
    while i < line.len()
        invariant
            i <= line.len(),
            gaps@ == white_marks(line@).take(i as int),
        decreases line.len() - i,
    {
        gaps.push(line[i].is_whitespace());
        assert(white_marks(line@).take(i + 1) =~= white_marks(line@).take(i as int).push(
            white_space(line@[i as int]),
        ));
        i += 1;
    }
    assert(white_marks(line@).take(i as int) =~= white_marks(line@));
    split_at_gaps(line, &gaps)
}

} // verus!
