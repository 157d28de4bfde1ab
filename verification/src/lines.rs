//! The format of a word list as text: one word per line, lines separated by a
//! line feed, index order the order of the lines.

use crate::store::{words, WordLists};
use vstd::prelude::*;
use vstd::string::StrSliceExecFns;

verus! {

/// The lines of a text. Each line feed ends one line and starts the next, so
/// a text with `n` line feeds has `n + 1` lines, and a text that ends in a
/// line feed has the empty line as its last.
pub open spec fn lines_of(text: Seq<char>) -> Seq<Seq<char>>
    decreases text.len(),
{
    if text.len() == 0 {
        seq![Seq::empty()]
    } else {
        let before = lines_of(text.drop_last());
        if text.last() == '\n' {
            before.push(Seq::empty())
        } else {
            before.drop_last().push(before.last().push(text.last()))
        }
    }
}

/// The text that has these lines: the lines in order, with a line feed
/// between each two.
pub open spec fn text_of(lines: Seq<Seq<char>>) -> Seq<char>
    decreases lines.len(),
{
    if lines.len() == 0 {
        Seq::empty()
    } else if lines.len() == 1 {
        lines[0]
    } else {
        text_of(lines.drop_last()) + seq!['\n'] + lines.last()
    }
}

/// Whether the character at `at` is a line feed.
fn line_feed_at(text: &str, ascii: bool, at: usize) -> (found: bool)
    requires
        ascii ==> text.is_ascii(),
        at < text@.len(),
    ensures
        found == (text@[at as int] == '\n'),
{
    if ascii {
        text.get_ascii(at) == 10u8
    } else {
        text.get_char(at) == '\n'
    }
}

/// The characters of `text` from `from` up to `to`.
fn piece<'a>(text: &'a str, ascii: bool, from: usize, to: usize) -> (part: &'a str)
    requires
        ascii ==> text.is_ascii(),
        from <= to <= text@.len(),
    ensures
        part@ == text@.subrange(from as int, to as int),
{
    if ascii {
        text.substring_ascii(from, to)
    } else {
        text.substring_char(from, to)
    }
}

/// Splits a text into its lines.
pub fn split_lines<'a>(text: &'a str) -> (lines: Vec<&'a str>)
    ensures
        words(lines@) == lines_of(text@),
{
    let ascii: bool = text.is_ascii();
    let total: usize = text.unicode_len();
    let mut lines: Vec<&'a str> = Vec::new();
    let mut start: usize = 0;
    let mut at: usize = 0;
    assert(text@.take(0) =~= Seq::empty());
    assert(words(lines@).push(text@.subrange(0, 0)) =~= seq![Seq::empty()]);
    while at < total
        invariant
            ascii ==> text.is_ascii(),
            total == text@.len(),
            start <= at <= total,
            lines_of(text@.take(at as int)) == words(lines@).push(
                text@.subrange(start as int, at as int),
            ),
        decreases total - at,
    {
        let ghost before = lines_of(text@.take(at as int));
        let ghost listed = words(lines@);
        assert(text@.take(at + 1).drop_last() =~= text@.take(at as int));
        assert(text@.take(at + 1).last() == text@[at as int]);
        if line_feed_at(text, ascii, at) {
            let line = piece(text, ascii, start, at);
            lines.push(line);
            start = at + 1;
            assert(words(lines@) =~= listed.push(line@));
            assert(text@.subrange(start as int, at + 1) =~= Seq::empty());
        } else {
            assert(before.drop_last() =~= listed);
            assert(text@.subrange(start as int, at + 1) =~= text@.subrange(
                start as int,
                at as int,
            ).push(text@[at as int]));
        }
        at = at + 1;
    }
    let line = piece(text, ascii, start, total);
    assert(text@.take(total as int) =~= text@);
    assert(words(lines@.push(line)) =~= words(lines@).push(line@));
    lines.push(line);
    lines
}

/// A text has at least one line, no line holds a line feed, and the last line
/// is empty exactly where the text is empty or ends in a line feed.
pub proof fn lemma_lines_are_plain(text: Seq<char>)
    ensures
        lines_of(text).len() >= 1,
        forall|i: int| 0 <= i < lines_of(text).len() ==> !(#[trigger] lines_of(text)[i]).contains('\n'),
        lines_of(text).last().len() == 0 <==> text.len() == 0 || text.last() == '\n',
    decreases text.len(),
{
    if text.len() > 0 {
        let before = lines_of(text.drop_last());
        lemma_lines_are_plain(text.drop_last());
        if text.last() != '\n' {
            let grown = before.last().push(text.last());
            assert(grown.last() == text.last());
            assert forall|i: int| 0 <= i < lines_of(text).len() implies !(#[trigger] lines_of(
                text,
            )[i]).contains('\n') by {
                if i == lines_of(text).len() - 1 {
                    assert(lines_of(text)[i] == grown);
                    if grown.contains('\n') {
                        let k = choose|k: int| 0 <= k < grown.len() && grown[k] == '\n';
                        if k < before.last().len() {
                            assert(before.last()[k] == '\n');
                            assert(before.last().contains('\n'));
                        }
                    }
                } else {
                    assert(lines_of(text)[i] == before[i]);
                }
            }
        } else {
            assert forall|i: int| 0 <= i < lines_of(text).len() implies !(#[trigger] lines_of(
                text,
            )[i]).contains('\n') by {
                if i < before.len() {
                    assert(lines_of(text)[i] == before[i]);
                }
            }
        }
    }
}

/// Splitting loses nothing: the lines of a text, put together again with a
/// line feed between each two, are the text.
pub proof fn lemma_text_of_lines(text: Seq<char>)
    ensures
        text_of(lines_of(text)) == text,
    decreases text.len(),
{
    if text.len() == 0 {
        assert(lines_of(text)[0] =~= text);
    } else {
        let rest = text.drop_last();
        let before = lines_of(rest);
        let lines = lines_of(text);
        lemma_text_of_lines(rest);
        lemma_lines_are_plain(rest);
        if text.last() == '\n' {
            assert(lines.drop_last() =~= before);
            assert(text_of(lines) =~= rest + seq!['\n'] + Seq::empty());
            assert(text =~= rest + seq!['\n'] + Seq::empty());
        } else if before.len() == 1 {
            assert(text_of(lines) == before[0].push(text.last()));
            assert(text =~= rest.push(text.last()));
        } else {
            assert(lines.drop_last() =~= before.drop_last());
            assert(text_of(lines) =~= (text_of(before.drop_last()) + seq!['\n']
                + before.last()).push(text.last()));
            assert(text =~= rest.push(text.last()));
        }
    }
}

/// Characters without a line feed, put behind a text, lengthen its last line
/// and change no other.
pub proof fn lemma_lines_of_longer_last_line(text: Seq<char>, more: Seq<char>)
    requires
        !more.contains('\n'),
    ensures
        lines_of(text + more) == lines_of(text).drop_last().push(lines_of(text).last() + more),
    decreases more.len(),
{
    lemma_lines_are_plain(text);
    if more.len() == 0 {
        assert(text + more =~= text);
        assert(lines_of(text).last() + more =~= lines_of(text).last());
        assert(lines_of(text).drop_last().push(lines_of(text).last()) =~= lines_of(text));
    } else {
        let shorter = more.drop_last();
        assert(more[more.len() - 1] == more.last());
        assert(more.last() != '\n');
        assert(!shorter.contains('\n')) by {
            if shorter.contains('\n') {
                let k = choose|k: int| 0 <= k < shorter.len() && shorter[k] == '\n';
                assert(more[k] == '\n');
            }
        }
        lemma_lines_of_longer_last_line(text, shorter);
        assert((text + more).drop_last() =~= text + shorter);
        assert((text + more).last() == more.last());
        let before = lines_of(text + shorter);
        assert(before.drop_last() =~= lines_of(text).drop_last());
        assert(before.last().push(more.last()) =~= lines_of(text).last() + more);
    }
}

/// Splitting makes up nothing: a list of at least one line, none of which
/// holds a line feed, is the list of lines of its own text.
pub proof fn lemma_lines_of_text(lines: Seq<Seq<char>>)
    requires
        lines.len() >= 1,
        forall|i: int| 0 <= i < lines.len() ==> !(#[trigger] lines[i]).contains('\n'),
    ensures
        lines_of(text_of(lines)) == lines,
    decreases lines.len(),
{
    let empty = Seq::<char>::empty();
    if lines.len() == 1 {
        lemma_lines_of_longer_last_line(empty, lines[0]);
        assert(empty + lines[0] =~= lines[0]);
        assert(lines_of(empty) =~= seq![empty]);
        assert(lines_of(lines[0]) =~= lines);
    } else {
        let head = lines.drop_last();
        let ended = text_of(head) + seq!['\n'];
        assert forall|i: int| 0 <= i < head.len() implies !(#[trigger] head[i]).contains('\n') by {
            assert(head[i] == lines[i]);
        }
        lemma_lines_of_text(head);
        assert(ended.drop_last() =~= text_of(head));
        assert(ended.last() == '\n');
        assert(lines_of(ended) == head.push(empty));
        lemma_lines_of_longer_last_line(ended, lines.last());
        assert(head.push(empty).drop_last() =~= head);
        assert(empty + lines.last() =~= lines.last());
        assert(head.push(lines.last()) =~= lines);
    }
}

/// When the lines of two texts make valid lists: neither text is empty or
/// ends in a line feed, and the adjectives' text holds a line feed.
pub proof fn lemma_valid_lists_of_texts(animals: Seq<char>, adjectives: Seq<char>)
    ensures
        (WordLists { animals: lines_of(animals), adjectives: lines_of(adjectives) }).valid() <==> {
            &&& animals.len() > 0
            &&& animals.last() != '\n'
            &&& adjectives.len() > 0
            &&& adjectives.last() != '\n'
            &&& adjectives.contains('\n')
        },
{
    lemma_lines_are_plain(animals);
    lemma_lines_are_plain(adjectives);
    lemma_one_line_without_line_feed(adjectives);
}

/// A text is a single line exactly where it holds no line feed.
pub proof fn lemma_one_line_without_line_feed(text: Seq<char>)
    ensures
        lines_of(text).len() == 1 <==> !text.contains('\n'),
    decreases text.len(),
{
    lemma_lines_are_plain(text);
    if text.len() > 0 {
        let rest = text.drop_last();
        lemma_one_line_without_line_feed(rest);
        lemma_lines_are_plain(rest);
        if text.last() == '\n' {
            assert(text[text.len() - 1] == '\n');
        } else if rest.contains('\n') {
            let k = choose|k: int| 0 <= k < rest.len() && rest[k] == '\n';
            assert(text[k] == '\n');
        } else if text.contains('\n') {
            let k = choose|k: int| 0 <= k < text.len() && text[k] == '\n';
            assert(rest[k] == '\n');
        }
    }
}

} // verus!
