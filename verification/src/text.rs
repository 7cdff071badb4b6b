//! Cutting text into lines and into separated columns.
//!
//! The functions here work on the characters of a string. Their contracts are
//! stated over `Seq<char>`, the view of `str` and `String`.

use vstd::prelude::*;
use vstd::std_specs::iter::IteratorSpec;
use vstd::utf8::encode_utf8;

verus! {

/// `String::push` appends the given character to the end of the string.
pub assume_specification[ String::push ](s: &mut String, ch: char)
    ensures
        final(s)@ == old(s)@.push(ch),
;

/// The number of bytes that a text takes as a string.
pub open spec fn byte_len(text: Seq<char>) -> nat {
    encode_utf8(text).len()
}

/// A text takes at least one byte and at most four bytes for each of its
/// characters.
pub proof fn lemma_byte_len(text: Seq<char>)
    ensures
        text.len() <= byte_len(text) <= 4 * text.len(),
    decreases text.len(),
{
    if text.len() > 0 {
        lemma_byte_len(text.drop_first());
    }
}

/// The position of the first `sep` in `s`, or `s.len()` where `s` holds none.
pub open spec fn first_index_of(s: Seq<char>, sep: char) -> int
    decreases s.len(),
{
    if s.len() == 0 || s[0] == sep {
        0
    } else {
        1 + first_index_of(s.drop_first(), sep)
    }
}

/// The pieces of `s` between its separators: one more piece than `s` has
/// separators, none of which holds a separator.
pub open spec fn split_on(s: Seq<char>, sep: char) -> Seq<Seq<char>>
    decreases s.len(),
{
    let i = first_index_of(s, sep);
    if 0 <= i < s.len() {
        seq![s.take(i)] + split_on(s.skip(i + 1), sep)
    } else {
        seq![s]
    }
}

/// `s` cut at its first `sep` into what stands before and what stands after
/// it, or nothing where `s` holds no `sep`.
pub open spec fn split_once_on(s: Seq<char>, sep: char) -> Option<(Seq<char>, Seq<char>)> {
    let i = first_index_of(s, sep);
    if 0 <= i < s.len() {
        Some((s.take(i), s.skip(i + 1)))
    } else {
        None
    }
}

/// Whether a character is `c`.
pub open spec fn is_char(c: char) -> spec_fn(char) -> bool {
    |x: char| x == c
}

/// The number of times that `c` stands in `s`.
pub open spec fn count_of(s: Seq<char>, c: char) -> nat {
    s.filter(is_char(c)).len()
}

/// The pieces joined again, with `sep` between each two.
pub open spec fn join_with(pieces: Seq<Seq<char>>, sep: char) -> Seq<char>
    decreases pieces.len(),
{
    if pieces.len() == 0 {
        Seq::empty()
    } else if pieces.len() == 1 {
        pieces[0]
    } else {
        pieces[0].push(sep) + join_with(pieces.drop_first(), sep)
    }
}

/// `line` without the carriage return at its end, if it has one there.
pub open spec fn without_carriage_return(line: Seq<char>) -> Seq<char> {
    if line.len() > 0 && line.last() == '\r' {
        line.drop_last()
    } else {
        line
    }
}

/// The lines of `s`. A line ends at a line feed, which is not part of it, nor
/// is a carriage return directly before that line feed. What follows the last
/// line feed is a line of its own unless it is empty.
pub open spec fn lines_of(s: Seq<char>) -> Seq<Seq<char>>
    decreases s.len(),
{
    if s.len() == 0 {
        Seq::empty()
    } else {
        let i = first_index_of(s, '\n');
        if 0 <= i < s.len() {
            seq![without_carriage_return(s.take(i))] + lines_of(s.skip(i + 1))
        } else {
            seq![s]
        }
    }
}

/// `first_index_of` is in range, no separator stands before it, and one
/// stands at it unless it is the length.
pub proof fn lemma_first_index_of(s: Seq<char>, sep: char)
    ensures
        0 <= first_index_of(s, sep) <= s.len(),
        forall|k: int| 0 <= k < first_index_of(s, sep) ==> s[k] != sep,
        first_index_of(s, sep) < s.len() ==> s[first_index_of(s, sep)] == sep,
    decreases s.len(),
{
    if s.len() > 0 && s[0] != sep {
        let rest = s.drop_first();
        lemma_first_index_of(rest, sep);
        assert forall|k: int| 0 <= k < first_index_of(s, sep) implies s[k] != sep by {
            if k > 0 {
                assert(s[k] == rest[k - 1]);
            }
        }
    }
}

/// A position with no separator before it, which is the length or holds a
/// separator, is `first_index_of`.
pub proof fn lemma_first_index_is(s: Seq<char>, sep: char, k: int)
    requires
        0 <= k <= s.len(),
        forall|j: int| 0 <= j < k ==> s[j] != sep,
        k < s.len() ==> s[k] == sep,
    ensures
        first_index_of(s, sep) == k,
    decreases s.len(),
{
    if s.len() > 0 && s[0] != sep {
        lemma_first_index_is(s.drop_first(), sep, k - 1);
    }
}

/// There is one piece more than there are separators.
pub proof fn lemma_split_on_len(s: Seq<char>, sep: char)
    ensures
        split_on(s, sep).len() == count_of(s, sep) + 1,
    decreases s.len(),
{
    let is_sep = is_char(sep);
    let i = first_index_of(s, sep);
    lemma_first_index_of(s, sep);
    if i < s.len() {
        let head = s.take(i);
        let tail = s.skip(i + 1);
        lemma_split_on_len(tail, sep);
        assert(s == head.push(sep) + tail);
        Seq::filter_distributes_over_add(head.push(sep), tail, is_sep);
        head.lemma_filter_len_push(is_sep, sep);
        lemma_count_none(head, sep);
    } else {
        lemma_count_none(s, sep);
    }
}

/// A text in which `c` does not stand holds it zero times.
proof fn lemma_count_none(s: Seq<char>, c: char)
    requires
        forall|k: int| 0 <= k < s.len() ==> s[k] != c,
    ensures
        count_of(s, c) == 0,
    decreases s.len(),
{
    let is_c = is_char(c);
    if s.len() == 0 {
        s.lemma_filter_len(is_c);
    } else {
        let shorter = s.drop_last();
        lemma_count_none(shorter, c);
        assert(shorter.push(s.last()) == s);
        shorter.lemma_filter_len_push(is_c, s.last());
    }
}

/// No piece holds a separator, and the pieces joined with the separator are
/// the text again.
pub proof fn lemma_split_on_pieces(s: Seq<char>, sep: char)
    ensures
        forall|p: int, k: int|
            0 <= p < split_on(s, sep).len() && 0 <= k < split_on(s, sep)[p].len() ==> split_on(
                s,
                sep,
            )[p][k] != sep,
        join_with(split_on(s, sep), sep) == s,
    decreases s.len(),
{
    let i = first_index_of(s, sep);
    lemma_first_index_of(s, sep);
    if i < s.len() {
        let tail = s.skip(i + 1);
        lemma_split_on_pieces(tail, sep);
        lemma_split_on_len(tail, sep);
        assert(split_on(s, sep).drop_first() == split_on(tail, sep));
    }
}

/// No line holds a line feed, and there is a line for each line feed and
/// one more for what follows the last line feed, unless nothing follows it.
pub proof fn lemma_lines_of(s: Seq<char>)
    ensures
        forall|l: int, k: int|
            0 <= l < lines_of(s).len() && 0 <= k < lines_of(s)[l].len() ==> lines_of(s)[l][k]
                != '\n',
        lines_of(s).len() == count_of(s, '\n') + if s.len() > 0 && s.last() != '\n' {
            1int
        } else {
            0int
        },
    decreases s.len(),
{
    let i = first_index_of(s, '\n');
    lemma_first_index_of(s, '\n');
    if s.len() == 0 {
        lemma_count_none(s, '\n');
    } else if i < s.len() {
        let head = s.take(i);
        let tail = s.skip(i + 1);
        lemma_lines_of(tail);
        assert(s == head.push('\n') + tail);
        Seq::filter_distributes_over_add(head.push('\n'), tail, is_char('\n'));
        head.lemma_filter_len_push(is_char('\n'), '\n');
        lemma_count_none(head, '\n');
    } else {
        lemma_count_none(s, '\n');
    }
}

/// Cuts `s` at every `sep`. The pieces come in order and without the
/// separators; a string without a separator is its own single piece.
pub fn split_text(s: &str, sep: char) -> (pieces: Vec<String>)
    ensures
        pieces.deep_view() == split_on(s@, sep),
{
    let mut pieces: Vec<String> = Vec::new();
    let mut piece = String::new();
    let ghost mut start: int = 0;
    proof {
        assert(s@.skip(0) == s@);
    }
    for c in it: s.chars()
        invariant
            it.seq() == s@,
            0 <= start <= it.index(),
            piece@ == s@.subrange(start, it.index() as int),
            forall|k: int| start <= k < it.index() ==> s@[k] != sep,
            split_on(s@, sep) == pieces.deep_view() + split_on(s@.skip(start), sep),
    {
        if c == sep {
            pieces.push(piece);
            piece = String::new();
            proof {
                // The piece ends here: what is left begins with it.
                let i = it.index() as int;
                let tail = s@.skip(start);
                lemma_first_index_is(tail, sep, i - start);
                assert(tail.take(i - start) == s@.subrange(start, i));
                assert(tail.skip(i - start + 1) == s@.skip(i + 1));
                start = i + 1;
            }
        } else {
            piece.push(c);
        }
    }
    pieces.push(piece);
    proof {
        lemma_first_index_is(s@.skip(start), sep, s@.len() - start);
    }
    pieces
}

/// What has been read of the current line: the characters kept so far, and
/// the carriage return that is held back until the next character shows
/// whether it ends the line.
spec fn read_so_far(kept: Seq<char>, held: bool) -> Seq<char> {
    if held {
        kept.push('\r')
    } else {
        kept
    }
}

/// Cuts `content` into its lines.
pub fn split_lines(content: &str) -> (lines: Vec<String>)
    ensures
        lines.deep_view() == lines_of(content@),
{
    let mut lines: Vec<String> = Vec::new();
    let mut line = String::new();
    let mut held = false;
    let ghost mut start: int = 0;
    proof {
        assert(content@.skip(0) == content@);
    }
    for c in it: content.chars()
        invariant
            it.seq() == content@,
            0 <= start <= it.index(),
            read_so_far(line@, held) == content@.subrange(start, it.index() as int),
            !held ==> line@.len() == 0 || line@.last() != '\r',
            forall|k: int| start <= k < it.index() ==> content@[k] != '\n',
            lines_of(content@) == lines.deep_view() + lines_of(content@.skip(start)),
    {
        if c == '\n' {
            let ghost text = line@;
            lines.push(line);
            line = String::new();
            proof {
                // The line ends here, without the carriage return that was
                // held back, and what is left begins with it.
                let i = it.index() as int;
                let tail = content@.skip(start);
                lemma_first_index_is(tail, '\n', i - start);
                assert(tail.take(i - start) == content@.subrange(start, i));
                assert(tail.skip(i - start + 1) == content@.skip(i + 1));
                assert(without_carriage_return(content@.subrange(start, i)) == text);
                start = i + 1;
            }
            held = false;
        } else if c == '\r' {
            if held {
                line.push('\r');
            }
            held = true;
        } else {
            if held {
                line.push('\r');
            }
            line.push(c);
            held = false;
        }
    }
    if held {
        line.push('\r');
    }
    if !line.as_str().is_empty() {
        lines.push(line);
        proof {
            lemma_first_index_is(content@.skip(start), '\n', content@.len() - start);
        }
    }
    lines
}

/// Cuts `s` in two at its first `sep`. Further separators stay in the second
/// part.
pub fn split_once_text(s: &str, sep: char) -> (parts: Option<(String, String)>)
    ensures
        parts.deep_view() == split_once_on(s@, sep),
{
    let mut head = String::new();
    let mut rest = String::new();
    let mut found = false;
    let ghost mut at: int = 0;
    for c in it: s.chars()
        invariant
            it.seq() == s@,
            !found ==> {
                &&& head@ == s@.take(it.index() as int)
                &&& rest@.len() == 0
                &&& forall|k: int| 0 <= k < it.index() ==> s@[k] != sep
            },
            found ==> {
                &&& 0 <= at < it.index()
                &&& first_index_of(s@, sep) == at
                &&& head@ == s@.take(at)
                &&& rest@ == s@.subrange(at + 1, it.index() as int)
            },
    {
        if found {
            rest.push(c);
        } else if c == sep {
            found = true;
            proof {
                at = it.index() as int;
                lemma_first_index_is(s@, sep, at);
            }
        } else {
            head.push(c);
        }
    }
    if found {
        Some((head, rest))
    } else {
        proof {
            lemma_first_index_is(s@, sep, s@.len() as int);
        }
        None
    }
}

/// Whether two strings hold the same characters.
pub fn same_text(a: &str, b: &str) -> (same: bool)
    ensures
        same == (a@ == b@),
{
    let mut others = b.chars();
    for c in it: a.chars()
        invariant
            it.seq() == a@,
            it.index() <= b@.len(),
            others.remaining() == b@.skip(it.index() as int),
            a@.take(it.index() as int) == b@.take(it.index() as int),
    {
        match others.next() {
            Some(d) => {
                if c != d {
                    return false;
                }
            },
            None => {
                return false;
            },
        }
    }
    let last = others.next();
    proof {
        assert(a@.take(a@.len() as int) == a@);
    }
    last.is_none()
}

} // verus!
