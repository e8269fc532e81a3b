//! Text as a sequence of characters: white space, trimming, prefixes and
//! splitting at a separator.

use vstd::prelude::*;

verus! {

/// The characters of `s`, in order.
pub fn chars_of(s: &str) -> (chars: Vec<char>)
    ensures
        chars@ == s@,
{
    let mut chars: Vec<char> = Vec::new();
    for c in it: s.chars()
        invariant
            it.seq() == s@,
            chars@.len() == it.index(),
            forall|j: int| 0 <= j < chars@.len() ==> chars@[j] == it.seq()[j],
    {
        chars.push(c);
    }
    chars
}

/// Whether `c` has the Unicode property `White_Space`.
pub open spec fn is_whitespace(c: char) -> bool {
    ||| '\u{9}' <= c <= '\u{d}'
    ||| c == ' '
    ||| c == '\u{85}'
    ||| c == '\u{a0}'
    ||| c == '\u{1680}'
    ||| '\u{2000}' <= c <= '\u{200a}'
    ||| c == '\u{2028}'
    ||| c == '\u{2029}'
    ||| c == '\u{202f}'
    ||| c == '\u{205f}'
    ||| c == '\u{3000}'
}

/// Decides `is_whitespace`.
pub fn whitespace(c: char) -> (b: bool)
    ensures
        b == is_whitespace(c),
{
    ('\u{9}' <= c && c <= '\u{d}') || c == ' ' || c == '\u{85}' || c == '\u{a0}' || c
        == '\u{1680}' || ('\u{2000}' <= c && c <= '\u{200a}') || c == '\u{2028}' || c
        == '\u{2029}' || c == '\u{202f}' || c == '\u{205f}' || c == '\u{3000}'
}

/// `s` without its leading white space.
pub open spec fn trim_start(s: Seq<char>) -> Seq<char>
    decreases s.len(),
{
    if s.len() > 0 && is_whitespace(s.first()) {
        trim_start(s.drop_first())
    } else {
        s
    }
}

/// `s` without its trailing white space.
pub open spec fn trim_end(s: Seq<char>) -> Seq<char>
    decreases s.len(),
{
    if s.len() > 0 && is_whitespace(s.last()) {
        trim_end(s.drop_last())
    } else {
        s
    }
}

/// `s` without leading and trailing white space.
pub open spec fn trim(s: Seq<char>) -> Seq<char> {
    trim_end(trim_start(s))
}

/// Trims the characters of `chars` between `from` and `to`; the result is
/// the range that is left.
pub fn trim_range(chars: &Vec<char>, from: usize, to: usize) -> (range: (usize, usize))
    requires
        from <= to <= chars.len(),
    ensures
        from <= range.0 <= range.1 <= to,
        chars@.subrange(range.0 as int, range.1 as int) == trim(
            chars@.subrange(from as int, to as int),
        ),
        forall|i: int| from <= i < range.0 || range.1 <= i < to ==> is_whitespace(chars@[i]),
        range.0 < range.1 ==> !is_whitespace(chars@[range.0 as int]) && !is_whitespace(
            chars@[range.1 - 1],
        ),
{
    let mut start: usize = from;
    while start < to && whitespace(chars[start])
        invariant
            from <= start <= to <= chars.len(),
            trim_start(chars@.subrange(from as int, to as int)) == trim_start(
                chars@.subrange(start as int, to as int),
            ),
            forall|i: int| from <= i < start ==> is_whitespace(chars@[i]),
        decreases to - start,
    {
        proof {
            assert(chars@.subrange(start as int, to as int).drop_first() =~= chars@.subrange(
                start + 1,
                to as int,
            ));
        }
        start += 1;
    }
    let mut end: usize = to;
    while start < end && whitespace(chars[end - 1])
        invariant
            from <= start <= end <= to <= chars.len(),
            trim_start(chars@.subrange(from as int, to as int)) == chars@.subrange(
                start as int,
                to as int,
            ),
            forall|i: int| from <= i < start || end <= i < to ==> is_whitespace(chars@[i]),
            start < to ==> !is_whitespace(chars@[start as int]),
            trim_end(chars@.subrange(start as int, to as int)) == trim_end(
                chars@.subrange(start as int, end as int),
            ),
        decreases end - start,
    {
        proof {
            assert(chars@.subrange(start as int, end as int).drop_last() =~= chars@.subrange(
                start as int,
                end - 1,
            ));
        }
        end -= 1;
    }
    (start, end)
}

/// Whether `s` begins with `prefix`.
pub open spec fn has_prefix(s: Seq<char>, prefix: Seq<char>) -> bool {
    prefix.len() <= s.len() && s.take(prefix.len() as int) == prefix
}

/// Decides whether the characters of `chars` between `from` and `to` begin
/// with `prefix`.
pub fn starts_with(chars: &Vec<char>, from: usize, to: usize, prefix: &Vec<char>) -> (b: bool)
    requires
        from <= to <= chars.len(),
    ensures
        b == has_prefix(chars@.subrange(from as int, to as int), prefix@),
{
    let ghost s = chars@.subrange(from as int, to as int);
    if prefix.len() > to - from {
        return false;
    }
    let mut i: usize = 0;
    while i < prefix.len()
        invariant
            i <= prefix.len() <= to - from,
            to <= chars.len(),
            s == chars@.subrange(from as int, to as int),
            forall|j: int| 0 <= j < i ==> s[j] == prefix@[j],
        decreases prefix.len() - i,
    {
        if chars[from + i] != prefix[i] {
            proof {
                assert(s.take(prefix.len() as int)[i as int] == s[i as int]);
            }
            return false;
        }
        i += 1;
    }
    proof {
        assert(s.take(prefix.len() as int) =~= prefix@);
    }
    true
}

/// The first position at or after `from` that holds `sep`, or the length of
/// `s` where there is none.
pub open spec fn next_sep(s: Seq<char>, sep: char, from: int) -> int
    decreases s.len() - from,
{
    if from >= s.len() {
        s.len() as int
    } else if s[from] == sep {
        from
    } else {
        next_sep(s, sep, from + 1)
    }
}

/// The pieces of `s` from position `from` on, cut at every `sep`.
pub open spec fn split_from(s: Seq<char>, sep: char, from: int) -> Seq<Seq<char>>
    decreases s.len() - from,
{
    let end = next_sep(s, sep, from);
    if from < 0 || from > s.len() {
        Seq::empty()
    } else if from <= end < s.len() {
        seq![s.subrange(from, end)] + split_from(s, sep, end + 1)
    } else {
        seq![s.subrange(from, s.len() as int)]
    }
}

/// The pieces of `s` between occurrences of `sep`. There is always at least
/// one piece; a trailing separator is followed by an empty piece.
pub open spec fn split(s: Seq<char>, sep: char) -> Seq<Seq<char>> {
    split_from(s, sep, 0)
}

/// The lines of `text`: its pieces between line feeds. A carriage return
/// before a line feed stays with its line, as white space at its end.
pub open spec fn lines(text: Seq<char>) -> Seq<Seq<char>> {
    split(text, '\n')
}

/// `next_sep` stays within the text and finds a separator or the end; no
/// separator lies before it.
pub proof fn lemma_next_sep(s: Seq<char>, sep: char, from: int)
    requires
        0 <= from <= s.len(),
    ensures
        from <= next_sep(s, sep, from) <= s.len(),
        next_sep(s, sep, from) < s.len() ==> s[next_sep(s, sep, from)] == sep,
        forall|i: int| from <= i < next_sep(s, sep, from) ==> s[i] != sep,
    decreases s.len() - from,
{
    if from < s.len() && s[from] != sep {
        lemma_next_sep(s, sep, from + 1);
    }
}

/// The pieces put together again, with `sep` between one piece and the next.
pub open spec fn join(pieces: Seq<Seq<char>>, sep: char) -> Seq<char>
    decreases pieces.len(),
{
    if pieces.len() == 0 {
        Seq::empty()
    } else if pieces.len() == 1 {
        pieces.first()
    } else {
        pieces.first() + seq![sep] + join(pieces.drop_first(), sep)
    }
}

/// Splitting loses nothing and cuts at every separator: there is at least
/// one piece, no piece holds a separator, and the pieces joined by the
/// separator are the text again.
pub proof fn lemma_split_from(s: Seq<char>, sep: char, from: int)
    requires
        0 <= from <= s.len(),
    ensures
        split_from(s, sep, from).len() >= 1,
        join(split_from(s, sep, from), sep) == s.skip(from),
        forall|k: int, i: int|
            0 <= k < split_from(s, sep, from).len() && 0 <= i < split_from(s, sep, from)[k].len()
                ==> (#[trigger] split_from(s, sep, from)[k][i]) != sep,
    decreases s.len() - from,
{
    let end = next_sep(s, sep, from);
    let pieces = split_from(s, sep, from);
    lemma_next_sep(s, sep, from);
    if end < s.len() {
        let rest = split_from(s, sep, end + 1);
        lemma_split_from(s, sep, end + 1);
        assert(pieces.drop_first() =~= rest);
        assert(pieces.first() == s.subrange(from, end));
        assert(s.subrange(from, end) + seq![sep] + s.skip(end + 1) =~= s.skip(from));
        assert forall|k: int, i: int| 0 <= k < pieces.len() && 0 <= i < pieces[k].len() implies (
        #[trigger] pieces[k][i]) != sep by {
            if k > 0 {
                assert(pieces[k] == rest[k - 1]);
            }
        }
    } else {
        assert(s.subrange(from, s.len() as int) =~= s.skip(from));
    }
}

/// What `lemma_split_from` says, for the whole text.
pub proof fn lemma_split(s: Seq<char>, sep: char)
    ensures
        split(s, sep).len() >= 1,
        join(split(s, sep), sep) == s,
        forall|k: int, i: int|
            0 <= k < split(s, sep).len() && 0 <= i < split(s, sep)[k].len() ==> (#[trigger] split(
                s,
                sep,
            )[k][i]) != sep,
{
    lemma_split_from(s, sep, 0);
    assert(s.skip(0) =~= s);
}

/// The piece that starts at `from` ends at `end` if no separator lies
/// between them and `end` holds one or is the end of the text.
pub proof fn lemma_next_sep_is(s: Seq<char>, sep: char, from: int, end: int)
    requires
        0 <= from <= end <= s.len(),
        forall|i: int| from <= i < end ==> s[i] != sep,
        end == s.len() || s[end] == sep,
    ensures
        next_sep(s, sep, from) == end,
    decreases end - from,
{
    if from < end {
        lemma_next_sep_is(s, sep, from + 1, end);
    }
}

/// Finds the end of the piece that starts at `from`.
pub fn find_sep(chars: &Vec<char>, sep: char, from: usize) -> (end: usize)
    requires
        from <= chars.len(),
    ensures
        end == next_sep(chars@, sep, from as int),
        from <= end <= chars.len(),
        end < chars.len() ==> chars@[end as int] == sep,
        forall|i: int| from <= i < end ==> chars@[i] != sep,
{
    proof {
        lemma_next_sep(chars@, sep, from as int);
    }
    let mut end: usize = from;
    while end < chars.len() && chars[end] != sep
        invariant
            from <= end <= chars.len(),
            next_sep(chars@, sep, from as int) == next_sep(chars@, sep, end as int),
        decreases chars.len() - end,
    {
        end += 1;
    }
    end
}

} // verus!
