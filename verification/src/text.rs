//! Text as a sequence of characters: reading the characters of a string and
//! splitting at a separator.

use vstd::prelude::*;

verus! {

/// The text of each string in a list.
pub open spec fn texts(strings: Seq<String>) -> Seq<Seq<char>> {
    strings.map_values(|s: String| s@)
}

/// The pieces of a text between the occurrences of a separator. A text in
/// which the separator occurs `n` times has `n + 1` pieces, some of which may
/// be empty.
pub open spec fn pieces_of(text: Seq<char>, separator: char) -> Seq<Seq<char>>
    decreases text.len(),
{
    if text.len() == 0 {
        seq![Seq::empty()]
    } else {
        let before = pieces_of(text.drop_last(), separator);
        if text.last() == separator {
            before.push(Seq::empty())
        } else {
            before.drop_last().push(before.last().push(text.last()))
        }
    }
}

/// There is always a piece, and the separator is in none.
pub proof fn lemma_pieces_of(text: Seq<char>, separator: char)
    ensures
        pieces_of(text, separator).len() >= 1,
        forall|k: int, j: int|
            0 <= k < pieces_of(text, separator).len() && 0 <= j < pieces_of(
                text,
                separator,
            )[k].len() ==> pieces_of(text, separator)[k][j] != separator,
    decreases text.len(),
{
    if text.len() > 0 {
        lemma_pieces_of(text.drop_last(), separator);
    }
}

/// The characters of a text.
pub fn chars_of(text: &str) -> (chars: Vec<char>)
    ensures
        chars@ == text@,
{
    let mut chars: Vec<char> = Vec::new();
    for c in it: text.chars()
        invariant
            it.seq() == text@,
            chars@ == text@.take(it.index() as int),
    {
        chars.push(c);
    }
    chars
}

/// Splits a text at every occurrence of a separator.
pub fn split_on(text: &str, separator: char) -> (pieces: Vec<String>)
    ensures
        texts(pieces@) == pieces_of(text@, separator),
{
    let chars = chars_of(text);
    let n = chars.len();
    let mut pieces: Vec<String> = Vec::new();
    let mut start: usize = 0;
    let mut i: usize = 0;
    assert(text@.subrange(0, 0) =~= Seq::<char>::empty());
    assert(texts(pieces@).push(text@.subrange(0, 0)) =~= pieces_of(text@.take(0), separator));
    while i < n
        invariant
            n == text@.len(),
            chars@ == text@,
            start <= i <= n,
            pieces_of(text@.take(i as int), separator) == texts(pieces@).push(
                text@.subrange(start as int, i as int),
            ),
        decreases n - i,
    {
        let ghost before = pieces_of(text@.take(i as int), separator);
        proof {
            assert(text@.take(i + 1).drop_last() =~= text@.take(i as int));
            assert(before.drop_last() =~= texts(pieces@));
        }
        if chars[i] == separator {
            let piece = text.substring_char(start, i).to_owned();
            let ghost shorter = texts(pieces@);
            pieces.push(piece);
            start = i + 1;
            assert(texts(pieces@) =~= shorter.push(piece@));
            assert(text@.subrange(start as int, i + 1) =~= Seq::<char>::empty());
        } else {
            assert(text@.subrange(start as int, i + 1) =~= text@.subrange(
                start as int,
                i as int,
            ).push(text@[i as int]));
        }
        i = i + 1;
    }
    assert(text@.take(i as int) =~= text@);
    let piece = text.substring_char(start, i).to_owned();
    let ghost shorter = texts(pieces@);
    pieces.push(piece);
    assert(texts(pieces@) =~= shorter.push(piece@));
    pieces
}

} // verus!
