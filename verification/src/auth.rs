//! The text side of signing in: the application's credentials as they are
//! kept on file, and the authorization code in the request by which the
//! platform redirects the operator's browser back.

use crate::text::{chars_of, lemma_pieces_of, pieces_of, split_on, texts};
use vstd::prelude::*;

verus! {

/// The application's credentials.
#[derive(Debug)]
pub struct Credentials {
    pub client_id: String,
    pub client_secret: String,
}

/// The credentials in a text of the form `id:secret`: the first two of the
/// pieces between its colons. None where the text has no colon.
pub open spec fn credentials_of(contents: Seq<char>) -> Option<(Seq<char>, Seq<char>)> {
    let pieces = pieces_of(contents, ':');
    if pieces.len() >= 2 {
        Some((pieces[0], pieces[1]))
    } else {
        None
    }
}

/// The text of optional credentials.
pub open spec fn credentials_view(credentials: Option<Credentials>) -> Option<
    (Seq<char>, Seq<char>),
> {
    match credentials {
        Some(c) => Some((c.client_id@, c.client_secret@)),
        None => None,
    }
}

/// The key that precedes the authorization code in a request target.
pub open spec fn code_key() -> Seq<char> {
    seq!['c', 'o', 'd', 'e', '=']
}

/// Whether the key stands at position `k` of `target`.
pub open spec fn key_at(target: Seq<char>, k: int) -> bool {
    &&& 0 <= k
    &&& k + 5 <= target.len()
    &&& target.subrange(k, k + 5) == code_key()
}

/// The last position of `c` in `text`, or -1 where `c` does not occur.
pub open spec fn last_index_of(text: Seq<char>, c: char) -> int
    decreases text.len(),
{
    if text.len() == 0 {
        -1
    } else if text.last() == c {
        text.len() - 1
    } else {
        last_index_of(text.drop_last(), c)
    }
}

/// The last position at which the key stands in `target` and ends at or
/// before position `end`, or -1 where there is none.
pub open spec fn last_key_before(target: Seq<char>, end: int) -> int
    decreases end,
{
    if end < 5 {
        -1
    } else if key_at(target, end - 5) {
        end - 5
    } else {
        last_key_before(target, end - 1)
    }
}

/// The authorization code in a request target: what stands between the last
/// key that has an ampersand somewhere behind it and the last ampersand. A
/// target without such a key is the code as a whole.
pub open spec fn code_in(target: Seq<char>) -> Seq<char> {
    let end = last_index_of(target, '&');
    let key = last_key_before(target, end);
    if key >= 0 {
        target.subrange(key + 5, end)
    } else {
        target
    }
}

/// The target of a request: the second of the words, set apart by single
/// spaces, of its first line. None where the first line is one word.
pub open spec fn request_target(request: Seq<char>) -> Option<Seq<char>> {
    let words = pieces_of(pieces_of(request, '\n')[0], ' ');
    if words.len() >= 2 {
        Some(words[1])
    } else {
        None
    }
}

/// The authorization code that a redirect request carries.
pub open spec fn authorization_code_of(request: Seq<char>) -> Option<Seq<char>> {
    match request_target(request) {
        Some(target) => Some(code_in(target)),
        None => None,
    }
}

/// The text of an optional string.
pub open spec fn text_of(s: Option<String>) -> Option<Seq<char>> {
    match s {
        Some(s) => Some(s@),
        None => None,
    }
}

/// Reads the application's credentials from a text of the form `id:secret`.
/// Whatever follows a second colon is left aside.
pub fn parse_credentials(contents: &str) -> (credentials: Option<Credentials>)
    ensures
        credentials_view(credentials) == credentials_of(contents@),
{
    let pieces = split_on(contents, ':');
    if pieces.len() >= 2 {
        Some(Credentials { client_id: pieces[0].clone(), client_secret: pieces[1].clone() })
    } else {
        None
    }
}

/// Whether the key stands at position `k`.
fn has_key_at(chars: &Vec<char>, k: usize) -> (b: bool)
    requires
        k + 5 <= chars.len(),
    ensures
        b == key_at(chars@, k as int),
{
    let b = chars[k] == 'c' && chars[k + 1] == 'o' && chars[k + 2] == 'd' && chars[k + 3] == 'e'
        && chars[k + 4] == '=';
    proof {
        let part = chars@.subrange(k as int, k + 5);
        if b {
            assert(part =~= code_key());
        } else {
            assert(part[0] == chars@[k as int]);
            assert(part[1] == chars@[k + 1]);
            assert(part[2] == chars@[k + 2]);
            assert(part[3] == chars@[k + 3]);
            assert(part[4] == chars@[k + 4]);
        }
    }
    b
}

/// The authorization code in a request target.
fn extract_code(target: &str) -> (code: String)
    ensures
        code@ == code_in(target@),
{
    let chars = chars_of(target);
    let mut end: usize = chars.len();
    assert(target@.take(end as int) =~= target@);
    while end > 0 && chars[end - 1] != '&'
        invariant
            chars@ == target@,
            end <= chars.len(),
            last_index_of(target@, '&') == last_index_of(target@.take(end as int), '&'),
        decreases end,
    {
        proof {
            assert(target@.take(end as int).drop_last() =~= target@.take(end - 1));
        }
        end = end - 1;
    }
    if end == 0 {
        assert(target@.take(0).len() == 0);
        assert(last_key_before(target@, -1) == -1);
        return target.to_owned();
    }
    let end = end - 1;
    assert(last_index_of(target@, '&') == end) by {
        assert(target@.take(end + 1).last() == '&');
    }
    let mut stop: usize = end;
    while stop >= 5 && !has_key_at(&chars, stop - 5)
        invariant
            chars@ == target@,
            stop <= end < chars.len(),
            last_key_before(target@, end as int) == last_key_before(target@, stop as int),
        decreases stop,
    {
        stop = stop - 1;
    }
    if stop < 5 {
        target.to_owned()
    } else {
        target.substring_char(stop, end).to_owned()
    }
}

/// The authorization code in the request by which the browser comes back
/// from the platform's sign-in page. None where the first line of the
/// request names no target.
pub fn authorization_code(request: &str) -> (code: Option<String>)
    ensures
        text_of(code) == authorization_code_of(request@),
{
    let lines = split_on(request, '\n');
    proof {
        lemma_pieces_of(request@, '\n');
    }
    let words = split_on(lines[0].as_str(), ' ');
    if words.len() >= 2 {
        Some(extract_code(words[1].as_str()))
    } else {
        None
    }
}

} // verus!
