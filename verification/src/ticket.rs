//! Canonical tickets: the comparison key under which two raw names denote
//! the same participant.

use crate::text::{chars_of, texts};
use vstd::prelude::*;

verus! {

/// Whether `c` carries the Unicode `White_Space` property.
pub uninterp spec fn is_white_space(c: char) -> bool;

/// The uppercase equivalent of `s` under the locale-independent Unicode
/// case mapping.
pub uninterp spec fn uppercase_of(s: Seq<char>) -> Seq<char>;

/// `char::is_whitespace`: reports whether the character has the `White_Space`
/// property. The contract only gives that answer its name.
pub assume_specification[ char::is_whitespace ](c: char) -> (b: bool)
    ensures
        b == is_white_space(c),
;

/// `str::to_uppercase`: the uppercase equivalent of the slice as a new
/// `String`. The mapping depends on the text alone; the contract names it and
/// claims nothing else about it.
pub assume_specification[ str::to_uppercase ](s: &str) -> (r: String)
    ensures
        r@ == uppercase_of(s@),
;

/// Length of `s` once its trailing white space is cut off.
pub open spec fn trimmed_len(s: Seq<char>) -> nat
    decreases s.len(),
{
    if s.len() > 0 && is_white_space(s.last()) {
        trimmed_len(s.drop_last())
    } else {
        s.len()
    }
}

/// `s` without its trailing white space. Leading white space stays.
pub open spec fn trimmed(s: Seq<char>) -> Seq<char> {
    s.take(trimmed_len(s) as int)
}

/// The canonical form of a raw name: trailing white space removed, then
/// converted to uppercase.
pub open spec fn canonical_form(raw: Seq<char>) -> Seq<char> {
    uppercase_of(trimmed(raw))
}

/// `trimmed_len(s)` is the one cut point after which only white space
/// follows and before which the text is empty or ends in a visible character.
pub proof fn lemma_trimmed_len(s: Seq<char>)
    ensures
        trimmed_len(s) <= s.len(),
        forall|i: int| trimmed_len(s) <= i < s.len() ==> is_white_space(#[trigger] s[i]),
        trimmed_len(s) > 0 ==> !is_white_space(s[trimmed_len(s) - 1]),
    decreases s.len(),
{
    if s.len() > 0 && is_white_space(s.last()) {
        let front = s.drop_last();
        lemma_trimmed_len(front);
        assert forall|i: int| trimmed_len(s) <= i < s.len() implies is_white_space(
            #[trigger] s[i],
        ) by {
            if i < front.len() {
                assert(s[i] == front[i]);
            }
        }
    }
}

/// Any cut point with the two properties of `lemma_trimmed_len` is
/// `trimmed_len(s)`.
pub proof fn lemma_trimmed_len_unique(s: Seq<char>, n: int)
    requires
        0 <= n <= s.len(),
        forall|i: int| n <= i < s.len() ==> is_white_space(#[trigger] s[i]),
        n > 0 ==> !is_white_space(s[n - 1]),
    ensures
        trimmed_len(s) == n,
    decreases s.len(),
{
    if s.len() > 0 && is_white_space(s.last()) {
        let front = s.drop_last();
        assert forall|i: int| n <= i < front.len() implies is_white_space(#[trigger] front[i]) by {
            assert(front[i] == s[i]);
        }
        lemma_trimmed_len_unique(front, n);
    } else if s.len() > 0 {
        assert(!is_white_space(s[s.len() - 1]));
    }
}

/// Trimming is idempotent: trimmed text has no trailing white space left.
pub proof fn lemma_trimmed_idempotent(s: Seq<char>)
    ensures
        trimmed(trimmed(s)) == trimmed(s),
{
    lemma_trimmed_len(s);
    let t = trimmed(s);
    lemma_trimmed_len_unique(t, t.len() as int);
    assert(t.take(t.len() as int) =~= t);
}

/// White space at the end of a raw name does not tell participants apart:
/// the canonical form is the same with and without it.
pub proof fn lemma_trailing_white_space_ignored(raw: Seq<char>, tail: Seq<char>)
    requires
        forall|i: int| 0 <= i < tail.len() ==> is_white_space(#[trigger] tail[i]),
    ensures
        trimmed(raw + tail) == trimmed(raw),
        canonical_form(raw + tail) == canonical_form(raw),
{
    let n = trimmed_len(raw) as int;
    let longer = raw + tail;
    lemma_trimmed_len(raw);
    assert forall|i: int| n <= i < longer.len() implies is_white_space(#[trigger] longer[i]) by {
        if i < raw.len() {
            assert(longer[i] == raw[i]);
        } else {
            assert(longer[i] == tail[i - raw.len()]);
        }
    }
    assert(n > 0 ==> longer[n - 1] == raw[n - 1]);
    lemma_trimmed_len_unique(longer, n);
    assert(longer.take(n) =~= raw.take(n));
}

/// Where uppercasing leaves the trimmed text of a raw name as it is, that
/// text is the canonical form, and normalizing it again changes nothing.
pub proof fn lemma_canonical_form_of_uppercase(raw: Seq<char>)
    requires
        uppercase_of(trimmed(raw)) == trimmed(raw),
    ensures
        canonical_form(raw) == trimmed(raw),
        canonical_form(canonical_form(raw)) == canonical_form(raw),
{
    lemma_trimmed_idempotent(raw);
}

/// Cuts the trailing white space off `raw`.
pub fn trim_end(raw: &str) -> (r: &str)
    ensures
        r@ == trimmed(raw@),
{
    let chars = chars_of(raw);
    let mut n: usize = chars.len();
    while n > 0 && chars[n - 1].is_whitespace()
        invariant
            chars@ == raw@,
            n <= raw@.len(),
            forall|i: int| n <= i < raw@.len() ==> is_white_space(#[trigger] raw@[i]),
        decreases n,
    {
        n = n - 1;
    }
    proof {
        lemma_trimmed_len_unique(raw@, n as int);
    }
    raw.substring_char(0, n)
}

/// A participant's name in canonical form.
///
/// Two raw names denote the same participant exactly when their tickets have
/// the same view.
#[derive(Debug)]
pub struct CanonicalTicket {
    pub(crate) name: String,
}

impl View for CanonicalTicket {
    type V = Seq<char>;

    closed spec fn view(&self) -> Seq<char> {
        self.name@
    }
}

impl CanonicalTicket {
    /// The canonical name as text.
    pub fn as_str(&self) -> (s: &str)
        ensures
            s@ == self@,
    {
        self.name.as_str()
    }

    /// Whether both tickets belong to the same participant.
    pub fn same_participant(&self, other: &CanonicalTicket) -> (b: bool)
        ensures
            b == (self@ == other@),
    {
        self.name == other.name
    }

    /// A second ticket for the same participant.
    pub fn duplicate(&self) -> (t: CanonicalTicket)
        ensures
            t@ == self@,
    {
        CanonicalTicket { name: self.name.clone() }
    }
}

/// The canonical names that a sequence of tickets stands for.
pub open spec fn names(tickets: Seq<CanonicalTicket>) -> Seq<Seq<char>> {
    tickets.map_values(|t: CanonicalTicket| t@)
}

/// The canonical form of each raw name, in the same order.
pub open spec fn canonical_forms(raw: Seq<Seq<char>>) -> Seq<Seq<char>> {
    raw.map_values(|r: Seq<char>| canonical_form(r))
}

/// The ticket of the participant that `raw` names.
pub fn normalize(raw: &str) -> (t: CanonicalTicket)
    ensures
        t@ == canonical_form(raw@),
{
    CanonicalTicket { name: trim_end(raw).to_uppercase() }
}

/// The tickets of a list of raw names, one per name and in the same order.
pub fn normalize_all(raw: &Vec<String>) -> (tickets: Vec<CanonicalTicket>)
    ensures
        names(tickets@) == canonical_forms(texts(raw@)),
{
    let mut tickets: Vec<CanonicalTicket> = Vec::new();
    let mut i: usize = 0;
    while i < raw.len()
        invariant
            i <= raw.len(),
            tickets.len() == i,
            forall|k: int| 0 <= k < i ==> (#[trigger] tickets[k])@ == canonical_form(raw[k]@),
        decreases raw.len() - i,
    {
        tickets.push(normalize(raw[i].as_str()));
        i = i + 1;
    }
    assert(names(tickets@) =~= canonical_forms(texts(raw@)));
    tickets
}

} // verus!
