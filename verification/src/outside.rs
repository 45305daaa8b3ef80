//! What this library takes on trust from std and from the crates it calls.

use crate::fcp::Timestamp;
use crate::text::{joined, occurrences, views};
use itertools::Itertools;
use vstd::prelude::*;

verus! {

/// `String::push` appends one character to the string.
pub assume_specification[ String::push ](s: &mut String, c: char)
    ensures
        final(s)@ == old(s)@.push(c),
;

/// Whether a character has the Unicode property `White_Space`: the
/// characters from the tabulator to the carriage return, the blank, the next
/// line character, the no-break space, the Ogham space mark, the spaces from
/// the en quad to the hair space, the line and the paragraph separator, the
/// narrow no-break space, the medium mathematical space and the ideographic
/// space.
pub open spec fn white_space(c: char) -> bool {
    ('\u{9}' <= c && c <= '\u{d}') || c == ' ' || c == '\u{85}' || c == '\u{a0}' || c
        == '\u{1680}' || ('\u{2000}' <= c && c <= '\u{200a}') || c == '\u{2028}' || c
        == '\u{2029}' || c == '\u{202f}' || c == '\u{205f}' || c == '\u{3000}'
}

/// `char::is_whitespace` tells whether the character has the Unicode property
/// `White_Space`, which is the set that [`white_space`] lists.
pub assume_specification[ char::is_whitespace ](c: char) -> (r: bool)
    ensures
        r == white_space(c),
;

/// `Itertools::join` on the items of a vector: the result is empty for no
/// items; else it is the first item, and then for each further item the
/// separator and the item, in order.
#[verifier::external_body]
pub(crate) fn join_with(items: &Vec<String>, sep: &str) -> (r: String)
    ensures
        r@ == joined(views(items@), sep@),
{
    items.iter().join(sep)
}

/// Whether one of the pairs has the text `x` as its key.
pub open spec fn has_key(pairs: Seq<(String, usize)>, x: Seq<char>) -> bool {
    exists|i: int| 0 <= i < pairs.len() && (#[trigger] pairs[i]).0@ == x
}

/// `Itertools::counts` on the items of a vector, with the entries of the map
/// that it returns handed out as pairs. Each text that is among the items is
/// the key of exactly one pair, and the pair holds how many of the items are
/// that text. The order of the pairs is that in which the map is walked, of
/// which nothing is known.
#[verifier::external_body]
pub(crate) fn count_each(items: &Vec<String>) -> (r: Vec<(String, usize)>)
    ensures
        forall|i: int|
            0 <= i < r.len() ==> (#[trigger] r[i]).1 > 0 && r[i].1 == occurrences(
                views(items@),
                r[i].0@,
            ),
        forall|i: int, j: int|
            0 <= i < j < r.len() ==> (#[trigger] r[i]).0@ != (#[trigger] r[j]).0@,
        forall|k: int| 0 <= k < items.len() ==> has_key(r@, (#[trigger] items[k])@),
{
    items.iter().counts().into_iter().map(|(key, count)| (key.clone(), count)).collect()
}

/// What `chrono::Utc::now` returns, as plain values: the day, written with
/// the format `%Y-%m-%d`, and the moment as the seconds since the start of
/// 1970 with the nanoseconds within the second. It depends on the clock, so
/// nothing is known of it.
#[verifier::external_body]
pub(crate) fn utc_now() -> (String, Timestamp) {
    let now = chrono::Utc::now();
    let moment = Timestamp { secs: now.timestamp(), nanos: now.timestamp_subsec_nanos() };
    (now.format("%Y-%m-%d").to_string(), moment)
}

} // verus!
