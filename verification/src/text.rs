//! Searching text.

use vstd::prelude::*;
use vstd::string::{StrSliceExecFns, StringSliceAdditionalSpecFns};
use vstd::utf8::{encode_scalar, encode_utf8};

verus! {

/// A place where `c` stands in `text` with no `c` before it is the first
/// place of `c`.
pub proof fn lemma_first_place(text: Seq<char>, c: char, place: int)
    requires
        0 <= place < text.len(),
        text[place] == c,
        forall|j: int| 0 <= j < place ==> text[j] != c,
    ensures
        text.index_of_first(c) == Some(place),
{
    text.index_of_first_ensures(c);
    assert(text.contains(c));
}

/// A place where `c` stands in `text` with no `c` after it is the last
/// place of `c`.
pub proof fn lemma_last_place(text: Seq<char>, c: char, place: int)
    requires
        0 <= place < text.len(),
        text[place] == c,
        forall|j: int| place < j < text.len() ==> text[j] != c,
    ensures
        text.index_of_last(c) == Some(place),
{
    text.index_of_last_ensures(c);
    assert(text.contains(c));
}

/// A text in which `c` stands nowhere has no first and no last place of it.
pub proof fn lemma_no_place(text: Seq<char>, c: char)
    requires
        forall|j: int| 0 <= j < text.len() ==> text[j] != c,
    ensures
        text.index_of_first(c) is None,
        text.index_of_last(c) is None,
{
    text.index_of_first_ensures(c);
    text.index_of_last_ensures(c);
}

/// What [`find_last`] returns: where `c` stands in `text`, the length of
/// `text` in bytes less the number of characters that follow the last `c`.
/// In text of one byte to the character this is the place just behind that
/// `c`.
pub open spec fn last_end_of(text: Seq<char>, c: char) -> Option<int> {
    match text.index_of_last(c) {
        Some(place) => Some(encode_utf8(text).len() - (text.len() - 1 - place)),
        None => None,
    }
}

/// A text takes at least one byte for each of its characters.
pub proof fn lemma_bytes_cover_chars(text: Seq<char>)
    ensures
        encode_utf8(text).len() >= text.len(),
    decreases text.len(),
{
    if text.len() > 0 {
        lemma_bytes_cover_chars(text.drop_first());
        assert(encode_scalar(text[0] as u32).len() >= 1);
    }
}

/// Looks for the last `c` in `text`, and returns the length of `text` in
/// bytes less the number of characters that follow it.
pub fn find_last(text: &str, c: char) -> (found: Option<usize>)
    ensures
        found is Some <==> last_end_of(text@, c) is Some,
        found matches Some(end) ==> last_end_of(text@, c) == Some(end as int),
{
    let bytes: usize = text.as_bytes().len();
    let length: usize = text.unicode_len();
    proof {
        lemma_bytes_cover_chars(text@);
    }
    let mut place: usize = length;
    while place > 0
        invariant
            length == text@.len(),
            bytes == encode_utf8(text@).len(),
            bytes >= length,
            place <= length,
            forall|j: int| place <= j < length ==> text@[j] != c,
        decreases place,
    {
        place = place - 1;
        if text.get_char(place) == c {
            proof {
                lemma_last_place(text@, c, place as int);
            }
            return Some(bytes - (length - 1 - place));
        }
    }
    proof {
        text@.index_of_last_ensures(c);
    }
    None
}

} // verus!
