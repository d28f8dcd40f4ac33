//! The width of text on a terminal.

use crate::chars;
use unicode_width::UnicodeWidthStr;
use vstd::prelude::*;

verus! {

/// The number of terminal columns that `unicode_width` gives to a text.
pub uninterp spec fn width_of(text: Seq<char>) -> nat;

/// `unicode_width::UnicodeWidthStr::width`: the number of columns of a text, taken as a whole. The
/// empty text has none, a single ASCII character has one, and so has each printable ASCII
/// character of a text that is made of them alone.
#[verifier::external_body]
pub fn display_width(text: &str) -> (width: usize)
    ensures
        width == width_of(text@),
        text@.len() == 0 ==> width == 0,
        text@.len() == 1 && (text@[0] as u32) < 0x80 ==> width == 1,
        (forall|i: int| 0 <= i < text@.len() ==> 0x20 <= (#[trigger] text@[i]) as u32 <= 0x7e)
            ==> width == text@.len(),
{
    UnicodeWidthStr::width(text)
}

/// The number of characters of the longest beginning of `text`, among those of up to `k`
/// characters, that is at most `max_width` columns wide.
pub open spec fn fitting_len(text: Seq<char>, max_width: int, k: int) -> int
    decreases k,
{
    if k <= 0 {
        0
    } else if width_of(text.take(k)) <= max_width {
        k
    } else {
        fitting_len(text, max_width, k - 1)
    }
}

/// The longest beginning of a text that is at most `max_width` columns wide.
pub fn truncate_display_width(text: &str, max_width: usize) -> (truncated: String)
    ensures
        truncated@ == text@.take(fitting_len(text@, max_width as int, text@.len() as int)),
{
    let characters = chars::chars_of(text);
    let mut best: String = String::new();
    let mut prefix: String = String::new();
    let mut i: usize = 0;
    assert(best@ =~= text@.take(0));
    while i < characters.len()
        invariant
            i <= characters@.len(),
            characters@ == text@,
            prefix@ == text@.take(i as int),
            best@ == text@.take(fitting_len(text@, max_width as int, i as int)),
        decreases characters@.len() - i,
    {
        prefix.push(characters[i]);
        assert(prefix@ =~= text@.take(i + 1));
        if display_width(prefix.as_str()) <= max_width {
            best = prefix.clone();
        }
        i = i + 1;
    }
    best
}

/// A truncated text is the beginning of the text, it fits, and no longer beginning does; a text
/// that fits is not truncated.
pub proof fn law_truncation_is_longest_fit(text: Seq<char>, max_width: int)
    ensures
        ({
            let len = fitting_len(text, max_width, text.len() as int);
            &&& 0 <= len <= text.len()
            &&& len > 0 ==> width_of(text.take(len)) <= max_width
            &&& forall|k: int|
                len < k <= text.len() ==> width_of(#[trigger] text.take(k)) > max_width
            &&& 0 < text.len() && width_of(text) <= max_width ==> text.take(len) == text
        }),
{
    lemma_fitting_len(text, max_width, text.len() as int);
    assert(text.take(text.len() as int) =~= text);
}

proof fn lemma_fitting_len(text: Seq<char>, max_width: int, n: int)
    requires
        0 <= n <= text.len(),
    ensures
        0 <= fitting_len(text, max_width, n) <= n,
        fitting_len(text, max_width, n) > 0 ==> width_of(
            text.take(fitting_len(text, max_width, n)),
        ) <= max_width,
        forall|k: int|
            fitting_len(text, max_width, n) < k <= n ==> width_of(#[trigger] text.take(k))
                > max_width,
    decreases n,
{
    if n > 0 && width_of(text.take(n)) > max_width {
        lemma_fitting_len(text, max_width, n - 1);
    }
}

} // verus!
