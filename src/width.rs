//! Display width of text in terminal columns, as the Unicode width tables
//! of `unicode-width` give it.

use unicode_width::{UnicodeWidthChar, UnicodeWidthStr};
use vstd::prelude::*;

verus! {

/// Columns that the Unicode East Asian Width tables give a character at or
/// above U+00A0 (ambiguous characters counted narrow).
pub uninterp spec fn table_columns(c: char) -> nat;

/// Width of one character: `None` for a control character other than NUL,
/// one column for printable ASCII, the tables for the rest.
pub open spec fn char_width(c: char) -> Option<nat> {
    if (c as u32) < 0x7f {
        if (c as u32) >= 0x20 {
            Some(1)
        } else if (c as u32) == 0 {
            Some(0)
        } else {
            None
        }
    } else if (c as u32) >= 0xa0 {
        Some(table_columns(c))
    } else {
        None
    }
}

/// Columns that a character takes inside a string: control characters take none.
pub open spec fn columns(c: char) -> nat {
    match char_width(c) {
        Some(n) => n,
        None => 0,
    }
}

/// Display width of a string: the sum of the columns of its characters.
pub open spec fn display_width(s: Seq<char>) -> nat
    decreases s.len(),
{
    if s.len() == 0 {
        0
    } else {
        display_width(s.drop_last()) + columns(s.last())
    }
}

/// Width is additive over concatenation.
pub proof fn lemma_width_concat(a: Seq<char>, b: Seq<char>)
    ensures
        display_width(a + b) == display_width(a) + display_width(b),
    decreases b.len(),
{
    if b.len() == 0 {
        assert(a + b =~= a);
    } else {
        lemma_width_concat(a, b.drop_last());
        assert((a + b).drop_last() =~= a + b.drop_last());
    }
}

/// Printable ASCII takes one column per character.
pub proof fn lemma_width_printable_ascii(s: Seq<char>)
    requires
        forall|i: int| 0 <= i < s.len() ==> 0x20 <= #[trigger] (s[i] as u32) < 0x7f,
    ensures
        display_width(s) == s.len(),
    decreases s.len(),
{
    if s.len() > 0 {
        lemma_width_printable_ascii(s.drop_last());
    }
}

/// Relies on `UnicodeWidthChar::width` (unicode-width 0.1.11): control
/// characters by rule, printable ASCII one column, the rest from its tables,
/// whose entries are at most 2.
#[verifier::external_body]
pub(crate) fn char_width_of(c: char) -> (r: Option<usize>)
    ensures
        r is Some <==> char_width(c) is Some,
        r matches Some(n) ==> char_width(c) == Some(n as nat) && n <= 2,
        r matches Some(n) ==> (c as u32) >= 0xa0 ==> n as nat == table_columns(c),
{
    UnicodeWidthChar::width(c)
}

/// Relies on `UnicodeWidthStr::width` (unicode-width 0.1.11): the sum over
/// the characters of their width, a control character counting 0.
#[verifier::external_body]
pub(crate) fn str_width(s: &str) -> (r: usize)
    ensures
        r as nat == display_width(s@),
{
    UnicodeWidthStr::width(s)
}

/// Display width of a string in terminal columns.
pub fn width(s: &str) -> (r: usize)
    ensures
        r as nat == display_width(s@),
{
    str_width(s)
}

} // verus!
