//! The table of supported characters: each has an ordinal, and each ordinal in
//! use has exactly one character.
use vstd::prelude::*;

verus! {

/// Ordinal of the newline character.
pub const NEWLINE_ORDINAL: usize = 10;

/// Ordinal of the first printable character, the space.
pub const FIRST_PRINTABLE: usize = 32;

/// Ordinal of the last printable character, `'~'`.
pub const LAST_PRINTABLE: usize = 126;

/// Whether `o` is the ordinal of a printable character (space to `'~'`).
pub open spec fn is_printable_ordinal(o: nat) -> bool {
    FIRST_PRINTABLE <= o <= LAST_PRINTABLE
}

/// The ordinal of a supported character: 10 for newline, the character's
/// code for printable ASCII, and nothing for any other character.
pub open spec fn spec_ordinal_of(c: char) -> Option<nat> {
    if c == '\n' {
        Some(NEWLINE_ORDINAL as nat)
    } else if is_printable_ordinal(c as u32 as nat) {
        Some(c as u32 as nat)
    } else {
        None
    }
}

/// The character that an ordinal stands for, if any.
pub open spec fn spec_char_of(o: nat) -> Option<char> {
    if o == NEWLINE_ORDINAL {
        Some('\n')
    } else if is_printable_ordinal(o) {
        Some((o as u32) as char)
    } else {
        None
    }
}

/// Ordinals and characters are in one-to-one correspondence: each lookup is
/// the inverse of the other.
pub proof fn lemma_ordinal_char_inverse()
    ensures
        forall|c: char| #[trigger] spec_ordinal_of(c) is Some ==> spec_char_of(spec_ordinal_of(c)->0) == Some(c),
        forall|o: nat| #[trigger] spec_char_of(o) is Some ==> spec_ordinal_of(spec_char_of(o)->0) == Some(o),
{
    assert forall|c: char| #[trigger] spec_ordinal_of(c) is Some implies spec_char_of(spec_ordinal_of(c)->0) == Some(c) by {
        if c != '\n' {
            vstd::utf8::char_u32_cast(c, c as u32);
        }
    }
}

/// Looks up the ordinal of a character.
pub fn ordinal_of(c: char) -> (r: Option<usize>)
    ensures
        r matches Some(o) ==> spec_ordinal_of(c) == Some(o as nat),
        r is None ==> spec_ordinal_of(c) is None,
{
    if c == '\n' {
        Some(NEWLINE_ORDINAL)
    } else {
        let code = c as u32;
        if FIRST_PRINTABLE as u32 <= code && code <= LAST_PRINTABLE as u32 {
            Some(code as usize)
        } else {
            None
        }
    }
}

/// Looks up the character of an ordinal.
pub fn char_of(o: usize) -> (r: Option<char>)
    ensures
        r matches Some(c) ==> spec_char_of(o as nat) == Some(c),
        r is None ==> spec_char_of(o as nat) is None,
{
    if o == NEWLINE_ORDINAL {
        Some('\n')
    } else if FIRST_PRINTABLE <= o && o <= LAST_PRINTABLE {
        Some((o as u8) as char)
    } else {
        None
    }
}

} // verus!
