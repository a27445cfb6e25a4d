//! The tryte alphabet and lookups into it.
use vstd::prelude::*;

verus! {

/// Number of symbols in the tryte alphabet.
pub const RADIX: usize = 27;

/// The tryte alphabet, in digit order: `'9'` is the digit 0, `'A'` to `'Z'` are 1 to 26.
pub open spec fn tryte_alphabet() -> Seq<char> {
    seq![
        '9', 'A', 'B', 'C', 'D', 'E', 'F', 'G', 'H', 'I', 'J', 'K', 'L', 'M', 'N', 'O', 'P',
        'Q', 'R', 'S', 'T', 'U', 'V', 'W', 'X', 'Y', 'Z',
    ]
}

/// The digit that a symbol stands for, if it is a symbol of the alphabet.
pub open spec fn digit_of(c: char) -> Option<nat> {
    if c == '9' {
        Some(0)
    } else if 65 <= c as u32 <= 90 {
        Some((c as u32 - 64) as nat)
    } else {
        None
    }
}

/// The alphabet holds exactly the symbols with a digit, each at the index of its digit.
pub proof fn lemma_alphabet_digits()
    ensures
        tryte_alphabet().len() == 27,
        forall|i: int| 0 <= i < 27 ==> #[trigger] digit_of(tryte_alphabet()[i]) == Some(i as nat),
        forall|c: char| #[trigger] digit_of(c) is Some ==> digit_of(c)->0 < 27
            && tryte_alphabet()[digit_of(c)->0 as int] == c,
{
    let a = tryte_alphabet();
    assert(a[0] == '9');
    assert(a[1] == 'A');
    assert(a[2] == 'B');
    assert(a[3] == 'C');
    assert(a[4] == 'D');
    assert(a[5] == 'E');
    assert(a[6] == 'F');
    assert(a[7] == 'G');
    assert(a[8] == 'H');
    assert(a[9] == 'I');
    assert(a[10] == 'J');
    assert(a[11] == 'K');
    assert(a[12] == 'L');
    assert(a[13] == 'M');
    assert(a[14] == 'N');
    assert(a[15] == 'O');
    assert(a[16] == 'P');
    assert(a[17] == 'Q');
    assert(a[18] == 'R');
    assert(a[19] == 'S');
    assert(a[20] == 'T');
    assert(a[21] == 'U');
    assert(a[22] == 'V');
    assert(a[23] == 'W');
    assert(a[24] == 'X');
    assert(a[25] == 'Y');
    assert(a[26] == 'Z');
    assert forall|c: char| #[trigger] digit_of(c) is Some implies digit_of(c)->0 < 27
        && a[digit_of(c)->0 as int] == c by {
        if c != '9' {
            let u = c as u32;
            assert(c == (u as char)) by {
                vstd::utf8::char_u32_cast(c, u);
            }
        }
    }
}

/// Relies on `iota_constants::TRYTE_ALPHABET`: the array `'9'`, `'A'`, ..., `'Z'`.
#[verifier::external_body]
pub(crate) fn tryte_symbol(i: usize) -> (c: char)
    requires
        i < 27,
    ensures
        c == tryte_alphabet()[i as int],
{
    iota_constants::TRYTE_ALPHABET[i]
}

/// Finds the digit of a symbol by its position in the alphabet.
pub fn digit_of_symbol(c: char) -> (r: Option<usize>)
    ensures
        r matches Some(d) ==> digit_of(c) == Some(d as nat),
        r is None ==> digit_of(c) is None,
{
    proof {
        lemma_alphabet_digits();
    }
    let mut i: usize = 0;
    while i < RADIX
        invariant
            i <= RADIX,
            forall|j: int| 0 <= j < i ==> tryte_alphabet()[j] != c,
        decreases RADIX - i,
    {
        if tryte_symbol(i) == c {
            return Some(i);
        }
        i = i + 1;
    }
    None
}

} // verus!
