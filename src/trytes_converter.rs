//! Encoding text as trytes and decoding it back.
use vstd::prelude::*;

use crate::alphabet::{digit_of, digit_of_symbol, lemma_alphabet_digits, tryte_alphabet, tryte_symbol, RADIX};
use crate::symbol_table::{
    char_of, lemma_ordinal_char_inverse, ordinal_of, spec_char_of, spec_ordinal_of, FIRST_PRINTABLE,
};

verus! {

/// Largest ordinal that is encoded as it is; a larger one would be encoded as
/// the space. No supported character has one.
pub const MAX_ENCODED_ORDINAL: usize = 255;

/// Why a conversion failed; each kind carries the whole input it was given.
#[derive(Debug)]
pub enum TryteConverterError {
    /// The text holds a character that has no ordinal.
    NotEncodable { string: String },
    /// The trytes hold a symbol outside the tryte alphabet.
    NotTrytes { string: String },
}

/// Every character of `s` is supported.
pub open spec fn is_encodable(s: Seq<char>) -> bool {
    forall|i: int| 0 <= i < s.len() ==> #[trigger] spec_ordinal_of(s[i]) is Some
}

/// The two symbols of an ordinal: its low digit first, then its high digit.
pub open spec fn ordinal_trytes(o: nat) -> Seq<char> {
    seq![tryte_alphabet()[(o % 27) as int], tryte_alphabet()[(o / 27) as int]]
}

/// The trytes of a text, two symbols per character, in order.
pub open spec fn encode(s: Seq<char>) -> Seq<char>
    decreases s.len(),
{
    if s.len() == 0 {
        seq![]
    } else {
        encode(s.drop_last()) + ordinal_trytes(spec_ordinal_of(s.last())->0)
    }
}

/// The symbols that are read in pairs: all of them, but for a last one left
/// over from an odd count.
pub open spec fn paired(t: Seq<char>) -> Seq<char> {
    if t.len() % 2 == 1 {
        t.drop_last()
    } else {
        t
    }
}

/// Every symbol of `t` is in the tryte alphabet.
pub open spec fn all_symbols(t: Seq<char>) -> bool {
    forall|i: int| 0 <= i < t.len() ==> #[trigger] digit_of(t[i]) is Some
}

/// What the pair `(a, b)` decodes to: the character of the ordinal
/// `digit(a) + 27 * digit(b)`, or nothing when no character has that ordinal.
pub open spec fn pair_text(a: char, b: char) -> Seq<char> {
    match spec_char_of(digit_of(a)->0 + 27 * digit_of(b)->0) {
        Some(c) => seq![c],
        None => seq![],
    }
}

/// The text of consecutive symbol pairs, in order.
pub open spec fn decode_pairs(t: Seq<char>) -> Seq<char>
    decreases t.len(),
{
    if t.len() < 2 {
        seq![]
    } else {
        decode_pairs(t.subrange(0, t.len() - 2)) + pair_text(t[t.len() - 2], t[t.len() - 1])
    }
}

/// Trytes can be decoded when every symbol read in pairs is in the alphabet.
pub open spec fn is_decodable(t: Seq<char>) -> bool {
    all_symbols(paired(t))
}

/// The text that trytes decode to.
pub open spec fn decode(t: Seq<char>) -> Seq<char> {
    decode_pairs(paired(t))
}

/// Relies on `String::push`: appends one character at the end of the string.
#[verifier::external_body]
fn push_char(s: &mut String, c: char)
    ensures
        final(s)@ == old(s)@.push(c),
{
    s.push(c);
}

/// The trytes of a text are twice as long as the text.
pub proof fn lemma_encode_len(s: Seq<char>)
    ensures
        encode(s).len() == 2 * s.len(),
    decreases s.len(),
{
    if s.len() > 0 {
        lemma_encode_len(s.drop_last());
    }
}

/// Decoding the trytes of a text of supported characters gives the text back.
pub proof fn lemma_round_trip(s: Seq<char>)
    requires
        is_encodable(s),
    ensures
        is_decodable(encode(s)),
        decode(encode(s)) == s,
    decreases s.len(),
{
    lemma_encode_len(s);
    let e = encode(s);
    assert(paired(e) == e);
    if s.len() > 0 {
        let p = s.drop_last();
        assert forall|i: int| 0 <= i < p.len() implies #[trigger] spec_ordinal_of(p[i]) is Some by {
            assert(p[i] == s[i]);
        }
        lemma_round_trip(p);
        lemma_encode_len(p);
        lemma_alphabet_digits();
        lemma_ordinal_char_inverse();
        let o = spec_ordinal_of(s.last())->0;
        assert(spec_ordinal_of(s[s.len() - 1]) is Some);
        let n = e.len();
        assert(e.subrange(0, n - 2) =~= encode(p));
        assert(e[n - 2] == tryte_alphabet()[(o % 27) as int]);
        assert(e[n - 1] == tryte_alphabet()[(o / 27) as int]);
        assert(digit_of(e[n - 2]) == Some(o % 27));
        assert(digit_of(e[n - 1]) == Some(o / 27));
        assert(o % 27 + 27 * (o / 27) == o);
        assert(pair_text(e[n - 2], e[n - 1]) == seq![s.last()]);
        assert forall|i: int| 0 <= i < n implies #[trigger] digit_of(e[i]) is Some by {
            if i < n - 2 {
                assert(e[i] == encode(p)[i]);
            }
        }
        assert(decode_pairs(e) =~= s);
    }
}

/// A symbol after an even number of symbols is ignored: it changes neither
/// whether the trytes decode nor what they decode to.
pub proof fn lemma_trailing_symbol_ignored(t: Seq<char>, c: char)
    requires
        t.len() % 2 == 0,
    ensures
        is_decodable(t.push(c)) == is_decodable(t),
        decode(t.push(c)) == decode(t),
{
    assert(paired(t.push(c)) =~= t);
}

/// Trytes that hold a symbol outside the alphabet cannot be decoded, unless
/// that symbol is the one left over at the end of an odd count.
pub proof fn lemma_invalid_symbol(t: Seq<char>, i: int)
    requires
        0 <= i < t.len(),
        digit_of(t[i]) is None,
        t.len() % 2 == 0 || i < t.len() - 1,
    ensures
        !is_decodable(t),
{
    assert(paired(t)[i] == t[i]);
}

/// Encodes a text as trytes: each character becomes the alphabet symbols of
/// the low and then the high base-27 digit of its ordinal.
pub fn to_trytes(input: &str) -> (r: Result<String, TryteConverterError>)
    ensures
        match r {
            Ok(t) => is_encodable(input@) && t@ == encode(input@) && t@.len() == 2 * input@.len(),
            Err(TryteConverterError::NotEncodable { string }) => !is_encodable(input@)
                && string@ == input@,
            Err(_) => false,
        },
{
    let mut trytes = String::new();
    for c in it: input.chars()
        invariant
            it.seq() == input@,
            is_encodable(input@.take(it.index() as int)),
            trytes@ == encode(input@.take(it.index() as int)),
    {
        let ghost done = input@.take(it.index() as int);
        match ordinal_of(c) {
            Some(o) => {
                let mut ordinal = o;
                if ordinal > MAX_ENCODED_ORDINAL {
                    ordinal = FIRST_PRINTABLE;
                }
                let first = ordinal % RADIX;
                let second = (ordinal - first) / RADIX;
                assert(second == ordinal / 27);
                push_char(&mut trytes, tryte_symbol(first));
                push_char(&mut trytes, tryte_symbol(second));
                proof {
                    let next = input@.take(it.index() as int + 1);
                    assert(next.drop_last() =~= done);
                    assert(trytes@ =~= encode(next));
                }
            },
            None => {
                assert(!is_encodable(input@));
                return Err(TryteConverterError::NotEncodable { string: input.to_owned() });
            },
        }
    }
    assert(input@.take(input@.len() as int) =~= input@);
    proof {
        lemma_encode_len(input@);
    }
    Ok(trytes)
}

/// Decodes trytes into text. A last symbol left over from an odd count is
/// ignored, and a pair whose ordinal has no character yields nothing.
pub fn to_string(input: &str) -> (r: Result<String, TryteConverterError>)
    ensures
        match r {
            Ok(s) => is_decodable(input@) && s@ == decode(input@),
            Err(TryteConverterError::NotTrytes { string }) => !is_decodable(input@)
                && string@ == input@,
            Err(_) => false,
        },
{
    let mut symbols: Vec<char> = Vec::new();
    for c in it: input.chars()
        invariant
            it.seq() == input@,
            symbols@ == input@.take(it.index() as int),
    {
        symbols.push(c);
        assert(symbols@ =~= input@.take(it.index() as int + 1));
    }
    assert(symbols@ =~= input@);
    let mut len = symbols.len();
    if len % 2 == 1 {
        len = len - 1;
    }
    let ghost t = paired(input@);
    assert(t.len() == len);
    assert(t =~= input@.take(len as int));
    let mut text = String::new();
    let mut i: usize = 0;
    while i < len
        invariant
            i <= len,
            i % 2 == 0,
            len % 2 == 0,
            len <= symbols@.len(),
            t == paired(input@),
            t.len() == len,
            forall|k: int| 0 <= k < len ==> t[k] == symbols@[k],
            all_symbols(t.take(i as int)),
            text@ == decode_pairs(t.take(i as int)),
        decreases len - i,
    {
        let ghost done = t.take(i as int);
        let ghost next = t.take(i as int + 2);
        let first = match digit_of_symbol(symbols[i]) {
            Some(d) => d,
            None => {
                assert(digit_of(t[i as int]) is None);
                assert(!all_symbols(t));
                return Err(TryteConverterError::NotTrytes { string: input.to_owned() });
            },
        };
        let second = match digit_of_symbol(symbols[i + 1]) {
            Some(d) => d,
            None => {
                assert(digit_of(t[i + 1]) is None);
                assert(!all_symbols(t));
                return Err(TryteConverterError::NotTrytes { string: input.to_owned() });
            },
        };
        let ordinal = first + second * RADIX;
        if let Some(c) = char_of(ordinal) {
            push_char(&mut text, c);
        }
        i = i + 2;
        proof {
            assert(next.subrange(0, next.len() - 2) =~= done);
            assert(text@ =~= decode_pairs(next));
        }
    }
    assert(t.take(len as int) =~= t);
    Ok(text)
}

} // verus!
