use vstd::prelude::*;

verus! {

/// What can go wrong turning a hex string into values.
#[derive(Debug, Clone, Copy, PartialEq, Eq, Structural)]
pub enum FromHexError {
    /// A character that is none of `0...9`, `a...f`, `A...F`, and where in
    /// the input (as a byte offset) it stands.
    InvalidHexCharacter { c: char, index: usize },
}

/// What the diagnostic line for an invalid character looks like: determined
/// by the character and its offset alone.
pub uninterp spec fn invalid_char_message(c: char, index: int) -> Seq<char>;

/// Relies on `format!` with `{:?}` and `{}`: the rendered line depends on
/// the character and the offset alone.
#[verifier::external_body]
fn format_invalid_char(c: char, index: usize) -> (s: String)
    ensures
        s@ == invalid_char_message(c, index as int),
{
    format!("Invalid character {:?} at position {}", c, index)
}

impl FromHexError {
    /// The diagnostic line this error carries.
    pub open spec fn spec_message(&self) -> Seq<char> {
        match self {
            FromHexError::InvalidHexCharacter { c, index } => invalid_char_message(
                *c,
                *index as int,
            ),
        }
    }

    /// Render the diagnostic line: the offending character (in its quoted
    /// `Debug` form) and the offset it stands at.
    pub fn message(&self) -> (s: String)
        ensures
            s@ == self.spec_message(),
    {
        match self {
            FromHexError::InvalidHexCharacter { c, index } => format_invalid_char(*c, *index),
        }
    }
}

/// The byte is the ASCII code of a hex digit.
pub open spec fn is_hex_digit(b: u8) -> bool {
    (48 <= b <= 57) || (97 <= b <= 102) || (65 <= b <= 70)
}

/// The value of a hex digit's ASCII code.
pub open spec fn hex_val(b: u8) -> u8 {
    if 48 <= b <= 57 {
        (b - 48) as u8
    } else if 97 <= b <= 102 {
        (b - 97 + 10) as u8
    } else {
        (b - 65 + 10) as u8
    }
}

/// The offset of the first byte that is no hex digit, or the sequence's
/// length when every byte is one.
pub open spec fn first_invalid(bs: Seq<u8>) -> int
    decreases bs.len(),
{
    if bs.len() <= 0 {
        0
    } else if !is_hex_digit(bs[0]) {
        0
    } else {
        1 + first_invalid(bs.drop_first())
    }
}

/// `first_invalid` is what its name says: everything before it is a hex
/// digit, and, unless it is the length, it points at a non-digit.
pub proof fn lemma_first_invalid(bs: Seq<u8>)
    ensures
        0 <= first_invalid(bs) <= bs.len(),
        forall|j: int| 0 <= j < first_invalid(bs) ==> is_hex_digit(#[trigger] bs[j]),
        first_invalid(bs) < bs.len() ==> !is_hex_digit(bs[first_invalid(bs)]),
    decreases bs.len(),
{
    if bs.len() > 0 && is_hex_digit(bs[0]) {
        lemma_first_invalid(bs.drop_first());
        assert forall|j: int| 0 <= j < first_invalid(bs) implies is_hex_digit(
            #[trigger] bs[j],
        ) by {
            if j >= 1 {
                assert(is_hex_digit(bs.drop_first()[j - 1]));
                assert(bs.drop_first()[j - 1] == bs[j]);
            }
        }
        if first_invalid(bs) < bs.len() {
            assert(bs.drop_first()[first_invalid(bs.drop_first())] == bs[first_invalid(bs)]);
        }
    }
}

/// The value of one hex character of the input, counted from byte `chr` at
/// byte offset `index`; a byte that is no hex digit is the error, carrying
/// that byte as a character and its offset.
pub fn dec(chr: u8, index: usize) -> (r: Result<u8, FromHexError>)
    ensures
        is_hex_digit(chr) ==> r == Ok::<u8, FromHexError>(hex_val(chr)),
        !is_hex_digit(chr) ==> r == Err::<u8, FromHexError>(
            FromHexError::InvalidHexCharacter { c: chr as char, index },
        ),
{
    if 48 <= chr && chr <= 57 {
        Ok(chr - 48)
    } else if 97 <= chr && chr <= 102 {
        Ok(chr - 97 + 10)
    } else if 65 <= chr && chr <= 70 {
        Ok(chr - 65 + 10)
    } else {
        Err(FromHexError::InvalidHexCharacter { c: chr as char, index })
    }
}

/// Translate each character of a hex string into its value, in order: the
/// values `0` to `15`, one per input byte. The first byte that is no hex
/// digit is the error. (The input is read byte by byte, so the byte offset
/// is what the error reports.)
pub fn decode(hex: String) -> (r: Result<Vec<u8>, FromHexError>)
    ensures
        ({
            let bs = vstd::utf8::encode_utf8(hex@);
            let fi = first_invalid(bs);
            &&& fi == bs.len() ==> r is Ok && r->Ok_0@ == Seq::new(
                bs.len(),
                |i: int| hex_val(bs[i]),
            )
            &&& fi < bs.len() ==> r == Err::<Vec<u8>, FromHexError>(
                FromHexError::InvalidHexCharacter { c: bs[fi] as char, index: fi as usize },
            )
        }),
{
    let bytes = hex.as_str().as_bytes();
    let ghost bs = vstd::utf8::encode_utf8(hex@);
    proof {
        lemma_first_invalid(bs);
    }
    let mut ans: Vec<u8> = Vec::new();
    let mut i: usize = 0;
    while i < bytes.len()
        invariant
            bs == vstd::utf8::encode_utf8(hex@),
            bytes@ == bs,
            i <= bs.len(),
            i <= first_invalid(bs),
            ans@.len() == i,
            forall|k: int| 0 <= k < i ==> ans@[k] == hex_val(#[trigger] bs[k]),
            0 <= first_invalid(bs) <= bs.len(),
            forall|j: int| 0 <= j < first_invalid(bs) ==> is_hex_digit(#[trigger] bs[j]),
            first_invalid(bs) < bs.len() ==> !is_hex_digit(bs[first_invalid(bs)]),
        decreases bs.len() - i,
    {
        let chr = bytes[i];
        proof {
            assert(chr == bs[i as int]);
        }
        match dec(chr, i) {
            Ok(v) => {
                ans.push(v);
                proof {
                    assert(is_hex_digit(bs[i as int]));
                    assert(first_invalid(bs) != i);
                }
            },
            Err(e) => {
                proof {
                    assert(!is_hex_digit(bs[i as int]));
                    assert(first_invalid(bs) <= i);
                    assert(first_invalid(bs) == i);
                    assert(e == FromHexError::InvalidHexCharacter {
                        c: bs[first_invalid(bs)] as char,
                        index: first_invalid(bs) as usize,
                    });
                }
                return Err(e);
            },
        }
        i += 1;
    }
    proof {
        assert(first_invalid(bs) == bs.len());
        assert(ans@ =~= Seq::new(bs.len(), |k: int| hex_val(bs[k])));
    }
    Ok(ans)
}

} // verus!
