use crate::bytes::{ascii, has_at, literal, matches_at};
use vstd::prelude::*;

verus! {

/// How a response body is encoded.
#[derive(Clone, Copy, Debug, PartialEq, Eq, Structural)]
pub enum Encoding {
    /// The body as it is.
    Identity,
    /// The body compressed with gzip.
    Gzip,
}

/// A comma or a space: what separates the tokens of an `Accept-Encoding` value.
pub open spec fn is_separator(byte: u8) -> bool {
    byte == 44 || byte == 32
}

/// Whether `token` stands in `value` at position `at` as a whole token: with the
/// start of the value or a separator before it, and the end or a separator after.
pub open spec fn token_at(value: Seq<u8>, token: Seq<u8>, at: int) -> bool {
    &&& matches_at(value, token, at)
    &&& (at == 0 || is_separator(value[at - 1]))
    &&& (at + token.len() == value.len() || is_separator(value[at + token.len()]))
}

/// Whether `token` is one of the tokens of `value`.
pub open spec fn lists_token(value: Seq<u8>, token: Seq<u8>) -> bool {
    exists|at: int| token_at(value, token, at)
}

/// The encoding for a response to a request with this `Accept-Encoding` value:
/// gzip where the value lists the token `gzip`, letter for letter; else none.
pub open spec fn negotiated(accept: Option<Seq<u8>>) -> Encoding {
    match accept {
        Some(value) => if lists_token(value, ascii("gzip"@)) {
            Encoding::Gzip
        } else {
            Encoding::Identity
        },
        None => Encoding::Identity,
    }
}

/// Whether `token` is one of the tokens of `value`.
pub fn has_token(value: &[u8], token: &[u8]) -> (listed: bool)
    ensures
        listed == lists_token(value@, token@),
{
    if token.len() > value.len() {
        return false;
    }
    let last: usize = value.len() - token.len();
    let mut at: usize = 0;
    loop
        invariant
            last == value@.len() - token@.len(),
            at <= last,
            forall|j: int| 0 <= j < at ==> !token_at(value@, token@, j),
        decreases last - at,
    {
        if has_at(value, token, at) {
            let starts: bool = at == 0 || value[at - 1] == 44 || value[at - 1] == 32;
            let ends: bool = at == last || value[at + token.len()] == 44 || value[at
                + token.len()] == 32;
            if starts && ends {
                assert(token_at(value@, token@, at as int));
                return true;
            }
        }
        if at == last {
            return false;
        }
        at = at + 1;
    }
}

/// The encoding for a response to a request with this `Accept-Encoding` value.
pub fn negotiate(accept: Option<&Vec<u8>>) -> (encoding: Encoding)
    ensures
        encoding == negotiated(
            match accept {
                Some(value) => Some(value@),
                None => None,
            },
        ),
{
    match accept {
        Some(value) => {
            proof {
                reveal_strlit("gzip");
            }
            if has_token(value.as_slice(), literal("gzip")) {
                Encoding::Gzip
            } else {
                Encoding::Identity
            }
        },
        None => Encoding::Identity,
    }
}

} // verus!
