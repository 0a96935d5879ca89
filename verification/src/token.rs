//! Bearer tokens presented in the authentication handshake.

use vstd::prelude::*;
use rand::Rng;
use rand::distributions::Alphanumeric;

verus! {

/// Number of characters in an authentication token.
pub const TOKEN_LENGTH: usize = 40;

/// Whether `c` is one of `a-z`, `A-Z`, `0-9`.
pub open spec fn is_alphanumeric(c: char) -> bool {
    ||| 'a' <= c <= 'z'
    ||| 'A' <= c <= 'Z'
    ||| '0' <= c <= '9'
}

/// Whether `s` has the shape of an authentication token: exactly
/// [`TOKEN_LENGTH`] characters, each of them alphanumeric.
pub open spec fn is_token(s: Seq<char>) -> bool {
    &&& s.len() == TOKEN_LENGTH
    &&& forall|i: int| 0 <= i < s.len() ==> is_alphanumeric(#[trigger] s[i])
}

/// Draws one byte from `rand`'s `Alphanumeric` distribution with the
/// thread-local generator (`Rng::sample`). The distribution yields ASCII
/// letters and digits only; which one is left open, so nothing relates two
/// draws.
#[verifier::external_body]
fn sample_alphanumeric() -> (b: u8)
    ensures
        is_alphanumeric(b as char),
{
    rand::thread_rng().sample(Alphanumeric)
}

/// The token that the drawn bytes `drawn` spell.
pub open spec fn token_of(drawn: Seq<u8>) -> Seq<char> {
    drawn.map_values(|b: u8| b as char)
}

/// Whether `drawn` can be made into a token: [`TOKEN_LENGTH`] bytes, each
/// of them an alphanumeric character.
pub open spec fn is_token_draw(drawn: Seq<u8>) -> bool {
    &&& drawn.len() == TOKEN_LENGTH
    &&& forall|i: int| 0 <= i < drawn.len() ==> is_alphanumeric(#[trigger] drawn[i] as char)
}

/// Makes the token of what was drawn: one character per byte, in order.
pub fn token_from(drawn: &Vec<u8>) -> (token: String)
    requires
        is_token_draw(drawn@),
    ensures
        token@ == token_of(drawn@),
        is_token(token@),
{
    let mut token = String::new();
    let mut i: usize = 0;
    while i < TOKEN_LENGTH
        invariant
            i <= TOKEN_LENGTH,
            is_token_draw(drawn@),
            token@ == token_of(drawn@.take(i as int)),
        decreases TOKEN_LENGTH - i,
    {
        token.push(drawn[i] as char);
        assert(token@ =~= token_of(drawn@.take(i as int + 1)));
        i += 1;
    }
    assert(drawn@.take(TOKEN_LENGTH as int) =~= drawn@);
    token
}

/// A fresh token: [`TOKEN_LENGTH`] draws, each independent of every other,
/// made into a token by [`token_from`].
pub fn generate_token() -> (token: String)
    ensures
        is_token(token@),
{
    let mut drawn: Vec<u8> = Vec::new();
    while drawn.len() < TOKEN_LENGTH
        invariant
            drawn@.len() <= TOKEN_LENGTH,
            forall|i: int| 0 <= i < drawn@.len() ==> is_alphanumeric(#[trigger] drawn@[i] as char),
        decreases TOKEN_LENGTH - drawn@.len(),
    {
        let b = sample_alphanumeric();
        drawn.push(b);
    }
    token_from(&drawn)
}

} // verus!
