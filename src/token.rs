//! Correlation tokens: fixed-length strings over a URL-safe alphabet, drawn
//! from a generator seeded by the operating system.
use rand::rngs::StdRng;
use vstd::prelude::*;

verus! {

/// How many characters a correlation token has (6 bits of entropy each).
pub const TOKEN_LEN: usize = 256;

/// The characters a token is made of: all of them are safe in a URL query.
pub const TOKEN_CHARSET: &'static str = "ABCDEFGHIJKLMNOPQRSTUVWXYZabcdefghijklmnopqrstuvwxyz0123456789_-";

/// The size of the alphabet.
pub const CHARSET_LEN: usize = 64;

/// The token alphabet as a sequence.
pub open spec fn token_alphabet() -> Seq<char> {
    TOKEN_CHARSET@
}

/// Whether `s` has the shape of a correlation token.
pub open spec fn is_token(s: Seq<char>) -> bool {
    &&& s.len() == TOKEN_LEN
    &&& forall|i: int| 0 <= i < s.len() ==> token_alphabet().contains(#[trigger] s[i])
}

#[verifier::external_type_specification]
#[verifier::external_body]
pub struct ExStdRng(rand::rngs::StdRng);

#[verifier::external_type_specification]
#[verifier::external_body]
pub struct ExRandError(rand::Error);

/// Relies on rand's `SeedableRng::from_rng` over `OsRng`: a `StdRng` seeded from
/// the operating system, or the error of that source.
#[verifier::external_body]
fn os_seeded_rng() -> (r: Result<StdRng, rand::Error>) {
    <StdRng as rand::SeedableRng>::from_rng(rand::rngs::OsRng)
}

/// Relies on rand's `Rng::gen_range`: a value of `0..bound`; it panics only on
/// an empty range.
#[verifier::external_body]
fn random_below(rng: &mut StdRng, bound: usize) -> (r: usize)
    requires
        0 < bound,
    ensures
        r < bound,
{
    rand::Rng::gen_range(rng, 0..bound)
}

/// Spells out a token: the `i`-th character is the alphabet's letter at
/// `indices[i]`.
pub fn token_from_indices(indices: &Vec<usize>) -> (r: String)
    requires
        forall|i: int| 0 <= i < indices@.len() ==> #[trigger] indices@[i] < CHARSET_LEN,
    ensures
        r@ == indices@.map_values(|k: usize| token_alphabet()[k as int]),
{
    proof {
        reveal_strlit("ABCDEFGHIJKLMNOPQRSTUVWXYZabcdefghijklmnopqrstuvwxyz0123456789_-");
    }
    assert(TOKEN_CHARSET@.len() == CHARSET_LEN);
    let mut s = String::new();
    let mut i: usize = 0;
    while i < indices.len()
        invariant
            i <= indices@.len(),
            TOKEN_CHARSET@.len() == CHARSET_LEN,
            forall|j: int| 0 <= j < indices@.len() ==> #[trigger] indices@[j] < CHARSET_LEN,
            s@ == indices@.subrange(0, i as int).map_values(|k: usize| token_alphabet()[k as int]),
        decreases indices@.len() - i,
    {
        let k = indices[i];
        let letter = TOKEN_CHARSET.substring_char(k, k + 1);
        s.append(letter);
        assert(indices@.subrange(0, i + 1) == indices@.subrange(0, i as int).push(k));
        assert(s@ =~= indices@.subrange(0, i + 1).map_values(
            |k: usize| token_alphabet()[k as int],
        ));
        i = i + 1;
    }
    assert(indices@.subrange(0, i as int) == indices@);
    s
}

/// Draws a fresh token from `rng`.
pub fn draw_token(rng: &mut StdRng) -> (r: String)
    ensures
        is_token(r@),
{
    let mut indices: Vec<usize> = Vec::new();
    let mut i: usize = 0;
    while i < TOKEN_LEN
        invariant
            i <= TOKEN_LEN,
            indices@.len() == i,
            forall|j: int| 0 <= j < indices@.len() ==> #[trigger] indices@[j] < CHARSET_LEN,
        decreases TOKEN_LEN - i,
    {
        indices.push(random_below(rng, CHARSET_LEN));
        i = i + 1;
    }
    let r = token_from_indices(&indices);
    proof {
        reveal_strlit("ABCDEFGHIJKLMNOPQRSTUVWXYZabcdefghijklmnopqrstuvwxyz0123456789_-");
    }
    assert(TOKEN_CHARSET@.len() == CHARSET_LEN);
    assert forall|j: int| 0 <= j < r@.len() implies token_alphabet().contains(#[trigger] r@[j]) by {
        let k = indices@[j] as int;
        assert(token_alphabet()[k] == r@[j]);
        assert(0 <= k < token_alphabet().len());
    }
    r
}

/// Draws a fresh token from a generator seeded by the operating system; fails
/// only when that source fails.
pub fn new_token() -> (r: Result<String, rand::Error>)
    ensures
        r matches Ok(t) ==> is_token(t@),
{
    match os_seeded_rng() {
        Ok(mut rng) => Ok(draw_token(&mut rng)),
        Err(e) => Err(e),
    }
}

} // verus!

verus! {

/// Letters, digits, `_` and `-`: characters that need no escaping in a URL
/// query.
pub open spec fn url_safe(c: char) -> bool {
    ('A' <= c && c <= 'Z') || ('a' <= c && c <= 'z') || ('0' <= c && c <= '9') || c == '_' || c
        == '-'
}

/// Every character of a correlation token is safe in a URL query.
pub proof fn lemma_token_is_url_safe(s: Seq<char>)
    requires
        is_token(s),
    ensures
        forall|i: int| 0 <= i < s.len() ==> url_safe(#[trigger] s[i]),
{
    reveal_strlit("ABCDEFGHIJKLMNOPQRSTUVWXYZabcdefghijklmnopqrstuvwxyz0123456789_-");
    assert forall|j: int| 0 <= j < token_alphabet().len() implies url_safe(
        #[trigger] token_alphabet()[j],
    ) by {}
    assert forall|i: int| 0 <= i < s.len() implies url_safe(#[trigger] s[i]) by {
        assert(token_alphabet().contains(s[i]));
        let j = choose|j: int| 0 <= j < token_alphabet().len() && token_alphabet()[j] == s[i];
        assert(url_safe(token_alphabet()[j]));
    }
}

} // verus!
