use vstd::prelude::*;
use rand::Rng;

verus! {

/// An ASCII alphanumeric character: a digit or a letter of either case.
pub open spec fn is_alphanumeric_char(c: char) -> bool {
    ('0' <= c && c <= '9') || ('A' <= c && c <= 'Z') || ('a' <= c && c <= 'z')
}

/// Every character of the sequence is ASCII alphanumeric.
pub open spec fn all_alphanumeric(s: Seq<char>) -> bool {
    forall|i: int| 0 <= i < s.len() ==> is_alphanumeric_char(s[i])
}

/// Relies on `rand::Rng::gen_range` over `0..bound`: the result is a uniform
/// value below `bound`. Nothing more can be promised of a random draw.
#[verifier::external_body]
pub(crate) fn random_below(bound: u128) -> (r: u128)
    requires
        bound >= 1,
    ensures
        r < bound,
{
    rand::thread_rng().gen_range(0..bound)
}

/// Relies on rand's `Alphanumeric` distribution: each sample is one character
/// drawn from the 62 ASCII alphanumerics, so the collected token has exactly
/// `len` characters, all alphanumeric. Which characters come is random.
#[verifier::external_body]
pub(crate) fn random_token(len: usize) -> (r: String)
    ensures
        r@.len() == len,
        all_alphanumeric(r@),
{
    let mut rng = rand::thread_rng();
    (0..len).map(|_| rng.sample(rand::distributions::Alphanumeric) as char).collect()
}

} // verus!
