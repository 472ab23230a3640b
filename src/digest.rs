use sha2::Digest;
use vstd::prelude::*;
use vstd::string::*;

verus! {

/// The SHA-256 digest of the UTF-8 encoding of `text`.
pub uninterp spec fn sha256_of(text: Seq<char>) -> Seq<u8>;

/// Relies on sha2's `Digest::digest` for `Sha256`: a 32-byte digest that
/// depends on the input bytes alone.
#[verifier::external_body]
fn sha256(text: &str) -> (r: Vec<u8>)
    ensures
        r@ == sha256_of(text@),
        r@.len() == 32,
{
    sha2::Sha256::digest(text.as_bytes()).to_vec()
}

/// The lower-case hexadecimal digit for `n` (below 16).
pub open spec fn hex_digit(n: u8) -> char {
    seq!['0', '1', '2', '3', '4', '5', '6', '7', '8', '9', 'a', 'b', 'c', 'd', 'e', 'f'][n as int]
}

/// Two lower-case hexadecimal digits per byte, high nibble first.
pub open spec fn hex_lower(b: Seq<u8>) -> Seq<char>
    decreases b.len(),
{
    if b.len() == 0 {
        seq![]
    } else {
        seq![hex_digit(b[0] / 16), hex_digit(b[0] % 16)] + hex_lower(b.drop_first())
    }
}

pub proof fn lemma_hex_lower_len(b: Seq<u8>)
    ensures
        hex_lower(b).len() == 2 * b.len(),
    decreases b.len(),
{
    if b.len() > 0 {
        lemma_hex_lower_len(b.drop_first());
    }
}

/// Relies on `hex::encode`: each byte becomes two digits from
/// "0123456789abcdef", high nibble first.
#[verifier::external_body]
fn hex_encode(b: &[u8]) -> (r: String)
    ensures
        r@ == hex_lower(b@),
{
    hex::encode(b)
}

/// The identity string of a dependency, `name@version`.
pub open spec fn identity_of(name: Seq<char>, version: Seq<char>) -> Seq<char> {
    name + seq!['@'] + version
}

/// The checksum recorded for a dependency: hex-encoded SHA-256 of its identity.
pub open spec fn checksum_of(name: Seq<char>, version: Seq<char>) -> Seq<char> {
    hex_lower(sha256_of(identity_of(name, version)))
}

/// Hex-encoded SHA-256 of `name@version`, 64 characters long.
pub fn checksum(name: &str, version: &str) -> (r: String)
    ensures
        r@ == checksum_of(name@, version@),
        r@.len() == 64,
{
    let mut id = String::from_str(name);
    proof {
        reveal_strlit("@");
    }
    id.append("@");
    id.append(version);
    assert(id@ =~= identity_of(name@, version@));
    let digest = sha256(id.as_str());
    proof {
        lemma_hex_lower_len(digest@);
    }
    hex_encode(digest.as_slice())
}

/// The checksum depends on the identity string `name@version` and on
/// nothing else: equal identities give equal checksums, on every call.
pub proof fn lemma_checksum_stable(n1: Seq<char>, v1: Seq<char>, n2: Seq<char>, v2: Seq<char>)
    requires
        identity_of(n1, v1) == identity_of(n2, v2),
    ensures
        checksum_of(n1, v1) == checksum_of(n2, v2),
{
}

/// The source locator recorded for a dependency, `registry/name-version`.
pub open spec fn source_of(name: Seq<char>, version: Seq<char>) -> Seq<char> {
    seq!['r', 'e', 'g', 'i', 's', 't', 'r', 'y', '/'] + name + seq!['-'] + version
}

/// The source locator `registry/name-version`.
pub fn source_locator(name: &str, version: &str) -> (r: String)
    ensures
        r@ == source_of(name@, version@),
{
    proof {
        reveal_strlit("registry/");
        reveal_strlit("-");
    }
    let mut s = String::from_str("registry/");
    s.append(name);
    s.append("-");
    s.append(version);
    assert(s@ =~= source_of(name@, version@));
    s
}

} // verus!
