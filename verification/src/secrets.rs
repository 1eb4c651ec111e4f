//! What follows from the name and the password of a network: its secret and its topic.
use vstd::prelude::*;
use vstd::string::StringExecFns;
use crate::hashes::{blake3_of, sha512_of, z32_of};

verus! {

/// The UTF-8 bytes of a text.
pub open spec fn utf8(text: Seq<char>) -> Seq<u8> {
    vstd::utf8::encode_utf8(text)
}

/// What the secret of a network is made of.
pub open spec fn network_message(name: Seq<char>, password: Seq<char>) -> Seq<u8> {
    utf8("iroh-lan-network-name-"@ + name) + utf8("iroh-lan-network-secret-"@ + password)
}

/// What the topic of a network is made of.
pub open spec fn secret_initials(name: Seq<char>, password: Seq<char>) -> Seq<char> {
    "lanparty-"@ + name + "-"@ + password + "-secret"@
}

/// Appends the bytes of a text.
fn push_text(bytes: &mut Vec<u8>, text: &str)
    ensures
        final(bytes)@ == old(bytes)@ + utf8(text@),
{
    bytes.extend_from_slice(text.as_bytes());
    assert(bytes@ =~= old(bytes)@ + utf8(text@));
}

/// The secret that all nodes of a network share.
pub fn network_secret(name: &str, password: &str) -> (r: [u8; 64])
    ensures
        r == crate::hashes::sha512_digest(network_message(name@, password@)),
{
    let mut first = String::new();
    first.append("iroh-lan-network-name-");
    first.append(name);
    let mut second = String::new();
    second.append("iroh-lan-network-secret-");
    second.append(password);
    let mut bytes: Vec<u8> = Vec::new();
    push_text(&mut bytes, first.as_str());
    push_text(&mut bytes, second.as_str());
    proof {
        assert(first@ =~= "iroh-lan-network-name-"@ + name@);
        assert(second@ =~= "iroh-lan-network-secret-"@ + password@);
        assert(bytes@ =~= network_message(name@, password@));
    }
    sha512_of(bytes.as_slice())
}

/// The text that the topic of a network is made of.
fn initials(name: &str, password: &str) -> (r: String)
    ensures
        r@ == secret_initials(name@, password@),
{
    let mut text = String::new();
    text.append("lanparty-");
    text.append(name);
    text.append("-");
    text.append(password);
    text.append("-secret");
    assert(text@ =~= secret_initials(name@, password@));
    text
}

/// The topic under which the nodes of a network find each other.
pub fn topic_hash(name: &str, password: &str) -> (r: [u8; 32])
    ensures
        r == crate::hashes::blake3_digest(
            utf8("iroh-lan-topic"@) + utf8(secret_initials(name@, password@)),
        ),
{
    let text = initials(name, password);
    blake3_of("iroh-lan-topic".as_bytes(), text.as_str().as_bytes())
}

/// The secret of a network's records: the bytes that its topic is made of.
pub fn record_secret(name: &str, password: &str) -> (r: Vec<u8>)
    ensures
        r@ == utf8(secret_initials(name@, password@)),
{
    let text = initials(name, password);
    let mut bytes: Vec<u8> = Vec::new();
    push_text(&mut bytes, text.as_str());
    assert(bytes@ =~= utf8(secret_initials(name@, password@)));
    bytes
}

/// What the topic of a network's documents is made of.
pub open spec fn document_message(name: Seq<char>, password: Seq<char>) -> Seq<u8> {
    utf8("iroh-lan-topic"@) + utf8(secret_initials(name, password))
}

/// The topic of a network's documents: the first half of a digest.
pub fn document_topic(name: &str, password: &str) -> (r: [u8; 32])
    ensures
        r@ == crate::hashes::sha512_digest(document_message(name@, password@))@.take(32),
{
    let text = initials(name, password);
    let mut bytes: Vec<u8> = Vec::new();
    push_text(&mut bytes, "iroh-lan-topic");
    push_text(&mut bytes, text.as_str());
    assert(bytes@ =~= document_message(name@, password@));
    let digest = sha512_of(bytes.as_slice());
    let mut r: [u8; 32] = [0; 32];
    let mut i: usize = 0;
    while i < 32
        invariant
            i <= 32,
            forall|j: int| 0 <= j < i ==> r@[j] == digest@[j],
        decreases 32 - i,
    {
        r[i] = digest[i];
        i = i + 1;
    }
    assert(r@ =~= digest@.take(32));
    r
}

/// The text of the topic of a network's documents.
pub fn document_topic_text(name: &str, password: &str) -> (r: String)
    ensures
        r@ == crate::hashes::z32_text(
            crate::hashes::sha512_digest(document_message(name@, password@))@.take(32),
        ),
{
    z32_of(&document_topic(name, password))
}

} // verus!
