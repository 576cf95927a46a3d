//! Small helpers: node names and identifiers, and the address that a
//! transport reports.

use vstd::prelude::*;
use vstd::string::StringExecFns;
use crate::error::GossipError;
use crate::address::{Ipv4, ipv4_of, parse_ipv4};
use crate::text::{first_entry, first_entry_of, lowercase, lowercase_of, trim_of, trimmed};

verus! {

/// Sum of the bytes of `bytes`, as an unbounded number.
pub open spec fn byte_sum(bytes: Seq<u8>) -> nat
    decreases bytes.len(),
{
    if bytes.len() == 0 {
        0
    } else {
        byte_sum(bytes.drop_last()) + bytes.last() as nat
    }
}

/// The identifier that a node name hashes to: the sum of the bytes of its
/// UTF-8 form, reduced modulo 2^32.
pub open spec fn name_hash(name: Seq<char>) -> u32 {
    (byte_sum(vstd::utf8::encode_utf8(name)) % 0x1_0000_0000) as u32
}

/// Derives a node identifier from a node name by summing the bytes of the name
/// with wrap-around at 2^32. Different names may collide; the address of a
/// node tells such nodes apart.
pub fn hash_node_name(name: &str) -> (id: u32)
    ensures
        id == name_hash(name@),
{
    let bytes = name.as_bytes();
    let mut acc: u32 = 0;
    let mut i: usize = 0;
    while i < bytes.len()
        invariant
            i <= bytes.len(),
            bytes@ == vstd::utf8::encode_utf8(name@),
            acc as nat == byte_sum(bytes@.take(i as int)) % 0x1_0000_0000,
        decreases bytes.len() - i,
    {
        proof {
            let before = bytes@.take(i as int);
            let after = bytes@.take(i + 1);
            assert(after.drop_last() =~= before);
            assert(after.last() == bytes@[i as int]);
        }
        acc = acc.wrapping_add(bytes[i] as u32);
        i += 1;
    }
    proof {
        assert(bytes@.take(i as int) =~= bytes@);
    }
    acc
}

/// The bytes in which an address string names its address: the UTF-8 form of
/// the first entry of the list, without surrounding white space.
pub open spec fn address_text(input: Seq<char>) -> Seq<u8> {
    vstd::utf8::encode_utf8(trim_of(first_entry_of(input)))
}

/// Takes the IPv4 address from an address string as a transport reports it:
/// a comma-separated list whose first entry, white space aside, must be an
/// address in dotted-quad form. The error carries the first entry.
pub fn extract_ipv4(input: &str) -> (extracted: Result<Ipv4, GossipError>)
    ensures
        match extracted {
            Ok(ip) => ipv4_of(address_text(input@)) == Some(ip),
            Err(e) => {
                &&& ipv4_of(address_text(input@)) is None
                &&& e matches GossipError::IpAddressError(entry)
                &&& entry@ == first_entry_of(input@)
            },
        },
{
    let entry = first_entry(input);
    match parse_ipv4(trimmed(entry).as_bytes()) {
        Some(ip) => Ok(ip),
        None => Err(GossipError::IpAddressError(entry.to_owned())),
    }
}

/// `human_ids::generate`: a few random English words, joined by `separator`,
/// with an adverb at the end if `add_adverb` says so. Nothing is claimed of
/// the words.
#[verifier::external_body]
fn friendly_words(separator: &str, add_adverb: bool) -> String {
    human_ids::generate(
        Some(human_ids::Options::builder().separator(separator).add_adverb(add_adverb).build()),
    )
}

/// `nanoid::format` with the crate's default random source: `size` characters
/// drawn from `alphabet`. The call panics on an alphabet of more than 255
/// characters or where eight times `size` overflows, and does not return for
/// an empty alphabet, for no characters asked or where the characters are not
/// all one byte long in UTF-8; the precondition rules these out.
#[verifier::external_body]
fn random_characters(alphabet: &[char], size: usize) -> (drawn: String)
    requires
        0 < alphabet@.len() <= 255,
        forall|i: int| 0 <= i < alphabet@.len() ==> (alphabet@[i] as u32) < 128,
        0 < size <= 0x1000_0000,
    ensures
        drawn@.len() == size,
        forall|i: int| 0 <= i < drawn@.len() ==> alphabet@.contains(drawn@[i]),
{
    nanoid::format(nanoid::rngs::default, alphabet, size)
}

/// The characters that the random part of a node name is drawn from.
pub const ALPHABET: [char; 26] = [
    'a',
    'b',
    'c',
    'd',
    'e',
    'f',
    'g',
    'h',
    'i',
    'j',
    'k',
    'l',
    'm',
    'n',
    'o',
    'p',
    'q',
    'r',
    's',
    't',
    'u',
    'v',
    'w',
    'x',
    'y',
    'z',
];

/// Length of the random part of a node name.
pub const SUFFIX_LEN: usize = 5;

/// The node name made of a prefix, a friendly part and a random part.
pub open spec fn composed_id(prefix: Seq<char>, friendly: Seq<char>, random: Seq<char>) -> Seq<
    char,
> {
    lowercase_of(prefix + seq!['-'] + friendly + seq!['-'] + random)
}

/// Joins the parts of a node name with hyphens and puts the whole in lower
/// case.
pub fn compose_id(prefix: &str, friendly: &str, random: &str) -> (id: String)
    ensures
        id@ == composed_id(prefix@, friendly@, random@),
{
    proof {
        reveal_strlit("-");
    }
    let mut joined = prefix.to_owned();
    joined.append("-");
    joined.append(friendly);
    joined.append("-");
    joined.append(random);
    assert(joined@ =~= prefix@ + seq!['-'] + friendly@ + seq!['-'] + random@);
    lowercase(joined.as_str())
}

/// Mints a node name: the prefix, a few random friendly words and five random
/// letters, joined by hyphens, all in lower case.
pub fn make_id(prefix: &str) -> (id: String)
    ensures
        exists|friendly: Seq<char>, random: Seq<char>|
            random.len() == SUFFIX_LEN && (forall|i: int|
                0 <= i < random.len() ==> ALPHABET@.contains(random[i])) && id@
                == #[trigger] composed_id(prefix@, friendly, random),
{
    let friendly = friendly_words("-", false);
    let random = random_characters(ALPHABET.as_slice(), SUFFIX_LEN);
    compose_id(prefix, friendly.as_str(), random.as_str())
}

} // verus!
