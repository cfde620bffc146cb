//! Digests and the names that are made from them.
use vstd::prelude::*;

use crate::text::concat2;

verus! {

/// The SHA-256 digest of a byte string.
pub uninterp spec fn sha256(data: Seq<u8>) -> Seq<u8>;

/// `sha2::Sha256::digest`: a function of the bytes alone, 32 bytes long.
#[verifier::external_body]
fn sha256_of(data: &[u8]) -> (r: Vec<u8>)
    ensures
        r@ == sha256(data@),
        r@.len() == 32,
{
    <sha2::Sha256 as sha2::Digest>::digest(data).to_vec()
}

/// The lower-case hexadecimal digit of a number below sixteen.
pub open spec fn hex_digit(n: int) -> char {
    if n == 0 { '0' } else if n == 1 { '1' } else if n == 2 { '2' } else if n == 3 { '3' }
    else if n == 4 { '4' } else if n == 5 { '5' } else if n == 6 { '6' } else if n == 7 { '7' }
    else if n == 8 { '8' } else if n == 9 { '9' } else if n == 10 { 'a' } else if n == 11 { 'b' }
    else if n == 12 { 'c' } else if n == 13 { 'd' } else if n == 14 { 'e' } else { 'f' }
}

/// Two hexadecimal digits per byte.
pub open spec fn hex(data: Seq<u8>) -> Seq<char>
    decreases data.len(),
{
    if data.len() == 0 {
        Seq::empty()
    } else {
        hex(data.drop_last()).push(hex_digit(data.last() as int / 16)).push(hex_digit(data.last() as int % 16))
    }
}

fn hex_char(n: u8) -> (c: char)
    requires
        n < 16,
    ensures
        c == hex_digit(n as int),
{
    if n == 0 { '0' } else if n == 1 { '1' } else if n == 2 { '2' } else if n == 3 { '3' }
    else if n == 4 { '4' } else if n == 5 { '5' } else if n == 6 { '6' } else if n == 7 { '7' }
    else if n == 8 { '8' } else if n == 9 { '9' } else if n == 10 { 'a' } else if n == 11 { 'b' }
    else if n == 12 { 'c' } else if n == 13 { 'd' } else if n == 14 { 'e' } else { 'f' }
}

/// The hexadecimal form of the first `count` bytes.
pub fn hex_of(data: &[u8], count: usize) -> (r: String)
    requires
        count <= data@.len(),
    ensures
        r@ == hex(data@.take(count as int)),
{
    let mut r = String::new();
    let mut i: usize = 0;
    assert(data@.take(0) =~= Seq::<u8>::empty());
    while i < count
        invariant
            i <= count <= data@.len(),
            r@ == hex(data@.take(i as int)),
        decreases count - i,
    {
        let b: u8 = data[i];
        assert(data@.take(i + 1).drop_last() =~= data@.take(i as int));
        r.push(hex_char(b / 16));
        r.push(hex_char(b % 16));
        i = i + 1;
    }
    r
}

pub proof fn lemma_hex(data: Seq<u8>)
    ensures
        hex(data).len() == 2 * data.len(),
        forall|i: int|
            0 <= i < data.len() ==> hex(data)[2 * i] == hex_digit(#[trigger] data[i] as int / 16)
                && hex(data)[2 * i + 1] == hex_digit(data[i] as int % 16),
    decreases data.len(),
{
    if data.len() > 0 {
        let front = data.drop_last();
        lemma_hex(front);
        assert forall|i: int| 0 <= i < data.len() implies hex(data)[2 * i] == hex_digit(
            #[trigger] data[i] as int / 16,
        ) && hex(data)[2 * i + 1] == hex_digit(data[i] as int % 16) by {
            if i < data.len() - 1 {
                assert(front[i] == data[i]);
            }
        }
    }
}

/// Different byte strings have different hexadecimal forms.
pub proof fn lemma_hex_injective(a: Seq<u8>, b: Seq<u8>)
    requires
        hex(a) == hex(b),
    ensures
        a == b,
{
    lemma_hex(a);
    lemma_hex(b);
    assert forall|i: int| 0 <= i < a.len() implies a[i] == b[i] by {
        let x = a[i] as int;
        let y = b[i] as int;
        assert(hex(a)[2 * i] == hex_digit(x / 16));
        assert(hex(b)[2 * i] == hex_digit(y / 16));
        assert(hex(a)[2 * i + 1] == hex_digit(x % 16));
        assert(hex(b)[2 * i + 1] == hex_digit(y % 16));
        assert(x / 16 == y / 16);
        assert(x % 16 == y % 16);
    }
    assert(a =~= b);
}

/// The bytes of two texts with a zero byte between.
pub open spec fn zero_separated(a: Seq<char>, b: Seq<char>) -> Seq<u8> {
    vstd::utf8::encode_utf8(a).push(0) + vstd::utf8::encode_utf8(b)
}

fn zero_separated_bytes(a: &str, b: &str) -> (r: Vec<u8>)
    ensures
        r@ == zero_separated(a@, b@),
{
    let mut r: Vec<u8> = Vec::new();
    append_bytes(&mut r, a.as_bytes());
    r.push(0);
    append_bytes(&mut r, b.as_bytes());
    assert(r@ =~= zero_separated(a@, b@));
    r
}

fn append_bytes(to: &mut Vec<u8>, from: &[u8])
    ensures
        final(to)@ == old(to)@ + from@,
{
    let mut i: usize = 0;
    assert(to@ =~= old(to)@ + from@.take(0));
    while i < from.len()
        invariant
            i <= from@.len(),
            to@ == old(to)@ + from@.take(i as int),
        decreases from.len() - i,
    {
        to.push(from[i]);
        assert(to@ =~= old(to)@ + from@.take(i + 1));
        i = i + 1;
    }
    assert(from@.take(from@.len() as int) =~= from@);
}

/// The name of the record that keeps a project's role standing.
pub fn convoy_ensure_name(project: &str, role: &str) -> (r: String)
    ensures
        r@ == "ensure-"@ + hex(sha256(zero_separated(project@, role@))),
{
    let bytes = zero_separated_bytes(project, role);
    let digest = sha256_of(bytes.as_slice());
    let n: usize = digest.len();
    let text = hex_of(digest.as_slice(), n);
    assert(digest@.take(n as int) =~= digest@);
    concat2("ensure-", text.as_str())
}

/// The session name a transient attach to a checkout uses.
pub fn transient_checkout_session_name(host: &str, path: &str) -> (r: String)
    ensures
        r@ == "flotilla-checkout-"@ + hex(sha256(zero_separated(host@, path@)).take(16)),
{
    let bytes = zero_separated_bytes(host, path);
    let digest = sha256_of(bytes.as_slice());
    let text = hex_of(digest.as_slice(), 16);
    concat2("flotilla-checkout-", text.as_str())
}

/// The hexadecimal digest of a text.
pub fn text_digest(text: &str, count: usize) -> (r: String)
    requires
        count <= 32,
    ensures
        r@ == hex(sha256(vstd::utf8::encode_utf8(text@)).take(count as int)),
        r@.len() == 2 * count,
{
    let digest = sha256_of(text.as_bytes());
    proof {
        lemma_hex(digest@.take(count as int));
    }
    hex_of(digest.as_slice(), count)
}

/// The digest of a byte string, in hexadecimal.
pub fn bytes_digest(data: &Vec<u8>) -> (r: String)
    ensures
        r@ == hex(sha256(data@)),
{
    let digest = sha256_of(data.as_slice());
    let n: usize = digest.len();
    assert(digest@.take(n as int) =~= digest@);
    hex_of(digest.as_slice(), n)
}

/// The identifier of an environment that daemon.toml declares under a key:
/// the key's bytes in hexadecimal, or `empty` for the empty key.
pub open spec fn static_ssh_id(key: Seq<char>) -> Seq<char> {
    let encoded = hex(vstd::utf8::encode_utf8(key));
    "static-ssh-"@ + (if encoded.len() == 0 {
        "empty"@
    } else {
        encoded
    })
}

pub fn static_ssh_environment_id(config_key: &str) -> (r: String)
    ensures
        r@ == static_ssh_id(config_key@),
{
    let bytes = config_key.as_bytes();
    let n: usize = bytes.len();
    let encoded = hex_of(bytes, n);
    assert(bytes@.take(n as int) =~= bytes@);
    if encoded.as_str().is_empty() {
        concat2("static-ssh-", "empty")
    } else {
        concat2("static-ssh-", encoded.as_str())
    }
}

/// Distinct configuration keys have distinct environment identifiers.
pub proof fn law_static_ssh_ids_are_distinct(a: Seq<char>, b: Seq<char>)
    requires
        static_ssh_id(a) == static_ssh_id(b),
    ensures
        a == b,
{
    let prefix = "static-ssh-"@;
    let x = vstd::utf8::encode_utf8(a);
    let y = vstd::utf8::encode_utf8(b);
    let ea = hex(x);
    let eb = hex(y);
    let sa = if ea.len() == 0 { "empty"@ } else { ea };
    let sb = if eb.len() == 0 { "empty"@ } else { eb };
    assert((prefix + sa).skip(prefix.len() as int) =~= sa);
    assert((prefix + sb).skip(prefix.len() as int) =~= sb);
    assert(sa == sb);
    reveal_strlit("empty");
    lemma_hex(x);
    lemma_hex(y);
    if ea.len() == 0 && eb.len() > 0 {
        assert("empty"@.len() == 5);
        assert(false);
    }
    if eb.len() == 0 && ea.len() > 0 {
        assert("empty"@.len() == 5);
        assert(false);
    }
    if ea.len() == 0 {
        assert(x.len() == 0 && y.len() == 0);
        assert(x =~= y);
    } else {
        lemma_hex_injective(x, y);
    }
    vstd::utf8::encode_utf8_decode_utf8(a);
    vstd::utf8::encode_utf8_decode_utf8(b);
}

} // verus!
