//! Per-entry digest seeds.
//!
//! Each entry's seed is the SHA-1 digest of a self-delimiting byte layout:
//! the entry's name length (8 bytes little endian), the raw name bytes, the
//! mode bits (4 bytes little endian), one type tag byte, and the payload
//! (file content or symlink target). The layout is injective, which is what
//! makes the checksum sensitive to name, mode, type, and content changes.

use sha1::Digest;
use vstd::prelude::*;

verus! {

/// Little-endian byte encoding of a `u64`.
pub open spec fn enc_u64(v: u64) -> Seq<u8> {
    seq![
        (v & 0xff) as u8,
        ((v >> 8) & 0xff) as u8,
        ((v >> 16) & 0xff) as u8,
        ((v >> 24) & 0xff) as u8,
        ((v >> 32) & 0xff) as u8,
        ((v >> 40) & 0xff) as u8,
        ((v >> 48) & 0xff) as u8,
        ((v >> 56) & 0xff) as u8,
    ]
}

/// Little-endian byte encoding of a `u32`.
pub open spec fn enc_u32(v: u32) -> Seq<u8> {
    seq![
        (v & 0xff) as u8,
        ((v >> 8) & 0xff) as u8,
        ((v >> 16) & 0xff) as u8,
        ((v >> 24) & 0xff) as u8,
    ]
}

/// Two distinct values have distinct encodings (and conversely).
pub proof fn lemma_enc_u64_injective(a: u64, b: u64)
    requires
        enc_u64(a) == enc_u64(b),
    ensures
        a == b,
{
    assert(enc_u64(a)[0] == enc_u64(b)[0]);
    assert(enc_u64(a)[1] == enc_u64(b)[1]);
    assert(enc_u64(a)[2] == enc_u64(b)[2]);
    assert(enc_u64(a)[3] == enc_u64(b)[3]);
    assert(enc_u64(a)[4] == enc_u64(b)[4]);
    assert(enc_u64(a)[5] == enc_u64(b)[5]);
    assert(enc_u64(a)[6] == enc_u64(b)[6]);
    assert(enc_u64(a)[7] == enc_u64(b)[7]);
    assert((a & 0xff) as u8 == (b & 0xff) as u8
        && ((a >> 8) & 0xff) as u8 == ((b >> 8) & 0xff) as u8
        && ((a >> 16) & 0xff) as u8 == ((b >> 16) & 0xff) as u8
        && ((a >> 24) & 0xff) as u8 == ((b >> 24) & 0xff) as u8
        && ((a >> 32) & 0xff) as u8 == ((b >> 32) & 0xff) as u8
        && ((a >> 40) & 0xff) as u8 == ((b >> 40) & 0xff) as u8
        && ((a >> 48) & 0xff) as u8 == ((b >> 48) & 0xff) as u8
        && ((a >> 56) & 0xff) as u8 == ((b >> 56) & 0xff) as u8
        ==> a == b) by (bit_vector);
}

/// Two distinct values have distinct encodings (and conversely).
pub proof fn lemma_enc_u32_injective(a: u32, b: u32)
    requires
        enc_u32(a) == enc_u32(b),
    ensures
        a == b,
{
    assert(enc_u32(a)[0] == enc_u32(b)[0]);
    assert(enc_u32(a)[1] == enc_u32(b)[1]);
    assert(enc_u32(a)[2] == enc_u32(b)[2]);
    assert(enc_u32(a)[3] == enc_u32(b)[3]);
    assert((a & 0xff) as u8 == (b & 0xff) as u8
        && ((a >> 8) & 0xff) as u8 == ((b >> 8) & 0xff) as u8
        && ((a >> 16) & 0xff) as u8 == ((b >> 16) & 0xff) as u8
        && ((a >> 24) & 0xff) as u8 == ((b >> 24) & 0xff) as u8
        ==> a == b) by (bit_vector);
}

/// Type tag byte of a regular file.
pub const TAG_FILE: u8 = 102;

/// Type tag byte of a directory.
pub const TAG_DIR: u8 = 100;

/// Type tag byte of a symbolic link.
pub const TAG_SYMLINK: u8 = 108;

/// Type tag byte of a socket.
pub const TAG_SOCKET: u8 = 115;

/// The bytes that are digested ahead of an entry's payload: name length,
/// name, mode, and the type tag.
pub open spec fn seed_prefix(name: Seq<u8>, mode: u32, tag: u8) -> Seq<u8> {
    enc_u64(name.len() as u64) + name + enc_u32(mode) + seq![tag]
}

/// The full byte layout whose SHA-1 digest is an entry's seed. The payload is
/// a file's content, a symlink's target, and empty for the other entry kinds.
pub open spec fn seed_input(name: Seq<u8>, mode: u32, tag: u8, payload: Seq<u8>) -> Seq<u8> {
    seed_prefix(name, mode, tag) + payload
}

/// What SHA-1 returns on a byte sequence; a function of the bytes alone.
pub uninterp spec fn sha1_of(input: Seq<u8>) -> Seq<u8>;

/// Relies on sha1::Sha1 through the digest::Digest one-shot interface: the
/// 20-byte SHA-1 digest of the input, a function of the input bytes alone.
#[verifier::external_body]
fn sha1_digest(input: &Vec<u8>) -> (r: Vec<u8>)
    ensures
        r@ == sha1_of(input@),
        r@.len() == crate::DIGEST_LEN,
{
    sha1::Sha1::digest(input.as_slice()).to_vec()
}

fn push_u64_le(out: &mut Vec<u8>, v: u64)
    ensures
        final(out)@ == old(out)@ + enc_u64(v),
{
    assert(v & 0xff < 256 && (v >> 8) & 0xff < 256 && (v >> 16) & 0xff < 256
        && (v >> 24) & 0xff < 256 && (v >> 32) & 0xff < 256 && (v >> 40) & 0xff < 256
        && (v >> 48) & 0xff < 256 && (v >> 56) & 0xff < 256) by (bit_vector);
    out.push((v & 0xff) as u8);
    out.push(((v >> 8) & 0xff) as u8);
    out.push(((v >> 16) & 0xff) as u8);
    out.push(((v >> 24) & 0xff) as u8);
    out.push(((v >> 32) & 0xff) as u8);
    out.push(((v >> 40) & 0xff) as u8);
    out.push(((v >> 48) & 0xff) as u8);
    out.push(((v >> 56) & 0xff) as u8);
    assert(out@ =~= old(out)@ + enc_u64(v));
}

fn push_u32_le(out: &mut Vec<u8>, v: u32)
    ensures
        final(out)@ == old(out)@ + enc_u32(v),
{
    assert(v & 0xff < 256 && (v >> 8) & 0xff < 256 && (v >> 16) & 0xff < 256
        && (v >> 24) & 0xff < 256) by (bit_vector);
    out.push((v & 0xff) as u8);
    out.push(((v >> 8) & 0xff) as u8);
    out.push(((v >> 16) & 0xff) as u8);
    out.push(((v >> 24) & 0xff) as u8);
    assert(out@ =~= old(out)@ + enc_u32(v));
}

fn push_bytes(out: &mut Vec<u8>, bytes: &Vec<u8>)
    ensures
        final(out)@ == old(out)@ + bytes@,
{
    let mut i: usize = 0;
    while i < bytes.len()
        invariant
            i <= bytes.len(),
            out@ == old(out)@ + bytes@.take(i as int),
        decreases bytes.len() - i,
    {
        out.push(bytes[i]);
        assert(out@ =~= old(out)@ + bytes@.take(i + 1));
        i = i + 1;
    }
    assert(final(out)@ =~= old(out)@ + bytes@);
}

fn make_seed(name: &Vec<u8>, mode: u32, tag: u8, payload: &Vec<u8>) -> (r: Vec<u8>)
    ensures
        r@ == sha1_of(seed_input(name@, mode, tag, payload@)),
        r@.len() == crate::DIGEST_LEN,
{
    let mut buf: Vec<u8> = Vec::new();
    push_u64_le(&mut buf, name.len() as u64);
    push_bytes(&mut buf, name);
    push_u32_le(&mut buf, mode);
    buf.push(tag);
    push_bytes(&mut buf, payload);
    assert(buf@ =~= seed_input(name@, mode, tag, payload@));
    sha1_digest(&buf)
}

/// Seed of a regular file: its name, mode, the file tag, and its content.
pub fn file_seed(name: &Vec<u8>, mode: u32, content: &Vec<u8>) -> (r: Vec<u8>)
    ensures
        r@ == sha1_of(seed_input(name@, mode, TAG_FILE, content@)),
        r@.len() == crate::DIGEST_LEN,
{
    make_seed(name, mode, TAG_FILE, content)
}

/// Seed of a directory: its name, mode, and the directory tag. Children are
/// not folded in here; each child submits its own self-contained seed.
pub fn dir_seed(name: &Vec<u8>, mode: u32) -> (r: Vec<u8>)
    ensures
        r@ == sha1_of(seed_input(name@, mode, TAG_DIR, Seq::<u8>::empty())),
        r@.len() == crate::DIGEST_LEN,
{
    let empty: Vec<u8> = Vec::new();
    make_seed(name, mode, TAG_DIR, &empty)
}

/// Seed of a symbolic link: its name, mode, the symlink tag, and the raw
/// bytes of the link target, not the target's content.
pub fn symlink_seed(name: &Vec<u8>, mode: u32, target: &Vec<u8>) -> (r: Vec<u8>)
    ensures
        r@ == sha1_of(seed_input(name@, mode, TAG_SYMLINK, target@)),
        r@.len() == crate::DIGEST_LEN,
{
    make_seed(name, mode, TAG_SYMLINK, target)
}

/// Seed of a socket: its name, mode, and the socket tag; sockets carry no
/// byte content.
pub fn socket_seed(name: &Vec<u8>, mode: u32) -> (r: Vec<u8>)
    ensures
        r@ == sha1_of(seed_input(name@, mode, TAG_SOCKET, Seq::<u8>::empty())),
        r@.len() == crate::DIGEST_LEN,
{
    let empty: Vec<u8> = Vec::new();
    make_seed(name, mode, TAG_SOCKET, &empty)
}

/// Each field of the layout can be read back from the encoded bytes at a
/// fixed window, so the layout is self-delimiting.
pub proof fn lemma_seed_components(name: Seq<u8>, mode: u32, tag: u8, payload: Seq<u8>)
    ensures
        seed_input(name, mode, tag, payload).len() == 13 + name.len() + payload.len(),
        seed_input(name, mode, tag, payload).subrange(0, 8) == enc_u64(name.len() as u64),
        seed_input(name, mode, tag, payload).subrange(8, 8 + name.len() as int) == name,
        seed_input(name, mode, tag, payload).subrange(
            8 + name.len() as int,
            12 + name.len() as int,
        ) == enc_u32(mode),
        seed_input(name, mode, tag, payload)[12 + name.len() as int] == tag,
        seed_input(name, mode, tag, payload).subrange(
            13 + name.len() as int,
            seed_input(name, mode, tag, payload).len() as int,
        ) == payload,
{
    let s = seed_input(name, mode, tag, payload);
    let k = name.len() as int;
    assert(s.subrange(0, 8) =~= enc_u64(name.len() as u64));
    assert(s.subrange(8, 8 + k) =~= name);
    assert(s.subrange(8 + k, 12 + k) =~= enc_u32(mode));
    assert(s.subrange(13 + k, s.len() as int) =~= payload);
}

/// The layout is injective: equal encoded bytes can only come from equal
/// name, mode, tag, and payload. The length prefix keeps a long name from
/// masquerading as a short name with a longer payload.
pub proof fn lemma_seed_input_injective(
    n1: Seq<u8>,
    m1: u32,
    t1: u8,
    p1: Seq<u8>,
    n2: Seq<u8>,
    m2: u32,
    t2: u8,
    p2: Seq<u8>,
)
    requires
        seed_input(n1, m1, t1, p1) == seed_input(n2, m2, t2, p2),
        n1.len() < 0x1_0000_0000_0000_0000,
        n2.len() < 0x1_0000_0000_0000_0000,
    ensures
        n1 == n2,
        m1 == m2,
        t1 == t2,
        p1 == p2,
{
    lemma_seed_components(n1, m1, t1, p1);
    lemma_seed_components(n2, m2, t2, p2);
    lemma_enc_u64_injective(n1.len() as u64, n2.len() as u64);
    assert(n1.len() == n2.len());
    lemma_enc_u32_injective(m1, m2);
}

/// Entries of different kinds never share a seed layout, whatever their
/// payloads: the tag byte tells an empty file from an empty directory with
/// the same name and mode.
pub proof fn lemma_tag_sensitivity(
    name: Seq<u8>,
    mode: u32,
    t1: u8,
    t2: u8,
    p1: Seq<u8>,
    p2: Seq<u8>,
)
    requires
        t1 != t2,
    ensures
        seed_input(name, mode, t1, p1) != seed_input(name, mode, t2, p2),
{
    if seed_input(name, mode, t1, p1) == seed_input(name, mode, t2, p2) {
        lemma_seed_components(name, mode, t1, p1);
        lemma_seed_components(name, mode, t2, p2);
    }
}

/// Changing the payload — a file's content, a symlink's target — changes the
/// seed layout when name, mode and tag are unchanged.
pub proof fn lemma_payload_sensitivity(
    name: Seq<u8>,
    mode: u32,
    tag: u8,
    p1: Seq<u8>,
    p2: Seq<u8>,
)
    requires
        p1 != p2,
    ensures
        seed_input(name, mode, tag, p1) != seed_input(name, mode, tag, p2),
{
    if seed_input(name, mode, tag, p1) == seed_input(name, mode, tag, p2) {
        lemma_seed_components(name, mode, tag, p1);
        lemma_seed_components(name, mode, tag, p2);
    }
}

/// Renaming an entry changes the seed layout when mode, tag and payload are
/// unchanged.
pub proof fn lemma_name_sensitivity(
    n1: Seq<u8>,
    n2: Seq<u8>,
    mode: u32,
    tag: u8,
    payload: Seq<u8>,
)
    requires
        n1 != n2,
    ensures
        seed_input(n1, mode, tag, payload) != seed_input(n2, mode, tag, payload),
{
    if seed_input(n1, mode, tag, payload) == seed_input(n2, mode, tag, payload) {
        lemma_seed_components(n1, mode, tag, payload);
        lemma_seed_components(n2, mode, tag, payload);
    }
}

/// Changing the mode bits changes the seed layout when name, tag and payload
/// are unchanged.
pub proof fn lemma_mode_sensitivity(
    name: Seq<u8>,
    m1: u32,
    m2: u32,
    tag: u8,
    payload: Seq<u8>,
)
    requires
        m1 != m2,
    ensures
        seed_input(name, m1, tag, payload) != seed_input(name, m2, tag, payload),
{
    if seed_input(name, m1, tag, payload) == seed_input(name, m2, tag, payload) {
        lemma_seed_components(name, m1, tag, payload);
        lemma_seed_components(name, m2, tag, payload);
        lemma_enc_u32_injective(m1, m2);
    }
}

/// An empty payload adds nothing: a zero-byte file's seed digests exactly the
/// name, mode and tag prefix.
pub proof fn lemma_empty_payload(name: Seq<u8>, mode: u32, tag: u8)
    ensures
        seed_input(name, mode, tag, Seq::<u8>::empty()) == seed_prefix(name, mode, tag),
{
    assert(seed_input(name, mode, tag, Seq::<u8>::empty()) =~= seed_prefix(name, mode, tag));
}

} // verus!
