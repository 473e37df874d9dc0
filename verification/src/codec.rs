//! The byte codec that persists a collection as one serialized blob.
//!
//! Integers are fixed-width little-endian; strings and collections are
//! length-prefixed. Encoding is deterministic and decoding accepts exactly
//! the encodings, so a collection round-trips losslessly: loading a saved
//! file and saving again writes back the very same bytes.

use vstd::prelude::*;

use crate::users::{users_view, User, UserView};
use crate::videos::{videos_view, Video, VideoView};
use vstd::utf8::{
    decode_utf8, encode_utf8, encode_utf8_decode_utf8, encode_utf8_valid_utf8, valid_utf8,
};

verus! {

/// The four little-endian bytes of a 32-bit integer.
pub open spec fn le32(x: u32) -> Seq<u8> {
    seq![
        (x & 0xff) as u8,
        ((x >> 8) & 0xff) as u8,
        ((x >> 16) & 0xff) as u8,
        ((x >> 24) & 0xff) as u8,
    ]
}

/// The eight little-endian bytes of a 64-bit integer.
pub open spec fn le64(x: u64) -> Seq<u8> {
    seq![
        (x & 0xff) as u8,
        ((x >> 8) & 0xff) as u8,
        ((x >> 16) & 0xff) as u8,
        ((x >> 24) & 0xff) as u8,
        ((x >> 32) & 0xff) as u8,
        ((x >> 40) & 0xff) as u8,
        ((x >> 48) & 0xff) as u8,
        ((x >> 56) & 0xff) as u8,
    ]
}

/// Two integers with the same little-endian bytes are equal.
proof fn lemma_le32_inj(x: u32, y: u32)
    requires
        le32(x) == le32(y),
    ensures
        x == y,
{
    assert(le32(x)[0] == le32(y)[0] && le32(x)[1] == le32(y)[1] && le32(x)[2] == le32(y)[2]
        && le32(x)[3] == le32(y)[3]);
    assert(x == y) by (bit_vector)
        requires
            (x & 0xff) as u8 == (y & 0xff) as u8,
            ((x >> 8) & 0xff) as u8 == ((y >> 8) & 0xff) as u8,
            ((x >> 16) & 0xff) as u8 == ((y >> 16) & 0xff) as u8,
            ((x >> 24) & 0xff) as u8 == ((y >> 24) & 0xff) as u8,
    ;
}

/// Two integers with the same little-endian bytes are equal.
proof fn lemma_le64_inj(x: u64, y: u64)
    requires
        le64(x) == le64(y),
    ensures
        x == y,
{
    assert(le64(x)[0] == le64(y)[0] && le64(x)[1] == le64(y)[1] && le64(x)[2] == le64(y)[2]
        && le64(x)[3] == le64(y)[3] && le64(x)[4] == le64(y)[4] && le64(x)[5] == le64(y)[5]
        && le64(x)[6] == le64(y)[6] && le64(x)[7] == le64(y)[7]);
    assert(x == y) by (bit_vector)
        requires
            (x & 0xff) as u8 == (y & 0xff) as u8,
            ((x >> 8) & 0xff) as u8 == ((y >> 8) & 0xff) as u8,
            ((x >> 16) & 0xff) as u8 == ((y >> 16) & 0xff) as u8,
            ((x >> 24) & 0xff) as u8 == ((y >> 24) & 0xff) as u8,
            ((x >> 32) & 0xff) as u8 == ((y >> 32) & 0xff) as u8,
            ((x >> 40) & 0xff) as u8 == ((y >> 40) & 0xff) as u8,
            ((x >> 48) & 0xff) as u8 == ((y >> 48) & 0xff) as u8,
            ((x >> 56) & 0xff) as u8 == ((y >> 56) & 0xff) as u8,
    ;
}

/// `b` begins with the bytes of `prefix`.
pub open spec fn starts_with(b: Seq<u8>, prefix: Seq<u8>) -> bool {
    prefix.len() <= b.len() && b.take(prefix.len() as int) == prefix
}

/// A sequence starting with a concatenation starts with its first part,
/// and past that part starts with the second.
proof fn lemma_starts_with_parts(b: Seq<u8>, p1: Seq<u8>, p2: Seq<u8>)
    requires
        starts_with(b, p1 + p2),
    ensures
        starts_with(b, p1),
        starts_with(b.skip(p1.len() as int), p2),
{
    assert forall|i: int| 0 <= i < p1.len() implies b.take(p1.len() as int)[i] == p1[i] by {
        assert(b.take((p1 + p2).len() as int)[i] == (p1 + p2)[i]);
    }
    assert(b.take(p1.len() as int) =~= p1);
    assert forall|i: int|
        0 <= i < p2.len() implies b.skip(p1.len() as int).take(p2.len() as int)[i] == p2[i] by {
        assert(b.take((p1 + p2).len() as int)[p1.len() + i] == (p1 + p2)[p1.len() + i]);
    }
    assert(b.skip(p1.len() as int).take(p2.len() as int) =~= p2);
}

/// A concatenation starts with its first part.
proof fn lemma_concat_starts_with(p1: Seq<u8>, p2: Seq<u8>)
    ensures
        starts_with(p1 + p2, p1),
        (p1 + p2).skip(p1.len() as int) == p2,
{
    assert((p1 + p2).take(p1.len() as int) =~= p1);
    assert((p1 + p2).skip(p1.len() as int) =~= p2);
}

/// The encoding of one string: its UTF-8 byte length, then its UTF-8
/// bytes.
pub open spec fn str_bytes(s: Seq<char>) -> Seq<u8> {
    le64(encode_utf8(s).len() as u64) + encode_utf8(s)
}

/// The string's byte length is representable in the length prefix. Every
/// string held in memory satisfies this.
pub open spec fn encodable_str(s: Seq<char>) -> bool {
    encode_utf8(s).len() <= 0xFFFF_FFFF_FFFF_FFFF
}

/// The encoding of one user record: id, name, email.
pub open spec fn user_bytes(u: UserView) -> Seq<u8> {
    le32(u.id) + str_bytes(u.name) + str_bytes(u.email)
}

/// Both string fields have representable lengths.
pub open spec fn encodable_user(u: UserView) -> bool {
    encodable_str(u.name) && encodable_str(u.email)
}

/// The record encodings, in collection order.
pub open spec fn users_records(us: Seq<UserView>) -> Seq<u8>
    decreases us.len(),
{
    if us.len() == 0 {
        Seq::empty()
    } else {
        user_bytes(us[0]) + users_records(us.drop_first())
    }
}

/// The encoding of a whole collection: the record count, then the records.
pub open spec fn users_bytes(us: Seq<UserView>) -> Seq<u8> {
    le64(us.len() as u64) + users_records(us)
}

/// The collection and each of its records are representable.
pub open spec fn encodable_users(us: Seq<UserView>) -> bool {
    us.len() <= 0xFFFF_FFFF_FFFF_FFFF && forall|i: int|
        0 <= i < us.len() ==> encodable_user(#[trigger] us[i])
}

proof fn lemma_users_records_push(us: Seq<UserView>, u: UserView)
    ensures
        users_records(us.push(u)) == users_records(us) + user_bytes(u),
    decreases us.len(),
{
    if us.len() == 0 {
        assert(us.push(u).drop_first() =~= us);
        assert(users_records(us.push(u)) =~= users_records(us) + user_bytes(u));
    } else {
        assert(us.push(u)[0] == us[0]);
        assert(us.push(u).drop_first() =~= us.drop_first().push(u));
        lemma_users_records_push(us.drop_first(), u);
        assert(users_records(us.push(u)) =~= users_records(us) + user_bytes(u));
    }
}

/// The encoding of one video record: id, name, view counter.
pub open spec fn video_bytes(v: VideoView) -> Seq<u8> {
    le32(v.id) + str_bytes(v.name) + le32(v.views)
}

/// The name field has a representable length.
pub open spec fn encodable_video(v: VideoView) -> bool {
    encodable_str(v.name)
}

/// The record encodings, in collection order.
pub open spec fn videos_records(vs: Seq<VideoView>) -> Seq<u8>
    decreases vs.len(),
{
    if vs.len() == 0 {
        Seq::empty()
    } else {
        video_bytes(vs[0]) + videos_records(vs.drop_first())
    }
}

/// The encoding of a whole collection: the record count, then the records.
pub open spec fn videos_bytes(vs: Seq<VideoView>) -> Seq<u8> {
    le64(vs.len() as u64) + videos_records(vs)
}

/// The collection and each of its records are representable.
pub open spec fn encodable_videos(vs: Seq<VideoView>) -> bool {
    vs.len() <= 0xFFFF_FFFF_FFFF_FFFF && forall|i: int|
        0 <= i < vs.len() ==> encodable_video(#[trigger] vs[i])
}

proof fn lemma_videos_records_push(vs: Seq<VideoView>, v: VideoView)
    ensures
        videos_records(vs.push(v)) == videos_records(vs) + video_bytes(v),
    decreases vs.len(),
{
    if vs.len() == 0 {
        assert(vs.push(v).drop_first() =~= vs);
        assert(videos_records(vs.push(v)) =~= videos_records(vs) + video_bytes(v));
    } else {
        assert(vs.push(v)[0] == vs[0]);
        assert(vs.push(v).drop_first() =~= vs.drop_first().push(v));
        lemma_videos_records_push(vs.drop_first(), v);
        assert(videos_records(vs.push(v)) =~= videos_records(vs) + video_bytes(v));
    }
}

/// Appends the four little-endian bytes of `x`.
fn push_u32_le(out: &mut Vec<u8>, x: u32)
    ensures
        final(out)@ == old(out)@ + le32(x),
{
    proof {
        assert(x & 0xff < 256 && (x >> 8) & 0xff < 256 && (x >> 16) & 0xff < 256 && (x >> 24)
            & 0xff < 256) by (bit_vector);
    }
    out.push((x & 0xff) as u8);
    out.push(((x >> 8) & 0xff) as u8);
    out.push(((x >> 16) & 0xff) as u8);
    out.push(((x >> 24) & 0xff) as u8);
    proof {
        assert(out@ =~= old(out)@ + le32(x));
    }
}

/// Appends the eight little-endian bytes of `x`.
fn push_u64_le(out: &mut Vec<u8>, x: u64)
    ensures
        final(out)@ == old(out)@ + le64(x),
{
    proof {
        assert(x & 0xff < 256 && (x >> 8) & 0xff < 256 && (x >> 16) & 0xff < 256 && (x >> 24)
            & 0xff < 256 && (x >> 32) & 0xff < 256 && (x >> 40) & 0xff < 256 && (x >> 48) & 0xff
            < 256 && (x >> 56) & 0xff < 256) by (bit_vector);
    }
    out.push((x & 0xff) as u8);
    out.push(((x >> 8) & 0xff) as u8);
    out.push(((x >> 16) & 0xff) as u8);
    out.push(((x >> 24) & 0xff) as u8);
    out.push(((x >> 32) & 0xff) as u8);
    out.push(((x >> 40) & 0xff) as u8);
    out.push(((x >> 48) & 0xff) as u8);
    out.push(((x >> 56) & 0xff) as u8);
    proof {
        assert(out@ =~= old(out)@ + le64(x));
    }
}

/// Reads the 32-bit integer whose little-endian bytes sit at `pos`.
fn read_u32_le(bytes: &Vec<u8>, pos: usize) -> (x: u32)
    requires
        pos + 4 <= bytes@.len(),
    ensures
        le32(x) == bytes@.subrange(pos as int, pos as int + 4),
{
    let blen = bytes.len();
    proof {
        assert(pos + 4 <= blen);
    }
    let b0 = bytes[pos];
    let b1 = bytes[pos + 1];
    let b2 = bytes[pos + 2];
    let b3 = bytes[pos + 3];
    let x = (b0 as u32) | ((b1 as u32) << 8) | ((b2 as u32) << 16) | ((b3 as u32) << 24);
    proof {
        assert((x & 0xff) as u8 == b0 && ((x >> 8) & 0xff) as u8 == b1 && ((x >> 16) & 0xff) as u8
            == b2 && ((x >> 24) & 0xff) as u8 == b3) by (bit_vector)
            requires
                x == (b0 as u32) | ((b1 as u32) << 8) | ((b2 as u32) << 16) | ((b3 as u32) << 24),
        ;
        assert(le32(x) =~= bytes@.subrange(pos as int, pos as int + 4));
    }
    x
}

/// Reads the 64-bit integer whose little-endian bytes sit at `pos`.
fn read_u64_le(bytes: &Vec<u8>, pos: usize) -> (x: u64)
    requires
        pos + 8 <= bytes@.len(),
    ensures
        le64(x) == bytes@.subrange(pos as int, pos as int + 8),
{
    let blen = bytes.len();
    proof {
        assert(pos + 8 <= blen);
    }
    let b0 = bytes[pos];
    let b1 = bytes[pos + 1];
    let b2 = bytes[pos + 2];
    let b3 = bytes[pos + 3];
    let b4 = bytes[pos + 4];
    let b5 = bytes[pos + 5];
    let b6 = bytes[pos + 6];
    let b7 = bytes[pos + 7];
    let x = (b0 as u64) | ((b1 as u64) << 8) | ((b2 as u64) << 16) | ((b3 as u64) << 24) | ((
    b4 as u64) << 32) | ((b5 as u64) << 40) | ((b6 as u64) << 48) | ((b7 as u64) << 56);
    proof {
        assert((x & 0xff) as u8 == b0 && ((x >> 8) & 0xff) as u8 == b1 && ((x >> 16) & 0xff) as u8
            == b2 && ((x >> 24) & 0xff) as u8 == b3 && ((x >> 32) & 0xff) as u8 == b4 && ((x >> 40)
            & 0xff) as u8 == b5 && ((x >> 48) & 0xff) as u8 == b6 && ((x >> 56) & 0xff) as u8 == b7)
            by (bit_vector)
            requires
                x == (b0 as u64) | ((b1 as u64) << 8) | ((b2 as u64) << 16) | ((b3 as u64) << 24)
                    | ((b4 as u64) << 32) | ((b5 as u64) << 40) | ((b6 as u64) << 48) | ((
                b7 as u64) << 56),
        ;
        assert(le64(x) =~= bytes@.subrange(pos as int, pos as int + 8));
    }
    x
}

/// Relies on String::from_utf8: it succeeds exactly on valid UTF-8 input
/// and decodes those bytes to the characters they encode.
#[verifier::external_body]
fn bytes_to_string(bytes: Vec<u8>) -> (r: Option<String>)
    ensures
        r matches Some(s) ==> valid_utf8(bytes@) && s@ == decode_utf8(bytes@),
        r is None ==> !valid_utf8(bytes@),
{
    String::from_utf8(bytes).ok()
}

/// Appends the length-prefixed UTF-8 bytes of `s`.
fn push_string(out: &mut Vec<u8>, s: &String)
    ensures
        final(out)@ == old(out)@ + str_bytes(s@),
        encodable_str(s@),
{
    let bs: &[u8] = s.as_str().as_bytes();
    let n: usize = bs.len();
    push_u64_le(out, n as u64);
    let ghost mid = out@;
    let mut k: usize = 0;
    while k < n
        invariant
            n == bs@.len(),
            k <= n,
            out@ == mid + bs@.take(k as int),
        decreases n - k,
    {
        out.push(bs[k]);
        proof {
            assert(bs@.take(k as int + 1) =~= bs@.take(k as int).push(bs@[k as int]));
            assert(out@ =~= mid + bs@.take(k as int + 1));
        }
        k = k + 1;
    }
    proof {
        assert(bs@.take(n as int) =~= bs@);
        assert(out@ =~= old(out)@ + str_bytes(s@));
    }
}

/// Reads one length-prefixed UTF-8 string starting at `pos`.
///
/// Returns the string and the position just past it; fails exactly when no
/// representable string is encoded there.
fn read_string(bytes: &Vec<u8>, pos: usize) -> (r: Option<(String, usize)>)
    requires
        pos <= bytes@.len(),
    ensures
        r matches Some(p) ==> pos <= p.1 <= bytes@.len() && bytes@.subrange(pos as int, p.1 as int)
            == str_bytes(p.0@) && encodable_str(p.0@),
        r matches Some(p) ==> forall|cs: Seq<char>|
            encodable_str(cs) && #[trigger] starts_with(bytes@.skip(pos as int), str_bytes(cs))
                ==> p.0@ == cs && p.1 == pos + str_bytes(cs).len(),
        r is None ==> forall|cs: Seq<char>|
            !(encodable_str(cs) && #[trigger] starts_with(
                bytes@.skip(pos as int),
                str_bytes(cs),
            )),
{
    let ghost tail = bytes@.skip(pos as int);
    if bytes.len() - pos < 8 {
        proof {
            assert forall|cs: Seq<char>|
                !(encodable_str(cs) && #[trigger] starts_with(tail, str_bytes(cs))) by {
                assert(str_bytes(cs).len() >= 8);
            }
        }
        return None;
    }
    let n = read_u64_le(bytes, pos);
    let rem = bytes.len() - (pos + 8);
    proof {
        assert(bytes@.subrange(pos as int, pos as int + 8) =~= tail.take(8));
    }
    if n > rem as u64 {
        proof {
            assert forall|cs: Seq<char>|
                !(encodable_str(cs) && #[trigger] starts_with(tail, str_bytes(cs))) by {
                if encodable_str(cs) && starts_with(tail, str_bytes(cs)) {
                    lemma_starts_with_parts(tail, le64(encode_utf8(cs).len() as u64), encode_utf8(cs));
                    assert(tail.take(8) =~= le64(encode_utf8(cs).len() as u64));
                    lemma_le64_inj(n, encode_utf8(cs).len() as u64);
                    assert(encode_utf8(cs).len() == n);
                    assert(str_bytes(cs).len() > tail.len());
                }
            }
        }
        return None;
    }
    proof {
        assert(n <= usize::MAX as u64);
    }
    let m = n as usize;
    let mut buf: Vec<u8> = Vec::new();
    let mut k: usize = 0;
    while k < m
        invariant
            pos + 8 + m <= bytes@.len(),
            bytes@.len() <= usize::MAX,
            k <= m,
            buf@ == bytes@.subrange(pos as int + 8, pos as int + 8 + k as int),
        decreases m - k,
    {
        buf.push(bytes[pos + 8 + k]);
        proof {
            assert(bytes@.subrange(pos as int + 8, pos as int + 8 + k as int + 1) =~= bytes@
                .subrange(pos as int + 8, pos as int + 8 + k as int).push(
                bytes@[pos as int + 8 + k as int],
            ));
        }
        k = k + 1;
    }
    let ghost body = bytes@.subrange(pos as int + 8, pos as int + 8 + m as int);
    proof {
        assert(body =~= tail.skip(8).take(m as int));
    }
    match bytes_to_string(buf) {
        None => {
            proof {
                assert forall|cs: Seq<char>|
                    !(encodable_str(cs) && #[trigger] starts_with(tail, str_bytes(cs))) by {
                    if encodable_str(cs) && starts_with(tail, str_bytes(cs)) {
                        lemma_starts_with_parts(
                            tail,
                            le64(encode_utf8(cs).len() as u64),
                            encode_utf8(cs),
                        );
                        assert(tail.take(8) =~= le64(encode_utf8(cs).len() as u64));
                        lemma_le64_inj(n, encode_utf8(cs).len() as u64);
                        assert(encode_utf8(cs).len() == n);
                        assert(tail.skip(8).take(m as int) =~= encode_utf8(cs));
                        encode_utf8_valid_utf8(cs);
                    }
                }
            }
            None
        },
        Some(s) => {
            proof {
                vstd::utf8::decode_utf8_encode_utf8(body);
                assert(encode_utf8(s@) == body);
                assert(bytes@.subrange(pos as int, pos as int + 8 + m as int) =~= bytes@.subrange(
                    pos as int,
                    pos as int + 8,
                ) + body);
                assert(le64(encode_utf8(s@).len() as u64) == le64(n)) by {
                    assert(encode_utf8(s@).len() == m as int);
                }
                assert(bytes@.subrange(pos as int, pos as int + 8 + m as int) == str_bytes(s@));
                assert forall|cs: Seq<char>|
                    encodable_str(cs) && #[trigger] starts_with(tail, str_bytes(cs)) implies s@
                    == cs && pos + 8 + m == pos + str_bytes(cs).len() by {
                    lemma_starts_with_parts(tail, le64(encode_utf8(cs).len() as u64), encode_utf8(cs));
                    assert(tail.take(8) =~= le64(encode_utf8(cs).len() as u64));
                    lemma_le64_inj(n, encode_utf8(cs).len() as u64);
                    assert(encode_utf8(cs).len() == n);
                    assert(tail.skip(8).take(m as int) =~= encode_utf8(cs));
                    assert(encode_utf8(cs) == body);
                    encode_utf8_decode_utf8(cs);
                }
            }
            Some((s, pos + 8 + m))
        },
    }
}

/// Two representable strings encoded at the start of the same bytes are
/// the same string, with the same encoding.
proof fn lemma_str_prefix_unique(x: Seq<u8>, a: Seq<char>, b: Seq<char>)
    requires
        encodable_str(a),
        encodable_str(b),
        starts_with(x, str_bytes(a)),
        starts_with(x, str_bytes(b)),
    ensures
        a == b,
        str_bytes(a) == str_bytes(b),
{
    assert(x.take(str_bytes(a).len() as int).take(8) =~= x.take(8));
    assert(x.take(str_bytes(b).len() as int).take(8) =~= x.take(8));
    assert(str_bytes(a).take(8) =~= le64(encode_utf8(a).len() as u64));
    assert(str_bytes(b).take(8) =~= le64(encode_utf8(b).len() as u64));
    lemma_le64_inj(encode_utf8(a).len() as u64, encode_utf8(b).len() as u64);
    assert(encode_utf8(a).len() == encode_utf8(b).len());
    assert(str_bytes(a).len() == str_bytes(b).len());
    assert(str_bytes(a) == str_bytes(b));
    assert(str_bytes(a).skip(8) =~= encode_utf8(a));
    assert(str_bytes(b).skip(8) =~= encode_utf8(b));
    encode_utf8_decode_utf8(a);
    encode_utf8_decode_utf8(b);
}

/// Two representable user records encoded at the start of the same bytes
/// are the same record, with the same encoding.
proof fn lemma_user_prefix_unique(x: Seq<u8>, a: UserView, b: UserView)
    requires
        encodable_user(a),
        encodable_user(b),
        starts_with(x, user_bytes(a)),
        starts_with(x, user_bytes(b)),
    ensures
        a == b,
        user_bytes(a) == user_bytes(b),
{
    lemma_starts_with_parts(x, le32(a.id) + str_bytes(a.name), str_bytes(a.email));
    lemma_starts_with_parts(x, le32(a.id), str_bytes(a.name));
    lemma_starts_with_parts(x, le32(b.id) + str_bytes(b.name), str_bytes(b.email));
    lemma_starts_with_parts(x, le32(b.id), str_bytes(b.name));
    assert(x.take(4) =~= le32(a.id));
    assert(x.take(4) =~= le32(b.id));
    lemma_le32_inj(a.id, b.id);
    lemma_str_prefix_unique(x.skip(4), a.name, b.name);
    assert(x.skip(4).skip(str_bytes(a.name).len() as int) =~= x.skip(
        4 + str_bytes(a.name).len() as int,
    ));
    assert(x.skip(4).skip(str_bytes(b.name).len() as int) =~= x.skip(
        4 + str_bytes(b.name).len() as int,
    ));
    lemma_str_prefix_unique(x.skip(4 + str_bytes(a.name).len() as int), a.email, b.email);
}

proof fn lemma_users_records_inj(a: Seq<UserView>, b: Seq<UserView>)
    requires
        encodable_users(a),
        encodable_users(b),
        a.len() == b.len(),
        users_records(a) == users_records(b),
    ensures
        a == b,
    decreases a.len(),
{
    if a.len() > 0 {
        let x = users_records(a);
        lemma_concat_starts_with(user_bytes(a[0]), users_records(a.drop_first()));
        lemma_concat_starts_with(user_bytes(b[0]), users_records(b.drop_first()));
        lemma_user_prefix_unique(x, a[0], b[0]);
        assert(users_records(a.drop_first()) == users_records(b.drop_first()));
        assert(encodable_users(a.drop_first())) by {
            assert(forall|i: int|
                0 <= i < a.drop_first().len() ==> #[trigger] a.drop_first()[i] == a[i + 1]);
        }
        assert(encodable_users(b.drop_first())) by {
            assert(forall|i: int|
                0 <= i < b.drop_first().len() ==> #[trigger] b.drop_first()[i] == b[i + 1]);
        }
        lemma_users_records_inj(a.drop_first(), b.drop_first());
        assert forall|i: int| 0 <= i < a.len() implies a[i] == b[i] by {
            if i > 0 {
                assert(a.drop_first()[i - 1] == a[i]);
                assert(b.drop_first()[i - 1] == b[i]);
            }
        }
        assert(a =~= b);
    } else {
        assert(a =~= b);
    }
}

/// A persisted blob encodes at most one collection: two representable
/// collections with the same serialized bytes are the same collection, so
/// a collection round-trips losslessly through its persisted form.
pub proof fn lemma_users_bytes_inj(a: Seq<UserView>, b: Seq<UserView>)
    requires
        encodable_users(a),
        encodable_users(b),
        users_bytes(a) == users_bytes(b),
    ensures
        a == b,
{
    let x = users_bytes(a);
    lemma_concat_starts_with(le64(a.len() as u64), users_records(a));
    lemma_concat_starts_with(le64(b.len() as u64), users_records(b));
    assert(x.take(8) =~= le64(a.len() as u64));
    assert(x.take(8) =~= le64(b.len() as u64));
    lemma_le64_inj(a.len() as u64, b.len() as u64);
    assert(a.len() == b.len());
    assert(users_records(a) == users_records(b));
    lemma_users_records_inj(a, b);
}

/// Serializes the full user collection: the record count, then each
/// record in order.
pub fn encode_users(users: &Vec<User>) -> (out: Vec<u8>)
    ensures
        out@ == users_bytes(users_view(users@)),
        encodable_users(users_view(users@)),
{
    let ghost uv = users_view(users@);
    let count: u64 = users.len() as u64;
    let mut out: Vec<u8> = Vec::new();
    push_u64_le(&mut out, count);
    for k in 0..users.len()
        invariant
            uv == users_view(users@),
            count == users@.len() as u64,
            out@ == le64(count) + users_records(uv.take(k as int)),
            forall|i: int| 0 <= i < k ==> encodable_user(#[trigger] uv[i]),
    {
        let ghost mid = out@;
        let u = &users[k];
        push_u32_le(&mut out, u.id);
        push_string(&mut out, &u.name);
        push_string(&mut out, &u.email);
        proof {
            assert(uv.take(k as int + 1) =~= uv.take(k as int).push(uv[k as int]));
            lemma_users_records_push(uv.take(k as int), uv[k as int]);
            assert(out@ =~= mid + user_bytes(uv[k as int]));
            assert(out@ =~= le64(count) + users_records(uv.take(k as int + 1)));
        }
    }
    proof {
        assert(uv.take(users@.len() as int) =~= uv);
    }
    out
}

/// Reads one user record starting at `pos`.
///
/// Returns the record and the position just past it; fails exactly when no
/// representable record is encoded there.
fn read_user(bytes: &Vec<u8>, pos: usize) -> (r: Option<(User, usize)>)
    requires
        pos <= bytes@.len(),
    ensures
        r matches Some(p) ==> pos <= p.1 <= bytes@.len() && bytes@.subrange(pos as int, p.1 as int)
            == user_bytes(p.0@) && encodable_user(p.0@),
        r matches Some(p) ==> forall|u: UserView|
            encodable_user(u) && #[trigger] starts_with(bytes@.skip(pos as int), user_bytes(u))
                ==> p.0@ == u && p.1 == pos + user_bytes(u).len(),
        r is None ==> forall|u: UserView|
            !(encodable_user(u) && #[trigger] starts_with(bytes@.skip(pos as int), user_bytes(u))),
{
    let ghost tail = bytes@.skip(pos as int);
    let blen = bytes.len();
    if blen - pos < 4 {
        proof {
            assert forall|u: UserView|
                !(encodable_user(u) && #[trigger] starts_with(tail, user_bytes(u))) by {
                assert(user_bytes(u).len() >= 20);
            }
        }
        return None;
    }
    let id = read_u32_le(bytes, pos);
    match read_string(bytes, pos + 4) {
        None => {
            proof {
                assert forall|u: UserView|
                    !(encodable_user(u) && #[trigger] starts_with(tail, user_bytes(u))) by {
                    if encodable_user(u) && starts_with(tail, user_bytes(u)) {
                        lemma_starts_with_parts(
                            tail,
                            le32(u.id) + str_bytes(u.name),
                            str_bytes(u.email),
                        );
                        lemma_starts_with_parts(tail, le32(u.id), str_bytes(u.name));
                        assert(tail.skip(4) =~= bytes@.skip(pos as int + 4));
                        assert(starts_with(bytes@.skip(pos as int + 4), str_bytes(u.name)));
                    }
                }
            }
            None
        },
        Some((name, p2)) => {
            match read_string(bytes, p2) {
                None => {
                    proof {
                        assert forall|u: UserView|
                            !(encodable_user(u) && #[trigger] starts_with(tail, user_bytes(u))) by {
                            if encodable_user(u) && starts_with(tail, user_bytes(u)) {
                                lemma_starts_with_parts(
                                    tail,
                                    le32(u.id) + str_bytes(u.name),
                                    str_bytes(u.email),
                                );
                                lemma_starts_with_parts(tail, le32(u.id), str_bytes(u.name));
                                assert(tail.skip(4) =~= bytes@.skip(pos as int + 4));
                                assert(starts_with(bytes@.skip(pos as int + 4), str_bytes(u.name)));
                                assert(p2 == pos + 4 + str_bytes(u.name).len());
                                assert(tail.skip(4 + str_bytes(u.name).len() as int) =~= bytes@.skip(
                                    p2 as int,
                                ));
                                assert(starts_with(bytes@.skip(p2 as int), str_bytes(u.email)));
                            }
                        }
                    }
                    None
                },
                Some((email, p3)) => {
                    let user = User { id, name, email };
                    proof {
                        assert(bytes@.subrange(pos as int, pos as int + 4) =~= tail.take(4));
                        assert(bytes@.subrange(pos as int, p3 as int) =~= bytes@.subrange(
                            pos as int,
                            pos as int + 4,
                        ) + bytes@.subrange(pos as int + 4, p2 as int) + bytes@.subrange(
                            p2 as int,
                            p3 as int,
                        ));
                        assert(bytes@.subrange(pos as int, p3 as int) == user_bytes(user@));
                        assert forall|u: UserView|
                            encodable_user(u) && #[trigger] starts_with(tail, user_bytes(u))
                                implies user@ == u && p3 == pos + user_bytes(u).len() by {
                            lemma_starts_with_parts(
                                tail,
                                le32(u.id) + str_bytes(u.name),
                                str_bytes(u.email),
                            );
                            lemma_starts_with_parts(tail, le32(u.id), str_bytes(u.name));
                            assert(tail.take(4) =~= le32(u.id));
                            lemma_le32_inj(id, u.id);
                            assert(tail.skip(4) =~= bytes@.skip(pos as int + 4));
                            assert(starts_with(bytes@.skip(pos as int + 4), str_bytes(u.name)));
                            assert(name@ == u.name && p2 == pos + 4 + str_bytes(u.name).len());
                            assert(tail.skip(4 + str_bytes(u.name).len() as int) =~= bytes@.skip(
                                p2 as int,
                            ));
                            assert(starts_with(bytes@.skip(p2 as int), str_bytes(u.email)));
                            assert(email@ == u.email && p3 == p2 + str_bytes(u.email).len());
                        }
                    }
                    Some((user, p3))
                },
            }
        },
    }
}

/// Deserializes a user collection from the full byte blob.
///
/// Succeeds exactly on the blobs that encode a collection, and then
/// returns the one collection the blob encodes: a saved collection always
/// loads back, and a loaded collection saves back to the very same bytes.
#[verifier::rlimit(100)]
pub fn decode_users(bytes: &Vec<u8>) -> (r: Option<Vec<User>>)
    ensures
        r matches Some(users) ==> bytes@ == users_bytes(users_view(users@)),
        r matches Some(users) ==> forall|us: Seq<UserView>|
            encodable_users(us) && bytes@ == #[trigger] users_bytes(us) ==> users_view(users@)
                == us,
        r is None ==> forall|us: Seq<UserView>|
            !(encodable_users(us) && bytes@ == #[trigger] users_bytes(us)),
{
    let blen = bytes.len();
    if blen < 8 {
        proof {
            assert forall|us: Seq<UserView>|
                !(encodable_users(us) && bytes@ == #[trigger] users_bytes(us)) by {
                assert(users_bytes(us).len() >= 8);
            }
        }
        return None;
    }
    let count = read_u64_le(bytes, 0);
    proof {
        assert(bytes@.subrange(0, 8) =~= bytes@.take(8));
    }
    let mut acc: Vec<User> = Vec::new();
    let mut i: u64 = 0;
    let mut pos: usize = 8;
    proof {
        assert(users_view(acc@) =~= Seq::<UserView>::empty());
        assert(users_records(users_view(acc@)) =~= Seq::<u8>::empty());
        assert(bytes@.subrange(0, 8) =~= le64(count) + users_records(users_view(acc@)));
        assert forall|us: Seq<UserView>|
            encodable_users(us) && bytes@ == #[trigger] users_bytes(us) implies us.len() == count
            && us.subrange(0, 0) == users_view(acc@) && bytes@.skip(8) == users_records(
            us.skip(0),
        ) by {
            assert(bytes@.take(8) =~= le64(us.len() as u64));
            lemma_le64_inj(count, us.len() as u64);
            assert(us.subrange(0, 0) =~= users_view(acc@));
            assert(us.skip(0) =~= us);
            assert(bytes@.skip(8) =~= users_records(us));
        }
    }
    while i < count
        invariant
            pos <= bytes@.len(),
            bytes@.len() <= usize::MAX,
            le64(count) == bytes@.subrange(0, 8),
            acc@.len() == i,
            i <= count,
            bytes@.subrange(0, pos as int) == le64(count) + users_records(users_view(acc@)),
            forall|us: Seq<UserView>|
                encodable_users(us) && bytes@ == #[trigger] users_bytes(us) ==> us.len() == count
                    && us.subrange(0, i as int) == users_view(acc@) && bytes@.skip(pos as int)
                    == users_records(us.skip(i as int)),
        decreases count - i,
    {
        match read_user(bytes, pos) {
            None => {
                proof {
                    assert forall|us: Seq<UserView>|
                        !(encodable_users(us) && bytes@ == #[trigger] users_bytes(us)) by {
                        if encodable_users(us) && bytes@ == users_bytes(us) {
                            let rest = us.skip(i as int);
                            assert(rest.len() > 0);
                            assert(rest[0] == us[i as int]);
                            assert(encodable_user(us[i as int]));
                            assert(users_records(rest) == user_bytes(rest[0]) + users_records(
                                rest.drop_first(),
                            ));
                            lemma_concat_starts_with(
                                user_bytes(rest[0]),
                                users_records(rest.drop_first()),
                            );
                            assert(starts_with(bytes@.skip(pos as int), user_bytes(us[i as int])));
                        }
                    }
                }
                return None;
            },
            Some((u, end)) => {
                let ghost pre_acc = users_view(acc@);
                acc.push(u);
                proof {
                    assert(users_view(acc@) =~= pre_acc.push(u@));
                    lemma_users_records_push(pre_acc, u@);
                    assert(bytes@.subrange(0, end as int) =~= bytes@.subrange(0, pos as int)
                        + bytes@.subrange(pos as int, end as int));
                    assert(bytes@.subrange(0, end as int) =~= le64(count) + users_records(
                        users_view(acc@),
                    ));
                    assert forall|us: Seq<UserView>|
                        encodable_users(us) && bytes@ == #[trigger] users_bytes(us) implies us.len()
                        == count && us.subrange(0, i as int + 1) == users_view(acc@) && bytes@.skip(
                        end as int,
                    ) == users_records(us.skip(i as int + 1)) by {
                        let rest = us.skip(i as int);
                        assert(rest.len() > 0);
                        assert(rest[0] == us[i as int]);
                        assert(encodable_user(us[i as int]));
                        assert(users_records(rest) == user_bytes(rest[0]) + users_records(
                            rest.drop_first(),
                        ));
                        lemma_concat_starts_with(
                            user_bytes(rest[0]),
                            users_records(rest.drop_first()),
                        );
                        assert(starts_with(bytes@.skip(pos as int), user_bytes(us[i as int])));
                        assert(u@ == us[i as int] && end == pos + user_bytes(us[i as int]).len());
                        assert(us.subrange(0, i as int + 1) =~= us.subrange(0, i as int).push(
                            us[i as int],
                        ));
                        assert(rest.drop_first() =~= us.skip(i as int + 1));
                        assert(bytes@.skip(end as int) =~= bytes@.skip(pos as int).skip(
                            user_bytes(us[i as int]).len() as int,
                        ));
                        assert(bytes@.skip(end as int) == users_records(us.skip(i as int + 1)));
                    }
                }
                pos = end;
                i = i + 1;
            },
        }
    }
    if pos != blen {
        proof {
            assert forall|us: Seq<UserView>|
                !(encodable_users(us) && bytes@ == #[trigger] users_bytes(us)) by {
                if encodable_users(us) && bytes@ == users_bytes(us) {
                    assert(us.skip(i as int) =~= Seq::<UserView>::empty());
                    assert(users_records(us.skip(i as int)).len() == 0);
                    assert(bytes@.skip(pos as int).len() == 0);
                }
            }
        }
        return None;
    }
    proof {
        assert(bytes@.subrange(0, pos as int) =~= bytes@);
        assert(users_view(acc@).len() == acc@.len());
        assert(users_view(acc@).len() as u64 == count);
        assert(le64(users_view(acc@).len() as u64) == le64(count));
        assert(bytes@ == users_bytes(users_view(acc@)));
        assert forall|us: Seq<UserView>|
            encodable_users(us) && bytes@ == #[trigger] users_bytes(us) implies users_view(acc@)
            == us by {
            assert(us.subrange(0, i as int) =~= us);
        }
    }
    Some(acc)
}

/// Two representable video records encoded at the start of the same bytes
/// are the same record, with the same encoding.
proof fn lemma_video_prefix_unique(x: Seq<u8>, a: VideoView, b: VideoView)
    requires
        encodable_video(a),
        encodable_video(b),
        starts_with(x, video_bytes(a)),
        starts_with(x, video_bytes(b)),
    ensures
        a == b,
        video_bytes(a) == video_bytes(b),
{
    lemma_starts_with_parts(x, le32(a.id) + str_bytes(a.name), le32(a.views));
    lemma_starts_with_parts(x, le32(a.id), str_bytes(a.name));
    lemma_starts_with_parts(x, le32(b.id) + str_bytes(b.name), le32(b.views));
    lemma_starts_with_parts(x, le32(b.id), str_bytes(b.name));
    assert(x.take(4) =~= le32(a.id));
    assert(x.take(4) =~= le32(b.id));
    lemma_le32_inj(a.id, b.id);
    lemma_str_prefix_unique(x.skip(4), a.name, b.name);
    let y = x.skip(4 + str_bytes(a.name).len() as int);
    assert(x.skip(4).skip(str_bytes(a.name).len() as int) =~= y);
    assert(x.skip(4).skip(str_bytes(b.name).len() as int) =~= y);
    assert(y.take(4) =~= le32(a.views));
    assert(y.take(4) =~= le32(b.views));
    lemma_le32_inj(a.views, b.views);
}

proof fn lemma_videos_records_inj(a: Seq<VideoView>, b: Seq<VideoView>)
    requires
        encodable_videos(a),
        encodable_videos(b),
        a.len() == b.len(),
        videos_records(a) == videos_records(b),
    ensures
        a == b,
    decreases a.len(),
{
    if a.len() > 0 {
        let x = videos_records(a);
        lemma_concat_starts_with(video_bytes(a[0]), videos_records(a.drop_first()));
        lemma_concat_starts_with(video_bytes(b[0]), videos_records(b.drop_first()));
        lemma_video_prefix_unique(x, a[0], b[0]);
        assert(videos_records(a.drop_first()) == videos_records(b.drop_first()));
        assert(encodable_videos(a.drop_first())) by {
            assert(forall|i: int|
                0 <= i < a.drop_first().len() ==> #[trigger] a.drop_first()[i] == a[i + 1]);
        }
        assert(encodable_videos(b.drop_first())) by {
            assert(forall|i: int|
                0 <= i < b.drop_first().len() ==> #[trigger] b.drop_first()[i] == b[i + 1]);
        }
        lemma_videos_records_inj(a.drop_first(), b.drop_first());
        assert forall|i: int| 0 <= i < a.len() implies a[i] == b[i] by {
            if i > 0 {
                assert(a.drop_first()[i - 1] == a[i]);
                assert(b.drop_first()[i - 1] == b[i]);
            }
        }
        assert(a =~= b);
    } else {
        assert(a =~= b);
    }
}

/// A persisted blob encodes at most one collection: two representable
/// collections with the same serialized bytes are the same collection, so
/// a collection round-trips losslessly through its persisted form.
pub proof fn lemma_videos_bytes_inj(a: Seq<VideoView>, b: Seq<VideoView>)
    requires
        encodable_videos(a),
        encodable_videos(b),
        videos_bytes(a) == videos_bytes(b),
    ensures
        a == b,
{
    let x = videos_bytes(a);
    lemma_concat_starts_with(le64(a.len() as u64), videos_records(a));
    lemma_concat_starts_with(le64(b.len() as u64), videos_records(b));
    assert(x.take(8) =~= le64(a.len() as u64));
    assert(x.take(8) =~= le64(b.len() as u64));
    lemma_le64_inj(a.len() as u64, b.len() as u64);
    assert(a.len() == b.len());
    assert(videos_records(a) == videos_records(b));
    lemma_videos_records_inj(a, b);
}

/// Serializes the full video collection: the record count, then each
/// record in order.
pub fn encode_videos(videos: &Vec<Video>) -> (out: Vec<u8>)
    ensures
        out@ == videos_bytes(videos_view(videos@)),
        encodable_videos(videos_view(videos@)),
{
    let ghost vv = videos_view(videos@);
    let count: u64 = videos.len() as u64;
    let mut out: Vec<u8> = Vec::new();
    push_u64_le(&mut out, count);
    for k in 0..videos.len()
        invariant
            vv == videos_view(videos@),
            count == videos@.len() as u64,
            out@ == le64(count) + videos_records(vv.take(k as int)),
            forall|i: int| 0 <= i < k ==> encodable_video(#[trigger] vv[i]),
    {
        let ghost mid = out@;
        let v = &videos[k];
        push_u32_le(&mut out, v.id);
        push_string(&mut out, &v.name);
        push_u32_le(&mut out, v.views);
        proof {
            assert(vv.take(k as int + 1) =~= vv.take(k as int).push(vv[k as int]));
            lemma_videos_records_push(vv.take(k as int), vv[k as int]);
            assert(out@ =~= mid + video_bytes(vv[k as int]));
            assert(out@ =~= le64(count) + videos_records(vv.take(k as int + 1)));
        }
    }
    proof {
        assert(vv.take(videos@.len() as int) =~= vv);
    }
    out
}

/// Reads one video record starting at `pos`.
///
/// Returns the record and the position just past it; fails exactly when no
/// representable record is encoded there.
fn read_video(bytes: &Vec<u8>, pos: usize) -> (r: Option<(Video, usize)>)
    requires
        pos <= bytes@.len(),
    ensures
        r matches Some(p) ==> pos <= p.1 <= bytes@.len() && bytes@.subrange(pos as int, p.1 as int)
            == video_bytes(p.0@) && encodable_video(p.0@),
        r matches Some(p) ==> forall|v: VideoView|
            encodable_video(v) && #[trigger] starts_with(bytes@.skip(pos as int), video_bytes(v))
                ==> p.0@ == v && p.1 == pos + video_bytes(v).len(),
        r is None ==> forall|v: VideoView|
            !(encodable_video(v) && #[trigger] starts_with(
                bytes@.skip(pos as int),
                video_bytes(v),
            )),
{
    let ghost tail = bytes@.skip(pos as int);
    let blen = bytes.len();
    if blen - pos < 4 {
        proof {
            assert forall|v: VideoView|
                !(encodable_video(v) && #[trigger] starts_with(tail, video_bytes(v))) by {
                assert(video_bytes(v).len() >= 16);
            }
        }
        return None;
    }
    let id = read_u32_le(bytes, pos);
    match read_string(bytes, pos + 4) {
        None => {
            proof {
                assert forall|v: VideoView|
                    !(encodable_video(v) && #[trigger] starts_with(tail, video_bytes(v))) by {
                    if encodable_video(v) && starts_with(tail, video_bytes(v)) {
                        lemma_starts_with_parts(
                            tail,
                            le32(v.id) + str_bytes(v.name),
                            le32(v.views),
                        );
                        lemma_starts_with_parts(tail, le32(v.id), str_bytes(v.name));
                        assert(tail.skip(4) =~= bytes@.skip(pos as int + 4));
                        assert(starts_with(bytes@.skip(pos as int + 4), str_bytes(v.name)));
                    }
                }
            }
            None
        },
        Some((name, p2)) => {
            if bytes.len() - p2 < 4 {
                proof {
                    assert forall|v: VideoView|
                        !(encodable_video(v) && #[trigger] starts_with(tail, video_bytes(v))) by {
                        if encodable_video(v) && starts_with(tail, video_bytes(v)) {
                            lemma_starts_with_parts(
                                tail,
                                le32(v.id) + str_bytes(v.name),
                                le32(v.views),
                            );
                            lemma_starts_with_parts(tail, le32(v.id), str_bytes(v.name));
                            assert(tail.skip(4) =~= bytes@.skip(pos as int + 4));
                            assert(starts_with(bytes@.skip(pos as int + 4), str_bytes(v.name)));
                            assert(p2 == pos + 4 + str_bytes(v.name).len());
                            assert(tail.skip(4 + str_bytes(v.name).len() as int) =~= bytes@.skip(
                                p2 as int,
                            ));
                            assert(starts_with(bytes@.skip(p2 as int), le32(v.views)));
                        }
                    }
                }
                return None;
            }
            let views = read_u32_le(bytes, p2);
            let p3 = p2 + 4;
            let video = Video { id, name, views };
            proof {
                assert(bytes@.subrange(pos as int, pos as int + 4) =~= tail.take(4));
                assert(bytes@.subrange(pos as int, p3 as int) =~= bytes@.subrange(
                    pos as int,
                    pos as int + 4,
                ) + bytes@.subrange(pos as int + 4, p2 as int) + bytes@.subrange(
                    p2 as int,
                    p3 as int,
                ));
                assert(bytes@.subrange(pos as int, p3 as int) == video_bytes(video@));
                assert forall|v: VideoView|
                    encodable_video(v) && #[trigger] starts_with(tail, video_bytes(v))
                        implies video@ == v && p3 == pos + video_bytes(v).len() by {
                    lemma_starts_with_parts(tail, le32(v.id) + str_bytes(v.name), le32(v.views));
                    lemma_starts_with_parts(tail, le32(v.id), str_bytes(v.name));
                    assert(tail.take(4) =~= le32(v.id));
                    lemma_le32_inj(id, v.id);
                    assert(tail.skip(4) =~= bytes@.skip(pos as int + 4));
                    assert(starts_with(bytes@.skip(pos as int + 4), str_bytes(v.name)));
                    assert(name@ == v.name && p2 == pos + 4 + str_bytes(v.name).len());
                    assert(tail.skip(4 + str_bytes(v.name).len() as int) =~= bytes@.skip(
                        p2 as int,
                    ));
                    assert(starts_with(bytes@.skip(p2 as int), le32(v.views)));
                    assert(bytes@.subrange(p2 as int, p3 as int) =~= bytes@.skip(p2 as int).take(
                        4,
                    ));
                    assert(bytes@.subrange(p2 as int, p3 as int) =~= le32(v.views));
                    lemma_le32_inj(views, v.views);
                }
            }
            Some((video, p3))
        },
    }
}

/// Deserializes a video collection from the full byte blob.
///
/// Succeeds exactly on the blobs that encode a collection, and then
/// returns the one collection the blob encodes: a saved collection always
/// loads back, and a loaded collection saves back to the very same bytes.
#[verifier::rlimit(100)]
pub fn decode_videos(bytes: &Vec<u8>) -> (r: Option<Vec<Video>>)
    ensures
        r matches Some(videos) ==> bytes@ == videos_bytes(videos_view(videos@)),
        r matches Some(videos) ==> forall|vs: Seq<VideoView>|
            encodable_videos(vs) && bytes@ == #[trigger] videos_bytes(vs) ==> videos_view(videos@)
                == vs,
        r is None ==> forall|vs: Seq<VideoView>|
            !(encodable_videos(vs) && bytes@ == #[trigger] videos_bytes(vs)),
{
    let blen = bytes.len();
    if blen < 8 {
        proof {
            assert forall|vs: Seq<VideoView>|
                !(encodable_videos(vs) && bytes@ == #[trigger] videos_bytes(vs)) by {
                assert(videos_bytes(vs).len() >= 8);
            }
        }
        return None;
    }
    let count = read_u64_le(bytes, 0);
    proof {
        assert(bytes@.subrange(0, 8) =~= bytes@.take(8));
    }
    let mut acc: Vec<Video> = Vec::new();
    let mut i: u64 = 0;
    let mut pos: usize = 8;
    proof {
        assert(videos_view(acc@) =~= Seq::<VideoView>::empty());
        assert(videos_records(videos_view(acc@)) =~= Seq::<u8>::empty());
        assert(bytes@.subrange(0, 8) =~= le64(count) + videos_records(videos_view(acc@)));
        assert forall|vs: Seq<VideoView>|
            encodable_videos(vs) && bytes@ == #[trigger] videos_bytes(vs) implies vs.len() == count
            && vs.subrange(0, 0) == videos_view(acc@) && bytes@.skip(8) == videos_records(
            vs.skip(0),
        ) by {
            assert(bytes@.take(8) =~= le64(vs.len() as u64));
            lemma_le64_inj(count, vs.len() as u64);
            assert(vs.subrange(0, 0) =~= videos_view(acc@));
            assert(vs.skip(0) =~= vs);
            assert(bytes@.skip(8) =~= videos_records(vs));
        }
    }
    while i < count
        invariant
            pos <= bytes@.len(),
            bytes@.len() <= usize::MAX,
            le64(count) == bytes@.subrange(0, 8),
            acc@.len() == i,
            i <= count,
            bytes@.subrange(0, pos as int) == le64(count) + videos_records(videos_view(acc@)),
            forall|vs: Seq<VideoView>|
                encodable_videos(vs) && bytes@ == #[trigger] videos_bytes(vs) ==> vs.len() == count
                    && vs.subrange(0, i as int) == videos_view(acc@) && bytes@.skip(pos as int)
                    == videos_records(vs.skip(i as int)),
        decreases count - i,
    {
        match read_video(bytes, pos) {
            None => {
                proof {
                    assert forall|vs: Seq<VideoView>|
                        !(encodable_videos(vs) && bytes@ == #[trigger] videos_bytes(vs)) by {
                        if encodable_videos(vs) && bytes@ == videos_bytes(vs) {
                            let rest = vs.skip(i as int);
                            assert(rest.len() > 0);
                            assert(rest[0] == vs[i as int]);
                            assert(encodable_video(vs[i as int]));
                            assert(videos_records(rest) == video_bytes(rest[0]) + videos_records(
                                rest.drop_first(),
                            ));
                            lemma_concat_starts_with(
                                video_bytes(rest[0]),
                                videos_records(rest.drop_first()),
                            );
                            assert(starts_with(bytes@.skip(pos as int), video_bytes(vs[i as int])));
                        }
                    }
                }
                return None;
            },
            Some((v, end)) => {
                let ghost pre_acc = videos_view(acc@);
                acc.push(v);
                proof {
                    assert(videos_view(acc@) =~= pre_acc.push(v@));
                    lemma_videos_records_push(pre_acc, v@);
                    assert(bytes@.subrange(0, end as int) =~= bytes@.subrange(0, pos as int)
                        + bytes@.subrange(pos as int, end as int));
                    assert(bytes@.subrange(0, end as int) =~= le64(count) + videos_records(
                        videos_view(acc@),
                    ));
                    assert forall|vs: Seq<VideoView>|
                        encodable_videos(vs) && bytes@ == #[trigger] videos_bytes(vs) implies vs.len()
                        == count && vs.subrange(0, i as int + 1) == videos_view(acc@)
                        && bytes@.skip(end as int) == videos_records(vs.skip(i as int + 1)) by {
                        let rest = vs.skip(i as int);
                        assert(rest.len() > 0);
                        assert(rest[0] == vs[i as int]);
                        assert(encodable_video(vs[i as int]));
                        assert(videos_records(rest) == video_bytes(rest[0]) + videos_records(
                            rest.drop_first(),
                        ));
                        lemma_concat_starts_with(
                            video_bytes(rest[0]),
                            videos_records(rest.drop_first()),
                        );
                        assert(starts_with(bytes@.skip(pos as int), video_bytes(vs[i as int])));
                        assert(v@ == vs[i as int] && end == pos + video_bytes(vs[i as int]).len());
                        assert(vs.subrange(0, i as int + 1) =~= vs.subrange(0, i as int).push(
                            vs[i as int],
                        ));
                        assert(rest.drop_first() =~= vs.skip(i as int + 1));
                        assert(bytes@.skip(end as int) =~= bytes@.skip(pos as int).skip(
                            video_bytes(vs[i as int]).len() as int,
                        ));
                        assert(bytes@.skip(end as int) == videos_records(vs.skip(i as int + 1)));
                    }
                }
                pos = end;
                i = i + 1;
            },
        }
    }
    if pos != blen {
        proof {
            assert forall|vs: Seq<VideoView>|
                !(encodable_videos(vs) && bytes@ == #[trigger] videos_bytes(vs)) by {
                if encodable_videos(vs) && bytes@ == videos_bytes(vs) {
                    assert(vs.skip(i as int) =~= Seq::<VideoView>::empty());
                    assert(videos_records(vs.skip(i as int)).len() == 0);
                    assert(bytes@.skip(pos as int).len() == 0);
                }
            }
        }
        return None;
    }
    proof {
        assert(bytes@.subrange(0, pos as int) =~= bytes@);
        assert(videos_view(acc@).len() == acc@.len());
        assert(videos_view(acc@).len() as u64 == count);
        assert(le64(videos_view(acc@).len() as u64) == le64(count));
        assert(bytes@ == videos_bytes(videos_view(acc@)));
        assert forall|vs: Seq<VideoView>|
            encodable_videos(vs) && bytes@ == #[trigger] videos_bytes(vs) implies videos_view(acc@)
            == vs by {
            assert(vs.subrange(0, i as int) =~= vs);
        }
    }
    Some(acc)
}

} // verus!
