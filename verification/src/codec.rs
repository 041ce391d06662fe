//! The snapshot codec: the library tree serialized to a length-prefixed
//! binary record graph and read back. Integers go as fixed-width
//! little-endian bytes, strings as a length prefix followed by their UTF-8
//! bytes, lists as a count followed by the elements. Decoding what encoding
//! produced yields the original structure exactly; a malformed snapshot
//! yields nothing.

use vstd::prelude::*;
use vstd::utf8::{encode_utf8, encode_utf8_decode_utf8, encode_utf8_valid_utf8, valid_utf8};
use crate::record::{Album, AlbumView, Artist, ArtistView, Track, TrackView};
use crate::library::lib_view;

verus! {

/// `pat` occurs in `buf` at offset `pos`.
pub open spec fn starts_at(buf: Seq<u8>, pos: int, pat: Seq<u8>) -> bool {
    &&& 0 <= pos
    &&& pos + pat.len() <= buf.len()
    &&& buf.subrange(pos, pos + pat.len()) == pat
}

pub proof fn lemma_starts_at_concat(buf: Seq<u8>, pos: int, a: Seq<u8>, b: Seq<u8>)
    requires
        starts_at(buf, pos, a + b),
    ensures
        starts_at(buf, pos, a),
        starts_at(buf, pos + a.len(), b),
{
    assert(buf.subrange(pos, pos + a.len()) =~= a) by {
        assert(forall|k: int|
            0 <= k < a.len() ==> buf.subrange(pos, pos + (a + b).len())[k] == (a + b)[k]);
        assert(forall|k: int| 0 <= k < a.len() ==> buf[pos + k] == a[k]);
    }
    assert(buf.subrange(pos + a.len(), pos + a.len() + b.len()) =~= b) by {
        assert forall|k: int| 0 <= k < b.len() implies buf[pos + a.len() + k] == b[k] by {
            assert(buf.subrange(pos, pos + (a + b).len())[a.len() + k] == (a + b)[a.len() + k]);
        }
    }
}

pub proof fn lemma_starts_at_join(buf: Seq<u8>, pos: int, a: Seq<u8>, b: Seq<u8>)
    requires
        starts_at(buf, pos, a),
        starts_at(buf, pos + a.len(), b),
    ensures
        starts_at(buf, pos, a + b),
{
    assert(buf.subrange(pos, pos + (a + b).len()) =~= a + b) by {
        assert(forall|k: int| 0 <= k < a.len() ==> buf.subrange(pos, pos + a.len())[k] == a[k]);
        assert(forall|k: int|
            0 <= k < b.len() ==> buf.subrange(pos + a.len(), pos + a.len() + b.len())[k] == b[k]);
    }
}

/// Four little-endian bytes of a 32-bit integer.
pub open spec fn u32_bytes(x: u32) -> Seq<u8> {
    seq![
        (x % 256) as u8,
        ((x / 256) % 256) as u8,
        ((x / 65536) % 256) as u8,
        ((x / 16777216) % 256) as u8,
    ]
}

/// Eight little-endian bytes of a 64-bit integer.
pub open spec fn u64_bytes(x: u64) -> Seq<u8> {
    seq![
        (x % 256) as u8,
        ((x / 256) % 256) as u8,
        ((x / 65536) % 256) as u8,
        ((x / 16777216) % 256) as u8,
        ((x / 4294967296) % 256) as u8,
        ((x / 1099511627776) % 256) as u8,
        ((x / 281474976710656) % 256) as u8,
        ((x / 72057594037927936) % 256) as u8,
    ]
}

/// A string: the byte length of its UTF-8 form, then those bytes.
pub open spec fn str_bytes(s: Seq<char>) -> Seq<u8> {
    u64_bytes(encode_utf8(s).len() as u64) + encode_utf8(s)
}

fn encode_u32(out: &mut Vec<u8>, x: u32)
    ensures
        final(out)@ == old(out)@ + u32_bytes(x),
{
    out.push((x % 256) as u8);
    out.push(((x / 256) % 256) as u8);
    out.push(((x / 65536) % 256) as u8);
    out.push(((x / 16777216) % 256) as u8);
    proof {
        assert(out@ =~= old(out)@ + u32_bytes(x));
    }
}

fn encode_u64(out: &mut Vec<u8>, x: u64)
    ensures
        final(out)@ == old(out)@ + u64_bytes(x),
{
    out.push((x % 256) as u8);
    out.push(((x / 256) % 256) as u8);
    out.push(((x / 65536) % 256) as u8);
    out.push(((x / 16777216) % 256) as u8);
    out.push(((x / 4294967296) % 256) as u8);
    out.push(((x / 1099511627776) % 256) as u8);
    out.push(((x / 281474976710656) % 256) as u8);
    out.push(((x / 72057594037927936) % 256) as u8);
    proof {
        assert(out@ =~= old(out)@ + u64_bytes(x));
    }
}

#[verifier::rlimit(100)]
#[verifier::spinoff_prover]
fn decode_u32(buf: &Vec<u8>, pos: &mut usize) -> (r: Option<u32>)
    requires
        *old(pos) <= buf@.len(),
    ensures
        *old(pos) <= *final(pos) <= buf@.len(),
        forall|x: u32|
            #[trigger] starts_at(buf@, *old(pos) as int, u32_bytes(x)) ==> r == Some(x) && *final(pos)
                == *old(pos) + 4,
        r matches Some(x) ==> starts_at(buf@, *old(pos) as int, u32_bytes(x)) && *final(pos)
            == *old(pos) + 4,
{
    let p = *pos;
    if buf.len() - p < 4 {
        return None;
    }
    let b0 = buf[p];
    let b1 = buf[p + 1];
    let b2 = buf[p + 2];
    let b3 = buf[p + 3];
    let r: u32 = b0 as u32 + 256 * (b1 as u32) + 65536 * (b2 as u32) + 16777216 * (b3 as u32);
    *pos = p + 4;
    proof {
        assert forall|x: u32| #[trigger] starts_at(buf@, p as int, u32_bytes(x)) implies r == x by {
            assert(buf@.subrange(p as int, p as int + 4)[0] == b0);
            assert(buf@.subrange(p as int, p as int + 4)[1] == b1);
            assert(buf@.subrange(p as int, p as int + 4)[2] == b2);
            assert(buf@.subrange(p as int, p as int + 4)[3] == b3);
            assert(b0 == (x % 256) as u8 && b1 == ((x / 256) % 256) as u8 && b2 == ((x / 65536)
                % 256) as u8 && b3 == ((x / 16777216) % 256) as u8);
            assert(b0 == (x % 256) as u8 && b1 == ((x / 256) % 256) as u8 && b2 == ((x / 65536)
                % 256) as u8 && b3 == ((x / 16777216) % 256) as u8 ==> b0 as u32 + 256 * (b1
                as u32) + 65536 * (b2 as u32) + 16777216 * (b3 as u32) == x) by (bit_vector);
        }
        assert(r == b0 as u32 + 256 * (b1 as u32) + 65536 * (b2 as u32) + 16777216 * (b3 as u32)
            ==> (r % 256) as u8 == b0 && ((r / 256) % 256) as u8 == b1 && ((r / 65536) % 256) as u8
            == b2 && ((r / 16777216) % 256) as u8 == b3) by (bit_vector);
        assert(buf@.subrange(p as int, p as int + 4) =~= u32_bytes(r));
    }
    Some(r)
}

#[verifier::rlimit(100)]
#[verifier::spinoff_prover]
fn decode_u64(buf: &Vec<u8>, pos: &mut usize) -> (r: Option<u64>)
    requires
        *old(pos) <= buf@.len(),
    ensures
        *old(pos) <= *final(pos) <= buf@.len(),
        forall|x: u64|
            #[trigger] starts_at(buf@, *old(pos) as int, u64_bytes(x)) ==> r == Some(x) && *final(pos)
                == *old(pos) + 8,
        r matches Some(x) ==> starts_at(buf@, *old(pos) as int, u64_bytes(x)) && *final(pos)
            == *old(pos) + 8,
{
    let p = *pos;
    if buf.len() - p < 8 {
        return None;
    }
    let b0 = buf[p];
    let b1 = buf[p + 1];
    let b2 = buf[p + 2];
    let b3 = buf[p + 3];
    let b4 = buf[p + 4];
    let b5 = buf[p + 5];
    let b6 = buf[p + 6];
    let b7 = buf[p + 7];
    let r: u64 = b0 as u64 + 256 * (b1 as u64) + 65536 * (b2 as u64) + 16777216 * (b3 as u64)
        + 4294967296 * (b4 as u64) + 1099511627776 * (b5 as u64) + 281474976710656 * (b6 as u64)
        + 72057594037927936 * (b7 as u64);
    *pos = p + 8;
    proof {
        assert forall|x: u64| #[trigger] starts_at(buf@, p as int, u64_bytes(x)) implies r == x by {
            assert(buf@.subrange(p as int, p as int + 8)[0] == b0);
            assert(buf@.subrange(p as int, p as int + 8)[1] == b1);
            assert(buf@.subrange(p as int, p as int + 8)[2] == b2);
            assert(buf@.subrange(p as int, p as int + 8)[3] == b3);
            assert(buf@.subrange(p as int, p as int + 8)[4] == b4);
            assert(buf@.subrange(p as int, p as int + 8)[5] == b5);
            assert(buf@.subrange(p as int, p as int + 8)[6] == b6);
            assert(buf@.subrange(p as int, p as int + 8)[7] == b7);
            assert(b0 == (x % 256) as u8 && b1 == ((x / 256) % 256) as u8 && b2 == ((x / 65536)
                % 256) as u8 && b3 == ((x / 16777216) % 256) as u8 && b4 == ((x / 4294967296)
                % 256) as u8 && b5 == ((x / 1099511627776) % 256) as u8 && b6 == ((x
                / 281474976710656) % 256) as u8 && b7 == ((x / 72057594037927936) % 256) as u8);
            assert(b0 == (x % 256) as u8 && b1 == ((x / 256) % 256) as u8 && b2 == ((x / 65536)
                % 256) as u8 && b3 == ((x / 16777216) % 256) as u8 && b4 == ((x / 4294967296)
                % 256) as u8 && b5 == ((x / 1099511627776) % 256) as u8 && b6 == ((x
                / 281474976710656) % 256) as u8 && b7 == ((x / 72057594037927936) % 256) as u8
                ==> b0 as u64 + 256 * (b1 as u64) + 65536 * (b2 as u64) + 16777216 * (b3 as u64)
                + 4294967296 * (b4 as u64) + 1099511627776 * (b5 as u64) + 281474976710656 * (b6
                as u64) + 72057594037927936 * (b7 as u64) == x) by (bit_vector);
        }
        assert(r == b0 as u64 + 256 * (b1 as u64) + 65536 * (b2 as u64) + 16777216 * (b3 as u64)
            + 4294967296 * (b4 as u64) + 1099511627776 * (b5 as u64) + 281474976710656 * (b6
            as u64) + 72057594037927936 * (b7 as u64) ==> (r % 256) as u8 == b0 && ((r / 256)
            % 256) as u8 == b1 && ((r / 65536) % 256) as u8 == b2 && ((r / 16777216) % 256) as u8
            == b3 && ((r / 4294967296) % 256) as u8 == b4 && ((r / 1099511627776) % 256) as u8
            == b5 && ((r / 281474976710656) % 256) as u8 == b6 && ((r / 72057594037927936)
            % 256) as u8 == b7) by (bit_vector);
        assert(buf@.subrange(p as int, p as int + 8) =~= u64_bytes(r));
    }
    Some(r)
}

/// Relies on String::from_utf8: succeeds exactly on valid UTF-8 input, and
/// the returned string's UTF-8 form is the input bytes.
#[verifier::external_body]
fn string_from_utf8(v: Vec<u8>) -> (r: Option<String>)
    ensures
        r matches Some(t) ==> encode_utf8(t@) == v@,
        r is Some <==> valid_utf8(v@),
{
    String::from_utf8(v).ok()
}

fn encode_str(out: &mut Vec<u8>, s: &str)
    ensures
        final(out)@ == old(out)@ + str_bytes(s@),
{
    let mut bytes = s.as_bytes_vec();
    let n: u64 = bytes.len() as u64;
    encode_u64(out, n);
    out.append(&mut bytes);
    proof {
        assert(out@ =~= old(out)@ + str_bytes(s@));
    }
}

#[verifier::rlimit(100)]
#[verifier::spinoff_prover]
fn decode_str(buf: &Vec<u8>, pos: &mut usize) -> (r: Option<String>)
    requires
        *old(pos) <= buf@.len(),
    ensures
        *old(pos) <= *final(pos) <= buf@.len(),
        forall|s: Seq<char>|
            #[trigger] starts_at(buf@, *old(pos) as int, str_bytes(s)) ==> (r matches Some(t)
                && t@ == s) && *final(pos) == *old(pos) + str_bytes(s).len(),
        r matches Some(t) ==> starts_at(buf@, *old(pos) as int, str_bytes(t@)) && *final(pos)
            == *old(pos) + str_bytes(t@).len(),
{
    let ghost p0 = *pos as int;
    let n_opt = decode_u64(buf, pos);
    let n = match n_opt {
        Some(n) => n,
        None => {
            proof {
                assert forall|s: Seq<char>| #[trigger] starts_at(buf@, p0, str_bytes(s))
                    implies false by {
                    lemma_starts_at_concat(
                        buf@,
                        p0,
                        u64_bytes(encode_utf8(s).len() as u64),
                        encode_utf8(s),
                    );
                }
            }
            return None;
        },
    };
    let p = *pos;
    if ((buf.len() - p) as u64) < n {
        proof {
            assert forall|s: Seq<char>| #[trigger] starts_at(buf@, p0, str_bytes(s))
                implies false by {
                lemma_starts_at_concat(
                    buf@,
                    p0,
                    u64_bytes(encode_utf8(s).len() as u64),
                    encode_utf8(s),
                );
            }
        }
        return None;
    }
    let len = n as usize;
    let blen: usize = buf.len();
    let mut v: Vec<u8> = Vec::new();
    let mut k: usize = 0;
    while k < len
        invariant
            blen == buf@.len(),
            p + len <= blen,
            k <= len,
            v@ =~= buf@.subrange(p as int, p as int + k as int),
        decreases len - k,
    {
        v.push(buf[p + k]);
        k = k + 1;
    }
    proof {
        assert(v@ =~= buf@.subrange(p as int, p as int + len as int));
    }
    let t_opt = string_from_utf8(v);
    *pos = p + len;
    proof {
        assert forall|s: Seq<char>| #[trigger] starts_at(buf@, p0, str_bytes(s)) implies (t_opt
            matches Some(t) && t@ == s) && p + len == p0 + str_bytes(s).len() by {
            lemma_starts_at_concat(
                buf@,
                p0,
                u64_bytes(encode_utf8(s).len() as u64),
                encode_utf8(s),
            );
            assert(n == encode_utf8(s).len() as u64);
            encode_utf8_valid_utf8(s);
            assert(buf@.subrange(p as int, p as int + len as int) =~= encode_utf8(s));
            assert(valid_utf8(buf@.subrange(p as int, p as int + len as int)));
            let t = t_opt.unwrap();
            assert(encode_utf8(t@) == encode_utf8(s));
            encode_utf8_decode_utf8(t@);
            encode_utf8_decode_utf8(s);
            assert(t@ == s);
        }
        if t_opt is Some {
            let t = t_opt.unwrap();
            assert(encode_utf8(t@) == v@);
            assert(encode_utf8(t@).len() == len);
            assert((len as u64) == n);
            assert(starts_at(buf@, p0, u64_bytes(n)));
            assert(starts_at(buf@, p0 + 8, encode_utf8(t@))) by {
                assert(buf@.subrange(p as int, p as int + len as int) == encode_utf8(t@));
            }
            lemma_starts_at_join(buf@, p0, u64_bytes(n), encode_utf8(t@));
            assert(starts_at(buf@, p0, str_bytes(t@)));
        }
    }
    t_opt
}

/// Concatenation of the encodings of the elements of a list.
pub open spec fn cat_bytes<T>(s: Seq<T>, f: spec_fn(T) -> Seq<u8>) -> Seq<u8>
    decreases s.len(),
{
    if s.len() == 0 {
        Seq::empty()
    } else {
        f(s[0]) + cat_bytes(s.drop_first(), f)
    }
}

pub proof fn lemma_cat_snoc<T>(s: Seq<T>, f: spec_fn(T) -> Seq<u8>, t: T)
    ensures
        cat_bytes(s.push(t), f) == cat_bytes(s, f) + f(t),
    decreases s.len(),
{
    if s.len() == 0 {
        assert(s.push(t)[0] == t);
        assert(s.push(t).drop_first() =~= Seq::<T>::empty());
        assert(cat_bytes(Seq::<T>::empty(), f) == Seq::<u8>::empty());
        assert(cat_bytes(s.push(t), f) =~= cat_bytes(s, f) + f(t));
    } else {
        assert(s.push(t)[0] == s[0]);
        assert(s.push(t).drop_first() =~= s.drop_first().push(t));
        lemma_cat_snoc(s.drop_first(), f, t);
        assert(cat_bytes(s.push(t), f) =~= cat_bytes(s, f) + f(t));
    }
}

pub proof fn lemma_cat_decomp<T>(s: Seq<T>, f: spec_fn(T) -> Seq<u8>, k: int)
    requires
        0 <= k < s.len(),
    ensures
        cat_bytes(s, f) == cat_bytes(s.take(k), f) + (f(s[k]) + cat_bytes(s.skip(k + 1), f)),
    decreases k,
{
    if k == 0 {
        assert(s.take(0) =~= Seq::<T>::empty());
        assert(s.skip(1) =~= s.drop_first());
        assert(cat_bytes(s, f) =~= cat_bytes(s.take(0), f) + (f(s[0]) + cat_bytes(
            s.skip(1),
            f,
        )));
    } else {
        lemma_cat_decomp(s.drop_first(), f, k - 1);
        assert(s.drop_first().take(k - 1) =~= s.take(k).drop_first());
        assert(s.take(k)[0] == s[0]);
        assert(s.drop_first()[k - 1] == s[k]);
        assert(s.drop_first().skip(k) =~= s.skip(k + 1));
        assert(cat_bytes(s.take(k), f) == f(s[0]) + cat_bytes(s.take(k).drop_first(), f));
        assert(cat_bytes(s, f) =~= cat_bytes(s.take(k), f) + (f(s[k]) + cat_bytes(
            s.skip(k + 1),
            f,
        )));
    }
}

/// The elements of a list occur back to back in `buf` at `pos`. Kept opaque
/// so that the decoders' loop invariants instantiate only where a proof
/// names this frame.
#[verifier::opaque]
pub open spec fn list_frame<T>(buf: Seq<u8>, pos: int, ts: Seq<T>, f: spec_fn(T) -> Seq<u8>) -> bool {
    starts_at(buf, pos, cat_bytes(ts, f))
}

/// After `k` list elements were read, the bytes at the cursor are the next
/// element's encoding.
#[verifier::rlimit(100)]
#[verifier::spinoff_prover]
proof fn lemma_list_frame_step<T>(
    buf: Seq<u8>,
    p1: int,
    pre_pos: int,
    k: int,
    f: spec_fn(T) -> Seq<u8>,
)
    requires
        k >= 0,
    ensures
        forall|ts: Seq<T>|
            (#[trigger] list_frame(buf, p1, ts, f) && k < ts.len() && pre_pos == p1 + cat_bytes(
                ts.take(k),
                f,
            ).len()) ==> starts_at(buf, pre_pos, f(ts[k])) && p1 + cat_bytes(
                ts.take(k + 1),
                f,
            ).len() == pre_pos + f(ts[k]).len(),
{
    assert forall|ts: Seq<T>|
        (#[trigger] list_frame(buf, p1, ts, f) && k < ts.len() && pre_pos == p1 + cat_bytes(
            ts.take(k),
            f,
        ).len()) implies starts_at(buf, pre_pos, f(ts[k])) && p1 + cat_bytes(
        ts.take(k + 1),
        f,
    ).len() == pre_pos + f(ts[k]).len() by {
        reveal(list_frame);
        lemma_cat_decomp(ts, f, k);
        lemma_starts_at_concat(
            buf,
            p1,
            cat_bytes(ts.take(k), f),
            f(ts[k]) + cat_bytes(ts.skip(k + 1), f),
        );
        lemma_starts_at_concat(
            buf,
            p1 + cat_bytes(ts.take(k), f).len(),
            f(ts[k]),
            cat_bytes(ts.skip(k + 1), f),
        );
        lemma_cat_snoc(ts.take(k), f, ts[k]);
        assert(ts.take(k).push(ts[k]) =~= ts.take(k + 1));
    }
}

/// One track's encoding: its six fields in order.
pub open spec fn track_bytes(t: TrackView) -> Seq<u8> {
    str_bytes(t.title) + str_bytes(t.album) + str_bytes(t.album_artist) + u32_bytes(
        t.year as u32,
    ) + u32_bytes(t.duration) + str_bytes(t.file_path)
}

pub open spec fn track_bytes_fn() -> spec_fn(TrackView) -> Seq<u8> {
    |t: TrackView| track_bytes(t)
}

/// One album's encoding: its fields, then its counted track list.
pub open spec fn album_bytes(a: AlbumView) -> Seq<u8> {
    str_bytes(a.title) + str_bytes(a.artist) + u32_bytes(a.year as u32) + u64_bytes(
        a.tracks.len() as u64,
    ) + cat_bytes(a.tracks, track_bytes_fn())
}

pub open spec fn album_bytes_fn() -> spec_fn(AlbumView) -> Seq<u8> {
    |a: AlbumView| album_bytes(a)
}

/// One artist's encoding: its title, then its counted album list.
pub open spec fn artist_bytes(a: ArtistView) -> Seq<u8> {
    str_bytes(a.title) + u64_bytes(a.albums.len() as u64) + cat_bytes(a.albums, album_bytes_fn())
}

pub open spec fn artist_bytes_fn() -> spec_fn(ArtistView) -> Seq<u8> {
    |a: ArtistView| artist_bytes(a)
}

/// The whole snapshot: the counted artist list.
pub open spec fn library_bytes(lib: Seq<ArtistView>) -> Seq<u8> {
    u64_bytes(lib.len() as u64) + cat_bytes(lib, artist_bytes_fn())
}

proof fn lemma_i32_u32_roundtrip(y: i32)
    ensures
        ((y as u32) as i32) == y,
{
    assert(((y as u32) as i32) == y) by (bit_vector);
}

#[verifier::rlimit(100)]
#[verifier::spinoff_prover]
fn encode_track(out: &mut Vec<u8>, t: &Track)
    ensures
        final(out)@ == old(out)@ + track_bytes(t@),
{
    encode_str(out, t.title.as_str());
    encode_str(out, t.album.as_str());
    encode_str(out, t.album_artist.as_str());
    encode_u32(out, t.year as u32);
    encode_u32(out, t.duration);
    encode_str(out, t.file_path.as_str());
    proof {
        assert(out@ =~= old(out)@ + track_bytes(t@));
    }
}

#[verifier::rlimit(100)]
#[verifier::spinoff_prover]
proof fn lemma_track_pieces(buf: Seq<u8>, p0: int)
    ensures
        forall|t: TrackView|
            #[trigger] starts_at(buf, p0, track_bytes(t)) ==> starts_at(buf, p0, str_bytes(t.title))
                && starts_at(buf, p0 + str_bytes(t.title).len(), str_bytes(t.album)) && starts_at(
                buf,
                p0 + str_bytes(t.title).len() + str_bytes(t.album).len(),
                str_bytes(t.album_artist),
            ) && starts_at(
                buf,
                p0 + str_bytes(t.title).len() + str_bytes(t.album).len() + str_bytes(
                    t.album_artist,
                ).len(),
                u32_bytes(t.year as u32),
            ) && starts_at(
                buf,
                p0 + str_bytes(t.title).len() + str_bytes(t.album).len() + str_bytes(
                    t.album_artist,
                ).len() + 4,
                u32_bytes(t.duration),
            ) && starts_at(
                buf,
                p0 + str_bytes(t.title).len() + str_bytes(t.album).len() + str_bytes(
                    t.album_artist,
                ).len() + 8,
                str_bytes(t.file_path),
            ) && track_bytes(t).len() == str_bytes(t.title).len() + str_bytes(t.album).len()
                + str_bytes(t.album_artist).len() + 8 + str_bytes(t.file_path).len(),
{
    assert forall|t: TrackView| #[trigger] starts_at(buf, p0, track_bytes(t)) implies starts_at(
        buf,
        p0,
        str_bytes(t.title),
    ) && starts_at(buf, p0 + str_bytes(t.title).len(), str_bytes(t.album)) && starts_at(
        buf,
        p0 + str_bytes(t.title).len() + str_bytes(t.album).len(),
        str_bytes(t.album_artist),
    ) && starts_at(
        buf,
        p0 + str_bytes(t.title).len() + str_bytes(t.album).len() + str_bytes(
            t.album_artist,
        ).len(),
        u32_bytes(t.year as u32),
    ) && starts_at(
        buf,
        p0 + str_bytes(t.title).len() + str_bytes(t.album).len() + str_bytes(
            t.album_artist,
        ).len() + 4,
        u32_bytes(t.duration),
    ) && starts_at(
        buf,
        p0 + str_bytes(t.title).len() + str_bytes(t.album).len() + str_bytes(
            t.album_artist,
        ).len() + 8,
        str_bytes(t.file_path),
    ) && track_bytes(t).len() == str_bytes(t.title).len() + str_bytes(t.album).len() + str_bytes(
        t.album_artist,
    ).len() + 8 + str_bytes(t.file_path).len() by {
        lemma_starts_at_concat(
            buf,
            p0,
            str_bytes(t.title) + str_bytes(t.album) + str_bytes(t.album_artist) + u32_bytes(
                t.year as u32,
            ) + u32_bytes(t.duration),
            str_bytes(t.file_path),
        );
        lemma_starts_at_concat(
            buf,
            p0,
            str_bytes(t.title) + str_bytes(t.album) + str_bytes(t.album_artist) + u32_bytes(
                t.year as u32,
            ),
            u32_bytes(t.duration),
        );
        lemma_starts_at_concat(
            buf,
            p0,
            str_bytes(t.title) + str_bytes(t.album) + str_bytes(t.album_artist),
            u32_bytes(t.year as u32),
        );
        lemma_starts_at_concat(
            buf,
            p0,
            str_bytes(t.title) + str_bytes(t.album),
            str_bytes(t.album_artist),
        );
        lemma_starts_at_concat(buf, p0, str_bytes(t.title), str_bytes(t.album));
    }
}

proof fn lemma_join6(
    buf: Seq<u8>,
    p: int,
    a: Seq<u8>,
    b: Seq<u8>,
    c: Seq<u8>,
    d: Seq<u8>,
    e: Seq<u8>,
    f: Seq<u8>,
)
    requires
        starts_at(buf, p, a),
        starts_at(buf, p + a.len(), b),
        starts_at(buf, p + a.len() + b.len(), c),
        starts_at(buf, p + a.len() + b.len() + c.len(), d),
        starts_at(buf, p + a.len() + b.len() + c.len() + d.len(), e),
        starts_at(buf, p + a.len() + b.len() + c.len() + d.len() + e.len(), f),
    ensures
        starts_at(buf, p, a + b + c + d + e + f),
{
    lemma_starts_at_join(buf, p, a, b);
    lemma_starts_at_join(buf, p, a + b, c);
    lemma_starts_at_join(buf, p, a + b + c, d);
    lemma_starts_at_join(buf, p, a + b + c + d, e);
    lemma_starts_at_join(buf, p, a + b + c + d + e, f);
}

#[verifier::rlimit(100)]
#[verifier::spinoff_prover]
fn decode_track(buf: &Vec<u8>, pos: &mut usize) -> (r: Option<Track>)
    requires
        *old(pos) <= buf@.len(),
    ensures
        *old(pos) <= *final(pos) <= buf@.len(),
        forall|t: TrackView|
            #[trigger] starts_at(buf@, *old(pos) as int, track_bytes(t)) ==> (r matches Some(tr)
                && tr@ == t) && *final(pos) == *old(pos) + track_bytes(t).len(),
        r matches Some(tr) ==> starts_at(buf@, *old(pos) as int, track_bytes(tr@)) && *final(pos)
            == *old(pos) + track_bytes(tr@).len(),
{
    let ghost p0 = *pos as int;
    proof {
        lemma_track_pieces(buf@, p0);
    }
    let title = decode_str(buf, pos);
    let ghost p1 = *pos as int;
    let album = decode_str(buf, pos);
    let ghost p2 = *pos as int;
    let album_artist = decode_str(buf, pos);
    let ghost p3 = *pos as int;
    let year_u = decode_u32(buf, pos);
    let ghost p4 = *pos as int;
    let duration = decode_u32(buf, pos);
    let ghost p5 = *pos as int;
    let file_path = decode_str(buf, pos);
    let ghost p6 = *pos as int;
    proof {
        assert forall|t: TrackView| #[trigger] starts_at(buf@, p0, track_bytes(t)) implies ((
        title matches Some(x1) && x1@ == t.title) && (album matches Some(x2) && x2@ == t.album) && (
        album_artist matches Some(x3) && x3@ == t.album_artist) && year_u == Some(t.year as u32)
            && duration == Some(t.duration) && (file_path matches Some(x6) && x6@ == t.file_path)
            && p6 == p0 + track_bytes(t).len()) by {
            assert(starts_at(buf@, p0, str_bytes(t.title)));
            assert(p1 == p0 + str_bytes(t.title).len());
            assert(starts_at(buf@, p1, str_bytes(t.album)));
            assert(p2 == p1 + str_bytes(t.album).len());
            assert(starts_at(buf@, p2, str_bytes(t.album_artist)));
            assert(p3 == p2 + str_bytes(t.album_artist).len());
            assert(starts_at(buf@, p3, u32_bytes(t.year as u32)));
            assert(p4 == p3 + 4);
            assert(starts_at(buf@, p4, u32_bytes(t.duration)));
            assert(p5 == p4 + 4);
            assert(starts_at(buf@, p5, str_bytes(t.file_path)));
            assert(p6 == p5 + str_bytes(t.file_path).len());
        }
    }
    let title = match title {
        Some(x) => x,
        None => {
            return None;
        },
    };
    let album = match album {
        Some(x) => x,
        None => {
            return None;
        },
    };
    let album_artist = match album_artist {
        Some(x) => x,
        None => {
            return None;
        },
    };
    let year_u = match year_u {
        Some(x) => x,
        None => {
            return None;
        },
    };
    let duration = match duration {
        Some(x) => x,
        None => {
            return None;
        },
    };
    let file_path = match file_path {
        Some(x) => x,
        None => {
            return None;
        },
    };
    let year: i32 = year_u as i32;
    proof {
        assert forall|t: TrackView| #[trigger] starts_at(buf@, p0, track_bytes(t)) implies year
            == t.year by {
            lemma_i32_u32_roundtrip(t.year);
        }
        let y: u32 = year_u;
        assert(((y as i32) as u32) == y) by (bit_vector);
        assert(starts_at(buf@, p3, u32_bytes(year as u32)));
        lemma_join6(
            buf@,
            p0,
            str_bytes(title@),
            str_bytes(album@),
            str_bytes(album_artist@),
            u32_bytes(year as u32),
            u32_bytes(duration),
            str_bytes(file_path@),
        );
    }
    Some(Track { title, album, album_artist, year, duration, file_path })
}

#[verifier::rlimit(100)]
#[verifier::spinoff_prover]
fn encode_tracks(out: &mut Vec<u8>, ts: &Vec<Track>)
    ensures
        final(out)@ == old(out)@ + u64_bytes(ts@.len() as u64) + cat_bytes(
            ts@.map_values(|t: Track| t@),
            track_bytes_fn(),
        ),
{
    encode_u64(out, ts.len() as u64);
    let ghost tvs = ts@.map_values(|t: Track| t@);
    proof {
        assert(tvs.take(0) =~= Seq::<TrackView>::empty());
        assert(cat_bytes(Seq::<TrackView>::empty(), track_bytes_fn()) == Seq::<u8>::empty());
        assert(out@ =~= old(out)@ + u64_bytes(ts@.len() as u64) + cat_bytes(
            tvs.take(0),
            track_bytes_fn(),
        ));
    }
    let mut i: usize = 0;
    while i < ts.len()
        invariant
            tvs == ts@.map_values(|t: Track| t@),
            i <= ts@.len(),
            out@ == old(out)@ + u64_bytes(ts@.len() as u64) + cat_bytes(
                tvs.take(i as int),
                track_bytes_fn(),
            ),
        decreases ts@.len() - i,
    {
        encode_track(out, &ts[i]);
        proof {
            lemma_cat_snoc(tvs.take(i as int), track_bytes_fn(), tvs[i as int]);
            assert(tvs.take(i as int).push(tvs[i as int]) =~= tvs.take(i as int + 1));
            assert(track_bytes_fn()(tvs[i as int]) == track_bytes(ts@[i as int]@));
            assert(out@ =~= old(out)@ + u64_bytes(ts@.len() as u64) + cat_bytes(
                tvs.take(i as int + 1),
                track_bytes_fn(),
            ));
        }
        i = i + 1;
    }
    proof {
        assert(tvs.take(tvs.len() as int) =~= tvs);
    }
}

proof fn lemma_track_map_push(pre: Seq<Track>, t: Track)
    ensures
        pre.push(t).map_values(|tr: Track| tr@) == pre.map_values(|tr: Track| tr@).push(t@),
{
    assert(pre.push(t).map_values(|tr: Track| tr@) =~= pre.map_values(|tr: Track| tr@).push(t@));
}

#[verifier::rlimit(100)]
#[verifier::spinoff_prover]
fn decode_tracks(buf: &Vec<u8>, pos: &mut usize) -> (r: Option<Vec<Track>>)
    requires
        *old(pos) <= buf@.len(),
    ensures
        *old(pos) <= *final(pos) <= buf@.len(),
        r matches Some(v) ==> starts_at(
            buf@,
            *old(pos) as int,
            u64_bytes(v@.len() as u64) + cat_bytes(
                v@.map_values(|t: Track| t@),
                track_bytes_fn(),
            ),
        ) && *final(pos) == *old(pos) + 8 + cat_bytes(
            v@.map_values(|t: Track| t@),
            track_bytes_fn(),
        ).len(),
{
    let ghost p0 = *pos as int;
    let n = match decode_u64(buf, pos) {
        Some(n) => n,
        None => {
            return None;
        },
    };
    let ghost p1 = *pos as int;
    let mut v: Vec<Track> = Vec::new();
    let mut remaining: u64 = n;
    proof {
        assert(v@.map_values(|t: Track| t@) =~= Seq::<TrackView>::empty());
        assert(cat_bytes(Seq::<TrackView>::empty(), track_bytes_fn()) == Seq::<u8>::empty());
        assert(starts_at(buf@, p1, cat_bytes(v@.map_values(|t: Track| t@), track_bytes_fn())))
            by {
            assert(buf@.subrange(p1, p1) =~= Seq::<u8>::empty());
        }
    }
    while remaining > 0
        invariant
            *old(pos) as int <= p1,
            p1 == p0 + 8,
            p1 <= *pos as int,
            *pos <= buf@.len(),
            v@.len() == n - remaining,
            starts_at(buf@, p1, cat_bytes(v@.map_values(|t: Track| t@), track_bytes_fn())),
            *pos as int == p1 + cat_bytes(v@.map_values(|t: Track| t@), track_bytes_fn()).len(),
        decreases remaining,
    {
        let ghost pre_v = v@;
        let t = match decode_track(buf, pos) {
            Some(t) => t,
            None => {
                return None;
            },
        };
        v.push(t);
        proof {
            let f = track_bytes_fn();
            assert(v@ == pre_v.push(t));
            lemma_track_map_push(pre_v, t);
            lemma_cat_snoc(pre_v.map_values(|tr: Track| tr@), f, t@);
            lemma_starts_at_join(
                buf@,
                p1,
                cat_bytes(pre_v.map_values(|tr: Track| tr@), f),
                track_bytes(t@),
            );
        }
        remaining = remaining - 1;
    }
    proof {
        lemma_starts_at_join(
            buf@,
            p0,
            u64_bytes(n),
            cat_bytes(v@.map_values(|t: Track| t@), track_bytes_fn()),
        );
        assert((v@.len() as u64) == n);
    }
    Some(v)
}

#[verifier::rlimit(100)]
#[verifier::spinoff_prover]
fn encode_album(out: &mut Vec<u8>, a: &Album)
    ensures
        final(out)@ == old(out)@ + album_bytes(a@),
{
    encode_str(out, a.title.as_str());
    encode_str(out, a.artist.as_str());
    encode_u32(out, a.year as u32);
    encode_tracks(out, &a.tracks);
    proof {
        assert(out@ =~= old(out)@ + album_bytes(a@));
    }
}

#[verifier::rlimit(100)]
#[verifier::spinoff_prover]
fn decode_album(buf: &Vec<u8>, pos: &mut usize) -> (r: Option<Album>)
    requires
        *old(pos) <= buf@.len(),
    ensures
        *old(pos) <= *final(pos) <= buf@.len(),
        r matches Some(al) ==> starts_at(buf@, *old(pos) as int, album_bytes(al@)) && *final(pos)
            == *old(pos) + album_bytes(al@).len(),
{
    let ghost p0 = *pos as int;
    let title = match decode_str(buf, pos) {
        Some(x) => x,
        None => {
            return None;
        },
    };
    let artist = match decode_str(buf, pos) {
        Some(x) => x,
        None => {
            return None;
        },
    };
    let year_u = match decode_u32(buf, pos) {
        Some(x) => x,
        None => {
            return None;
        },
    };
    let ghost p3 = *pos as int;
    let tracks = match decode_tracks(buf, pos) {
        Some(x) => x,
        None => {
            return None;
        },
    };
    let year: i32 = year_u as i32;
    let al = Album { title, artist, year, tracks };
    proof {
        let y: u32 = year_u;
        assert(((y as i32) as u32) == y) by (bit_vector);
        lemma_starts_at_join(buf@, p0, str_bytes(al@.title), str_bytes(al@.artist));
        lemma_starts_at_join(
            buf@,
            p0,
            str_bytes(al@.title) + str_bytes(al@.artist),
            u32_bytes(al@.year as u32),
        );
        lemma_starts_at_join(
            buf@,
            p0,
            str_bytes(al@.title) + str_bytes(al@.artist) + u32_bytes(al@.year as u32),
            u64_bytes(al@.tracks.len() as u64) + cat_bytes(al@.tracks, track_bytes_fn()),
        );
        assert(album_bytes(al@) =~= str_bytes(al@.title) + str_bytes(al@.artist) + u32_bytes(
            al@.year as u32,
        ) + (u64_bytes(al@.tracks.len() as u64) + cat_bytes(al@.tracks, track_bytes_fn())));
    }
    Some(al)
}

#[verifier::rlimit(100)]
#[verifier::spinoff_prover]
fn encode_artist(out: &mut Vec<u8>, a: &Artist)
    ensures
        final(out)@ == old(out)@ + artist_bytes(a@),
{
    encode_str(out, a.title.as_str());
    encode_u64(out, a.albums.len() as u64);
    let ghost avs = a.albums@.map_values(|al: Album| al@);
    proof {
        assert(avs.take(0) =~= Seq::<AlbumView>::empty());
        assert(cat_bytes(Seq::<AlbumView>::empty(), album_bytes_fn()) == Seq::<u8>::empty());
        assert(out@ =~= old(out)@ + str_bytes(a@.title) + u64_bytes(a@.albums.len() as u64)
            + cat_bytes(avs.take(0), album_bytes_fn()));
    }
    let mut i: usize = 0;
    while i < a.albums.len()
        invariant
            avs == a.albums@.map_values(|al: Album| al@),
            i <= a.albums@.len(),
            out@ == old(out)@ + str_bytes(a@.title) + u64_bytes(a@.albums.len() as u64)
                + cat_bytes(avs.take(i as int), album_bytes_fn()),
        decreases a.albums@.len() - i,
    {
        encode_album(out, &a.albums[i]);
        proof {
            lemma_cat_snoc(avs.take(i as int), album_bytes_fn(), avs[i as int]);
            assert(avs.take(i as int).push(avs[i as int]) =~= avs.take(i as int + 1));
            assert(album_bytes_fn()(avs[i as int]) == album_bytes(a.albums@[i as int]@));
            assert(out@ =~= old(out)@ + str_bytes(a@.title) + u64_bytes(a@.albums.len() as u64)
                + cat_bytes(avs.take(i as int + 1), album_bytes_fn()));
        }
        i = i + 1;
    }
    proof {
        assert(avs.take(avs.len() as int) =~= avs);
        assert(out@ =~= old(out)@ + artist_bytes(a@));
    }
}

#[verifier::rlimit(100)]
#[verifier::spinoff_prover]
fn decode_artist(buf: &Vec<u8>, pos: &mut usize) -> (r: Option<Artist>)
    requires
        *old(pos) <= buf@.len(),
    ensures
        *old(pos) <= *final(pos) <= buf@.len(),
        r matches Some(ar) ==> starts_at(buf@, *old(pos) as int, artist_bytes(ar@)) && *final(pos)
            == *old(pos) + artist_bytes(ar@).len(),
{
    let ghost p0 = *pos as int;
    let title = match decode_str(buf, pos) {
        Some(x) => x,
        None => {
            return None;
        },
    };
    let ghost p1 = *pos as int;
    let n = match decode_u64(buf, pos) {
        Some(n) => n,
        None => {
            return None;
        },
    };
    let ghost p2 = *pos as int;
    let mut albums: Vec<Album> = Vec::new();
    let mut remaining: u64 = n;
    proof {
        assert(albums@.map_values(|al: Album| al@) =~= Seq::<AlbumView>::empty());
        assert(cat_bytes(Seq::<AlbumView>::empty(), album_bytes_fn()) == Seq::<u8>::empty());
        assert(starts_at(
            buf@,
            p2,
            cat_bytes(albums@.map_values(|al: Album| al@), album_bytes_fn()),
        )) by {
            assert(buf@.subrange(p2, p2) =~= Seq::<u8>::empty());
        }
    }
    while remaining > 0
        invariant
            *old(pos) as int <= p2,
            p2 <= *pos as int,
            *pos <= buf@.len(),
            albums@.len() == n - remaining,
            starts_at(buf@, p2, cat_bytes(albums@.map_values(|al: Album| al@), album_bytes_fn())),
            *pos as int == p2 + cat_bytes(
                albums@.map_values(|al: Album| al@),
                album_bytes_fn(),
            ).len(),
        decreases remaining,
    {
        let ghost pre_v = albums@;
        let al = match decode_album(buf, pos) {
            Some(x) => x,
            None => {
                return None;
            },
        };
        albums.push(al);
        proof {
            let f = album_bytes_fn();
            assert(albums@ == pre_v.push(al));
            assert(albums@.map_values(|a: Album| a@) =~= pre_v.map_values(|a: Album| a@).push(
                al@,
            ));
            lemma_cat_snoc(pre_v.map_values(|a: Album| a@), f, al@);
            lemma_starts_at_join(
                buf@,
                p2,
                cat_bytes(pre_v.map_values(|a: Album| a@), f),
                album_bytes(al@),
            );
        }
        remaining = remaining - 1;
    }
    let ar = Artist { title, albums };
    proof {
        assert((ar@.albums.len() as u64) == n);
        lemma_starts_at_join(
            buf@,
            p1,
            u64_bytes(n),
            cat_bytes(ar@.albums, album_bytes_fn()),
        );
        lemma_starts_at_join(
            buf@,
            p0,
            str_bytes(ar@.title),
            u64_bytes(ar@.albums.len() as u64) + cat_bytes(ar@.albums, album_bytes_fn()),
        );
        assert(artist_bytes(ar@) =~= str_bytes(ar@.title) + (u64_bytes(ar@.albums.len() as u64)
            + cat_bytes(ar@.albums, album_bytes_fn())));
    }
    Some(ar)
}

/// Serializes the whole library tree into one snapshot byte string.
#[verifier::rlimit(100)]
#[verifier::spinoff_prover]
pub fn encode_library(artists: &Vec<Artist>) -> (out: Vec<u8>)
    ensures
        out@ == library_bytes(lib_view(artists@)),
{
    let mut out: Vec<u8> = Vec::new();
    encode_u64(&mut out, artists.len() as u64);
    let ghost avs = lib_view(artists@);
    proof {
        assert(avs.take(0) =~= Seq::<ArtistView>::empty());
        assert(cat_bytes(Seq::<ArtistView>::empty(), artist_bytes_fn()) == Seq::<u8>::empty());
        assert(out@ =~= u64_bytes(artists@.len() as u64) + cat_bytes(
            avs.take(0),
            artist_bytes_fn(),
        ));
    }
    let mut i: usize = 0;
    while i < artists.len()
        invariant
            avs == lib_view(artists@),
            i <= artists@.len(),
            out@ == u64_bytes(artists@.len() as u64) + cat_bytes(
                avs.take(i as int),
                artist_bytes_fn(),
            ),
        decreases artists@.len() - i,
    {
        encode_artist(&mut out, &artists[i]);
        proof {
            lemma_cat_snoc(avs.take(i as int), artist_bytes_fn(), avs[i as int]);
            assert(avs.take(i as int).push(avs[i as int]) =~= avs.take(i as int + 1));
            assert(artist_bytes_fn()(avs[i as int]) == artist_bytes(artists@[i as int]@));
            assert(out@ =~= u64_bytes(artists@.len() as u64) + cat_bytes(
                avs.take(i as int + 1),
                artist_bytes_fn(),
            ));
        }
        i = i + 1;
    }
    proof {
        assert(avs.take(avs.len() as int) =~= avs);
        assert(out@ =~= library_bytes(lib_view(artists@)));
    }
    out
}

/// Reads a snapshot back. Succeeds only on a byte string that is exactly the
/// encoding of the returned library: a failed or partial parse, or trailing
/// bytes, yield nothing.
#[verifier::rlimit(100)]
#[verifier::spinoff_prover]
pub fn decode_library(bytes: &Vec<u8>) -> (r: Option<Vec<Artist>>)
    ensures
        r matches Some(v) ==> bytes@ == library_bytes(lib_view(v@)),
{
    let mut pos: usize = 0;
    let ghost p0 = 0int;
    let n = match decode_u64(bytes, &mut pos) {
        Some(n) => n,
        None => {
            return None;
        },
    };
    let ghost p1 = pos as int;
    let mut artists: Vec<Artist> = Vec::new();
    let mut remaining: u64 = n;
    proof {
        assert(lib_view(artists@) =~= Seq::<ArtistView>::empty());
        assert(cat_bytes(Seq::<ArtistView>::empty(), artist_bytes_fn()) == Seq::<u8>::empty());
        assert(starts_at(bytes@, p1, cat_bytes(lib_view(artists@), artist_bytes_fn()))) by {
            assert(bytes@.subrange(p1, p1) =~= Seq::<u8>::empty());
        }
    }
    while remaining > 0
        invariant
            p1 <= pos as int,
            pos <= bytes@.len(),
            artists@.len() == n - remaining,
            starts_at(bytes@, p1, cat_bytes(lib_view(artists@), artist_bytes_fn())),
            pos as int == p1 + cat_bytes(lib_view(artists@), artist_bytes_fn()).len(),
        decreases remaining,
    {
        let ghost pre_v = artists@;
        let ar = match decode_artist(bytes, &mut pos) {
            Some(x) => x,
            None => {
                return None;
            },
        };
        artists.push(ar);
        proof {
            let f = artist_bytes_fn();
            assert(artists@ == pre_v.push(ar));
            assert(lib_view(artists@) =~= lib_view(pre_v).push(ar@));
            lemma_cat_snoc(lib_view(pre_v), f, ar@);
            lemma_starts_at_join(bytes@, p1, cat_bytes(lib_view(pre_v), f), artist_bytes(ar@));
        }
        remaining = remaining - 1;
    }
    if pos != bytes.len() {
        return None;
    }
    proof {
        assert((artists@.len() as u64) == n);
        lemma_starts_at_join(
            bytes@,
            p0,
            u64_bytes(n),
            cat_bytes(lib_view(artists@), artist_bytes_fn()),
        );
        assert(bytes@.subrange(0, bytes@.len() as int) =~= bytes@);
        assert(bytes@ == library_bytes(lib_view(artists@)));
    }
    Some(artists)
}

} // verus!
