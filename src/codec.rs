//! A compact, self-delimiting binary form of `DocumentMetadata`.
//!
//! A record is a version byte (1), then the path and the hash, the creation
//! date as eight big-endian bytes, the tags and the annotations. A string is
//! its UTF-8 bytes closed by 0xff, a byte that UTF-8 never uses. Each item of a
//! list is opened by 1 and the list is closed by 0.
use vstd::prelude::*;
use vstd::utf8::*;
use crate::metadata::{pairs_view, strings_view, DocumentMetadata, MetaView};
use crate::text::{lemma_utf8_has_no_ff, push_all, string_from_utf8};

verus! {

pub open spec fn enc_str(s: Seq<char>) -> Seq<u8> {
    encode_utf8(s) + seq![0xffu8]
}

pub open spec fn be_bytes(u: u64) -> Seq<u8> {
    seq![
        (u >> 56u64) as u8,
        (u >> 48u64) as u8,
        (u >> 40u64) as u8,
        (u >> 32u64) as u8,
        (u >> 24u64) as u8,
        (u >> 16u64) as u8,
        (u >> 8u64) as u8,
        u as u8,
    ]
}

/// A date as the 64 bits of its two's complement.
pub open spec fn date_bits(x: i64) -> u64 {
    if x >= 0 { x as u64 } else { ((x + 0x8000_0000_0000_0000) + 0x8000_0000_0000_0000) as u64 }
}

/// The date whose two's complement is `u`.
pub open spec fn date_of(u: u64) -> i64 {
    if u <= 0x7fff_ffff_ffff_ffff { u as i64 } else { (u - 0x1_0000_0000_0000_0000) as i64 }
}

pub open spec fn be_u64(b: Seq<u8>) -> u64 {
    ((b[0] as u64) << 56u64) | ((b[1] as u64) << 48u64) | ((b[2] as u64) << 40u64) | ((b[3] as u64)
        << 32u64) | ((b[4] as u64) << 24u64) | ((b[5] as u64) << 16u64) | ((b[6] as u64) << 8u64)
        | (b[7] as u64)
}

/// The items of a tag list, each opened by 1.
pub open spec fn enc_tag_items(ts: Seq<Seq<char>>) -> Seq<u8>
    decreases ts.len(),
{
    if ts.len() == 0 {
        seq![]
    } else {
        enc_tag_items(ts.drop_last()) + seq![1u8] + enc_str(ts.last())
    }
}

/// The items of an annotation list, each opened by 1.
pub open spec fn enc_pair_items(u: Seq<(Seq<char>, Seq<char>)>) -> Seq<u8>
    decreases u.len(),
{
    if u.len() == 0 {
        seq![]
    } else {
        enc_pair_items(u.drop_last()) + seq![1u8] + enc_str(u.last().0) + enc_str(u.last().1)
    }
}

/// The encoding of a record.
pub open spec fn encode_meta(m: MetaView) -> Seq<u8> {
    seq![1u8] + enc_str(m.path) + enc_str(m.hash) + be_bytes(date_bits(m.creation_date))
        + enc_tag_items(m.tags) + seq![0u8] + enc_pair_items(m.user_data) + seq![0u8]
}

/// Index of the first 0xff byte, or -1.
pub open spec fn ff_pos(b: Seq<u8>) -> int
    decreases b.len(),
{
    if b.len() == 0 {
        -1
    } else if b[0] == 0xff {
        0
    } else {
        let r = ff_pos(b.drop_first());
        if r < 0 { -1 } else { r + 1 }
    }
}

pub open spec fn parse_str(b: Seq<u8>) -> Option<(Seq<char>, Seq<u8>)> {
    let e = ff_pos(b);
    if e < 0 || !valid_utf8(b.take(e)) {
        None
    } else {
        Some((decode_utf8(b.take(e)), b.skip(e + 1)))
    }
}

pub open spec fn parse_tags(b: Seq<u8>) -> Option<(Seq<Seq<char>>, Seq<u8>)>
    decreases b.len(),
{
    if b.len() == 0 {
        None
    } else if b[0] == 0 {
        Some((seq![], b.skip(1)))
    } else if b[0] == 1 {
        match parse_str(b.skip(1)) {
            None => None,
            Some((s, r)) => if r.len() < b.len() {
                match parse_tags(r) {
                    None => None,
                    Some((ts, r2)) => Some((seq![s] + ts, r2)),
                }
            } else {
                None
            },
        }
    } else {
        None
    }
}

pub open spec fn parse_pair(b: Seq<u8>) -> Option<((Seq<char>, Seq<char>), Seq<u8>)> {
    match parse_str(b) {
        None => None,
        Some((k, r)) => match parse_str(r) {
            None => None,
            Some((v, r2)) => Some(((k, v), r2)),
        },
    }
}

pub open spec fn parse_pairs(b: Seq<u8>) -> Option<(Seq<(Seq<char>, Seq<char>)>, Seq<u8>)>
    decreases b.len(),
{
    if b.len() == 0 {
        None
    } else if b[0] == 0 {
        Some((seq![], b.skip(1)))
    } else if b[0] == 1 {
        match parse_pair(b.skip(1)) {
            None => None,
            Some((p, r)) => if r.len() < b.len() {
                match parse_pairs(r) {
                    None => None,
                    Some((ps, r2)) => Some((seq![p] + ps, r2)),
                }
            } else {
                None
            },
        }
    } else {
        None
    }
}

/// What a byte string decodes to: a record exactly when every byte is used.
pub open spec fn decode_meta(b: Seq<u8>) -> Option<MetaView> {
    if b.len() == 0 || b[0] != 1 {
        None
    } else {
        match parse_str(b.skip(1)) {
            None => None,
            Some((path, r1)) => match parse_str(r1) {
                None => None,
                Some((hash, r2)) => if r2.len() < 8 {
                    None
                } else {
                    match parse_tags(r2.skip(8)) {
                        None => None,
                        Some((tags, r3)) => match parse_pairs(r3) {
                            Some((ud, r4)) if r4.len() == 0 => Some(
                                MetaView {
                                    path,
                                    hash,
                                    creation_date: date_of(be_u64(r2.take(8))),
                                    tags,
                                    user_data: ud,
                                },
                            ),
                            _ => None,
                        },
                    }
                },
            },
        }
    }
}

// ---- proofs about the encoding ----

proof fn lemma_ff_pos_at(b: Seq<u8>, j: int)
    requires
        0 <= j < b.len(),
        b[j] == 0xff,
        forall|k: int| 0 <= k < j ==> b[k] != 0xff,
    ensures
        ff_pos(b) == j,
    decreases j,
{
    if j > 0 {
        lemma_ff_pos_at(b.drop_first(), j - 1);
    }
}

proof fn lemma_ff_pos_none(b: Seq<u8>)
    requires
        forall|k: int| 0 <= k < b.len() ==> b[k] != 0xff,
    ensures
        ff_pos(b) == -1,
    decreases b.len(),
{
    if b.len() > 0 {
        lemma_ff_pos_none(b.drop_first());
    }
}

proof fn lemma_parse_str_enc(s: Seq<char>, rest: Seq<u8>)
    ensures
        parse_str(enc_str(s) + rest) == Some((s, rest)),
{
    let e = encode_utf8(s);
    let b = enc_str(s) + rest;
    encode_utf8_valid_utf8(s);
    lemma_utf8_has_no_ff(e);
    lemma_ff_pos_at(b, e.len() as int);
    assert(b.take(e.len() as int) =~= e);
    assert(b.skip(e.len() as int + 1) =~= rest);
    encode_utf8_decode_utf8(s);
}

proof fn lemma_tag_items_front(ts: Seq<Seq<char>>)
    requires
        ts.len() > 0,
    ensures
        enc_tag_items(ts) == seq![1u8] + enc_str(ts[0]) + enc_tag_items(ts.drop_first()),
    decreases ts.len(),
{
    if ts.len() > 1 {
        lemma_tag_items_front(ts.drop_last());
        assert(ts.drop_last().drop_first() =~= ts.drop_first().drop_last());
        assert(ts.drop_last()[0] == ts[0]);
        assert(ts.drop_first().last() == ts.last());
    } else {
        assert(ts.drop_last() =~= Seq::<Seq<char>>::empty());
        assert(ts.drop_first() =~= Seq::<Seq<char>>::empty());
    }
}

proof fn lemma_pair_items_front(u: Seq<(Seq<char>, Seq<char>)>)
    requires
        u.len() > 0,
    ensures
        enc_pair_items(u) == seq![1u8] + enc_str(u[0].0) + enc_str(u[0].1) + enc_pair_items(
            u.drop_first(),
        ),
    decreases u.len(),
{
    if u.len() > 1 {
        lemma_pair_items_front(u.drop_last());
        assert(u.drop_last().drop_first() =~= u.drop_first().drop_last());
        assert(u.drop_last()[0] == u[0]);
        assert(u.drop_first().last() == u.last());
    } else {
        assert(u.drop_last() =~= Seq::<(Seq<char>, Seq<char>)>::empty());
        assert(u.drop_first() =~= Seq::<(Seq<char>, Seq<char>)>::empty());
    }
}

proof fn lemma_parse_tags_enc(ts: Seq<Seq<char>>, rest: Seq<u8>)
    ensures
        parse_tags(enc_tag_items(ts) + seq![0u8] + rest) == Some((ts, rest)),
    decreases ts.len(),
{
    let b = enc_tag_items(ts) + seq![0u8] + rest;
    if ts.len() == 0 {
        assert(b.skip(1) =~= rest);
    } else {
        lemma_tag_items_front(ts);
        let tail = enc_tag_items(ts.drop_first()) + seq![0u8] + rest;
        assert(b.skip(1) =~= enc_str(ts[0]) + tail);
        lemma_parse_str_enc(ts[0], tail);
        lemma_parse_tags_enc(ts.drop_first(), rest);
        assert(seq![ts[0]] + ts.drop_first() =~= ts);
    }
}

proof fn lemma_parse_pairs_enc(u: Seq<(Seq<char>, Seq<char>)>, rest: Seq<u8>)
    ensures
        parse_pairs(enc_pair_items(u) + seq![0u8] + rest) == Some((u, rest)),
    decreases u.len(),
{
    let b = enc_pair_items(u) + seq![0u8] + rest;
    if u.len() == 0 {
        assert(b.skip(1) =~= rest);
    } else {
        lemma_pair_items_front(u);
        let tail = enc_pair_items(u.drop_first()) + seq![0u8] + rest;
        assert(b.skip(1) =~= enc_str(u[0].0) + (enc_str(u[0].1) + tail));
        lemma_parse_str_enc(u[0].0, enc_str(u[0].1) + tail);
        lemma_parse_str_enc(u[0].1, tail);
        lemma_parse_pairs_enc(u.drop_first(), rest);
        assert(seq![u[0]] + u.drop_first() =~= u);
    }
}

proof fn lemma_be_round_trip(u: u64)
    ensures
        be_u64(be_bytes(u)) == u,
{
    let b = be_bytes(u);
    assert(((((u >> 56u64) as u8) as u64) << 56u64) | ((((u >> 48u64) as u8) as u64) << 48u64)
        | ((((u >> 40u64) as u8) as u64) << 40u64) | ((((u >> 32u64) as u8) as u64) << 32u64)
        | ((((u >> 24u64) as u8) as u64) << 24u64) | ((((u >> 16u64) as u8) as u64) << 16u64)
        | ((((u >> 8u64) as u8) as u64) << 8u64) | ((u as u8) as u64) == u) by (bit_vector);
}

/// Decoding an encoded record gives the record back, for every record,
/// including those with no tags or no annotations.
pub proof fn lemma_decode_encode(m: MetaView)
    ensures
        decode_meta(encode_meta(m)) == Some(m),
{
    let b = encode_meta(m);
    let r1 = enc_str(m.hash) + be_bytes(date_bits(m.creation_date)) + enc_tag_items(m.tags) + seq![0u8]
        + enc_pair_items(m.user_data) + seq![0u8];
    assert(b.skip(1) =~= enc_str(m.path) + r1);
    lemma_parse_str_enc(m.path, r1);
    let r2 = be_bytes(date_bits(m.creation_date)) + enc_tag_items(m.tags) + seq![0u8] + enc_pair_items(
        m.user_data,
    ) + seq![0u8];
    assert(r1 =~= enc_str(m.hash) + r2);
    lemma_parse_str_enc(m.hash, r2);
    let r3 = enc_pair_items(m.user_data) + seq![0u8];
    assert(r2.skip(8) =~= enc_tag_items(m.tags) + seq![0u8] + r3);
    assert(r2.take(8) =~= be_bytes(date_bits(m.creation_date)));
    lemma_parse_tags_enc(m.tags, r3);
    assert(r3 =~= enc_pair_items(m.user_data) + seq![0u8] + Seq::<u8>::empty());
    lemma_parse_pairs_enc(m.user_data, Seq::<u8>::empty());
    lemma_be_round_trip(date_bits(m.creation_date));
    assert(date_of(date_bits(m.creation_date)) == m.creation_date);
}

// ---- encoding ----

fn write_str(out: &mut Vec<u8>, s: &String)
    ensures
        final(out)@ == old(out)@ + enc_str(s@),
{
    push_all(out, s.as_str().as_bytes());
    out.push(0xff);
    assert(final(out)@ =~= old(out)@ + enc_str(s@));
}

fn date_to_bits(x: i64) -> (r: u64)
    ensures
        r == date_bits(x),
{
    if x >= 0 {
        x as u64
    } else {
        ((x + 0x7fff_ffff_ffff_ffff + 1) as u64) + 0x8000_0000_0000_0000
    }
}

fn bits_to_date(u: u64) -> (r: i64)
    ensures
        r == date_of(u),
{
    if u <= 0x7fff_ffff_ffff_ffff {
        u as i64
    } else {
        ((u - 0x8000_0000_0000_0000) as i64) - 0x7fff_ffff_ffff_ffff - 1
    }
}

fn write_u64(out: &mut Vec<u8>, u: u64)
    ensures
        final(out)@ == old(out)@ + be_bytes(u),
{
    out.push((u >> 56u64) as u8);
    out.push((u >> 48u64) as u8);
    out.push((u >> 40u64) as u8);
    out.push((u >> 32u64) as u8);
    out.push((u >> 24u64) as u8);
    out.push((u >> 16u64) as u8);
    out.push((u >> 8u64) as u8);
    out.push(u as u8);
    assert(final(out)@ =~= old(out)@ + be_bytes(u));
}

/// Encodes a record.
pub fn encode(m: &DocumentMetadata) -> (r: Vec<u8>)
    ensures
        r@ == encode_meta(m@),
{
    let mut out: Vec<u8> = Vec::new();
    out.push(1);
    write_str(&mut out, &m.path);
    write_str(&mut out, &m.hash);
    write_u64(&mut out, date_to_bits(m.creation_date));
    let ghost head = out@;
    let ghost tags = strings_view(m.tags@);
    let mut i: usize = 0;
    while i < m.tags.len()
        invariant
            i <= m.tags@.len(),
            tags == strings_view(m.tags@),
            out@ == head + enc_tag_items(tags.take(i as int)),
        decreases m.tags@.len() - i,
    {
        out.push(1);
        write_str(&mut out, &m.tags[i]);
        proof {
            let t = tags.take(i + 1);
            assert(t.drop_last() =~= tags.take(i as int));
            assert(t.last() == m.tags@[i as int]@);
        }
        i = i + 1;
        assert(out@ =~= head + enc_tag_items(tags.take(i as int)));
    }
    assert(tags.take(i as int) =~= tags);
    out.push(0);
    let ghost head2 = out@;
    let ghost ud = pairs_view(m.user_data@);
    let mut j: usize = 0;
    while j < m.user_data.len()
        invariant
            j <= m.user_data@.len(),
            ud == pairs_view(m.user_data@),
            out@ == head2 + enc_pair_items(ud.take(j as int)),
        decreases m.user_data@.len() - j,
    {
        out.push(1);
        write_str(&mut out, &m.user_data[j].0);
        write_str(&mut out, &m.user_data[j].1);
        proof {
            let t = ud.take(j + 1);
            assert(t.drop_last() =~= ud.take(j as int));
            assert(t.last() == (m.user_data@[j as int].0@, m.user_data@[j as int].1@));
        }
        j = j + 1;
        assert(out@ =~= head2 + enc_pair_items(ud.take(j as int)));
    }
    assert(ud.take(j as int) =~= ud);
    out.push(0);
    assert(out@ =~= encode_meta(m@));
    out
}

// ---- decoding ----

/// Why a byte string is not a record.
#[derive(Clone, Copy, Debug, PartialEq, Eq)]
pub enum DecodeError {
    /// The bytes do not form a record of this format.
    Corrupt,
}

fn copy_range(b: &[u8], lo: usize, hi: usize) -> (r: Vec<u8>)
    requires
        lo <= hi <= b@.len(),
    ensures
        r@ == b@.subrange(lo as int, hi as int),
{
    let mut out: Vec<u8> = Vec::new();
    let mut k: usize = lo;
    while k < hi
        invariant
            lo <= k <= hi <= b@.len(),
            out@ == b@.subrange(lo as int, k as int),
        decreases hi - k,
    {
        out.push(b[k]);
        k = k + 1;
        assert(out@ =~= b@.subrange(lo as int, k as int));
    }
    out
}

fn read_str(b: &[u8], pos: usize) -> (r: Option<(String, usize)>)
    requires
        pos <= b@.len(),
    ensures
        match parse_str(b@.skip(pos as int)) {
            None => r is None,
            Some((s, rest)) => r matches Some((x, p)) && x@ == s && pos < p <= b@.len()
                && b@.skip(p as int) == rest,
        },
{
    let ghost sfx = b@.skip(pos as int);
    let mut i: usize = pos;
    while i < b.len() && b[i] != 0xff
        invariant
            pos <= i <= b@.len(),
            sfx == b@.skip(pos as int),
            forall|k: int| pos <= k < i ==> b@[k] != 0xff,
        decreases b@.len() - i,
    {
        i = i + 1;
    }
    if i == b.len() {
        proof {
            lemma_ff_pos_none(sfx);
        }
        return None;
    }
    proof {
        lemma_ff_pos_at(sfx, i - pos);
        assert(sfx.take(i - pos) =~= b@.subrange(pos as int, i as int));
        assert(sfx.skip(i - pos + 1) =~= b@.skip(i + 1));
    }
    let bytes = copy_range(b, pos, i);
    match string_from_utf8(bytes) {
        None => None,
        Some(s) => Some((s, i + 1)),
    }
}

fn read_tags(b: &[u8], pos: usize) -> (r: Option<(Vec<String>, usize)>)
    requires
        pos <= b@.len(),
    ensures
        match parse_tags(b@.skip(pos as int)) {
            None => r is None,
            Some((ts, rest)) => r matches Some((v, p)) && strings_view(v@) == ts && pos < p
                <= b@.len() && b@.skip(p as int) == rest,
        },
{
    let mut acc: Vec<String> = Vec::new();
    let mut p: usize = pos;
    while p < b.len() && b[p] == 1
        invariant
            pos <= p <= b@.len(),
            parse_tags(b@.skip(pos as int)) == match parse_tags(b@.skip(p as int)) {
                None => None,
                Some((ts, rest)) => Some((strings_view(acc@) + ts, rest)),
            },
        decreases b@.len() - p,
    {
        let ghost sfx = b@.skip(p as int);
        assert(sfx.skip(1) =~= b@.skip(p + 1));
        match read_str(b, p + 1) {
            None => {
                return None;
            },
            Some((s, q)) => {
                assert(b@.skip(q as int).len() < sfx.len());
                let ghost old_acc = strings_view(acc@);
                acc.push(s);
                proof {
                    assert(strings_view(acc@) =~= old_acc.push(s@));
                    match parse_tags(b@.skip(q as int)) {
                        None => {},
                        Some((ts, rest)) => {
                            assert(old_acc + (seq![s@] + ts) =~= strings_view(acc@) + ts);
                        },
                    }
                }
                p = q;
            },
        }
    }
    if p < b.len() && b[p] == 0 {
        proof {
            assert(b@.skip(p as int).skip(1) =~= b@.skip(p + 1));
            assert(strings_view(acc@) + Seq::<Seq<char>>::empty() =~= strings_view(acc@));
        }
        Some((acc, p + 1))
    } else {
        None
    }
}

fn read_pairs(b: &[u8], pos: usize) -> (r: Option<(Vec<(String, String)>, usize)>)
    requires
        pos <= b@.len(),
    ensures
        match parse_pairs(b@.skip(pos as int)) {
            None => r is None,
            Some((ps, rest)) => r matches Some((v, p)) && pairs_view(v@) == ps && pos < p
                <= b@.len() && b@.skip(p as int) == rest,
        },
{
    let mut acc: Vec<(String, String)> = Vec::new();
    let mut p: usize = pos;
    while p < b.len() && b[p] == 1
        invariant
            pos <= p <= b@.len(),
            parse_pairs(b@.skip(pos as int)) == match parse_pairs(b@.skip(p as int)) {
                None => None,
                Some((ps, rest)) => Some((pairs_view(acc@) + ps, rest)),
            },
        decreases b@.len() - p,
    {
        let ghost sfx = b@.skip(p as int);
        assert(sfx.skip(1) =~= b@.skip(p + 1));
        match read_str(b, p + 1) {
            None => {
                return None;
            },
            Some((k, q1)) => {
                match read_str(b, q1) {
                    None => {
                        return None;
                    },
                    Some((v, q)) => {
                        assert(b@.skip(q as int).len() < sfx.len());
                        let ghost old_acc = pairs_view(acc@);
                        let ghost kv = (k@, v@);
                        acc.push((k, v));
                        proof {
                            assert(pairs_view(acc@) =~= old_acc.push(kv));
                            match parse_pairs(b@.skip(q as int)) {
                                None => {},
                                Some((ps, rest)) => {
                                    assert(old_acc + (seq![kv] + ps) =~= pairs_view(acc@) + ps);
                                },
                            }
                        }
                        p = q;
                    },
                }
            },
        }
    }
    if p < b.len() && b[p] == 0 {
        proof {
            assert(b@.skip(p as int).skip(1) =~= b@.skip(p + 1));
            assert(pairs_view(acc@) + Seq::<(Seq<char>, Seq<char>)>::empty() =~= pairs_view(acc@));
        }
        Some((acc, p + 1))
    } else {
        None
    }
}

fn read_u64(b: &[u8], pos: usize) -> (r: u64)
    requires
        pos + 8 <= b@.len(),
    ensures
        r == be_u64(b@.skip(pos as int).take(8)),
{
    ((b[pos] as u64) << 56u64) | ((b[pos + 1] as u64) << 48u64) | ((b[pos + 2] as u64) << 40u64)
        | ((b[pos + 3] as u64) << 32u64) | ((b[pos + 4] as u64) << 24u64) | ((b[pos + 5] as u64)
        << 16u64) | ((b[pos + 6] as u64) << 8u64) | (b[pos + 7] as u64)
}

/// Decodes a record: `Ok` exactly on the bytes that `decode_meta` accepts,
/// with the record it gives; `Err(Corrupt)` on every other byte string.
pub fn decode(b: &[u8]) -> (r: Result<DocumentMetadata, DecodeError>)
    ensures
        match decode_meta(b@) {
            Some(m) => r matches Ok(x) && x@ == m,
            None => r == Err::<DocumentMetadata, DecodeError>(DecodeError::Corrupt),
        },
{
    if b.len() == 0 || b[0] != 1 {
        return Err(DecodeError::Corrupt);
    }
    let (path, at_hash) = match read_str(b, 1) {
        None => {
            return Err(DecodeError::Corrupt);
        },
        Some(x) => x,
    };
    let (hash, at_date) = match read_str(b, at_hash) {
        None => {
            return Err(DecodeError::Corrupt);
        },
        Some(x) => x,
    };
    if b.len() - at_date < 8 {
        return Err(DecodeError::Corrupt);
    }
    let date = bits_to_date(read_u64(b, at_date));
    proof {
        assert(b@.skip(at_date as int).skip(8) =~= b@.skip(at_date + 8));
    }
    let (tags, at_pairs) = match read_tags(b, at_date + 8) {
        None => {
            return Err(DecodeError::Corrupt);
        },
        Some(x) => x,
    };
    let (user_data, at_end) = match read_pairs(b, at_pairs) {
        None => {
            return Err(DecodeError::Corrupt);
        },
        Some(x) => x,
    };
    if at_end != b.len() {
        return Err(DecodeError::Corrupt);
    }
    let m = DocumentMetadata { path, hash, creation_date: date, tags, user_data };
    assert(m@ == decode_meta(b@)->Some_0);
    Ok(m)
}

} // verus!
