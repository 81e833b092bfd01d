//! The key layout of the store and the atomic batches written to it.
//!
//! For a content hash `H` the store holds `H_meta` (the encoded record) and
//! `H_data` (the blob). A batch is applied as one unit, its puts in order.
use vstd::prelude::*;
use vstd::utf8::*;
use crate::text::push_all;

verus! {

/// The bytes of `_meta`.
pub open spec fn meta_suffix() -> Seq<u8> {
    seq![95u8, 109u8, 101u8, 116u8, 97u8]
}

/// The bytes of `_data`.
pub open spec fn data_suffix() -> Seq<u8> {
    seq![95u8, 100u8, 97u8, 116u8, 97u8]
}

/// The key of the record of the document with hash `h`.
pub open spec fn meta_key_of(h: Seq<char>) -> Seq<u8> {
    encode_utf8(h) + meta_suffix()
}

/// The key of the blob of the document with hash `h`.
pub open spec fn data_key_of(h: Seq<char>) -> Seq<u8> {
    encode_utf8(h) + data_suffix()
}

/// A key names a metadata record when it ends in `_meta`.
pub open spec fn is_meta_key_spec(k: Seq<u8>) -> bool {
    k.len() >= 5 && k.skip(k.len() - 5) == meta_suffix()
}

/// The contents of the store after a list of puts, applied in order.
pub open spec fn apply_puts(s: Map<Seq<u8>, Seq<u8>>, puts: Seq<(Seq<u8>, Seq<u8>)>) -> Map<
    Seq<u8>,
    Seq<u8>,
>
    decreases puts.len(),
{
    if puts.len() == 0 {
        s
    } else {
        apply_puts(s, puts.drop_last()).insert(puts.last().0, puts.last().1)
    }
}

/// A set of puts that the engine writes all together or not at all.
pub struct Batch {
    pub puts: Vec<(Vec<u8>, Vec<u8>)>,
}

impl View for Batch {
    type V = Seq<(Seq<u8>, Seq<u8>)>;

    open spec fn view(&self) -> Seq<(Seq<u8>, Seq<u8>)> {
        self.puts@.map_values(|p: (Vec<u8>, Vec<u8>)| (p.0@, p.1@))
    }
}

impl Batch {
    /// An empty batch.
    pub fn new() -> (r: Batch)
        ensures
            r@ == Seq::<(Seq<u8>, Seq<u8>)>::empty(),
    {
        let r = Batch { puts: Vec::new() };
        assert(r@ =~= Seq::<(Seq<u8>, Seq<u8>)>::empty());
        r
    }

    /// Adds a put at the end of the batch.
    pub fn put(&mut self, key: Vec<u8>, value: Vec<u8>)
        ensures
            final(self)@ == old(self)@.push((key@, value@)),
    {
        self.puts.push((key, value));
        assert(final(self)@ =~= old(self)@.push((key@, value@)));
    }

    /// The number of puts.
    pub fn len(&self) -> (r: usize)
        ensures
            r == self@.len(),
    {
        self.puts.len()
    }
}

fn key_with_suffix(h: &String, meta: bool) -> (r: Vec<u8>)
    ensures
        r@ == encode_utf8(h@) + (if meta { meta_suffix() } else { data_suffix() }),
{
    let mut k: Vec<u8> = Vec::new();
    push_all(&mut k, h.as_str().as_bytes());
    k.push(95);
    if meta {
        k.push(109);
        k.push(101);
    } else {
        k.push(100);
        k.push(97);
    }
    k.push(116);
    k.push(97);
    assert(k@ =~= encode_utf8(h@) + (if meta { meta_suffix() } else { data_suffix() }));
    k
}

/// The key `<hash>_meta`.
pub fn meta_key(h: &String) -> (r: Vec<u8>)
    ensures
        r@ == meta_key_of(h@),
{
    key_with_suffix(h, true)
}

/// The key `<hash>_data`.
pub fn data_key(h: &String) -> (r: Vec<u8>)
    ensures
        r@ == data_key_of(h@),
{
    key_with_suffix(h, false)
}

/// Whether a key names a metadata record, judged by its suffix alone.
pub fn is_meta_key(k: &[u8]) -> (r: bool)
    ensures
        r == is_meta_key_spec(k@),
{
    let n = k.len();
    if n < 5 {
        return false;
    }
    let r = k[n - 5] == 95 && k[n - 4] == 109 && k[n - 3] == 101 && k[n - 2] == 116 && k[n - 1]
        == 97;
    assert(r == (k@.skip(n - 5) =~= meta_suffix()));
    r
}

/// The record key and the blob key of a document never coincide, and
/// neither is taken for the other by its suffix.
pub proof fn lemma_keys_distinct(h: Seq<char>)
    ensures
        meta_key_of(h) != data_key_of(h),
        is_meta_key_spec(meta_key_of(h)),
        !is_meta_key_spec(data_key_of(h)),
{
    let e = encode_utf8(h);
    assert(meta_key_of(h)[e.len() as int + 1] == 109u8);
    assert(data_key_of(h)[e.len() as int + 1] == 100u8);
    assert(meta_key_of(h).skip(meta_key_of(h).len() - 5) =~= meta_suffix());
    assert(data_key_of(h).skip(data_key_of(h).len() - 5) =~= data_suffix());
}

} // verus!
