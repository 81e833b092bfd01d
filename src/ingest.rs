//! The upload path: digest the blob, stamp the record, add the inbox tag,
//! encode it, and pack record and blob into one batch.
use vstd::prelude::*;
use crate::codec::{encode, encode_meta};
use crate::hash::{compute_hash, content_hash};
use crate::metadata::{DocumentMetadata, MetaView};
use crate::text::push_all;
use crate::store::{apply_puts, data_key, data_key_of, meta_key, meta_key_of, Batch};

verus! {

/// Why an upload was refused.
#[derive(Clone, Copy, Debug, PartialEq, Eq)]
pub enum UploadError {
    /// The request lacks a required field: it carries no metadata.
    InvalidArgument,
    /// The clock gave no usable time since the epoch.
    Internal,
}

/// The tag that every stored document carries.
pub open spec fn inbox_tag() -> Seq<char> {
    seq!['I', 'N', 'B', 'O', 'X']
}

/// The record that is stored for a blob uploaded at time `now` with the
/// caller's record `m`: hash and date are the server's, and the inbox tag is
/// added to the caller's tags.
pub open spec fn stamped(m: MetaView, blob: Seq<u8>, now: u64) -> MetaView {
    MetaView {
        path: m.path,
        hash: content_hash(blob),
        creation_date: now as i64,
        tags: m.tags.push(inbox_tag()),
        user_data: m.user_data,
    }
}

/// The puts of one upload: the record under `<hash>_meta`, the blob under
/// `<hash>_data`.
pub open spec fn upload_puts(m: MetaView, blob: Seq<u8>, now: u64) -> Seq<(Seq<u8>, Seq<u8>)> {
    let h = content_hash(blob);
    seq![(meta_key_of(h), encode_meta(stamped(m, blob, now))), (data_key_of(h), blob)]
}

/// The outcome of an upload request; `now` is the clock's reading in seconds
/// since the epoch, `None` where the clock gave none.
pub open spec fn upload_outcome(meta: Option<MetaView>, blob: Seq<u8>, now: Option<u64>) -> Result<
    Seq<(Seq<u8>, Seq<u8>)>,
    UploadError,
> {
    match meta {
        None => Err(UploadError::InvalidArgument),
        Some(m) => match now {
            Some(t) if t <= i64::MAX => Ok(upload_puts(m, blob, t)),
            _ => Err(UploadError::Internal),
        },
    }
}

/// The view of an optional record.
pub open spec fn meta_view(meta: Option<DocumentMetadata>) -> Option<MetaView> {
    match meta {
        Some(m) => Some(m@),
        None => None,
    }
}

/// The store after an upload: the batch applied whole, or nothing on failure.
pub open spec fn store_after(
    s: Map<Seq<u8>, Seq<u8>>,
    r: Result<Seq<(Seq<u8>, Seq<u8>)>, UploadError>,
) -> Map<Seq<u8>, Seq<u8>> {
    match r {
        Ok(puts) => apply_puts(s, puts),
        Err(_) => s,
    }
}

/// Builds the batch of an upload, or the error that refuses it. Nothing is
/// written on an error: the caller applies the batch whole.
pub fn prepare_upload(meta: Option<DocumentMetadata>, blob: &[u8], now: Option<u64>) -> (r: Result<
    Batch,
    UploadError,
>)
    ensures
        match upload_outcome(meta_view(meta), blob@, now) {
            Ok(puts) => r matches Ok(b) && b@ == puts,
            Err(e) => r == Err::<Batch, UploadError>(e),
        },
{
    let mut m = match meta {
        None => {
            return Err(UploadError::InvalidArgument);
        },
        Some(m) => m,
    };
    let t = match now {
        Some(t) if t <= i64::MAX as u64 => t,
        _ => {
            return Err(UploadError::Internal);
        },
    };
    let ghost m0 = m@;
    m.hash = compute_hash(blob);
    m.creation_date = t as i64;
    let inbox = "INBOX".to_owned();
    proof {
        reveal_strlit("INBOX");
    }
    assert(inbox@ =~= inbox_tag());
    m.tags.push(inbox);
    assert(m@.tags =~= m0.tags.push(inbox_tag()));
    assert(m@ == stamped(m0, blob@, t));
    let record = encode(&m);
    let mut batch = Batch::new();
    batch.put(meta_key(&m.hash), record);
    let mut data: Vec<u8> = Vec::new();
    push_all(&mut data, blob);
    assert(data@ =~= blob@);
    batch.put(data_key(&m.hash), data);
    assert(batch@ =~= upload_puts(m0, blob@, t));
    Ok(batch)
}

proof fn lemma_apply_two(s: Map<Seq<u8>, Seq<u8>>, a: (Seq<u8>, Seq<u8>), b: (Seq<u8>, Seq<u8>))
    ensures
        apply_puts(s, seq![a, b]) == s.insert(a.0, a.1).insert(b.0, b.1),
{
    let p = seq![a, b];
    assert(p.drop_last() =~= seq![a]);
    assert(p.drop_last().drop_last() =~= Seq::<(Seq<u8>, Seq<u8>)>::empty());
    assert(apply_puts(s, p.drop_last().drop_last()) == s);
    assert(apply_puts(s, p.drop_last()) == s.insert(a.0, a.1));
}

/// A refused upload changes nothing; one without metadata is refused as an
/// invalid argument.
pub proof fn lemma_failed_upload_writes_nothing(
    s: Map<Seq<u8>, Seq<u8>>,
    meta: Option<MetaView>,
    blob: Seq<u8>,
    now: Option<u64>,
)
    ensures
        upload_outcome(meta, blob, now) is Err ==> store_after(s, upload_outcome(meta, blob, now))
            == s,
        meta is None ==> upload_outcome(meta, blob, now) == Err::<
            Seq<(Seq<u8>, Seq<u8>)>,
            UploadError,
        >(UploadError::InvalidArgument) && store_after(s, upload_outcome(meta, blob, now)) == s,
{
}

/// A successful upload writes both keys of its hash, the record and the blob,
/// and leaves every other key as it was; a refused one writes neither.
pub proof fn lemma_upload_atomic(
    s: Map<Seq<u8>, Seq<u8>>,
    meta: Option<MetaView>,
    blob: Seq<u8>,
    now: Option<u64>,
)
    ensures
        ({
            let after = store_after(s, upload_outcome(meta, blob, now));
            let h = content_hash(blob);
            match upload_outcome(meta, blob, now) {
                Ok(_) => after.contains_key(meta_key_of(h)) && after.contains_key(data_key_of(h))
                    && after[data_key_of(h)] == blob && after[meta_key_of(h)] == encode_meta(
                    stamped(meta->Some_0, blob, now->Some_0),
                ) && (forall|k: Seq<u8>|
                    k != meta_key_of(h) && k != data_key_of(h) ==> (#[trigger] after.contains_key(k)
                        == s.contains_key(k) && (s.contains_key(k) ==> after[k] == s[k]))),
                Err(_) => after == s,
            }
        }),
{
    let h = content_hash(blob);
    crate::store::lemma_keys_distinct(h);
    if let Ok(puts) = upload_outcome(meta, blob, now) {
        lemma_apply_two(s, puts[0], puts[1]);
        assert(puts =~= seq![puts[0], puts[1]]);
    }
}

/// Uploading the same bytes twice leaves the store as the second upload alone
/// would have left it: one document at that hash, with the second record.
pub proof fn lemma_same_blob_last_write_wins(
    s: Map<Seq<u8>, Seq<u8>>,
    m1: MetaView,
    m2: MetaView,
    blob: Seq<u8>,
    t1: u64,
    t2: u64,
)
    requires
        t1 <= i64::MAX,
        t2 <= i64::MAX,
    ensures
        ({
            let once = store_after(s, upload_outcome(Some(m1), blob, Some(t1)));
            let twice = store_after(once, upload_outcome(Some(m2), blob, Some(t2)));
            &&& twice == store_after(s, upload_outcome(Some(m2), blob, Some(t2)))
            &&& twice[meta_key_of(content_hash(blob))] == encode_meta(stamped(m2, blob, t2))
            &&& twice[data_key_of(content_hash(blob))] == blob
        }),
{
    let h = content_hash(blob);
    crate::store::lemma_keys_distinct(h);
    let first = upload_puts(m1, blob, t1);
    let second = upload_puts(m2, blob, t2);
    lemma_apply_two(s, first[0], first[1]);
    assert(first =~= seq![first[0], first[1]]);
    let once = apply_puts(s, first);
    lemma_apply_two(once, second[0], second[1]);
    lemma_apply_two(s, second[0], second[1]);
    assert(second =~= seq![second[0], second[1]]);
    let twice = apply_puts(once, second);
    let direct = apply_puts(s, second);
    assert(twice =~= direct);
}

} // verus!
