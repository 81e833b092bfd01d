//! Listing: which stored records a filter selects, and the steps of a scan
//! that hands them to a consumer until it is done or the consumer is gone.
use vstd::prelude::*;
use crate::codec::{decode, decode_meta, DecodeError};
use crate::metadata::{annotation_keys, strings_view, DocumentMetadata, MetaView};
use crate::store::{is_meta_key, is_meta_key_spec};

verus! {

/// A listing filter: any of the tags, else any of the annotation keys.
pub struct ListFilter {
    pub tags: Vec<String>,
    pub annotation_keys: Vec<String>,
}

/// Two lists of strings share an element.
pub open spec fn shares_any(a: Seq<Seq<char>>, b: Seq<Seq<char>>) -> bool {
    exists|i: int, j: int| 0 <= i < a.len() && 0 <= j < b.len() && a[i] == b[j]
}

/// Whether a record is selected. A non-empty tag list decides alone: the
/// record must carry one of its tags. Otherwise a non-empty key list decides:
/// the record must have an annotation under one of its keys. With both empty
/// every record is selected.
pub open spec fn selects(tags: Seq<Seq<char>>, keys: Seq<Seq<char>>, m: MetaView) -> bool {
    if tags.len() > 0 {
        shares_any(m.tags, tags)
    } else if keys.len() > 0 {
        shares_any(annotation_keys(m.user_data), keys)
    } else {
        true
    }
}

impl ListFilter {
    pub open spec fn tags_view(&self) -> Seq<Seq<char>> {
        strings_view(self.tags@)
    }

    pub open spec fn keys_view(&self) -> Seq<Seq<char>> {
        strings_view(self.annotation_keys@)
    }

    pub open spec fn selects_spec(&self, m: MetaView) -> bool {
        selects(self.tags_view(), self.keys_view(), m)
    }
}

fn contains_str(v: &Vec<String>, s: &String) -> (r: bool)
    ensures
        r == exists|j: int| 0 <= j < v@.len() && v@[j]@ == s@,
{
    let mut j: usize = 0;
    while j < v.len()
        invariant
            j <= v@.len(),
            forall|k: int| 0 <= k < j ==> v@[k]@ != s@,
        decreases v@.len() - j,
    {
        if v[j] == *s {
            return true;
        }
        j = j + 1;
    }
    false
}

/// Whether `filter` selects the record `m`.
pub fn matches_filter(filter: &ListFilter, m: &DocumentMetadata) -> (r: bool)
    ensures
        r == filter.selects_spec(m@),
{
    if filter.tags.len() > 0 {
        let ghost ft = filter.tags_view();
        let ghost mt = m@.tags;
        let mut i: usize = 0;
        while i < m.tags.len()
            invariant
                i <= m.tags@.len(),
                filter.tags@.len() > 0,
                ft == filter.tags_view(),
                mt == m@.tags,
                forall|a: int, b: int| 0 <= a < i && 0 <= b < ft.len() ==> mt[a] != ft[b],
            decreases m.tags@.len() - i,
        {
            if contains_str(&filter.tags, &m.tags[i]) {
                proof {
                    let j = choose|j: int| 0 <= j < filter.tags@.len() && filter.tags@[j]@ == m.tags@[i as int]@;
                    assert(mt[i as int] == ft[j]);
                }
                return true;
            }
            i = i + 1;
        }
        false
    } else if filter.annotation_keys.len() > 0 {
        let ghost fk = filter.keys_view();
        let ghost mk = annotation_keys(m@.user_data);
        let mut i: usize = 0;
        while i < m.user_data.len()
            invariant
                i <= m.user_data@.len(),
                filter.tags@.len() == 0,
                filter.annotation_keys@.len() > 0,
                fk == filter.keys_view(),
                mk == annotation_keys(m@.user_data),
                forall|a: int, b: int| 0 <= a < i && 0 <= b < fk.len() ==> mk[a] != fk[b],
            decreases m.user_data@.len() - i,
        {
            if contains_str(&filter.annotation_keys, &m.user_data[i].0) {
                proof {
                    let j = choose|j: int| 0 <= j < filter.annotation_keys@.len() && filter.annotation_keys@[j]@ == m.user_data@[i as int].0@;
                    assert(m@.user_data[i as int] == (m.user_data@[i as int].0@, m.user_data@[i as int].1@));
                    assert(mk[i as int] == fk[j]);
                    assert(mk.len() == m.user_data@.len());
                    assert(fk.len() == filter.annotation_keys@.len());
                    assert(shares_any(mk, fk));
                    assert(filter.tags_view().len() == 0);
                }
                return true;
            }
            i = i + 1;
        }
        false
    } else {
        true
    }
}

/// What a scan makes of one stored entry.
#[derive(Debug)]
pub enum ScanItem {
    /// Not a metadata key, or a record that the filter does not select.
    Skip,
    /// A selected record, to be handed to the consumer.
    Deliver(DocumentMetadata),
    /// A metadata key whose value does not decode: reported, then passed over.
    Corrupt(DecodeError),
}

/// What a scan makes of the entry `(key, value)`.
pub open spec fn scan_entry_spec(
    tags: Seq<Seq<char>>,
    keys: Seq<Seq<char>>,
    key: Seq<u8>,
    value: Seq<u8>,
) -> Option<Result<MetaView, DecodeError>> {
    if !is_meta_key_spec(key) {
        None
    } else {
        match decode_meta(value) {
            None => Some(Err(DecodeError::Corrupt)),
            Some(m) => if selects(tags, keys, m) {
                Some(Ok(m))
            } else {
                None
            },
        }
    }
}

/// Judges one stored entry. The value is decoded only under a metadata key.
pub fn scan_entry(filter: &ListFilter, key: &[u8], value: &[u8]) -> (r: ScanItem)
    ensures
        match scan_entry_spec(filter.tags_view(), filter.keys_view(), key@, value@) {
            None => r is Skip,
            Some(Err(e)) => r == ScanItem::Corrupt(e),
            Some(Ok(m)) => r matches ScanItem::Deliver(x) && x@ == m,
        },
{
    if !is_meta_key(key) {
        return ScanItem::Skip;
    }
    match decode(value) {
        Err(e) => ScanItem::Corrupt(e),
        Ok(m) => if matches_filter(filter, &m) {
            ScanItem::Deliver(m)
        } else {
            ScanItem::Skip
        },
    }
}

/// What a scan delivers from the entries `es`, in their order.
pub open spec fn listing(
    tags: Seq<Seq<char>>,
    keys: Seq<Seq<char>>,
    es: Seq<(Seq<u8>, Seq<u8>)>,
) -> Seq<Result<MetaView, DecodeError>>
    decreases es.len(),
{
    if es.len() == 0 {
        seq![]
    } else {
        let head = listing(tags, keys, es.drop_last());
        match scan_entry_spec(tags, keys, es.last().0, es.last().1) {
            None => head,
            Some(x) => head.push(x),
        }
    }
}

pub open spec fn results_view(v: Seq<Result<DocumentMetadata, DecodeError>>) -> Seq<
    Result<MetaView, DecodeError>,
> {
    v.map_values(
        |x: Result<DocumentMetadata, DecodeError>|
            match x {
                Ok(m) => Ok(m@),
                Err(e) => Err(e),
            },
    )
}

/// Scans a snapshot of the store's entries, in the engine's order, and
/// returns what the filter selects, with a `Corrupt` error in place of each
/// record that does not decode.
pub fn list_entries(filter: &ListFilter, entries: &Vec<(Vec<u8>, Vec<u8>)>) -> (r: Vec<
    Result<DocumentMetadata, DecodeError>,
>)
    ensures
        results_view(r@) == listing(
            filter.tags_view(),
            filter.keys_view(),
            entries@.map_values(|e: (Vec<u8>, Vec<u8>)| (e.0@, e.1@)),
        ),
{
    let ghost es = entries@.map_values(|e: (Vec<u8>, Vec<u8>)| (e.0@, e.1@));
    let mut out: Vec<Result<DocumentMetadata, DecodeError>> = Vec::new();
    let mut i: usize = 0;
    while i < entries.len()
        invariant
            i <= entries@.len(),
            es == entries@.map_values(|e: (Vec<u8>, Vec<u8>)| (e.0@, e.1@)),
            results_view(out@) == listing(filter.tags_view(), filter.keys_view(), es.take(i as int)),
        decreases entries@.len() - i,
    {
        let item = scan_entry(filter, entries[i].0.as_slice(), entries[i].1.as_slice());
        proof {
            assert(es.take(i + 1).drop_last() =~= es.take(i as int));
        }
        let ghost before = out@;
        match item {
            ScanItem::Skip => {},
            ScanItem::Deliver(m) => {
                out.push(Ok(m));
                assert(results_view(out@) =~= results_view(before).push(Ok(m@)));
            },
            ScanItem::Corrupt(e) => {
                out.push(Err(e));
                assert(results_view(out@) =~= results_view(before).push(Err(e)));
            },
        }
        i = i + 1;
    }
    assert(es.take(i as int) =~= es);
    out
}

/// With an empty filter, a scan yields every metadata entry once, in the
/// engine's order: the record where it decodes, else an error.
pub proof fn lemma_empty_filter_lists_all(es: Seq<(Seq<u8>, Seq<u8>)>)
    ensures
        listing(seq![], seq![], es) == es.filter(|e: (Seq<u8>, Seq<u8>)| is_meta_key_spec(e.0)).map_values(
            |e: (Seq<u8>, Seq<u8>)|
                match decode_meta(e.1) {
                    Some(m) => Ok(m),
                    None => Err(DecodeError::Corrupt),
                },
        ),
    decreases es.len(),
{
    reveal(Seq::filter);
    if es.len() > 0 {
        lemma_empty_filter_lists_all(es.drop_last());
        let f = |e: (Seq<u8>, Seq<u8>)| is_meta_key_spec(e.0);
        let g = |e: (Seq<u8>, Seq<u8>)|
            match decode_meta(e.1) {
                Some(m) => Ok(m),
                None => Err(DecodeError::Corrupt),
            };
        let lhs = listing(seq![], seq![], es);
        let rhs = es.filter(f).map_values(g);
        assert(lhs =~= rhs);
    }
}

/// A tag filter decides alone: a record that carries none of its tags is left
/// out whatever its annotations.
pub proof fn lemma_tags_take_precedence(tags: Seq<Seq<char>>, keys: Seq<Seq<char>>, m: MetaView)
    requires
        tags.len() > 0,
    ensures
        selects(tags, keys, m) == shares_any(m.tags, tags),
        !shares_any(m.tags, tags) ==> !selects(tags, keys, m),
{
}

/// The next move of a scan task.
#[derive(Clone, Copy, Debug, PartialEq, Eq)]
pub enum ScanAction {
    /// Read and judge the entry at this position.
    Visit(usize),
    /// Stop and release the iterator.
    Stop,
}

/// Decides the next move of a scan at `position` of `total` entries. Once the
/// consumer is gone the scan stops, whatever is left.
pub fn next_scan_action(position: usize, total: usize, consumer_open: bool) -> (r: ScanAction)
    ensures
        r == (if !consumer_open || position >= total {
            ScanAction::Stop
        } else {
            ScanAction::Visit(position)
        }),
{
    if !consumer_open || position >= total {
        ScanAction::Stop
    } else {
        ScanAction::Visit(position)
    }
}

} // verus!
