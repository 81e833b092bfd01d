use docstord::codec::{decode, encode, DecodeError};
use docstord::hash::{compute_hash, to_hex};
use docstord::ingest::{prepare_upload, UploadError};
use docstord::listing::{list_entries, matches_filter, next_scan_action, scan_entry, ListFilter, ScanAction, ScanItem};
use docstord::metadata::DocumentMetadata;
use docstord::store::{data_key, is_meta_key, meta_key, Batch};

fn meta(path: &str, tags: &[&str], user_data: &[(&str, &str)]) -> DocumentMetadata {
    DocumentMetadata {
        path: path.to_string(),
        hash: String::new(),
        creation_date: 0,
        tags: tags.iter().map(|t| t.to_string()).collect(),
        user_data: user_data.iter().map(|(k, v)| (k.to_string(), v.to_string())).collect(),
    }
}

fn same(a: &DocumentMetadata, b: &DocumentMetadata) -> bool {
    a.path == b.path
        && a.hash == b.hash
        && a.creation_date == b.creation_date
        && a.tags == b.tags
        && a.user_data == b.user_data
}

fn stored(m: &DocumentMetadata, blob: &[u8]) -> (Vec<u8>, Vec<u8>) {
    let h = compute_hash(blob);
    let mut r = m.clone();
    r.hash = h.clone();
    (meta_key(&h), encode(&r))
}

#[test]
fn hash_of_empty_blob() {
    assert_eq!(
        compute_hash(b""),
        "a69f73cca23a9ac5c8b567dc185a756e97c982164fe25859e0d1dcc1475c80a615b2123af1f5f94c11e3e9402c3ac558f500199d95b6d3e301758586281dcd26"
    );
}

#[test]
fn hash_of_abc() {
    assert_eq!(
        compute_hash(b"abc"),
        "b751850b1a57168a5693cd924b6b096e08f621827444f70d884f5d0240d2712e10e116e9192af3c91a7ec57647e3934057340b4cf408d5a56592f8274eec53f0"
    );
}

#[test]
fn hash_is_stable_and_distinguishes() {
    let a = compute_hash(b"hello");
    assert_eq!(a, compute_hash(b"hello"));
    assert_ne!(a, compute_hash(b"hellp"));
    assert_eq!(a.len(), 128);
}

#[test]
fn hex_is_lower_case_high_nibble_first() {
    assert_eq!(to_hex(&[0x00, 0xff, 0x1a, 0xb0]), "00ff1ab0");
    assert_eq!(to_hex(&[]), "");
}

#[test]
fn codec_round_trip() {
    let mut m = meta("docs/a.pdf", &["work", "INBOX"], &[("lang", "de"), ("pages", "3")]);
    m.hash = "abc".to_string();
    m.creation_date = 1_700_000_000;
    let back = decode(&encode(&m)).unwrap();
    assert!(same(&m, &back));
}

#[test]
fn codec_round_trip_empty_lists() {
    let m = meta("", &[], &[]);
    let back = decode(&encode(&m)).unwrap();
    assert!(same(&m, &back));
}

#[test]
fn codec_round_trip_negative_date_and_unicode() {
    let mut m = meta("Bücher/ß.txt", &["ünï"], &[("ключ", "значение")]);
    m.creation_date = -42;
    let back = decode(&encode(&m)).unwrap();
    assert!(same(&m, &back));
    let mut n = meta("x", &[], &[]);
    n.creation_date = i64::MIN;
    assert!(same(&n, &decode(&encode(&n)).unwrap()));
}

#[test]
fn codec_exact_bytes() {
    let mut m = meta("p", &["t"], &[("k", "v")]);
    m.hash = "h".to_string();
    m.creation_date = 258;
    let expected: Vec<u8> = vec![
        1, b'p', 0xff, b'h', 0xff, 0, 0, 0, 0, 0, 0, 1, 2, 1, b't', 0xff, 0, 1, b'k', 0xff, b'v',
        0xff, 0,
    ];
    assert_eq!(encode(&m), expected);
}

#[test]
fn decode_rejects_corrupt_bytes() {
    assert!(matches!(decode(&[]), Err(DecodeError::Corrupt)));
    assert!(matches!(decode(&[2, 0xff]), Err(DecodeError::Corrupt)));
    let good = encode(&meta("p", &["t"], &[]));
    assert!(matches!(decode(&good[..good.len() - 1]), Err(DecodeError::Corrupt)));
    let mut longer = good.clone();
    longer.push(0);
    assert!(matches!(decode(&longer), Err(DecodeError::Corrupt)));
    assert!(matches!(decode(&[1, 0xc3, 0xff]), Err(DecodeError::Corrupt)));
}

#[test]
fn upload_without_metadata_is_invalid_argument() {
    assert!(matches!(prepare_upload(None, b"blob", Some(10)), Err(UploadError::InvalidArgument)));
}

#[test]
fn upload_without_clock_is_internal() {
    let r = prepare_upload(Some(meta("a", &[], &[])), b"blob", None);
    assert!(matches!(r, Err(UploadError::Internal)));
    let r = prepare_upload(Some(meta("a", &[], &[])), b"blob", Some(u64::MAX));
    assert!(matches!(r, Err(UploadError::Internal)));
}

#[test]
fn upload_builds_record_and_blob_puts() {
    let mut m = meta("a.txt", &["x"], &[("k", "v")]);
    m.hash = "caller supplied".to_string();
    m.creation_date = 5;
    let batch: Batch = prepare_upload(Some(m), b"content", Some(1234)).unwrap();
    assert_eq!(batch.len(), 2);
    let h = compute_hash(b"content");
    let mut hk = h.clone().into_bytes();
    hk.extend_from_slice(b"_meta");
    assert_eq!(batch.puts[0].0, hk);
    let mut dk = h.clone().into_bytes();
    dk.extend_from_slice(b"_data");
    assert_eq!(batch.puts[1].0, dk);
    assert_eq!(batch.puts[1].1, b"content".to_vec());
    let rec = decode(&batch.puts[0].1).unwrap();
    assert_eq!(rec.hash, h);
    assert_eq!(rec.creation_date, 1234);
    assert_eq!(rec.path, "a.txt");
    assert_eq!(rec.tags, vec!["x".to_string(), "INBOX".to_string()]);
    assert_eq!(rec.user_data, vec![("k".to_string(), "v".to_string())]);
}

#[test]
fn same_blob_twice_targets_same_keys_last_wins() {
    let b1 = prepare_upload(Some(meta("first", &["a"], &[])), b"same", Some(1)).unwrap();
    let b2 = prepare_upload(Some(meta("second", &["b"], &[])), b"same", Some(2)).unwrap();
    let mut store: std::collections::BTreeMap<Vec<u8>, Vec<u8>> = Default::default();
    for (k, v) in b1.puts.iter().chain(b2.puts.iter()) {
        store.insert(k.clone(), v.clone());
    }
    assert_eq!(store.len(), 2);
    let rec = decode(&store[&b2.puts[0].0]).unwrap();
    assert_eq!(rec.path, "second");
    assert_eq!(rec.creation_date, 2);
    assert_eq!(rec.tags, vec!["b".to_string(), "INBOX".to_string()]);
}

#[test]
fn failed_upload_stores_no_keys() {
    let mut store: std::collections::BTreeMap<Vec<u8>, Vec<u8>> = Default::default();
    if let Ok(b) = prepare_upload(None, b"x", Some(1)) {
        for (k, v) in b.puts {
            store.insert(k, v);
        }
    }
    assert!(store.is_empty());
}

#[test]
fn key_layout() {
    let h = "ab".to_string();
    assert_eq!(meta_key(&h), b"ab_meta".to_vec());
    assert_eq!(data_key(&h), b"ab_data".to_vec());
    assert!(is_meta_key(b"ab_meta"));
    assert!(!is_meta_key(b"ab_data"));
    assert!(!is_meta_key(b"meta"));
    assert!(is_meta_key(b"_meta"));
}

fn filter(tags: &[&str], keys: &[&str]) -> ListFilter {
    ListFilter {
        tags: tags.iter().map(|t| t.to_string()).collect(),
        annotation_keys: keys.iter().map(|t| t.to_string()).collect(),
    }
}

#[test]
fn tag_filter_is_any_match() {
    let docs = [meta("1", &["a"], &[]), meta("2", &["b"], &[]), meta("3", &["a", "b"], &[])];
    let entries: Vec<(Vec<u8>, Vec<u8>)> =
        docs.iter().enumerate().map(|(i, d)| stored(d, &[i as u8])).collect();
    let out = list_entries(&filter(&["a"], &[]), &entries);
    let paths: Vec<String> = out.into_iter().map(|r| r.unwrap().path).collect();
    assert_eq!(paths, vec!["1".to_string(), "3".to_string()]);
}

#[test]
fn tag_filter_shadows_annotation_filter() {
    let d = meta("1", &["z"], &[("x", "1")]);
    assert!(!matches_filter(&filter(&["a"], &["x"]), &d));
    assert!(matches_filter(&filter(&[], &["x"]), &d));
    assert!(!matches_filter(&filter(&[], &["y"]), &d));
}

#[test]
fn empty_filter_lists_every_record_once() {
    let docs = [meta("1", &["a"], &[]), meta("2", &[], &[("k", "v")]), meta("3", &[], &[])];
    let mut entries: Vec<(Vec<u8>, Vec<u8>)> = Vec::new();
    for (i, d) in docs.iter().enumerate() {
        let blob = vec![i as u8; 3];
        entries.push(stored(d, &blob));
        entries.push((data_key(&compute_hash(&blob)), blob));
    }
    let out = list_entries(&filter(&[], &[]), &entries);
    let paths: Vec<String> = out.into_iter().map(|r| r.unwrap().path).collect();
    assert_eq!(paths, vec!["1".to_string(), "2".to_string(), "3".to_string()]);
}

#[test]
fn corrupt_record_is_reported_and_scan_goes_on() {
    let entries = vec![
        (b"aa_meta".to_vec(), vec![9, 9]),
        stored(&meta("ok", &[], &[]), b"b"),
        (b"zz_data".to_vec(), vec![9, 9]),
    ];
    let out = list_entries(&filter(&[], &[]), &entries);
    assert_eq!(out.len(), 2);
    assert!(matches!(out[0], Err(DecodeError::Corrupt)));
    assert_eq!(out[1].as_ref().unwrap().path, "ok");
    assert!(matches!(scan_entry(&filter(&[], &[]), b"k_data", &[9]), ScanItem::Skip));
}

#[test]
fn scan_stops_when_consumer_is_gone() {
    assert_eq!(next_scan_action(1, 10, false), ScanAction::Stop);
    assert_eq!(next_scan_action(1, 10, true), ScanAction::Visit(1));
    assert_eq!(next_scan_action(10, 10, true), ScanAction::Stop);
}
