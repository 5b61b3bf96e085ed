use hasher::codec::{encode_hash_results, hash_results_from_string, self_checksum, sort_hash_results, DecodeError};
use hasher::enums::UserAction;
use hasher::hash::{size, xxh3, xxh3_bytes, HashResult};
use hasher::helper::{get_all_local_files, get_hasher_file, ToStringNormalised};
use hasher::text::to_hex;
use hasher::user_action::{get_hash_results, FileData, FileEntry};
use hasher::verify::verify_records;

fn entry(path: &str, data: FileData) -> FileEntry {
    FileEntry { path: path.to_string(), data }
}

#[test]
fn concrete_scenario_size_manifest() {
    // Two files under the root: a.txt holding four bytes, sub/b.txt empty.
    let files = vec![
        entry("root/a.txt", FileData::Length(4)),
        entry("root/sub/b.txt", FileData::Length(0)),
    ];
    let mut records = get_hash_results(&UserAction::Size, "root", &files).unwrap();
    assert_eq!(records.len(), 2);
    assert_eq!(records[0].relative_path, "a.txt");
    assert_eq!(records[0].value, 4);
    assert!(records[0].action == UserAction::Size);
    assert_eq!(records[1].relative_path, "sub/b.txt");
    assert_eq!(records[1].value, 0);

    sort_hash_results(&mut records);
    let (file_name, content) = encode_hash_results(&UserAction::Size, &records);
    assert_eq!(file_name, "size.hasher");
    assert_eq!(content, "size:4,a.txt\nsize:0,sub/b.txt");

    // Verifying against an unmodified tree: no invalid files.
    let live = vec![Some(4), Some(0)];
    let (count, findings) = verify_records(&records, &live).unwrap();
    assert_eq!(count, 0);
    assert_eq!(findings.len(), 0);

    // Truncating a.txt to empty: exactly one mismatch, expected 4, found 0.
    let live = vec![Some(0), Some(0)];
    let (count, findings) = verify_records(&records, &live).unwrap();
    assert_eq!(count, 1);
    assert_eq!(findings.len(), 1);
    assert_eq!(findings[0].path, "a.txt");
    assert_eq!(findings[0].expected, 4);
    assert_eq!(findings[0].found, Some(0));
}

#[test]
fn round_trip_keeps_records() {
    let records = vec![
        HashResult { action: UserAction::XXH3, relative_path: "a.txt".to_string(), value: 0xDEADBEEF },
        HashResult { action: UserAction::XXH3, relative_path: "sub/b, c:colon".to_string(), value: u64::MAX },
        HashResult { action: UserAction::Size, relative_path: "c".to_string(), value: 0 },
    ];
    let (_, content) = encode_hash_results(&UserAction::XXH3, &records);
    let (decoded, warnings) = hash_results_from_string(&content).unwrap();
    assert_eq!(warnings.len(), 0);
    assert_eq!(decoded.len(), records.len());
    for (d, r) in decoded.iter().zip(records.iter()) {
        assert!(d.action == r.action);
        assert_eq!(d.relative_path, r.relative_path);
        assert_eq!(d.value, r.value);
    }
}

#[test]
fn fingerprint_is_deterministic_and_content_sensitive() {
    let a = xxh3_bytes(b"abcd");
    let b = xxh3_bytes(b"abcd");
    assert_eq!(a, b);
    // The wrapper computes the same value as the hash it relies on.
    assert_eq!(a, xxhash_rust::xxh3::xxh3_64(b"abcd"));
    assert_ne!(xxh3_bytes(b"abcd"), xxh3_bytes(b"abce"));
    assert_eq!(xxh3_bytes(b""), xxhash_rust::xxh3::xxh3_64(b""));
}

#[test]
fn size_returns_exact_length() {
    let r = size("root/a.txt", "root", 4);
    assert!(r.action == UserAction::Size);
    assert_eq!(r.relative_path, "a.txt");
    assert_eq!(r.value, 4);
}

#[test]
fn xxh3_record_fingerprints_content() {
    let r = xxh3("root/a.txt", "root", b"abcd");
    assert!(r.action == UserAction::XXH3);
    assert_eq!(r.relative_path, "a.txt");
    assert_eq!(r.value, xxhash_rust::xxh3::xxh3_64(b"abcd"));
}

#[test]
fn batch_is_complete_or_nothing() {
    let files = vec![
        entry("r/x", FileData::Length(1)),
        entry("r/y", FileData::Length(2)),
        entry("r/z", FileData::Length(3)),
    ];
    let records = get_hash_results(&UserAction::Size, "r", &files).unwrap();
    assert_eq!(records.len(), files.len());

    // Data of the wrong kind fails the whole batch.
    let files = vec![
        entry("r/x", FileData::Length(1)),
        entry("r/y", FileData::Content(vec![1, 2, 3])),
    ];
    assert!(get_hash_results(&UserAction::Size, "r", &files).is_err());

    // The check action computes no stored metric.
    let files = vec![entry("r/x", FileData::Length(1))];
    assert!(get_hash_results(&UserAction::Check, "r", &files).is_err());
}

#[test]
fn manifest_discovery_needs_exactly_one() {
    let none: Vec<String> = vec![];
    assert!(get_hasher_file(&none).is_err());
    let one = vec!["size.hasher".to_string()];
    assert_eq!(get_hasher_file(&one).unwrap(), "size.hasher");
    let two = vec!["size.hasher".to_string(), "xxh3.hasher".to_string()];
    assert!(get_hasher_file(&two).is_err());
}

#[test]
fn self_checksum_is_stable_and_content_sensitive() {
    let records = vec![
        HashResult { action: UserAction::Size, relative_path: "a.txt".to_string(), value: 4 },
    ];
    let (_, c1) = encode_hash_results(&UserAction::Size, &records);
    let (_, c2) = encode_hash_results(&UserAction::Size, &records);
    assert_eq!(self_checksum(&c1), self_checksum(&c2));
    assert_ne!(self_checksum("size:4,a.txt"), self_checksum("size:5,a.txt"));
}

#[test]
fn decode_skips_malformed_lines() {
    let text = "size:4,a.txt\ngarbage\n\nsize:no-hex,b\nsize:0,b.txt";
    let (records, warnings) = hash_results_from_string(text).unwrap();
    assert_eq!(records.len(), 2);
    assert_eq!(records[0].relative_path, "a.txt");
    assert_eq!(records[1].relative_path, "b.txt");
    assert_eq!(warnings.len(), 3);
    assert_eq!(warnings[0], "garbage");
    assert_eq!(warnings[1], "");
    assert_eq!(warnings[2], "size:no-hex,b");
}

#[test]
fn decode_rejects_unknown_action() {
    let r = hash_results_from_string("md5:FF,a.txt");
    assert_eq!(r.unwrap_err(), DecodeError::UnknownAction);
    // A tag of word characters beyond ASCII still matches the line shape,
    // so the unknown tag stays a fatal error rather than a skipped line.
    let r = hash_results_from_string("s\u{00EF}ze:FF,a.txt");
    assert_eq!(r.unwrap_err(), DecodeError::UnknownAction);
}

#[test]
fn decode_rejects_value_overflow() {
    // Seventeen significant hexadecimal digits never fit in 64 bits.
    let r = hash_results_from_string("size:11112222333344445,a.txt");
    assert!(hash_results_from_string("size:FFFFFFFFFFFFFFFF,a.txt").is_ok());
    assert_eq!(r.unwrap_err(), DecodeError::ValueOverflow);
}

#[test]
fn decode_accepts_lowercase_hex_and_mixed_case_tags() {
    let (records, warnings) = hash_results_from_string("SIZE:ff,a.txt\nXxh3:0,b").unwrap();
    assert_eq!(warnings.len(), 0);
    assert_eq!(records.len(), 2);
    assert!(records[0].action == UserAction::Size);
    assert_eq!(records[0].value, 255);
    assert!(records[1].action == UserAction::XXH3);
}

#[test]
fn action_names_and_parsing() {
    assert_eq!(UserAction::Size.name(), "size");
    assert_eq!(UserAction::Check.name(), "check");
    assert_eq!(UserAction::XXH3.name(), "xxh3");
    assert!(UserAction::from_str("SIZE").unwrap() == UserAction::Size);
    assert!(UserAction::from_str("check").unwrap() == UserAction::Check);
    assert!(UserAction::from_str("xXh3").unwrap() == UserAction::XXH3);
    // The Kelvin sign is the one non-ASCII character whose Unicode
    // lowercase form is a letter of a canonical name.
    assert!(UserAction::from_str("CHEC\u{212A}").unwrap() == UserAction::Check);
    assert_eq!(
        UserAction::from_str("sha256").unwrap_err(),
        "Unsupported action: sha256"
    );
    assert!(UserAction::from_str("").is_err());
}

#[test]
fn separators_are_normalised() {
    assert_eq!("a\\b\\c".to_string().to_string_normalised(), "a/b/c");
    assert_eq!("already/fine".to_string().to_string_normalised(), "already/fine");
    let r = size("root\\sub\\f.txt", "root", 1);
    assert_eq!(r.relative_path, "sub/f.txt");
}

#[test]
fn repeated_separators_leave_no_leading_slash() {
    // A doubled separator after the root is stripped entirely: the stored
    // relative path never begins with a separator.
    let r = size("root//a.txt", "root", 4);
    assert_eq!(r.relative_path, "a.txt");
    let r = size("root///sub/b", "root", 0);
    assert_eq!(r.relative_path, "sub/b");
    // A root written with a trailing separator strips the same way.
    let r = size("root//a.txt", "root/", 4);
    assert_eq!(r.relative_path, "a.txt");
    // A path that does not extend the root is stored whole.
    let r = size("elsewhere/a.txt", "root", 4);
    assert_eq!(r.relative_path, "elsewhere/a.txt");
}

#[test]
fn enumeration_excludes_manifest_files() {
    let names = vec![
        "a.txt".to_string(),
        "size.hasher".to_string(),
        "b/xxh3.hasher".to_string(),
        "c".to_string(),
    ];
    let kept = get_all_local_files(names);
    assert_eq!(kept, vec!["a.txt".to_string(), "c".to_string()]);
}

#[test]
fn sorting_orders_by_relative_path() {
    let mut records = vec![
        HashResult { action: UserAction::Size, relative_path: "b".to_string(), value: 2 },
        HashResult { action: UserAction::Size, relative_path: "a/z".to_string(), value: 3 },
        HashResult { action: UserAction::Size, relative_path: "a".to_string(), value: 1 },
        HashResult { action: UserAction::Size, relative_path: "a".to_string(), value: 1 },
    ];
    sort_hash_results(&mut records);
    assert_eq!(records.len(), 4);
    assert_eq!(records[0].relative_path, "a");
    assert_eq!(records[1].relative_path, "a");
    assert_eq!(records[2].relative_path, "a/z");
    assert_eq!(records[3].relative_path, "b");
}

#[test]
fn missing_file_warns_but_does_not_count() {
    let records = vec![
        HashResult { action: UserAction::Size, relative_path: "a".to_string(), value: 1 },
        HashResult { action: UserAction::Size, relative_path: "b".to_string(), value: 2 },
    ];
    let live = vec![None, Some(2)];
    let (count, findings) = verify_records(&records, &live).unwrap();
    assert_eq!(count, 0);
    assert_eq!(findings.len(), 1);
    assert_eq!(findings[0].path, "a");
    assert_eq!(findings[0].found, None);
}

#[test]
fn verify_rejects_meta_action_records() {
    let records = vec![
        HashResult { action: UserAction::Check, relative_path: "a".to_string(), value: 1 },
    ];
    assert!(verify_records(&records, &vec![Some(1)]).is_err());
    // With the file missing the record is skipped before the action is read.
    let (count, findings) = verify_records(&records, &vec![None]).unwrap();
    assert_eq!(count, 0);
    assert_eq!(findings.len(), 1);
}

#[test]
fn hexadecimal_is_uppercase_without_leading_zeros() {
    assert_eq!(to_hex(0), "0");
    assert_eq!(to_hex(4), "4");
    assert_eq!(to_hex(255), "FF");
    assert_eq!(to_hex(0xDEADBEEF), "DEADBEEF");
    assert_eq!(to_hex(u64::MAX), "FFFFFFFFFFFFFFFF");
}
