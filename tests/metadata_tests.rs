use keyspace_stats::metadata::{get_metadata, get_total_keys, Metadata, MetadataError};

#[test]
fn get_total_keys_works() {
    let line = b"keys=10,expires=10,avg_ttl=998";
    let keys = get_total_keys(Some(&line[..]));
    assert!(keys.is_ok());
    assert!(keys.unwrap() >= 10);
}

#[test]
fn key_count_from_keyspace_line() {
    assert_eq!(get_total_keys(Some(&b"keys=321,expires=123,avg_ttl=456"[..])), Ok(321));
    assert_eq!(get_total_keys(Some(&b"expires=1,keys=7"[..])), Ok(7));
    assert_eq!(get_total_keys(Some(&b"subkeys=5,keys=8,expires=0"[..])), Ok(8));
    assert_eq!(get_total_keys(Some(&b"keys=0"[..])), Ok(0));
    assert_eq!(
        get_total_keys(Some(&b"keys=18446744073709551615"[..])),
        Ok(u64::MAX)
    );
}

#[test]
fn key_count_errors() {
    assert_eq!(get_total_keys(None), Err(MetadataError::MissingSection));
    assert_eq!(
        get_total_keys(Some(&b"expires=1,avg_ttl=0"[..])),
        Err(MetadataError::UnparsableKeyCount)
    );
    assert_eq!(get_total_keys(Some(&b"keys=,expires=1"[..])), Err(MetadataError::UnparsableKeyCount));
    assert_eq!(get_total_keys(Some(&b"keys=12a,expires=1"[..])), Err(MetadataError::UnparsableKeyCount));
    assert_eq!(
        get_total_keys(Some(&b"keys=18446744073709551616"[..])),
        Err(MetadataError::UnparsableKeyCount)
    );
    assert_eq!(get_total_keys(Some(&b""[..])), Err(MetadataError::UnparsableKeyCount));
}

#[test]
fn metadata_from_keyspace_line() {
    assert_eq!(
        get_metadata(3, Some(&b"keys=42,expires=0"[..])),
        Ok(Metadata { redis_db: 3, total_keys: 42 })
    );
    assert_eq!(get_metadata(0, None), Err(MetadataError::MissingSection));
}
