use protohack::kv::{handle_request, parse_request, query, KvStore, Request};

#[test]
fn parse_request_test() {
    let one = "version".as_bytes();
    let expected_one = Request::Version;
    assert_eq!(
        expected_one,
        parse_request(&String::from_utf8(one.to_vec()).unwrap()).unwrap()
    )
}

#[test]
fn first_equals_sign_splits_key_and_value() {
    assert_eq!(
        parse_request(&"foo=bar".to_string()).unwrap(),
        Request::Insert("foo".to_string(), "bar".to_string())
    );
    assert_eq!(
        parse_request(&"foo=bar=baz".to_string()).unwrap(),
        Request::Insert("foo".to_string(), "bar=baz".to_string())
    );
    assert_eq!(
        parse_request(&"foo=".to_string()).unwrap(),
        Request::Insert("foo".to_string(), "".to_string())
    );
}

#[test]
fn writing_the_version_key_is_ignored() {
    assert!(parse_request(&"version=2.0".to_string()).is_none());
}

#[test]
fn bare_words_are_queries_or_commands() {
    assert_eq!(
        parse_request(&" version \n".to_string()).unwrap(),
        Request::Version
    );
    assert_eq!(
        parse_request(&"***CLEAR***".to_string()).unwrap(),
        Request::Clear
    );
    assert_eq!(
        parse_request(&"somekey".to_string()).unwrap(),
        Request::Query("somekey".to_string())
    );
}

#[test]
fn query_formats_key_and_value() {
    let mut db = KvStore::new();
    db.insert("foo".to_string(), "bar".to_string());
    assert_eq!(query(&db, &"foo".to_string()), "foo=bar");
    assert_eq!(query(&db, &"baz".to_string()), "baz=");
}

#[test]
fn requests_drive_the_store() {
    let mut db = KvStore::new();
    assert_eq!(handle_request(&mut db, &"foo=bar".to_string()), None);
    assert_eq!(
        handle_request(&mut db, &"foo".to_string()),
        Some("foo=bar".to_string())
    );
    assert_eq!(handle_request(&mut db, &"foo=new".to_string()), None);
    assert_eq!(
        handle_request(&mut db, &"foo".to_string()),
        Some("foo=new".to_string())
    );
    assert_eq!(
        handle_request(&mut db, &"version".to_string()),
        Some("version=SneakoDB-1.0".to_string())
    );
    assert_eq!(handle_request(&mut db, &"version=hacked".to_string()), None);
    assert_eq!(
        handle_request(&mut db, &"version".to_string()),
        Some("version=SneakoDB-1.0".to_string())
    );
    assert_eq!(handle_request(&mut db, &"***CLEAR***".to_string()), None);
    assert_eq!(
        handle_request(&mut db, &"foo".to_string()),
        Some("foo=".to_string())
    );
}
