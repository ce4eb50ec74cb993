use protohack::prices::{Message, PriceDb};

#[test]
fn cast_reads_insert_frames() {
    let bytes: [u8; 9] = [73, 0, 0, 0, 5, 0, 0, 3, 232];
    assert_eq!(
        Message::cast(bytes),
        Message::Insert { timestamp: 5, price: 1000 }
    );
}

#[test]
fn cast_reads_query_frames() {
    let bytes: [u8; 9] = [81, 0, 0, 0, 1, 0, 0, 0, 100];
    assert_eq!(
        Message::cast(bytes),
        Message::Query { mintime: 1, maxtime: 100 }
    );
}

#[test]
fn cast_rejects_unknown_tags() {
    let bytes: [u8; 9] = [99, 0, 0, 0, 1, 0, 0, 0, 100];
    assert_eq!(Message::cast(bytes), Message::Invalid);
}

#[test]
fn parse_int_is_big_endian_twos_complement() {
    assert_eq!(Message::parse_int(&[0, 0, 0, 0]), 0);
    assert_eq!(Message::parse_int(&[0, 0, 3, 232]), 1000);
    assert_eq!(Message::parse_int(&[255, 255, 255, 255]), -1);
    assert_eq!(Message::parse_int(&[128, 0, 0, 0]), i32::MIN);
    assert_eq!(Message::parse_int(&[127, 255, 255, 255]), i32::MAX);
}

#[test]
fn query_means_the_prices_in_range() {
    let mut db = PriceDb::new();
    db.insert(1, 100);
    db.insert(2, 101);
    db.insert(3, 5000);
    // 100 and 101 lie in range; their mean truncates toward zero
    assert_eq!(db.query(1, 2), 100);
    assert_eq!(db.query(1, 3), 1733);
}

#[test]
fn query_of_empty_range_is_zero() {
    let mut db = PriceDb::new();
    db.insert(10, 42);
    assert_eq!(db.query(11, 20), 0);
    assert_eq!(db.query(20, 11), 0);
}

#[test]
fn negative_means_truncate_toward_zero() {
    let mut db = PriceDb::new();
    db.insert(1, -5);
    db.insert(2, -6);
    assert_eq!(db.query(1, 2), -5);
}

#[test]
fn insert_overwrites_a_timestamp() {
    let mut db = PriceDb::new();
    db.insert(1, 10);
    db.insert(1, 30);
    assert_eq!(db.query(1, 1), 30);
}
