use testdata_gen::json::serialize_record;
use testdata_gen::parse::parse_record;
use testdata_gen::record::RandomTestData;

#[test]
fn record_fields_in_range() {
    for _ in 0..50 {
        let r = RandomTestData::new();
        assert!(15000000000 <= r.ts && r.ts < 19000000000);
        let id: u64 = r.user_id.parse().unwrap();
        assert!(id < 100000000);
        assert_eq!(r.user_id, id.to_string());
        assert_eq!(r.data, "testdata");
    }
}

#[test]
fn from_values_accepts_the_generated_ranges() {
    let r = RandomTestData::from_values(15000000000, 42).unwrap();
    assert_eq!(r.ts, 15000000000);
    assert_eq!(r.user_id, "42");
    assert_eq!(r.data, "testdata");
    let top = RandomTestData::from_values(18999999999, 99999999).unwrap();
    assert_eq!(top.user_id, "99999999");
}

#[test]
fn from_values_rejects_out_of_range_fields() {
    assert!(RandomTestData::from_values(14999999999, 0).is_none());
    assert!(RandomTestData::from_values(19000000000, 0).is_none());
    assert!(RandomTestData::from_values(15000000000, 100000000).is_none());
}

#[test]
fn entry_name_format() {
    let r = RandomTestData::from_values(15000000000, 42).unwrap();
    assert_eq!(r.get_string_uid(), "42_15000000000.json");
    let z = RandomTestData::from_values(18999999999, 0).unwrap();
    assert_eq!(z.get_string_uid(), "0_18999999999.json");
}

#[test]
fn serialize_exact_form() {
    let r = RandomTestData::from_values(15000000000, 42).unwrap();
    assert_eq!(
        serialize_record(&r),
        "{\"ts\":15000000000,\"user_id\":\"42\",\"data\":\"testdata\"}"
    );
}

#[test]
fn serialized_record_is_real_json() {
    let r = RandomTestData::new();
    let s = serialize_record(&r);
    let v: serde_json::Value = serde_json::from_str(&s).unwrap();
    assert_eq!(v["ts"].as_u64().unwrap(), r.ts);
    assert_eq!(v["user_id"].as_str().unwrap(), r.user_id);
    assert_eq!(v["data"].as_str().unwrap(), "testdata");
}

#[test]
fn round_trip_random_record() {
    for _ in 0..50 {
        let r = RandomTestData::new();
        let s = serialize_record(&r);
        let p = parse_record(&s).unwrap();
        assert_eq!(p.ts, r.ts);
        assert_eq!(p.user_id, r.user_id);
        assert_eq!(p.data, r.data);
    }
}

#[test]
fn parse_exact_input() {
    let p = parse_record("{\"ts\":15000000001,\"user_id\":\"7\",\"data\":\"testdata\"}").unwrap();
    assert_eq!(p.ts, 15000000001);
    assert_eq!(p.user_id, "7");
    assert_eq!(p.data, "testdata");
}

#[test]
fn parse_rejects_malformed_input() {
    assert!(parse_record("").is_none());
    assert!(parse_record("{}").is_none());
    // timestamp below the generated range
    assert!(parse_record("{\"ts\":1,\"user_id\":\"42\",\"data\":\"testdata\"}").is_none());
    // timestamp at the exclusive upper bound
    assert!(
        parse_record("{\"ts\":19000000000,\"user_id\":\"42\",\"data\":\"testdata\"}").is_none()
    );
    // leading zero in the timestamp
    assert!(
        parse_record("{\"ts\":015000000000,\"user_id\":\"42\",\"data\":\"testdata\"}").is_none()
    );
    // leading zero in the identifier
    assert!(
        parse_record("{\"ts\":15000000000,\"user_id\":\"042\",\"data\":\"testdata\"}").is_none()
    );
    // identifier too wide for the generated range
    assert!(
        parse_record("{\"ts\":15000000000,\"user_id\":\"123456789\",\"data\":\"testdata\"}")
            .is_none()
    );
    // wrong payload
    assert!(parse_record("{\"ts\":15000000000,\"user_id\":\"42\",\"data\":\"other\"}").is_none());
    // trailing garbage
    assert!(
        parse_record("{\"ts\":15000000000,\"user_id\":\"42\",\"data\":\"testdata\"} ").is_none()
    );
}
