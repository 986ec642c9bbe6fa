use blobstore::dispatch::{parse_path, Dispatcher, PostData, RoutingError, WRITER_COUNT};

#[test]
fn parse_path_accepts_the_plain_form() {
    assert_eq!(parse_path("/type_id/7/writer_id/2"), Some((7, 2)));
}

#[test]
fn parse_path_ignores_case_of_the_labels() {
    assert_eq!(parse_path("/TYPE_ID/7/WRITER_ID/2"), Some((7, 2)));
    assert_eq!(parse_path("/Type_Id/1/Writer_Id/0"), Some((1, 0)));
}

#[test]
fn parse_path_ignores_extra_segments() {
    assert_eq!(parse_path("/type_id/7/writer_id/2/extra/stuff"), Some((7, 2)));
    // The segment before the first slash is never inspected.
    assert_eq!(parse_path("x/type_id/1/writer_id/2"), Some((1, 2)));
}

#[test]
fn parse_path_rejects_malformed_paths() {
    assert_eq!(parse_path(""), None);
    assert_eq!(parse_path("/type_id/7"), None);
    assert_eq!(parse_path("/type_id/7/writer_id"), None);
    assert_eq!(parse_path("/wrong/7/writer_id/2"), None);
    assert_eq!(parse_path("/type_id/7/wrong/2"), None);
    assert_eq!(parse_path("/type_id/seven/writer_id/2"), None);
    assert_eq!(parse_path("/type_id/7/writer_id/-2"), None);
    assert_eq!(parse_path("/type_id//writer_id/2"), None);
}

#[test]
fn parse_path_bounds_the_numbers() {
    assert_eq!(parse_path("/type_id/4294967295/writer_id/0"), Some((4294967295, 0)));
    assert_eq!(parse_path("/type_id/4294967296/writer_id/0"), None);
    assert_eq!(parse_path("/type_id/+7/writer_id/+2"), Some((7, 2)));
    assert_eq!(parse_path("/type_id/+/writer_id/2"), None);
}

#[test]
fn route_returns_the_channel_of_the_type() {
    let d = Dispatcher::new(vec![2, 7, 9]);
    assert_eq!(d.route(2, 0), Ok(0));
    assert_eq!(d.route(7, 3), Ok(1));
    assert_eq!(d.route(9, WRITER_COUNT - 1), Ok(2));
}

#[test]
fn route_rejects_unknown_types() {
    let d = Dispatcher::new(vec![2, 7]);
    assert_eq!(d.route(5, 3), Err(RoutingError::UnknownType));
    let empty = Dispatcher::new(vec![]);
    assert_eq!(empty.route(2, 0), Err(RoutingError::UnknownType));
}

#[test]
fn route_checks_the_writer_before_the_type() {
    let d = Dispatcher::new(vec![2, 7]);
    assert_eq!(d.route(7, WRITER_COUNT), Err(RoutingError::WriterOutOfRange));
    // Even an unknown type reports the writer first.
    assert_eq!(d.route(5, WRITER_COUNT + 3), Err(RoutingError::WriterOutOfRange));
}

#[test]
fn post_data_keeps_its_fields() {
    let p = PostData::new(4, b"body".to_vec());
    assert_eq!(p.writer_id, 4);
    assert_eq!(p.data, b"body".to_vec());
}
