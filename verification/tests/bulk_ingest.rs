use vardadb::bulk_ingest::{
    database_for_unnamed_stream, database_from_text, first_frame, frame_length, frame_too_large, FirstFrame,
    MAX_FRAME_BYTES,
};

#[test]
fn length_prefix_is_little_endian() {
    assert_eq!(frame_length([16, 0, 0, 0]), 16);
    assert_eq!(frame_length([1, 2, 3, 4]), 0x0403_0201);
    assert_eq!(frame_length([255, 255, 255, 255]), u32::MAX);
}

#[test]
fn frames_over_fifty_megabytes_are_refused() {
    assert_eq!(MAX_FRAME_BYTES, 50 * 1024 * 1024);
    assert!(!frame_too_large(52_428_800));
    assert!(frame_too_large(52_428_801));
    assert!(!frame_too_large(0));
}

#[test]
fn first_frame_is_data_or_a_database_name() {
    assert_eq!(first_frame(b"[{\"type_name\":\"User\"}]"), FirstFrame::Data);
    assert_eq!(first_frame(b"{"), FirstFrame::Data);
    assert_eq!(first_frame(b"  shop \n"), FirstFrame::Database("shop".to_string()));
    assert_eq!(first_frame(b"   "), FirstFrame::Database("default".to_string()));
    assert_eq!(first_frame(b""), FirstFrame::Database("default".to_string()));
    assert_eq!(first_frame(b" [x"), FirstFrame::Database("[x".to_string()));
    assert_eq!(first_frame(b"\xffdb"), FirstFrame::Database("\u{FFFD}db".to_string()));
}

#[test]
fn empty_names_select_the_default_database() {
    assert_eq!(database_from_text(" sales "), "sales");
    assert_eq!(database_from_text("\t"), "default");
}

#[test]
fn unnamed_streams_take_the_first_other_database() {
    let names = vec!["default".to_string(), "shop".to_string(), "crm".to_string()];
    assert_eq!(database_for_unnamed_stream(&names), "shop");
    assert_eq!(database_for_unnamed_stream(&vec!["default".to_string()]), "default");
    assert_eq!(database_for_unnamed_stream(&Vec::new()), "default");
}
