use podsync::download::{
    content_type_extension, range_header, staged_final_name, staging_name, Transfer,
};

#[test]
fn staging_name_carries_the_in_progress_marker() {
    assert_eq!(staging_name("ep-1"), "ep-1.partial");
}

#[test]
fn range_header_resumes_from_the_staged_length() {
    assert_eq!(range_header(0), None);
    assert_eq!(range_header(1234).as_deref(), Some("bytes=1234-"));
}

#[test]
fn resuming_a_partial_download_reaches_the_full_length() {
    let staged_len: u64 = 100;
    let remote_len: u64 = 250;
    assert_eq!(range_header(staged_len).as_deref(), Some("bytes=100-"));
    let mut t = Transfer::begin(staged_len, remote_len - staged_len);
    assert!(!t.is_complete());
    assert!(t.apply_chunk(70).is_ok());
    assert!(!t.is_complete());
    assert!(t.apply_chunk(80).is_ok());
    assert!(t.is_complete());
    assert_eq!(t.written, remote_len);
}

#[test]
fn a_chunk_past_the_declared_length_is_an_error() {
    let mut t = Transfer::begin(0, 10);
    assert!(t.apply_chunk(11).is_err());
    assert!(t.apply_chunk(10).is_ok());
    assert!(t.is_complete());
}

#[test]
fn extensions_follow_the_content_type() {
    assert_eq!(content_type_extension("audio/mpeg"), "mp3");
    assert_eq!(content_type_extension("audio/mpeg; charset=binary"), "mp3");
    assert_eq!(content_type_extension("audio/x-m4a"), "m4a");
    assert_eq!(content_type_extension("application/ogg"), "ogg");
    assert_eq!(content_type_extension("audio/flac"), "flac");
    assert_eq!(content_type_extension("application/octet-stream"), "mp3");
}

#[test]
fn the_staged_file_takes_the_inferred_extension() {
    assert_eq!(staged_final_name("ep-1", "mp3"), "ep-1.mp3");
}
