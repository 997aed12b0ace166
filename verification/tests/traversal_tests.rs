use provenance_notes::command::ExecOutcome;
use provenance_notes::extract::{
    extract_file_paths_from_note, note_schema_document, SchemaParseOutcome,
};
use provenance_notes::traversal::{
    batch_read_blobs, batch_request_input, get_note_blob_shas, load_all_ai_touched_files_sync,
    parse_cat_file_batch_output, TraversalError,
};

fn output(bytes: &[u8]) -> ExecOutcome {
    ExecOutcome::Output { stdout: bytes.to_vec() }
}

fn parsed(paths: &[&str]) -> SchemaParseOutcome {
    SchemaParseOutcome::Parsed { file_paths: paths.iter().map(|p| p.to_string()).collect() }
}

const TRAILER: &str =
    "\n---\n{\"schema_version\":\"authorship/3.0.0\",\"base_commit_sha\":\"\",\"prompts\":{}}";

#[test]
fn batch_single_record() {
    let data = b"abc123 blob 5\nhello\n";
    let r = parse_cat_file_batch_output(data).unwrap();
    assert_eq!(r, vec!["hello".to_string()]);
}

#[test]
fn batch_empty_input() {
    let r = parse_cat_file_batch_output(b"").unwrap();
    assert!(r.is_empty());
}

#[test]
fn batch_missing_object_skipped() {
    // A "missing" object produces no entry and does not affect parsing of
    // subsequent records.
    let data = b"aaa blob 3\none\nbbb missing\nccc blob 3\ntwo\n";
    let r = parse_cat_file_batch_output(data).unwrap();
    assert_eq!(r, vec!["one".to_string(), "two".to_string()]);
}

#[test]
fn batch_truncated_trailing_record() {
    // Truncation signals end-of-stream, not corruption of prior records.
    let data = b"aaa blob 3\none\nbbb blob 100\nshort";
    let r = parse_cat_file_batch_output(data).unwrap();
    assert_eq!(r, vec!["one".to_string()]);
}

#[test]
fn batch_header_without_newline_ends_stream() {
    let data = b"aaa blob 3\none\nbbb blob";
    let r = parse_cat_file_batch_output(data).unwrap();
    assert_eq!(r, vec!["one".to_string()]);
}

#[test]
fn batch_non_utf8_content_skips_record_only() {
    let mut data: Vec<u8> = Vec::new();
    data.extend_from_slice(b"aaa blob 2\n");
    data.extend_from_slice(&[0xff, 0xfe]);
    data.extend_from_slice(b"\nbbb blob 4\ngood\n");
    let r = parse_cat_file_batch_output(&data).unwrap();
    assert_eq!(r, vec!["good".to_string()]);
}

#[test]
fn batch_invalid_size_is_error() {
    let data = b"aaa blob notanumber\nxxx\n";
    assert_eq!(parse_cat_file_batch_output(data), Err(TraversalError::InvalidSize));
}

#[test]
fn batch_non_utf8_header_is_error() {
    let data = [0xffu8, 0xfe, 0x20, 0x62, 0x0a];
    assert_eq!(parse_cat_file_batch_output(&data), Err(TraversalError::InvalidUtf8));
}

#[test]
fn batch_short_header_line_skipped() {
    let data = b"onlyone\naaa blob 2\nok\n";
    let r = parse_cat_file_batch_output(data).unwrap();
    assert_eq!(r, vec!["ok".to_string()]);
}

#[test]
fn batch_content_with_multibyte_utf8() {
    // "héllo" is six bytes.
    let data = "aaa blob 6\nh\u{e9}llo\n".as_bytes();
    let r = parse_cat_file_batch_output(data).unwrap();
    assert_eq!(r, vec!["h\u{e9}llo".to_string()]);
}

#[test]
fn batch_size_with_plus_sign_parses() {
    // usize parsing accepts a leading plus.
    let data = b"aaa blob +5\nhello\n";
    let r = parse_cat_file_batch_output(data).unwrap();
    assert_eq!(r, vec!["hello".to_string()]);
}

#[test]
fn batch_size_overflow_is_error() {
    let data = b"aaa blob 99999999999999999999999999\nx\n";
    assert_eq!(parse_cat_file_batch_output(data), Err(TraversalError::InvalidSize));
}

#[test]
fn shas_tolerate_crlf_line_endings() {
    let listing = b"100644 blob abc123\tp\r\n100644 blob def456\tq\r\n";
    let r = get_note_blob_shas(&output(listing)).unwrap();
    assert_eq!(r, vec!["abc123".to_string(), "def456".to_string()]);
}

#[test]
fn shas_empty_listing_yields_empty_index() {
    let parses: Vec<SchemaParseOutcome> = Vec::new();
    let r = load_all_ai_touched_files_sync(
        &output(b""),
        &ExecOutcome::Failure { code: None },
        &parses,
    )
    .unwrap();
    assert!(r.is_empty());
}

#[test]
fn shas_absent_namespace_is_empty_not_error() {
    // The specific "not found" exit code means no notes yet.
    let r = get_note_blob_shas(&ExecOutcome::Failure { code: Some(128) }).unwrap();
    assert!(r.is_empty());
}

#[test]
fn shas_other_failures_propagate() {
    assert_eq!(
        get_note_blob_shas(&ExecOutcome::Failure { code: Some(1) }),
        Err(TraversalError::CommandFailed { code: Some(1) })
    );
    assert_eq!(
        get_note_blob_shas(&ExecOutcome::Failure { code: None }),
        Err(TraversalError::CommandFailed { code: None })
    );
}

#[test]
fn shas_parses_third_field() {
    let listing = b"100644 blob abc123\tpath/one\n100644 blob def456\tpath/two\n";
    let r = get_note_blob_shas(&output(listing)).unwrap();
    assert_eq!(r, vec!["abc123".to_string(), "def456".to_string()]);
}

#[test]
fn shas_short_lines_ignored() {
    let listing = b"\n100644 blob\njunk\n100644 blob abc123\tp\n";
    let r = get_note_blob_shas(&output(listing)).unwrap();
    assert_eq!(r, vec!["abc123".to_string()]);
}

#[test]
fn batch_request_input_one_sha_per_line() {
    let shas = vec!["aaa".to_string(), "bbb".to_string()];
    assert_eq!(batch_request_input(&shas), "aaa\nbbb\n");
}

#[test]
fn batch_read_blobs_empty_input_short_circuits() {
    // No identifiers: an empty result whatever the outcome argument holds,
    // because no round trip is made.
    let shas: Vec<String> = Vec::new();
    let r = batch_read_blobs(&shas, &ExecOutcome::Failure { code: Some(1) }).unwrap();
    assert!(r.is_empty());
}

#[test]
fn batch_read_blobs_failure_propagates() {
    let shas = vec!["aaa".to_string()];
    assert_eq!(
        batch_read_blobs(&shas, &ExecOutcome::Failure { code: None }),
        Err(TraversalError::CommandFailed { code: None })
    );
}

#[test]
fn note_document_resliced_before_divider() {
    let content = "attestation line\n---\n{\"anything\": true}";
    let doc = note_schema_document(content).unwrap();
    let expected = format!("attestation line{}", TRAILER);
    assert_eq!(doc, expected.as_bytes());
}

#[test]
fn note_document_none_without_divider() {
    assert!(note_schema_document("no divider here").is_none());
    assert!(note_schema_document("almost --- but not a line").is_none());
}

#[test]
fn extract_without_divider_contributes_nothing() {
    // A note payload lacking the divider contributes nothing and raises
    // nothing, whatever the parser verdict argument says.
    let mut files: Vec<String> = Vec::new();
    extract_file_paths_from_note("no divider", &parsed(&["a.rs"]), &mut files);
    assert!(files.is_empty());
}

#[test]
fn extract_rejected_document_contributes_nothing() {
    let mut files: Vec<String> = Vec::new();
    extract_file_paths_from_note("x\n---\ny", &SchemaParseOutcome::Failed, &mut files);
    assert!(files.is_empty());
}

#[test]
fn extract_deduplicates_across_notes() {
    let mut files: Vec<String> = Vec::new();
    extract_file_paths_from_note("a\n---\nm", &parsed(&["one.rs", "two.rs"]), &mut files);
    extract_file_paths_from_note("b\n---\nm", &parsed(&["two.rs", "three.rs"]), &mut files);
    let mut sorted = files.clone();
    sorted.sort();
    assert_eq!(sorted, vec!["one.rs".to_string(), "three.rs".to_string(), "two.rs".to_string()]);
}

fn two_note_pipeline() -> (ExecOutcome, ExecOutcome, Vec<SchemaParseOutcome>) {
    let listing = output(b"100644 blob aaa\tx\n100644 blob bbb\ty\n");
    let batch = output(b"aaa blob 8\nn1\n---\nm\nbbb blob 8\nn2\n---\nm\n");
    let parses = vec![parsed(&["one.rs", "two.rs"]), parsed(&["two.rs", "three.rs"])];
    (listing, batch, parses)
}

#[test]
fn index_holds_exactly_the_distinct_paths() {
    // Three syntactically distinct paths across the notes, one repeated:
    // the index holds exactly the three, once each.
    let (listing, batch, parses) = two_note_pipeline();
    let mut r = load_all_ai_touched_files_sync(&listing, &batch, &parses).unwrap();
    r.sort();
    assert_eq!(r, vec!["one.rs".to_string(), "three.rs".to_string(), "two.rs".to_string()]);
}

#[test]
fn index_empty_for_absent_namespace() {
    let parses: Vec<SchemaParseOutcome> = Vec::new();
    let r = load_all_ai_touched_files_sync(
        &ExecOutcome::Failure { code: Some(128) },
        &ExecOutcome::Failure { code: None },
        &parses,
    )
    .unwrap();
    assert!(r.is_empty());
}

#[test]
fn index_build_is_idempotent() {
    // Two successive builds from the same observations yield identical sets.
    let (listing, batch, parses) = two_note_pipeline();
    let mut r1 = load_all_ai_touched_files_sync(&listing, &batch, &parses).unwrap();
    let mut r2 = load_all_ai_touched_files_sync(&listing, &batch, &parses).unwrap();
    r1.sort();
    r2.sort();
    assert_eq!(r1, r2);
}

#[test]
fn index_propagates_enumeration_error() {
    let parses: Vec<SchemaParseOutcome> = Vec::new();
    assert_eq!(
        load_all_ai_touched_files_sync(
            &ExecOutcome::Failure { code: Some(2) },
            &output(b""),
            &parses
        ),
        Err(TraversalError::CommandFailed { code: Some(2) })
    );
}
