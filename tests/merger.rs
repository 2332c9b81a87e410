use file_merger::merger::{
    Action, ConfigError, DecoderState, FileEntry, FormatError, MergerUnmerger, Violation,
    MEGABYTE,
};

fn markers() -> MergerUnmerger {
    MergerUnmerger::new(">>> FILE".to_string(), "<<< END".to_string()).unwrap()
}

fn text_entry(path: &str, text: &str) -> FileEntry {
    FileEntry {
        path: path.to_string(),
        size: text.len() as u64,
        text: Some(text.to_string()),
    }
}

fn pair(path: &str, content: &str) -> (Vec<u8>, Vec<u8>) {
    (path.as_bytes().to_vec(), content.as_bytes().to_vec())
}

#[test]
fn same_markers_refused() {
    let r = MergerUnmerger::new("X".to_string(), "X".to_string());
    assert!(matches!(r, Err(ConfigError::SameMarkers)));
}

#[test]
fn distinct_markers_accepted() {
    assert!(MergerUnmerger::new("A".to_string(), "B".to_string()).is_ok());
}

#[test]
fn round_trip_restores_files() {
    let m = markers();
    let files = vec![
        pair("a.txt", "hello\nworld\n"),
        pair("dir/empty.txt", ""),
        pair("b.rs", "fn main() {}\r\n\n  >>> FILE not at start\n"),
    ];
    let merged = m.merge(&files);
    let back = m.unmerge(&merged).unwrap();
    assert_eq!(back, files);
}

#[test]
fn merge_writes_blocks_in_order() {
    let m = markers();
    let files = vec![pair("a", "1\n"), pair("b", "")];
    let merged = m.merge(&files);
    assert_eq!(
        String::from_utf8(merged).unwrap(),
        ">>> FILE a\n1\n<<< END\n>>> FILE b\n<<< END\n"
    );
}

#[test]
fn encode_block_exact_bytes() {
    let m = markers();
    let b = m.encode_block(b"p/q.txt", b"x\ny\n");
    assert_eq!(b, b">>> FILE p/q.txt\nx\ny\n<<< END\n".to_vec());
}

#[test]
fn too_big_file_reported_and_rest_checked() {
    let m = markers();
    let files = vec![
        FileEntry { path: "big.bin".to_string(), size: MEGABYTE + 1, text: None },
        text_entry("ok.txt", "fine\n<<< END\n"),
    ];
    let r = m.can_merge(&files);
    assert_eq!(
        r,
        Err(vec![
            Violation::TooBig { path: "big.bin".to_string() },
            Violation::AppendLine { path: "ok.txt".to_string(), line: 2 },
        ])
    );
}

#[test]
fn file_of_exactly_one_megabyte_is_not_too_big() {
    let m = markers();
    let files = vec![FileEntry { path: "edge".to_string(), size: MEGABYTE, text: Some(String::new()) }];
    assert_eq!(m.can_merge(&files), Ok(()));
}

#[test]
fn append_marker_line_reported_with_number() {
    let m = markers();
    let files = vec![text_entry("f.txt", "one\ntwo\n<<< END\nfour\n")];
    assert_eq!(
        m.can_merge(&files),
        Err(vec![Violation::AppendLine { path: "f.txt".to_string(), line: 3 }])
    );
}

#[test]
fn append_marker_with_more_text_is_fine() {
    let m = markers();
    let files = vec![text_entry("f.txt", "<<< END and more\n <<< END\n")];
    assert_eq!(m.can_merge(&files), Ok(()));
}

#[test]
fn prepend_marker_line_reported_with_number() {
    let m = markers();
    let files = vec![text_entry("g.txt", ">>> FILE x\nok\n>>> FILEy")];
    assert_eq!(
        m.can_merge(&files),
        Err(vec![
            Violation::PrependLine { path: "g.txt".to_string(), line: 1 },
            Violation::PrependLine { path: "g.txt".to_string(), line: 3 },
        ])
    );
}

#[test]
fn unreadable_file_reported() {
    let m = markers();
    let files = vec![
        FileEntry { path: "bin".to_string(), size: 10, text: None },
        text_entry("t", "plain\n"),
    ];
    assert_eq!(
        m.can_merge(&files),
        Err(vec![Violation::Unreadable { path: "bin".to_string() }])
    );
}

#[test]
fn no_files_can_merge() {
    let m = markers();
    assert_eq!(m.can_merge(&Vec::new()), Ok(()));
}

#[test]
fn nested_prepend_refused() {
    let m = markers();
    let stream = b">>> FILE a\ncontent\n>>> FILE b\n<<< END\n";
    assert_eq!(m.unmerge(stream), Err(FormatError::NestedPrepend(3)));
}

#[test]
fn consecutive_headers_refused() {
    let m = markers();
    let stream = b">>> FILE a\n>>> FILE b\n";
    assert_eq!(m.unmerge(stream), Err(FormatError::NestedPrepend(2)));
}

#[test]
fn orphan_first_line_refused() {
    let m = markers();
    assert_eq!(m.unmerge(b"stray\n>>> FILE a\n<<< END\n"), Err(FormatError::OrphanLine(1)));
}

#[test]
fn orphan_line_between_blocks_refused() {
    let m = markers();
    let stream = b">>> FILE a\n<<< END\nstray\n";
    assert_eq!(m.unmerge(stream), Err(FormatError::OrphanLine(3)));
}

#[test]
fn append_marker_while_idle_refused() {
    let m = markers();
    assert_eq!(m.unmerge(b"<<< END\n"), Err(FormatError::OrphanLine(1)));
}

#[test]
fn unterminated_block_refused() {
    let m = markers();
    assert_eq!(m.unmerge(b">>> FILE a\nx\n"), Err(FormatError::Unterminated(2)));
}

#[test]
fn empty_merge_and_unmerge() {
    let m = markers();
    let merged = m.merge(&Vec::new());
    assert!(merged.is_empty());
    assert_eq!(m.unmerge(&merged), Ok(Vec::new()));
}

#[test]
fn unmerged_content_is_only_the_new_block() {
    // Each target holds exactly the bytes of its block, nothing from before.
    let m = markers();
    let stream = b">>> FILE t.txt\nnew\n<<< END\n";
    assert_eq!(m.unmerge(stream), Ok(vec![pair("t.txt", "new\n")]));
}

#[test]
fn step_opens_writes_and_closes() {
    let m = markers();
    let r = m.step(DecoderState::Idle, b">>> FILE some/path.txt", 1).unwrap();
    assert_eq!(r, (DecoderState::Writing, Action::Open(b"some/path.txt".to_vec())));
    let r = m.step(DecoderState::Writing, b"body", 2).unwrap();
    assert_eq!(r, (DecoderState::Writing, Action::Write(b"body\n".to_vec())));
    let r = m.step(DecoderState::Writing, b"<<< END", 3).unwrap();
    assert_eq!(r, (DecoderState::Idle, Action::Close));
}

#[test]
fn step_header_without_path_opens_empty_path() {
    let m = markers();
    let r = m.step(DecoderState::Idle, b">>> FILE", 1).unwrap();
    assert_eq!(r, (DecoderState::Writing, Action::Open(Vec::new())));
}

#[test]
fn finish_states() {
    let m = markers();
    assert_eq!(m.finish(DecoderState::Idle, 4), Ok(()));
    assert_eq!(m.finish(DecoderState::Writing, 4), Err(FormatError::Unterminated(4)));
}

#[test]
fn content_without_final_newline_does_not_round_trip() {
    let m = markers();
    let merged = m.merge(&vec![pair("a", "no newline")]);
    assert_eq!(m.unmerge(&merged), Err(FormatError::Unterminated(2)));
}

#[test]
fn append_marker_starting_with_prepend_marker_breaks_decoding() {
    let m = MergerUnmerger::new("<<".to_string(), "<<END".to_string()).unwrap();
    let merged = m.merge(&vec![pair("a", "")]);
    assert_eq!(m.unmerge(&merged), Err(FormatError::NestedPrepend(2)));
}
