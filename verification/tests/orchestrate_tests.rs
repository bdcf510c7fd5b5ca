use cpb::orchestrate::run_in_memory;

#[test]
fn scan_total_equals_bytes_copied() {
    let files = vec![b"hello".to_vec(), Vec::new(), b"abc".to_vec()];
    let (outs, progress) = run_in_memory(&files, 2);
    assert_eq!(outs, files);
    assert_eq!(progress.files_seen, 3);
    assert_eq!(progress.bytes_total, 8);
    assert_eq!(progress.bytes_done, progress.bytes_total);
    assert!(progress.total_frozen);
}

#[test]
fn single_small_file_reaches_one_hundred_percent() {
    let files = vec![b"ten bytes.".to_vec()];
    let (outs, progress) = run_in_memory(&files, 8192);
    assert_eq!(outs[0], files[0]);
    assert_eq!(progress.bytes_total, 10);
    assert_eq!(progress.percent(), 100);
}

#[test]
fn no_files_copies_nothing() {
    let files: Vec<Vec<u8>> = Vec::new();
    let (outs, progress) = run_in_memory(&files, 1);
    assert!(outs.is_empty());
    assert_eq!(progress.bytes_total, 0);
    assert_eq!(progress.bytes_done, 0);
}

#[test]
fn tree_contents_round_trip_byte_for_byte() {
    let files: Vec<Vec<u8>> = vec![
        (0u8..=255).collect(),
        vec![0; 10000],
        b"x".to_vec(),
    ];
    let (outs, _) = run_in_memory(&files, 777);
    assert_eq!(outs, files);
}
