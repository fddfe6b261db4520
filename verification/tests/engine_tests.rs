use dupels::dupels::{DupeLs, DupeLsConfig};
use dupels::walk::FsNode;

fn file(name: &str, content: &str) -> FsNode {
    FsNode::File {
        name: name.to_string(),
        content: Ok(content.as_bytes().to_vec()),
    }
}

fn unreadable_file(name: &str, cause: &str) -> FsNode {
    FsNode::File {
        name: name.to_string(),
        content: Err(cause.to_string()),
    }
}

fn dir(name: &str, entries: Vec<FsNode>) -> FsNode {
    FsNode::Dir {
        name: name.to_string(),
        entries: Some(entries),
    }
}

fn setup_tree(root: &str) -> FsNode {
    dir(
        root,
        vec![
            file("1.txt", "Hello"),
            file("2.txt", "Hello"),
            file("3.txt", "Hello World"),
            file(".env.test", ".env test"),
            dir(
                "more_files",
                vec![
                    file("4.txt", "This is a unique file"),
                    file("5.txt", "Hello"),
                    file("6.txt", "This is another unique file"),
                    dir(
                        "more_more_files",
                        vec![file("7.txt", "Hello"), file("8.txt", "Last one")],
                    ),
                ],
            ),
        ],
    )
}

fn config(
    base_path: Option<&str>,
    track_dot_files: bool,
    recursive: bool,
    depth: usize,
    seperator: &str,
    omit: bool,
    max_threads: Option<usize>,
) -> DupeLsConfig {
    DupeLsConfig {
        base_path: base_path.map(|p| p.to_string()),
        track_dot_files,
        recursive,
        depth,
        seperator: seperator.to_string(),
        omit,
        max_threads,
    }
}

#[test]
fn test_md5_checksum() {
    let content: Result<Vec<u8>, String> = Ok("Hello".as_bytes().to_vec());
    let expected_dupe_md5 = "8b1a9953c4611296a827abf8c47804d7";
    let digest = DupeLs::get_checksum("1.txt", &content).unwrap();
    assert_eq!(digest.to_hex(), expected_dupe_md5);
}

#[test]
fn test_checksum() {
    let content: Result<Vec<u8>, String> = Ok("Hello\n".as_bytes().to_vec());
    let expected_dupe_md5 = "09f7e02f1290be211da707a266f153b3";
    let digest = DupeLs::get_checksum("files/1.txt", &content).unwrap();
    assert_eq!(digest.to_hex(), expected_dupe_md5);
}

#[test]
fn test_checksum_twice_same_digest() {
    let content: Result<Vec<u8>, String> = Ok("Hello World".as_bytes().to_vec());
    let d1 = DupeLs::get_checksum("a.txt", &content).unwrap();
    let d2 = DupeLs::get_checksum("a.txt", &content).unwrap();
    assert_eq!(d1.bytes, d2.bytes);
    assert_eq!(d1.to_hex(), d2.to_hex());
}

#[test]
fn test_checksum_large_content_spans_buffer() {
    // More than one 8 KiB buffer's worth of bytes exercises the chunked
    // feed; the digest must match the one of a single-shot hash.
    let big: Vec<u8> = (0..20000u32).map(|i| (i % 251) as u8).collect();
    let content: Result<Vec<u8>, String> = Ok(big.clone());
    let d1 = DupeLs::get_checksum("big.bin", &content).unwrap();
    let expected = md5::compute(&big);
    assert_eq!(d1.to_hex(), format!("{:x}", expected));
}

#[test]
fn test_get_checksum_bad_path_fail() {
    let invalid_path = "/invalid/path/to/nonexistent/file.txt";
    let content: Result<Vec<u8>, String> =
        Err("No such file or directory (os error 2)".to_string());
    let result = DupeLs::get_checksum(invalid_path, &content);
    assert!(result.is_err());
    let error_message = result.unwrap_err();
    assert!(error_message.contains(&format!("Could not open file '{}'", invalid_path)));
}

#[test]
fn test_get_checksum_on_directory() {
    // Asking for a directory's checksum is an open failure, reported like
    // any other unobtainable content.
    let content: Result<Vec<u8>, String> = Err("Is a directory (os error 21)".to_string());
    let result = DupeLs::get_checksum("/tmp/somedir", &content);
    assert!(result.is_err());
}

#[test]
fn test_open_error_message_exact() {
    let content: Result<Vec<u8>, String> = Err("Permission denied (os error 13)".to_string());
    let message = DupeLs::get_checksum("/tmp/no_read.txt", &content).unwrap_err();
    assert_eq!(
        message,
        "Could not open file '/tmp/no_read.txt': Permission denied (os error 13)"
    );
}

#[test]
fn test_parse_no_r_1_thread() {
    let tree = setup_tree("base");
    let mut d = DupeLs::new(config(Some("base"), true, false, 2, "---", false, Some(1)));
    d.parse(&tree);
    assert_eq!(d.entries.len(), 3);
}

#[test]
fn test_parse_no_r_default_threads() {
    let tree = setup_tree("base");
    let mut d = DupeLs::new(config(Some("base"), true, false, 2, "---", false, None));
    d.parse(&tree);
    assert_eq!(d.entries.len(), 3);
}

#[test]
fn test_parse_r_d_2_1_thread() {
    let tree = setup_tree("base");
    let mut d = DupeLs::new(config(Some("base"), true, true, 2, "---", false, Some(1)));
    d.parse(&tree);
    assert_eq!(d.entries.len(), 6);
}

#[test]
fn test_parse_r_d_2_default_threads() {
    let tree = setup_tree("base");
    let mut d = DupeLs::new(config(Some("base"), true, true, 2, "---", false, None));
    d.parse(&tree);
    assert_eq!(d.entries.len(), 6);
}

#[test]
fn test_parse_no_r() {
    let tree = setup_tree("files");
    let mut d = DupeLs::new(config(Some("files"), true, false, 2, "---", false, None));
    d.parse(&tree);
    assert_eq!(d.entries.len(), 3);
}

#[test]
fn test_parse_r_d_2() {
    let tree = setup_tree("files");
    let mut d = DupeLs::new(config(Some("files"), true, true, 2, "---", false, None));
    d.parse(&tree);
    assert_eq!(d.entries.len(), 6);
}

#[test]
fn test_get_sorted_checksums() {
    let tree = setup_tree("base");
    let mut d = DupeLs::new(config(Some("base"), true, true, 2, "---", false, None));
    d.parse(&tree);
    let sorted_checksums = d.get_sorted_checksums();

    assert!(sorted_checksums
        .windows(2)
        .all(|w| w[0].bytes <= w[1].bytes));

    for checksum in &sorted_checksums {
        assert!(d.entries.get(checksum).is_some());
    }

    assert_eq!(sorted_checksums.len(), d.entries.len());
}

#[test]
fn test_group_lookup_by_digest() {
    let tree = setup_tree("base");
    let mut d = DupeLs::new(config(Some("base"), true, true, 2, "---", false, None));
    d.parse(&tree);
    let hello: Result<Vec<u8>, String> = Ok("Hello".as_bytes().to_vec());
    let digest = DupeLs::get_checksum("x", &hello).unwrap();
    let paths = d.entries.get(&digest).unwrap();
    assert_eq!(
        paths,
        &vec![
            "base/1.txt".to_string(),
            "base/2.txt".to_string(),
            "base/more_files/5.txt".to_string(),
            "base/more_files/more_more_files/7.txt".to_string(),
        ]
    );
}

#[test]
fn test_depth_zero_reads_direct_entries() {
    // Depth gates descent only: a recursive scan at depth zero still reads
    // the base directory's own file entries and descends nowhere.
    let tree = setup_tree("base");
    let mut d = DupeLs::new(config(Some("base"), true, true, 0, "---", false, None));
    d.parse(&tree);
    assert_eq!(d.entries.len(), 3);
    let out = d.get_output_string();
    assert!(out.contains("base/1.txt"));
    assert!(out.contains("base/3.txt"));
    assert!(!out.contains("more_files"));
}

#[test]
fn test_get_output_vec() {
    let tree = setup_tree("base");
    let mut d = DupeLs::new(config(Some("base"), true, false, 1, "---", false, None));
    d.parse(&tree);
    let mut output_vec = d.get_output_vec();
    output_vec.retain(|line| line != &d.seperator);
    assert_eq!(output_vec.len(), 4);
}

#[test]
fn test_get_output_str() {
    let tree = setup_tree("base");
    let mut d = DupeLs::new(config(Some("base"), true, false, 1, "---", false, None));
    d.parse(&tree);
    let output_str = d.get_output_string();
    let mut lines: Vec<&str> = output_str.split('\n').collect();
    lines.retain(|line| line != &d.seperator);
    assert_eq!(lines.len(), 4);
}

#[test]
fn test_parse_dir_with_permission_denied_file() {
    let tree = dir(
        "base",
        vec![unreadable_file("no_read.txt", "Permission denied (os error 13)")],
    );
    let mut d = DupeLs::new(config(Some("base"), true, false, 1, "---", false, None));
    d.parse(&tree);
    let output_str = d.get_output_string();
    assert_eq!(output_str.len(), 0);
}

#[test]
fn test_unreadable_file_error_references_path() {
    // An unreadable file yields a diagnostic naming that exact path and
    // joins no group, while its readable siblings are still grouped.
    let tree = dir(
        "base",
        vec![
            file("1.txt", "Hello"),
            unreadable_file("no_read.txt", "Permission denied (os error 13)"),
            file("2.txt", "Hello"),
        ],
    );
    let mut d = DupeLs::new(config(Some("base"), true, false, 1, "---", false, None));
    let errors = d.parse(&tree);
    assert_eq!(errors.len(), 1);
    assert_eq!(
        errors[0],
        "Could not open file 'base/no_read.txt': Permission denied (os error 13)"
    );
    let output = d.get_output_vec();
    assert_eq!(output, vec!["base/1.txt".to_string(), "base/2.txt".to_string()]);
    assert!(!d.get_output_string().contains("no_read.txt"));
}

#[test]
fn test_unreadable_directory_skipped() {
    // A directory that cannot be listed is skipped silently; siblings are
    // still scanned and no diagnostic is produced.
    let tree = dir(
        "base",
        vec![
            FsNode::Dir {
                name: "locked".to_string(),
                entries: None,
            },
            file("1.txt", "Hello"),
            file("2.txt", "Hello"),
        ],
    );
    let mut d = DupeLs::new(config(Some("base"), true, true, 3, "---", false, None));
    let errors = d.parse(&tree);
    assert!(errors.is_empty());
    assert_eq!(d.entries.len(), 1);
    let output = d.get_output_vec();
    assert_eq!(output, vec!["base/1.txt".to_string(), "base/2.txt".to_string()]);
}

#[test]
fn test_output_empty_before_scan() {
    let d = DupeLs::new(config(Some("base"), true, false, 2, "---", false, None));
    assert!(d.get_output_vec().is_empty());
    assert_eq!(d.get_output_string(), "");
}

#[test]
fn test_output_queries_idempotent() {
    let tree = setup_tree("base");
    let mut d = DupeLs::new(config(Some("base"), true, true, 2, "---", false, None));
    d.parse(&tree);
    let first = d.get_output_vec();
    let second = d.get_output_vec();
    assert_eq!(first, second);
    assert_eq!(d.get_output_string(), d.get_output_string());
}
