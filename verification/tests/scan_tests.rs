use dupels::cli::{Cli, Gui};
use dupels::walk::FsNode;
use dupels::{run, run_cli, run_gui};

fn file(name: &str, content: &str) -> FsNode {
    FsNode::File {
        name: name.to_string(),
        content: Ok(content.as_bytes().to_vec()),
    }
}

fn dir(name: &str, entries: Vec<FsNode>) -> FsNode {
    FsNode::Dir {
        name: name.to_string(),
        entries: Some(entries),
    }
}

fn setup_test_files(root: &str) -> FsNode {
    dir(
        root,
        vec![
            file("1.txt", "Hello"),
            file("2.txt", "Hello"),
            file("3.txt", "Hello World"),
            file(".env.test", ".env test"),
            dir(
                "more_test_files",
                vec![
                    file("4.txt", "This is a unique file"),
                    file("5.txt", "Hello"),
                    file("6.txt", "This is another unique file"),
                    dir(
                        "more_more_test_files",
                        vec![file("7.txt", "Hello"), file("8.txt", "Last one")],
                    ),
                ],
            ),
        ],
    )
}

fn cli_args(
    all: bool,
    recursive: bool,
    depth: Option<usize>,
    omit: bool,
    file: &str,
) -> Cli {
    Cli {
        all,
        recursive,
        depth,
        omit,
        seperator: ">--".to_string(),
        max_threads: None,
        file: Some(file.to_string()),
    }
}

#[test]
fn test_dupels_integration_basic_single_dir() {
    let tree = setup_test_files("test_files_basic");
    let out = run_cli(&cli_args(false, false, None, false, "test_files_basic"), &tree);
    assert!(out.contains("test_files_basic/1.txt"));
    assert!(out.contains("test_files_basic/2.txt"));
    assert!(out.contains("test_files_basic/3.txt"));
    assert!(!out.contains("test_files_basic/.env.test"));
}

#[test]
fn test_dupels_integration_single_dir_omit() {
    let tree = setup_test_files("test_files_omit");
    let out = run_cli(&cli_args(false, false, None, true, "test_files_omit"), &tree);
    assert!(out.contains("test_files_omit/1.txt"));
    assert!(out.contains("test_files_omit/2.txt"));
    assert!(!out.contains("test_files_omit/3.txt"));
    assert!(!out.contains("test_files_omit/.env.test"));
}

#[test]
fn test_dupels_integration_single_dir_a_flag_omit() {
    let tree = setup_test_files("test_files_a_flag_omit");
    let out = run_cli(&cli_args(true, false, None, true, "test_files_a_flag_omit"), &tree);
    assert!(out.contains("test_files_a_flag_omit/1.txt"));
    assert!(out.contains("test_files_a_flag_omit/2.txt"));
    assert!(!out.contains("test_files_a_flag_omit/3.txt"));
    assert!(!out.contains("test_files_a_flag_omit/.env.test"));
}

#[test]
fn test_dupels_integration_nested_dir() {
    let tree = setup_test_files("test_files_nested");
    let out = run_cli(&cli_args(false, true, Some(2), false, "test_files_nested"), &tree);
    assert!(out.contains("test_files_nested/1.txt"));
    assert!(out.contains("test_files_nested/2.txt"));
    assert!(out.contains("test_files_nested/3.txt"));
    assert!(out.contains("test_files_nested/more_test_files/4.txt"));
    assert!(out.contains("test_files_nested/more_test_files/5.txt"));
    assert!(out.contains("test_files_nested/more_test_files/6.txt"));
    assert!(!out.contains("test_files_nested/.env.test"));
    // Two descents stay within the depth budget of 2, so the files of the
    // doubly nested directory are reached as well.
    assert!(out.contains("test_files_nested/more_test_files/more_more_test_files/7.txt"));
}

#[test]
fn test_dupels_integration_nested_dir_omit() {
    let tree = setup_test_files("test_files_nested_omit");
    let out = run_cli(&cli_args(false, true, Some(2), true, "test_files_nested_omit"), &tree);
    assert!(out.contains("test_files_nested_omit/1.txt"));
    assert!(out.contains("test_files_nested_omit/2.txt"));
    assert!(!out.contains("test_files_nested_omit/3.txt"));
    assert!(!out.contains("test_files_nested_omit/more_test_files/4.txt"));
    assert!(out.contains("test_files_nested_omit/more_test_files/5.txt"));
    assert!(!out.contains("test_files_nested_omit/more_test_files/6.txt"));
    assert!(!out.contains("test_files_nested_omit/.env.test"));
    // The doubly nested duplicate is within reach at depth 2 and joins the
    // duplicate group, so it is not omitted.
    assert!(out.contains("test_files_nested_omit/more_test_files/more_more_test_files/7.txt"));
}

#[test]
fn test_dupels_integration_two_nested_dir_a_flag_omit() {
    let tree = setup_test_files("test_files_two_nested_a_flag_omit");
    let out = run_cli(
        &cli_args(true, true, Some(3), true, "test_files_two_nested_a_flag_omit"),
        &tree,
    );
    let base = "test_files_two_nested_a_flag_omit";
    assert!(out.contains(&format!("{}/1.txt", base)));
    assert!(out.contains(&format!("{}/2.txt", base)));
    assert!(!out.contains(&format!("{}/3.txt", base)));
    assert!(!out.contains(&format!("{}/more_test_files/4.txt", base)));
    assert!(out.contains(&format!("{}/more_test_files/5.txt", base)));
    assert!(!out.contains(&format!("{}/more_test_files/6.txt", base)));
    assert!(!out.contains(&format!("{}/.env.test", base)));
    assert!(out.contains(&format!(
        "{}/more_test_files/more_more_test_files/7.txt",
        base
    )));
    assert!(!out.contains(&format!(
        "{}/more_test_files/more_more_test_files/8.txt",
        base
    )));
}

#[test]
fn test_run() {
    let tree = dir("workdir", vec![file("test_file.txt", "Hello World")]);
    let cli = Cli {
        all: true,
        recursive: false,
        depth: Some(2),
        omit: false,
        seperator: "===".to_string(),
        max_threads: Some(1),
        file: Some("workdir".to_string()),
    };
    let output = run_cli(&cli, &tree);
    assert_eq!(output, "workdir/test_file.txt");
}

#[test]
fn test_run_lines() {
    let tree = dir("workdir", vec![file("a.txt", "x"), file("b.txt", "x")]);
    let cli = cli_args(false, false, None, false, "workdir");
    let lines = run(&cli, &tree);
    assert_eq!(lines, vec!["workdir/a.txt".to_string(), "workdir/b.txt".to_string()]);
}

#[test]
fn test_run_gui_groups() {
    let tree = setup_test_files("picked");
    let gui = Gui {
        directory: "picked".to_string(),
        all: false,
        depth: 2,
        omit: true,
    };
    let lines = run_gui(&gui, &tree);
    assert!(lines.contains(&"picked/1.txt".to_string()));
    assert!(lines.contains(&"picked/2.txt".to_string()));
    assert!(lines.contains(&"picked/more_test_files/5.txt".to_string()));
    assert!(lines.contains(&"picked/more_test_files/more_more_test_files/7.txt".to_string()));
    assert!(!lines.contains(&"picked/3.txt".to_string()));
}

#[test]
fn test_two_groups_exact_output() {
    // Three files, two of them identical: the duplicates form one group and
    // the distinct file another; the duplicate group's digest sorts first
    // here, and one separator line stands between the groups.
    let tree = dir(
        "d",
        vec![
            file("1.txt", "Hello"),
            file("2.txt", "Hello"),
            file("3.txt", "Hello World"),
        ],
    );
    let out = run(&cli_args(false, false, None, false, "d"), &tree);
    assert_eq!(
        out,
        vec![
            "d/1.txt".to_string(),
            "d/2.txt".to_string(),
            ">--".to_string(),
            "d/3.txt".to_string(),
        ]
    );
    let omitted = run(&cli_args(false, false, None, true, "d"), &tree);
    assert_eq!(omitted, vec!["d/1.txt".to_string(), "d/2.txt".to_string()]);
}

#[test]
fn test_hidden_file_filter_both_ways() {
    // `.env` is excluded from all output when hidden files are not tracked,
    // and included when they are.
    let tree = dir("d", vec![file(".env", "secret stuff"), file("a.txt", "data")]);
    let without = run_cli(&cli_args(false, false, None, false, "d"), &tree);
    assert!(!without.contains(".env"));
    let with = run_cli(&cli_args(true, false, None, false, "d"), &tree);
    assert!(with.contains("d/.env"));
}

#[test]
fn test_depth_bound_inclusion_and_exclusion() {
    // Depth counts directory descents below the base: at depth 0 only the
    // base's own files are read, each further unit of depth reaches one
    // directory level deeper.
    let tree = dir(
        "d",
        vec![
            file("top.txt", "alpha"),
            dir(
                "sub",
                vec![
                    file("mid.txt", "beta"),
                    dir("subsub", vec![file("deep.txt", "gamma")]),
                ],
            ),
        ],
    );
    let d0 = run_cli(&cli_args(false, true, Some(0), false, "d"), &tree);
    assert!(d0.contains("d/top.txt"));
    assert!(!d0.contains("mid.txt"));
    assert!(!d0.contains("deep.txt"));
    let d1 = run_cli(&cli_args(false, true, Some(1), false, "d"), &tree);
    assert!(d1.contains("d/top.txt"));
    assert!(d1.contains("d/sub/mid.txt"));
    assert!(!d1.contains("deep.txt"));
    let d2 = run_cli(&cli_args(false, true, Some(2), false, "d"), &tree);
    assert!(d2.contains("d/top.txt"));
    assert!(d2.contains("d/sub/mid.txt"));
    assert!(d2.contains("d/sub/subsub/deep.txt"));
}

#[test]
fn test_thread_count_does_not_change_groups() {
    let tree = setup_test_files("t");
    let mut one = cli_args(true, true, Some(3), false, "t");
    one.max_threads = Some(1);
    let mut eight = cli_args(true, true, Some(3), false, "t");
    eight.max_threads = Some(8);
    let out_one = run_cli(&one, &tree);
    let out_eight = run_cli(&eight, &tree);
    assert_eq!(out_one, out_eight);
}
