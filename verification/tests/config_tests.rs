use dupels::cli::Cli;
use dupels::dupels::{DupeLs, DupeLsConfig};
use dupels::MAX_THREAD_LIMIT;

fn cli(
    all: bool,
    recursive: bool,
    depth: Option<usize>,
    omit: bool,
    seperator: &str,
    max_threads: Option<usize>,
    file: Option<&str>,
) -> Cli {
    Cli {
        all,
        recursive,
        depth,
        omit,
        seperator: seperator.to_string(),
        max_threads,
        file: file.map(|f| f.to_string()),
    }
}

#[test]
fn test_from_cli_for_dupe_ls_config() {
    let cli = cli(true, true, Some(5), false, "===", Some(1), Some("/tmp"));
    let config = DupeLsConfig::from(&cli);
    assert_eq!(config.base_path, Some("/tmp".to_string()));
    assert!(config.track_dot_files);
    assert!(config.recursive);
    assert_eq!(config.depth, 5);
    assert!(!config.omit);
    assert_eq!(config.max_threads, Some(1));
    assert_eq!(config.seperator, "===");
}

#[test]
fn test_from_cli_for_dupe_ls_config_recursive_depth() {
    let cli = cli(true, true, Some(5), false, "===", Some(1), Some("/tmp"));
    let config = DupeLsConfig::from(&cli);
    assert_eq!(config.base_path, Some("/tmp".to_string()));
    assert!(config.track_dot_files);
    assert!(config.recursive);
    assert_eq!(config.depth, 5);
    assert!(!config.omit);
    assert_eq!(config.max_threads, Some(1));
    assert_eq!(config.seperator, "===");
}

#[test]
fn test_from_cli_for_dupe_ls_config_not_recursive() {
    let cli = cli(true, false, None, false, "===", Some(1), Some("/tmp"));
    let config = DupeLsConfig::from(&cli);
    assert!(!config.recursive);
    assert_eq!(config.depth, 2);
}

#[test]
fn test_from_cli_for_dupe_implicit_recursive() {
    let cli = cli(true, false, Some(10), false, "===", Some(1), Some("/tmp"));
    let config = DupeLsConfig::from(&cli);
    assert!(config.recursive);
    assert_eq!(config.depth, 10);
}

fn config(
    base_path: Option<&str>,
    track_dot_files: bool,
    recursive: bool,
    depth: usize,
    seperator: &str,
    omit: bool,
    max_threads: Option<usize>,
) -> DupeLsConfig {
    DupeLsConfig {
        base_path: base_path.map(|p| p.to_string()),
        track_dot_files,
        recursive,
        depth,
        seperator: seperator.to_string(),
        omit,
        max_threads,
    }
}

#[test]
fn init_test_with_no_file_no_r_flag() {
    let d = DupeLs::new(config(None, true, false, 2, "---", false, Some(1)));
    assert!(d.track_dot_files);
    assert!(!d.recursive);
    assert_eq!(d.depth, 2);
    assert!(!d.omit);
    assert_eq!(d.base_path, None);
    assert_eq!("---".to_string(), d.seperator);
}

#[test]
fn dupels_init_test_with_r_flag() {
    let d = DupeLs::new(config(Some("files"), true, true, 2, "---", false, Some(1)));
    assert!(d.track_dot_files);
    assert!(d.recursive);
    assert_eq!(d.depth, 2);
    assert!(!d.omit);
    assert_eq!(d.base_path, Some("files".to_string()));
    assert_eq!("---".to_string(), d.seperator);
}

#[test]
fn dupels_init_test_with_rd_flags() {
    let f = DupeLs::new(config(Some("files"), true, true, 2, "hi", false, Some(1)));
    assert!(f.track_dot_files);
    assert!(f.recursive);
    assert_eq!(f.depth, 2);
    assert!(!f.omit);
    assert_eq!("hi".to_string(), f.seperator);
}

#[test]
fn test_thread_default() {
    let d = DupeLs::new(config(Some("files"), true, true, 2, "hi", false, None));
    assert!(d.max_threads <= MAX_THREAD_LIMIT);
    assert!(d.max_threads >= 1);
}

#[test]
fn test_legal_specified_max_thread() {
    let d = DupeLs::new(config(
        Some("files"),
        true,
        true,
        2,
        "hi",
        false,
        Some(MAX_THREAD_LIMIT - 1),
    ));
    assert!(d.max_threads <= MAX_THREAD_LIMIT - 1);
}

#[test]
fn test_thread_safe_guard() {
    let d = DupeLs::new(config(
        Some("files"),
        true,
        true,
        2,
        "hi",
        false,
        Some(num_cpus::get() + 10),
    ));
    assert!(d.max_threads <= MAX_THREAD_LIMIT);
}

#[test]
fn test_zero_thread_request_means_auto() {
    let d = DupeLs::new(config(Some("files"), true, true, 2, "hi", false, Some(0)));
    assert!(d.max_threads >= 1);
    assert!(d.max_threads <= MAX_THREAD_LIMIT);
}

#[test]
fn init_test_no_r_flag() {
    let cli = cli(true, false, None, false, "---", None, Some("files"));
    let f = DupeLs::new(DupeLsConfig::from(&cli));
    assert!(f.track_dot_files);
    assert!(!f.recursive);
    assert_eq!(f.depth, 2);
    assert!(!f.omit);
    assert_eq!("---".to_string(), f.seperator);
}

#[test]
fn init_test_with_no_file() {
    let cli = cli(true, false, None, false, "---", None, None);
    let f = DupeLs::new(DupeLsConfig::from(&cli));
    assert!(f.track_dot_files);
    assert!(!f.recursive);
    assert_eq!(f.depth, 2);
    assert!(!f.omit);
    assert_eq!("---".to_string(), f.seperator);
}

#[test]
fn libs_init_test_with_r_flag() {
    let cli = cli(true, true, None, false, "---", None, Some("files"));
    let f = DupeLs::new(DupeLsConfig::from(&cli));
    assert!(f.track_dot_files);
    assert!(f.recursive);
    assert_eq!(f.depth, 2);
    assert!(!f.omit);
    assert_eq!("---".to_string(), f.seperator);
}

#[test]
fn libs_init_test_with_rd_flags() {
    let cli = cli(true, true, Some(2), false, "hi", None, Some("files"));
    let f = DupeLs::new(DupeLsConfig::from(&cli));
    assert!(f.track_dot_files);
    assert!(f.recursive);
    assert_eq!(f.depth, 2);
    assert!(!f.omit);
    assert_eq!("hi".to_string(), f.seperator);
}

#[test]
fn test_resolved_base_path() {
    let c = config(Some("/data"), false, false, 2, "---", false, None);
    assert_eq!(c.resolved_base_path("/home/user"), "/data".to_string());
    let c2 = config(None, false, false, 2, "---", false, None);
    assert_eq!(c2.resolved_base_path("/home/user"), "/home/user".to_string());
}
