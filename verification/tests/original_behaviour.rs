use yapraq::app::Tab;
use yapraq::features::files::{FileItem, FilesState};
use yapraq::features::junk::{JunkItem, JunkState};
use yapraq::features::storage::usage_percent;
use yapraq::features::package_output::{parse_at_version, parse_json_packages};
use yapraq::paths::{is_safe_child, is_valid_entry_name};
use yapraq::utils::{format_bytes, is_path_safe, sanitize_error_message, sanitize_filename};

#[test]
fn sidebar_navigation_wraps_at_both_ends() {
    assert_eq!(Tab::Info.adjacent(1), Tab::Monitor);
    assert_eq!(Tab::Monitor.adjacent(-1), Tab::Info);
}

#[test]
fn file_names_cannot_escape_the_current_folder() {
    assert!(is_valid_entry_name("report.txt"));
    assert!(!is_valid_entry_name(""));
    assert!(!is_valid_entry_name("../report.txt"));
    assert!(!is_valid_entry_name("nested/report.txt"));
    assert!(is_safe_child("/tmp/work", "/tmp/work/file.txt"));
    assert!(!is_safe_child("/tmp/work", "/tmp/file.txt"));
}

#[test]
fn scan_generation_changes_and_resets_view_state() {
    let mut state = FilesState::new("/".to_string());
    state.items.push(FileItem {
        name: "old".to_string(),
        is_dir: false,
        size: 1,
        path: "old".to_string(),
    });
    state.selected = 1;

    let generation = state.begin_scan();

    assert_eq!(generation, state.scan_generation);
    assert!(state.is_scanning);
    assert!(state.items.is_empty());
    assert_eq!(state.selected, 0);
}

#[test]
fn selection_stays_within_item_bounds() {
    let mut state = FilesState::new("/".to_string());
    state.items = vec![
        FileItem {
            name: "a".to_string(),
            is_dir: false,
            size: 0,
            path: "a".to_string(),
        },
        FileItem {
            name: "b".to_string(),
            is_dir: true,
            size: 0,
            path: "b".to_string(),
        },
    ];

    state.select_next();
    state.select_next();
    assert_eq!(state.selected, 1);
    state.select_prev();
    state.select_prev();
    assert_eq!(state.selected, 0);
    assert_eq!(state.enter_selected(), None);
}

#[test]
fn parses_scoped_and_tree_prefixed_javascript_packages() {
    assert_eq!(
        parse_at_version("├── @scope/tool@1.2.3 deduped"),
        Some(("@scope/tool".to_string(), "1.2.3".to_string()))
    );
    assert_eq!(parse_at_version("npm v10.0.0"), None);
}

#[test]
fn parses_pretty_printed_manager_json() {
    let json = br#"{
            "name": "demo",
            "version": "1.2.3"
        }"#;
    let packages = parse_json_packages(json, "test");
    assert_eq!(packages.len(), 1);
    assert_eq!(packages[0].name, "demo");
    assert_eq!(packages[0].version, "1.2.3");
    assert_eq!(packages[0].manager, "test");
}

#[test]
fn formats_binary_units() {
    assert_eq!(format_bytes(0), "0 B");
    assert_eq!(format_bytes(1023), "1023 B");
    assert_eq!(format_bytes(1024), "1.00 KB");
    assert_eq!(format_bytes(1024 * 1024), "1.00 MB");
}

#[test]
fn sanitize_error_removes_home_paths() {
    let error = "Permission denied /home/user/file.txt";
    let sanitized = sanitize_error_message(error);
    assert!(!sanitized.contains("/home/"));
    assert!(sanitized.contains("~/"));
}

#[test]
fn sanitize_error_removes_user_paths() {
    let error = "File not found /Users/john/docs/file.txt";
    let sanitized = sanitize_error_message(error);
    assert!(!sanitized.contains("/Users/"));
    assert!(sanitized.contains("~/"));
}

#[test]
fn sanitize_error_truncates_long_messages() {
    let error = "A".repeat(300);
    let sanitized = sanitize_error_message(&error);
    assert!(sanitized.len() <= 200);
}

#[test]
fn sanitize_error_returns_default_for_empty() {
    let sanitized = sanitize_error_message("");
    assert_eq!(sanitized, "An error occurred");
}

#[test]
fn sanitize_filename_removes_control_chars() {
    let filename = "file\x00name.txt";
    let sanitized = sanitize_filename(filename);
    assert!(!sanitized.contains('\x00'));
    assert_eq!(sanitized, "filename.txt");
}

#[test]
fn sanitize_filename_limits_length() {
    let filename = "a".repeat(300);
    let sanitized = sanitize_filename(&filename);
    assert!(sanitized.len() <= 255);
}

#[test]
fn is_path_safe_rejects_directory_traversal() {
    assert!(!is_path_safe("/tmp/../../../etc/passwd"));
}

#[test]
fn is_path_safe_rejects_proc_filesystem() {
    assert!(!is_path_safe("/proc/self/environ"));
}

#[test]
fn is_path_safe_rejects_ssh_keys() {
    assert!(!is_path_safe("~/.ssh/id_rsa"));
}

#[test]
fn is_path_safe_allows_normal_paths() {
    assert!(is_path_safe("/tmp/myfile.txt"));
    assert!(is_path_safe("~/Documents/report.pdf"));
}

#[test]
fn deleting_missing_item_is_non_destructive() {
    let mut state = JunkState {
        items: vec![JunkItem {
            path: "this-path-does-not-exist".to_string(),
            size: 10,
            reason: "test".to_string(),
        }],
        selected: 0,
        is_scanning: false,
        total_size: 10,
    };

    // Removing a path that does not exist fails.
    let removed = std::path::Path::new("this-path-does-not-exist").exists();
    assert!(!state.delete_selected(removed));
    assert_eq!(state.items.len(), 1);
    assert_eq!(state.total_size, 10);
}

#[test]
fn storage_percentage_handles_empty_and_full_volumes() {
    assert_eq!(usage_percent(0, 0), 0);
    assert_eq!(usage_percent(50, 100), 50);
    assert_eq!(usage_percent(120, 100), 100);
}
