use yapraq::app::{
    Action, App, Effect, Event, FileDialog, FileOutcome, KeyCode, KeyInput, SettingsSection, Tab,
    MAX_DIALOG_INPUT,
};
use yapraq::features::apps::{app_display_name, sort_apps, sort_keyed_apps, AppItem, AppsMsg};
use yapraq::features::devices::{DevicesState, UsbDeviceInfo};
use yapraq::features::files::{folder_size, sort_entries, sort_keyed_entries, FileItem, FileMsg};
use yapraq::features::info::InfoState;
use yapraq::features::junk::{first_of_each_path_items, is_skipped_directory, junk_reason, sort_junk, JunkItem, JunkMsg, JunkState};
use yapraq::features::monitor::{push_history, MonitorHistory, HISTORY_LENGTH};
use yapraq::features::package_output::{
    json_packages, json_string_field, lines, parse_at_version, parse_json_packages, parse_line_packages,
    parse_whitespace_packages, LineFormat,
};
use yapraq::features::packages::{PackageItem, PackagesState, PkgsMsg};
use yapraq::features::storage::{combined_space, usage_level, usage_percent, UsageLevel};
use yapraq::paths::{file_name, is_safe_child, is_valid_entry_name, join, parent, same_path};
use yapraq::selection::{clamp_scroll_exec, view_offset_exec};
use yapraq::theme::ThemeKind;
use std::path::Path;
use yapraq::utils::{format_bytes, is_path_safe, sanitize_error_message, sanitize_filename};

fn press(code: KeyCode) -> Event {
    Event::Key(KeyInput { code, ctrl: false, press: true })
}

fn file(name: &str, is_dir: bool) -> FileItem {
    FileItem {
        name: name.to_string(),
        is_dir,
        size: 0,
        path: format!("/tmp/work/{name}"),
    }
}

fn app_in(dir: &str) -> App {
    App::new(dir.to_string())
}

// ---------------------------------------------------------------- formatting

/// The floating-point computation that `format_bytes` stands for.
fn format_bytes_with_doubles(bytes: u64) -> String {
    let units = ["B", "KB", "MB", "GB", "TB"];
    let mut value = bytes as f64;
    let mut unit = 0;
    while value >= 1024.0 && unit < units.len() - 1 {
        value /= 1024.0;
        unit += 1;
    }
    if unit == 0 {
        format!("{} {}", bytes, units[unit])
    } else {
        format!("{value:.2} {}", units[unit])
    }
}

#[test]
fn format_bytes_exact_values() {
    assert_eq!(format_bytes(0), "0 B");
    assert_eq!(format_bytes(1536), "1.50 KB");
    assert_eq!(format_bytes(1025), "1.00 KB");
    assert_eq!(format_bytes(1024 * 1024 * 1024), "1.00 GB");
    assert_eq!(format_bytes(5 * 1024 * 1024 * 1024 * 1024), "5.00 TB");
    assert_eq!(format_bytes(u64::MAX), "16777216.00 TB");
}

#[test]
fn format_bytes_agrees_with_doubles() {
    let mut samples: Vec<u64> = vec![
        1023, 1024, 1029, 1152, 1153, 2047, 2048, 10_240, 1_048_575, 1_048_576, 1_073_741_823,
        1_099_511_627_775, 1_099_511_627_776, u64::MAX - 1, u64::MAX, (1 << 53) + 1,
        (1 << 54) + 2, (1 << 60) + 1, 9_007_199_254_740_993,
    ];
    // ties at the hundredths: the exact quotient ends in a 5 in the third decimal
    for k in 0..200u64 {
        samples.push(1024 * k + 128);
        samples.push(1024 * k + 384);
        samples.push(1_048_576 * k + 131_072);
    }
    let mut x: u64 = 0x9e37_79b9_7f4a_7c15;
    for _ in 0..5000 {
        x ^= x << 13;
        x ^= x >> 7;
        x ^= x << 17;
        samples.push(x >> (x % 60));
    }
    for b in samples {
        assert_eq!(format_bytes(b), format_bytes_with_doubles(b), "bytes = {b}");
    }
}

#[test]
fn sanitize_error_shortens_wording_and_paths() {
    assert_eq!(
        sanitize_error_message("No such file or directory: /tmp/x"),
        "File not found: ~/x"
    );
    assert_eq!(sanitize_error_message("Operation not permitted"), "Not allowed");
    assert_eq!(sanitize_error_message("C:\\Users\\ann\\a.txt"), "~\\ann\\a.txt");
    assert_eq!(sanitize_error_message("   "), "An error occurred");
    assert_eq!(sanitize_error_message("  /etc/passwd  "), "~/passwd");
}

#[test]
fn sanitize_filename_keeps_printable_text() {
    assert_eq!(sanitize_filename("a\tb\nc\u{7f}d\u{85}e"), "abcde");
    assert_eq!(sanitize_filename("naïve résumé.txt"), "naïve résumé.txt");
    let long: String = "é".repeat(300);
    assert_eq!(sanitize_filename(&long).chars().count(), 255);
    let once = sanitize_filename("x\u{0}y");
    assert_eq!(sanitize_filename(&once), once);
}

#[test]
fn path_safety_rules() {
    assert!(!is_path_safe("/sys/kernel"));
    assert!(!is_path_safe("a\0b"));
    assert!(!is_path_safe("~/.gnupg/key"));
    assert!(is_path_safe("/home/sys"));
    assert!(is_path_safe("/tmp/.ssh"));
}

// ---------------------------------------------------------------- paths

#[test]
fn path_components_and_parents() {
    assert_eq!(parent("/a/b/"), Some("/a".to_string()));
    assert_eq!(parent("/a"), Some("/".to_string()));
    assert_eq!(parent("/"), None);
    assert_eq!(parent(""), None);
    assert_eq!(parent("a"), Some("".to_string()));
    assert_eq!(file_name("/a/b/."), Some("b".to_string()));
    assert_eq!(file_name("/a/.."), None);
    assert!(same_path("/a//b/", "/a/b"));
    assert!(!same_path("./a", "a"));
    assert_eq!(join("/tmp", "x"), "/tmp/x");
    assert_eq!(join("/tmp", "/etc"), "/etc");
}

#[test]
fn paths_agree_with_std() {
    let samples = [
        "", "/", "//", "a", "a/", "/a", "/a/", "/a/b", "/a/b/", "/a/b/.", "/a/./b", "/a/../b",
        "./", ".", "./a", "./a/b", "..", "../a", "a/..", "a//b", "/.", "./.", "a/.", ".a",
        "..a", "a..", "/a/b/./", "///a///b///", ". /x", "a/.b/", "/./a",
    ];
    for x in samples {
        let p = Path::new(x);
        assert_eq!(
            parent(x).map(|q| Path::new(&q).to_path_buf()),
            p.parent().map(|q| q.to_path_buf()),
            "parent of {x:?}"
        );
        if let (Some(mine), Some(theirs)) = (parent(x), p.parent()) {
            assert_eq!(mine, theirs.to_string_lossy(), "parent text of {x:?}");
        }
        assert_eq!(
            file_name(x),
            p.file_name().map(|n| n.to_string_lossy().into_owned()),
            "file name of {x:?}"
        );
        for y in samples {
            assert_eq!(same_path(x, y), p == Path::new(y), "{x:?} == {y:?}");
            assert_eq!(
                join(x, y),
                p.join(y).to_string_lossy(),
                "{x:?} joined with {y:?}"
            );
            assert_eq!(
                is_safe_child(x, y),
                Path::new(y).parent() == Some(p) && Path::new(y).file_name().is_some(),
                "{y:?} inside {x:?}"
            );
        }
        let valid = !x.is_empty()
            && x != "."
            && x != ".."
            && p.components().count() == 1
            && p.file_name().is_some();
        assert_eq!(is_valid_entry_name(x), valid, "valid name {x:?}");
        let mut items: Vec<JunkItem> = samples
            .iter()
            .map(|s| JunkItem { path: s.to_string(), size: 0, reason: String::new() })
            .collect();
        items.reverse();
        let mine: Vec<String> = sort_junk(items.clone()).into_iter().map(|j| j.path).collect();
        items.sort_by(|l, r| Path::new(&l.path).cmp(Path::new(&r.path)));
        let theirs: Vec<String> = items.into_iter().map(|j| j.path).collect();
        assert_eq!(mine, theirs);
    }
}

#[test]
fn valid_names_stay_inside_their_folder() {
    for dir in ["/tmp/work", "/tmp/work/", "", ".", "/", "a/./b"] {
        for name in ["report.txt", ".hidden", "a/", "x y"] {
            assert!(is_valid_entry_name(name), "{name}");
            assert!(is_safe_child(dir, &join(dir, name)), "{dir} + {name}");
        }
    }
    for name in [".", "..", "/", "/abs", "./a", "a/b", ""] {
        assert!(!is_valid_entry_name(name), "{name}");
    }
}

// ---------------------------------------------------------------- keys

#[test]
fn keys_reach_the_main_view() {
    let mut app = app_in("/tmp/work");
    assert_eq!(app.handle_event(Event::Tick), Some(Action::Tick));
    assert_eq!(app.handle_event(Event::Resize), Some(Action::Tick));
    assert_eq!(app.handle_event(Event::Error), Some(Action::Quit));
    assert_eq!(app.handle_event(press(KeyCode::Char('q'))), Some(Action::Quit));
    assert_eq!(
        app.handle_event(Event::Key(KeyInput { code: KeyCode::Char('c'), ctrl: true, press: true })),
        Some(Action::Quit)
    );
    assert_eq!(
        app.handle_event(Event::Key(KeyInput { code: KeyCode::Char('q'), ctrl: false, press: false })),
        None
    );
    assert_eq!(app.handle_event(press(KeyCode::Char('3'))), Some(Action::SwitchTab(Tab::Packages)));
    assert_eq!(app.handle_event(press(KeyCode::F(5))), Some(Action::SwitchTab(Tab::Storage)));
    assert_eq!(app.handle_event(press(KeyCode::F(9))), None);
    assert_eq!(app.handle_event(press(KeyCode::Char('r'))), None);
    app.current_tab = Tab::Devices;
    assert_eq!(app.handle_event(press(KeyCode::Char('r'))), Some(Action::RefreshDevices));
    app.current_tab = Tab::Files;
    assert_eq!(app.handle_event(press(KeyCode::Char('r'))), Some(Action::RefreshFiles));
    assert_eq!(app.handle_event(press(KeyCode::Left)), Some(Action::GoUp));
    assert_eq!(app.handle_event(press(KeyCode::Enter)), Some(Action::OpenSelected));
    app.files.items = vec![file("sub", true)];
    assert_eq!(
        app.handle_event(press(KeyCode::Enter)),
        Some(Action::Navigate("/tmp/work/sub".to_string()))
    );
}

#[test]
fn overlays_take_the_keys_first() {
    let mut app = app_in("/tmp/work");
    app.update(Action::StartNewFile);
    assert_eq!(app.handle_event(press(KeyCode::Char('q'))), Some(Action::PromptInput('q')));
    assert_eq!(app.handle_event(press(KeyCode::Char('1'))), Some(Action::PromptInput('1')));
    assert_eq!(app.handle_event(press(KeyCode::Up)), None);
    assert_eq!(app.handle_event(press(KeyCode::Esc)), Some(Action::CancelOverlay));
    app.show_help = true;
    assert_eq!(app.handle_event(press(KeyCode::Char('q'))), None);
    assert_eq!(app.handle_event(press(KeyCode::Char('?'))), Some(Action::ToggleHelp));
    app.show_settings = true;
    assert_eq!(app.handle_event(press(KeyCode::Char('l'))), Some(Action::SettingsNextSection));
    assert_eq!(app.handle_event(press(KeyCode::Char(' '))), Some(Action::SettingsSelect));
    assert_eq!(app.handle_event(press(KeyCode::Char('s'))), Some(Action::CancelOverlay));
    let mut confirm = app_in("/tmp/work");
    confirm.delete_confirmation = Some("/tmp/work/a".to_string());
    assert_eq!(confirm.handle_event(press(KeyCode::Char('y'))), Some(Action::ConfirmDelete));
    assert_eq!(confirm.handle_event(press(KeyCode::Char('n'))), Some(Action::CancelOverlay));
    assert_eq!(confirm.handle_event(press(KeyCode::Char('q'))), None);
}

// ---------------------------------------------------------------- actions

#[test]
fn tabs_and_settings_navigation() {
    let mut app = app_in("/");
    assert_eq!(app.current_tab, Tab::Monitor);
    assert_eq!(app.update(Action::PreviousTab), Effect::Nothing);
    assert_eq!(app.current_tab, Tab::Info);
    app.update(Action::NextTab);
    assert_eq!(app.current_tab, Tab::Monitor);
    for i in 0..8 {
        assert_eq!(Tab::at(i).index(), i);
        assert_eq!(Tab::at(i).adjacent(1).adjacent(-1), Tab::at(i));
    }
    assert_eq!(Tab::Junk.label(), "Junk Cleaner");
    assert_eq!(SettingsSection::About.adjacent(1), SettingsSection::Theme);

    app.update(Action::ToggleSettings);
    assert!(app.show_settings);
    app.update(Action::SettingsPrevItem);
    assert_eq!(app.settings_selected, 4);
    app.update(Action::SettingsNextItem);
    assert_eq!(app.settings_selected, 0);
    app.update(Action::SettingsNextItem);
    app.update(Action::SettingsNextItem);
    assert_eq!(
        app.update(Action::SettingsSelect),
        Effect::SetTheme(ThemeKind::Greenish)
    );
    assert_eq!(app.status_message, "Theme changed to Greenish");
    app.update(Action::SettingsNextSection);
    assert_eq!(app.settings_section, SettingsSection::About);
    assert_eq!(app.settings_selected, 0);
    app.update(Action::SettingsNextItem);
    assert_eq!(app.settings_selected, 0);
    assert_eq!(app.update(Action::SettingsSelect), Effect::Nothing);
    app.update(Action::CancelOverlay);
    assert!(!app.show_settings);
}

#[test]
fn tick_asks_for_samples() {
    let mut app = app_in("/");
    assert_eq!(app.update(Action::Tick), Effect::Refresh { storage: false });
    assert_eq!(app.scroll_offset, usize::MAX);
    app.update(Action::SwitchTab(Tab::Storage));
    assert_eq!(app.scroll_offset, 0);
    assert_eq!(app.update(Action::Tick), Effect::Refresh { storage: true });
    app.update(Action::Quit);
    assert!(!app.running);
}

#[test]
fn switching_to_an_empty_view_starts_its_scan() {
    let mut app = app_in("/");
    assert_eq!(app.update(Action::SwitchTab(Tab::Apps)), Effect::ScanApps);
    assert!(app.apps.is_scanning);
    assert_eq!(app.update(Action::SwitchTab(Tab::Apps)), Effect::Nothing);
    assert_eq!(app.status_message, "Scanning installed applications");
    assert_eq!(app.update(Action::SwitchTab(Tab::Packages)), Effect::ScanPackages);
    assert!(app.packages.is_scanning);
    assert_eq!(app.update(Action::SwitchTab(Tab::Junk)), Effect::ScanJunk);
    assert!(app.junk.is_scanning);
    assert_eq!(app.status_message, "Scanning for reclaimable files");
}

#[test]
fn dialog_input_is_bounded_and_printable() {
    let mut app = app_in("/tmp/work");
    app.update(Action::StartNewFolder);
    assert_eq!(app.file_dialog, Some(FileDialog::NewFolder));
    app.update(Action::PromptInput('\u{7}'));
    assert_eq!(app.dialog_input, "");
    for _ in 0..130 {
        app.update(Action::PromptInput('ü'));
    }
    assert_eq!(app.dialog_input.chars().count(), MAX_DIALOG_INPUT);
    app.update(Action::PromptBackspace);
    assert_eq!(app.dialog_input.chars().count(), MAX_DIALOG_INPUT - 1);
    app.dialog_input.clear();
    app.update(Action::PromptBackspace);
    assert_eq!(app.dialog_input, "");
}

#[test]
fn submitting_the_dialog_asks_for_file_work() {
    let mut app = app_in("/tmp/work");
    app.update(Action::StartNewFile);
    for c in "  notes.txt ".chars() {
        app.update(Action::PromptInput(c));
    }
    let effect = app.update(Action::SubmitPrompt);
    assert_eq!(effect, Effect::CreateFile("/tmp/work/notes.txt".to_string()));
    if let Effect::CreateFile(path) = &effect {
        assert!(is_safe_child("/tmp/work", path));
    }
    app.finish_file_dialog(FileOutcome::Done);
    assert_eq!(app.status_message, "File created");
    assert!(app.files_rescan_requested);
    assert_eq!(app.file_dialog, None);

    let mut bad = app_in("/tmp/work");
    bad.update(Action::StartNewFolder);
    for c in "../up".chars() {
        bad.update(Action::PromptInput(c));
    }
    assert_eq!(bad.update(Action::SubmitPrompt), Effect::Nothing);
    assert_eq!(
        bad.status_message,
        "Use a simple file or folder name without path separators"
    );
    assert_eq!(bad.file_dialog, Some(FileDialog::NewFolder));

    let mut folder = app_in("/tmp/work");
    folder.update(Action::StartNewFolder);
    folder.update(Action::PromptInput('d'));
    assert_eq!(
        folder.update(Action::SubmitPrompt),
        Effect::CreateFolder("/tmp/work/d".to_string())
    );
    folder.finish_file_dialog(FileOutcome::Failed("Permission denied /home/x".to_string()));
    assert_eq!(folder.status_message, "Operation failed: Access denied ~/x");
    assert_eq!(folder.file_dialog, Some(FileDialog::NewFolder));
}

#[test]
fn renaming_an_entry() {
    let mut app = app_in("/tmp/work");
    app.update(Action::StartRename);
    assert_eq!(app.status_message, "Select a file or folder to rename");
    app.files.items = vec![file("old.txt", false)];
    app.update(Action::StartRename);
    assert_eq!(app.file_dialog, Some(FileDialog::Rename));
    assert_eq!(app.dialog_input, "old.txt");
    assert_eq!(app.update(Action::SubmitPrompt), Effect::Nothing);
    assert_eq!(app.status_message, "Name unchanged");
    assert_eq!(app.file_dialog, None);

    app.update(Action::StartRename);
    app.update(Action::PromptInput('2'));
    assert_eq!(
        app.update(Action::SubmitPrompt),
        Effect::Rename {
            from: "/tmp/work/old.txt".to_string(),
            to: "/tmp/work/old.txt2".to_string(),
        }
    );
    app.finish_file_dialog(FileOutcome::AlreadyExists);
    assert_eq!(app.status_message, "An item with that name already exists");
    app.finish_file_dialog(FileOutcome::Done);
    assert_eq!(app.status_message, "Item renamed");
}

#[test]
fn deleting_an_entry() {
    let mut app = app_in("/tmp/work");
    app.update(Action::StartDelete);
    assert_eq!(app.status_message, "Select a file or folder to delete");
    app.files.items = vec![file("a", false), file("b", false)];
    app.files.selected = 1;
    app.update(Action::StartDelete);
    assert_eq!(app.delete_confirmation, Some("/tmp/work/b".to_string()));
    assert_eq!(app.update(Action::ConfirmDelete), Effect::DeletePath("/tmp/work/b".to_string()));
    assert_eq!(app.delete_confirmation, None);
    app.finish_delete(Ok(()));
    assert_eq!(app.status_message, "Item deleted");
    assert_eq!(app.files.selected, 0);
    assert!(app.files_rescan_requested);

    app.delete_confirmation = Some("/tmp/other/b".to_string());
    assert_eq!(app.update(Action::ConfirmDelete), Effect::Nothing);
    assert_eq!(app.status_message, "Refused to delete an unsafe path");
    app.delete_confirmation = Some("/tmp/work/..".to_string());
    assert_eq!(app.update(Action::ConfirmDelete), Effect::Nothing);
    assert_eq!(app.status_message, "Refused to delete an unsafe path");

    app.finish_delete(Err("No such file or directory".to_string()));
    assert_eq!(app.status_message, "Delete failed: File not found");
}

#[test]
fn opening_and_moving_between_folders() {
    let mut app = app_in("/tmp/work");
    assert_eq!(app.update(Action::OpenSelected), Effect::Nothing);
    assert_eq!(app.status_message, "Select a file or folder first");
    app.files.items = vec![file("a.pdf", false)];
    assert_eq!(
        app.update(Action::OpenSelected),
        Effect::OpenPath("/tmp/work/a.pdf".to_string())
    );
    app.finish_open(Ok(()));
    assert_eq!(app.status_message, "Opened with the system default application");
    app.finish_open(Err("Permission denied".to_string()));
    assert_eq!(app.status_message, "Unable to open item: Access denied");

    app.update(Action::GoUp);
    assert_eq!(app.files.current_dir, "/tmp");
    assert_eq!(app.status_message, "Moved to parent folder");
    app.update(Action::GoUp);
    app.update(Action::GoUp);
    assert_eq!(app.files.current_dir, "/");
    app.status_message = "x".to_string();
    app.update(Action::GoUp);
    assert_eq!(app.files.current_dir, "/");
    assert_eq!(app.status_message, "x");
    app.update(Action::Navigate("/srv".to_string()));
    assert_eq!(app.files.current_dir, "/srv");
    assert_eq!(app.status_message, "Opening folder");
}

#[test]
fn junk_and_device_actions_ask_for_work() {
    let mut app = app_in("/");
    assert_eq!(app.update(Action::DeleteJunk), Effect::DeleteSelectedJunk);
    assert_eq!(app.status_message, "Selected junk item removed when permitted");
    assert_eq!(app.update(Action::DeleteAllJunk), Effect::DeleteAllJunk);
    assert_eq!(app.status_message, "Junk cleanup completed");
    assert_eq!(app.update(Action::RefreshDevices), Effect::RefreshDevices);
    assert_eq!(app.status_message, "USB device list refreshed");
}

// ---------------------------------------------------------------- scan messages

#[test]
fn stale_folder_scans_are_ignored() {
    let mut app = app_in("/tmp/work");
    let g = app.files.begin_scan();
    app.handle_file_msg(FileMsg::Done("/tmp/work".to_string(), g.wrapping_sub(1), vec![file("x", false)]));
    assert!(app.files.items.is_empty());
    app.handle_file_msg(FileMsg::Done("/elsewhere".to_string(), g, vec![file("x", false)]));
    assert!(app.files.items.is_empty());
    app.files.selected = 7;
    app.handle_file_msg(FileMsg::Done(
        "/tmp/work/".to_string(),
        g,
        vec![file("x", false), file("y", false)],
    ));
    assert_eq!(app.files.items.len(), 2);
    assert_eq!(app.files.selected, 1);
    assert!(!app.files.is_scanning);
    app.handle_file_msg(FileMsg::Start("/tmp/work".to_string(), g));
    assert!(app.files.is_scanning);
    assert!(app.files.items.is_empty());
}

#[test]
fn scan_results_replace_the_lists() {
    let mut app = app_in("/");
    app.handle_junk_msg(JunkMsg::Done(vec![
        JunkItem { path: "/t/a.tmp".to_string(), size: 5, reason: "Temp/Log File".to_string() },
        JunkItem { path: "/t/b.log".to_string(), size: 7, reason: "Temp/Log File".to_string() },
    ]));
    assert_eq!(app.junk.total_size, 12);
    assert!(!app.junk.is_scanning);
    app.handle_junk_msg(JunkMsg::Start);
    assert_eq!(app.junk.total_size, 0);
    assert!(app.junk.is_scanning);

    app.apps.selected = 5;
    app.handle_apps_msg(AppsMsg::Done(vec![AppItem {
        name: "Editor".to_string(),
        path: "/apps/editor".to_string(),
        size: 1,
    }]));
    assert_eq!(app.apps.selected, 0);
    app.handle_apps_msg(AppsMsg::Start);
    assert!(app.apps.items.is_empty() && app.apps.is_scanning);

    app.packages.uninstall_cmd = "old".to_string();
    app.handle_pkgs_msg(PkgsMsg::Done(vec![PackageItem {
        name: "ripgrep".to_string(),
        version: "14.1.0".to_string(),
        manager: "cargo".to_string(),
    }]));
    assert_eq!(app.packages.uninstall_cmd, "");
    assert_eq!(app.update(Action::ShowUninstallCmd), Effect::Nothing);
    assert_eq!(app.packages.uninstall_cmd, "cargo uninstall ripgrep");
}

// ---------------------------------------------------------------- orders

#[test]
fn folder_listing_order() {
    let items = vec![
        file("b.txt", false),
        file("Zeta", true),
        file("a.txt", false),
        file("B.txt", false),
        file("alpha", true),
    ];
    let sorted: Vec<String> = sort_entries(items.clone()).into_iter().map(|i| i.name).collect();
    assert_eq!(sorted, vec!["alpha", "Zeta", "a.txt", "B.txt", "b.txt"]);

    let mut expected = items;
    expected.sort_by(|left, right| {
        right
            .is_dir
            .cmp(&left.is_dir)
            .then_with(|| left.name.to_lowercase().cmp(&right.name.to_lowercase()))
            .then_with(|| left.name.cmp(&right.name))
    });
    let expected: Vec<String> = expected.into_iter().map(|i| i.name).collect();
    assert_eq!(sorted, expected);
}

#[test]
fn application_order_is_stable_and_ignores_case() {
    let item = |name: &str, path: &str| AppItem { name: name.to_string(), path: path.to_string(), size: 0 };
    let sorted = sort_apps(vec![
        item("zed", "1"),
        item("Ärger", "2"),
        item("ABC", "3"),
        item("abc", "4"),
        item("Bee", "5"),
    ]);
    let paths: Vec<&str> = sorted.iter().map(|a| a.path.as_str()).collect();
    assert_eq!(paths, vec!["3", "4", "5", "1", "2"]);
}

#[test]
fn junk_is_listed_in_path_order() {
    let item = |path: &str| JunkItem { path: path.to_string(), size: 1, reason: String::new() };
    let sorted = sort_junk(vec![item("/a.b"), item("/a/b"), item("/a"), item("/A/z")]);
    let paths: Vec<&str> = sorted.iter().map(|j| j.path.as_str()).collect();
    assert_eq!(paths, vec!["/A/z", "/a", "/a/b", "/a.b"]);
    let mut expected = vec!["/a.b", "/a/b", "/a", "/A/z"];
    expected.sort_by(|l, r| Path::new(l).cmp(Path::new(r)));
    assert_eq!(paths, expected);
}

#[test]
fn junk_keeps_the_first_item_of_each_path() {
    let item = |path: &str, size: u64| JunkItem { path: path.to_string(), size, reason: String::new() };
    let kept = first_of_each_path_items(vec![
        item("/t/a.log", 1),
        item("/t/b.tmp", 2),
        item("/t//a.log", 3),
        item("/t/./b.tmp", 4),
        item("/t/c.log", 5),
        item("/t/a.log/", 6),
    ]);
    let got: Vec<(&str, u64)> = kept.iter().map(|j| (j.path.as_str(), j.size)).collect();
    assert_eq!(got, vec![("/t/a.log", 1), ("/t/b.tmp", 2), ("/t/c.log", 5)]);
    assert!(first_of_each_path_items(Vec::new()).is_empty());
}

#[test]
fn devices_are_listed_by_bus_and_address() {
    let dev = |bus: u8, address: u8| UsbDeviceInfo {
        bus,
        address,
        vendor_id: 1,
        product_id: 2,
        manufacturer: "m".to_string(),
        product: "p".to_string(),
    };
    let mut state = DevicesState::new();
    state.selected = 9;
    state.refresh_with(Some(vec![dev(2, 1), dev(1, 5), dev(1, 2)]));
    let order: Vec<(u8, u8)> = state.devices.iter().map(|d| (d.bus, d.address)).collect();
    assert_eq!(order, vec![(1, 2), (1, 5), (2, 1)]);
    assert_eq!(state.selected, 2);
    state.refresh_with(None);
    assert!(state.devices.is_empty());
    assert_eq!(state.selected, 0);
}

#[test]
fn list_views_keep_the_cursor_visible() {
    assert_eq!(view_offset_exec(0, 5, 10), 0);
    assert_eq!(view_offset_exec(3, 50, 10), 3);
    assert_eq!(view_offset_exec(45, 50, 10), 40);
    assert_eq!(clamp_scroll_exec(7, 10, 6), 4);
    assert_eq!(clamp_scroll_exec(2, 10, 6), 2);
    assert_eq!(clamp_scroll_exec(usize::MAX, 3, 6), 0);
}

// ---------------------------------------------------------------- junk

#[test]
fn junk_cleanup_accounts_for_every_item() {
    let item = |p: &str, size: u64| JunkItem { path: p.to_string(), size, reason: String::new() };
    let mut state = JunkState::new();
    state.items = vec![item("a", 10), item("b", 20), item("c", 30)];
    state.total_size = 60;
    state.selected = 2;
    let removed = state.delete_all(&vec![true, false, true]);
    assert_eq!(removed, 2);
    assert_eq!(state.items.len(), 1);
    assert_eq!(state.items[0].path, "b");
    assert_eq!(state.total_size, 20);
    assert_eq!(state.selected, 0);

    state.items = vec![item("a", 10), item("b", 20)];
    state.total_size = 5;
    state.selected = 1;
    assert!(state.delete_selected(true));
    assert_eq!(state.total_size, 0);
    assert_eq!(state.selected, 0);
    state.selected = 3;
    assert!(!state.delete_selected(true));
    assert_eq!(state.items.len(), 1);
}

#[test]
fn junk_recognition() {
    assert_eq!(junk_reason("/x/Thumbs.db"), Some("System/Cache File"));
    assert_eq!(junk_reason("/x/a.LOG"), Some("Temp/Log File"));
    assert_eq!(junk_reason("/x/.tmp"), None);
    assert_eq!(junk_reason("/x/notes.txt"), None);
    assert_eq!(junk_reason("/x/archive.tar.old"), Some("Temp/Log File"));
    assert!(is_skipped_directory("/p/Node_Modules", true));
    assert!(!is_skipped_directory("/p/node_modules", false));
    assert!(!is_skipped_directory("/p/src", true));
}

// ---------------------------------------------------------------- packages

fn names(items: &[PackageItem]) -> Vec<(String, String, String)> {
    items
        .iter()
        .map(|p| (p.name.clone(), p.version.clone(), p.manager.clone()))
        .collect()
}

fn triple(n: &str, v: &str, m: &str) -> (String, String, String) {
    (n.to_string(), v.to_string(), m.to_string())
}

#[test]
fn package_listings_in_each_format() {
    let pip = b"Package    Version\n---------- -------\nrequests   2.31.0\nsolo\n";
    assert_eq!(
        names(&parse_whitespace_packages(pip, "pip", 2)),
        vec![triple("requests", "2.31.0", "pip")]
    );
    assert_eq!(
        names(&parse_whitespace_packages(b"git 2.43.0 2.44.0\r\n", "brew", 0)),
        vec![triple("git", "2.44.0", "brew")]
    );
    assert!(parse_whitespace_packages(b"a 1\n", "x", 5).is_empty());
    assert_eq!(
        names(&parse_line_packages(b"curl\t8.5.0-2\n\tbad\n", LineFormat::Separated('\t'), "apt")),
        vec![triple("curl", "8.5.0-2", "apt")]
    );
    assert_eq!(
        names(&parse_line_packages(b"git|2.44.0\n|x\n", LineFormat::Separated('|'), "choco")),
        vec![triple("git", "2.44.0", "choco")]
    );
    assert_eq!(
        names(&parse_line_packages(
            b"ripgrep v14.1.0:\n    rg\nbad 1.0:\n",
            LineFormat::Cargo,
            "cargo"
        )),
        vec![triple("ripgrep", "14.1.0", "cargo")]
    );
    assert_eq!(
        names(&parse_line_packages(b"rake (13.1.0)\nbundler 2.5\n", LineFormat::Gem, "gem")),
        vec![triple("rake", "13.1.0", "gem")]
    );
    assert_eq!(
        names(&parse_line_packages(
            b"info \"typescript@5.4.2\" has binaries:\n",
            LineFormat::Quoted,
            "yarn"
        )),
        vec![triple("typescript", "5.4.2", "yarn")]
    );
    assert_eq!(
        names(&parse_line_packages(b"ruff v0.4.1\n- ruff\n", LineFormat::Whitespace, "uv")),
        vec![triple("ruff", "v0.4.1", "uv"), triple("-", "ruff", "uv")]
    );
}

#[test]
fn at_version_listings_keep_bare_versions() {
    assert_eq!(
        names(&parse_line_packages(b"tool@v\nnpm@10.2.4\n", LineFormat::AtVersion, "npm")),
        vec![triple("tool", "", "npm"), triple("npm", "10.2.4", "npm")]
    );
    assert_eq!(
        names(&parse_line_packages(b"a|\n", LineFormat::Separated('|'), "choco")),
        vec![]
    );
}

#[test]
fn at_version_lines() {
    assert_eq!(
        parse_at_version("└── corepack@v0.25.2"),
        Some(("corepack".to_string(), "0.25.2".to_string()))
    );
    assert_eq!(parse_at_version("no version here"), None);
    assert_eq!(parse_at_version("@"), None);
    assert_eq!(parse_at_version("a b@1"), None);
}

#[test]
fn manager_json() {
    let go = b"{\"Path\": \"github.com/x/tool\", \"Version\": \"v1.2.0\"}\n{\"Path\": \"main\"}";
    assert_eq!(
        names(&parse_json_packages(go, "go")),
        vec![triple("tool", "v1.2.0", "go")]
    );
    assert_eq!(
        json_string_field(" \"name\" : \"a\\\"b\" ", "name"),
        Some("a\\\"b".to_string())
    );
    assert_eq!(json_string_field("\"name\": 3", "name"), None);
    assert_eq!(json_string_field("\"name\": \"open", "name"), None);
    // bytes that are not UTF-8 are read with replacement characters
    let lossy = b"{\"name\": \"caf\xe9\", \"version\": \"1\"}";
    assert_eq!(
        names(&parse_json_packages(lossy, "conda")),
        vec![triple("caf\u{fffd}", "1", "conda")]
    );
}

#[test]
fn output_lines() {
    assert_eq!(lines(b"a\r\nb\n\nc"), vec!["a", "b", "", "c"]);
    assert_eq!(lines(b"a\n"), vec!["a"]);
    assert!(lines(b"").is_empty());
    // output that is not UTF-8 has no lines
    assert!(lines(b"ok\n\xff\n").is_empty());
}

#[test]
fn uninstall_commands() {
    let mut state = PackagesState::new();
    state.generate_uninstall_cmd();
    assert_eq!(state.uninstall_cmd, "");
    for (manager, expected) in [
        ("brew", "brew uninstall x"),
        ("apt", "sudo apt remove x"),
        ("npm", "npm uninstall -g x"),
        ("go", "go clean -modcache # x"),
        ("other", "Unknown package manager"),
    ] {
        state.items = vec![PackageItem {
            name: "x".to_string(),
            version: "1".to_string(),
            manager: manager.to_string(),
        }];
        state.generate_uninstall_cmd();
        assert_eq!(state.uninstall_cmd, expected);
    }
}

// ---------------------------------------------------------------- the rest

#[test]
fn application_names() {
    assert_eq!(app_display_name("Safari.app"), "Safari");
    assert_eq!(app_display_name("org.gnome.Calculator.desktop"), "org.gnome.Calculator");
    assert_eq!(app_display_name("x.app.desktop"), "x");
}

#[test]
fn monitor_history_keeps_a_window() {
    let mut h: Vec<u64> = Vec::new();
    for v in 0..(HISTORY_LENGTH as u64 + 5) {
        push_history(&mut h, v);
    }
    assert_eq!(h.len(), HISTORY_LENGTH);
    assert_eq!(h[0], 5);
    assert_eq!(*h.last().unwrap(), HISTORY_LENGTH as u64 + 4);

    let mut m = MonitorHistory::new();
    m.record(10, vec![1, 2], 100, 50, 50, 4096, 2048);
    m.record(20, vec![3], 100, 60, 60, 6144, 2048);
    assert_eq!(m.core_usage, vec![3]);
    assert_eq!(*m.cpu_history.last().unwrap(), 20);
    assert_eq!(*m.net_rx_history.last().unwrap(), 2);
    assert_eq!(*m.net_tx_history.last().unwrap(), 0);
}

#[test]
fn machine_details_fall_back_to_unknown() {
    let info = InfoState::from_system(None, Some("14".to_string()), None, None, None, 8, 2048);
    assert_eq!(info.os_name, "Unknown");
    assert_eq!(info.os_version, "14");
    assert_eq!(info.cpu_brand, "Unknown CPU");
    assert_eq!(info.cpu_cores, 8);
    assert_eq!(info.total_ram, "2.00 KB");
}

#[test]
fn themes() {
    assert_eq!(ThemeKind::at(0).name(), "Smoked Amber");
    assert_eq!(ThemeKind::at(5), ThemeKind::at(0));
    assert_eq!(ThemeKind::Dracula.data().name, "Dracula");
    assert_eq!(FileDialog::Rename.title(), "Rename item");
    assert_eq!(FileDialog::NewFile.prompt(), "File name");
}

#[test]
fn rescans_follow_folder_changes() {
    let mut app = app_in("/tmp/work");
    assert_eq!(app.take_rescan("/tmp/work/"), None);
    app.update(Action::GoUp);
    let g = app.files.scan_generation;
    assert_eq!(app.take_rescan("/tmp/work"), Some(g.wrapping_add(1)));
    assert!(app.files.is_scanning);
    assert_eq!(app.take_rescan("/tmp"), None);
    app.update(Action::RefreshFiles);
    assert!(app.files_rescan_requested);
    assert_eq!(app.take_rescan("/tmp"), Some(g.wrapping_add(2)));
    assert!(!app.files_rescan_requested);
    // the result of the scan before is ignored
    app.handle_file_msg(FileMsg::Done("/tmp".to_string(), g.wrapping_add(1), vec![file("x", false)]));
    assert!(app.files.items.is_empty());
}

#[test]
fn keyed_orders_use_the_given_keys() {
    let sorted = sort_keyed_entries(vec![
        ("b".to_string(), file("A", false)),
        ("a".to_string(), file("B", false)),
        ("a".to_string(), file("A", false)),
        ("z".to_string(), file("z", true)),
    ]);
    let keys: Vec<(String, String)> = sorted.into_iter().map(|(k, f)| (k, f.name)).collect();
    assert_eq!(
        keys,
        vec![
            ("z".to_string(), "z".to_string()),
            ("a".to_string(), "A".to_string()),
            ("a".to_string(), "B".to_string()),
            ("b".to_string(), "A".to_string()),
        ]
    );
    let item = |name: &str| AppItem { name: name.to_string(), path: String::new(), size: 0 };
    let apps = sort_keyed_apps(vec![
        ("2".to_string(), item("first")),
        ("1".to_string(), item("second")),
        ("2".to_string(), item("third")),
    ]);
    let names: Vec<String> = apps.into_iter().map(|(_, a)| a.name).collect();
    assert_eq!(names, vec!["second", "first", "third"]);
}

#[test]
fn json_text_listing() {
    let packages = json_packages("[{\"name\":\"a/b\",\"version\":\"2\"},{\"name\":\"\",\"version\":\"1\"}]", "nix");
    assert_eq!(names(&packages), vec![triple("b", "2", "nix")]);
    assert!(json_packages("no objects", "nix").is_empty());
}

/// The floating-point computation that `usage_percent` stands for.
fn usage_percent_with_doubles(used: u64, total: u64) -> u16 {
    if total == 0 {
        0
    } else {
        ((used as f64 / total as f64) * 100.0).round().clamp(0.0, 100.0) as u16
    }
}

#[test]
fn usage_percent_agrees_with_doubles() {
    let mut samples: Vec<(u64, u64)> = vec![
        (0, 1),
        (1, 8),
        (3, 8),
        (5, 8),
        (1, 200),
        (3, 200),
        (199, 200),
        (1, 3),
        (2, 3),
        (u64::MAX, u64::MAX),
        (u64::MAX - 1, u64::MAX),
        (1, u64::MAX),
        (u64::MAX, 1),
        ((1 << 53) + 1, (1 << 54) + 3),
        (9_007_199_254_740_993, 18_014_398_509_481_985),
    ];
    for t in 1..=400u64 {
        for u in [0, 1, t / 200, t / 100, t / 3, t / 2, t - 1, t, t + 1, 2 * t] {
            samples.push((u, t));
        }
    }
    let mut x: u64 = 0x2545_f491_4f6c_dd1d;
    for _ in 0..20000 {
        x ^= x << 13;
        x ^= x >> 7;
        x ^= x << 17;
        let total = x >> (x % 64);
        x ^= x << 13;
        x ^= x >> 7;
        x ^= x << 17;
        let used = if x % 2 == 0 { x >> (x % 64) } else { total / ((x % 1000) + 1) * (x % 7) };
        samples.push((used, total));
    }
    // shares that lie exactly on a half percent
    for k in 0..200u64 {
        samples.push((2 * k + 1, 200));
        samples.push(((2 * k + 1) << 40, 200 << 40));
    }
    for (used, total) in samples {
        assert_eq!(
            usage_percent(used, total),
            usage_percent_with_doubles(used, total),
            "{used} / {total}"
        );
    }
}

#[test]
fn usage_percent_edges() {
    assert_eq!(usage_percent(7, 7), 100);
    assert_eq!(usage_percent(u64::MAX, u64::MAX), 100);
    assert_eq!(usage_percent(0, 5), 0);
    assert_eq!(usage_percent(5, 0), 0);
    assert_eq!(usage_percent(1, 8), 13);
    assert_eq!(usage_percent(1, 200), 1);
    assert_eq!(usage_percent(1, 201), 0);
    assert_eq!(usage_percent(u64::MAX, 1), 100);
}

#[test]
fn combined_volumes_and_levels() {
    assert_eq!(combined_space(&vec![], &vec![]), (0, 0, 0));
    assert_eq!(combined_space(&vec![100, 50], &vec![30, 10]), (150, 40, 110));
    assert_eq!(combined_space(&vec![u64::MAX, 5], &vec![1, 2]), (u64::MAX, 3, u64::MAX - 3));
    assert_eq!(combined_space(&vec![10], &vec![20]), (10, 20, 0));
    assert_eq!(usage_level(0), UsageLevel::Normal);
    assert_eq!(usage_level(69), UsageLevel::Normal);
    assert_eq!(usage_level(70), UsageLevel::Elevated);
    assert_eq!(usage_level(89), UsageLevel::Elevated);
    assert_eq!(usage_level(90), UsageLevel::Critical);
    assert_eq!(usage_level(100), UsageLevel::Critical);
}

#[test]
fn defaults() {
    assert_eq!(Tab::default(), Tab::Monitor);
    assert_eq!(SettingsSection::default(), SettingsSection::Theme);
    assert!(JunkState::default().items.is_empty());
    assert_eq!(PackagesState::default().uninstall_cmd, "");
    assert!(DevicesState::default().devices.is_empty());
    assert!(!yapraq::features::apps::AppsState::default().is_scanning);
    assert_eq!(MonitorHistory::default().cpu_history, vec![0; HISTORY_LENGTH]);
}

#[test]
fn settings_close_with_s() {
    let mut app = app_in("/");
    app.update(Action::ToggleSettings);
    let action = app.handle_event(press(KeyCode::Char('s'))).unwrap();
    assert_eq!(action, Action::CancelOverlay);
    app.update(action);
    assert!(!app.show_settings);
}

#[test]
fn scan_actions_ask_for_scans() {
    let mut app = app_in("/");
    assert_eq!(app.update(Action::ScanApps), Effect::ScanApps);
    assert_eq!(app.update(Action::ScanPackages), Effect::ScanPackages);
    assert_eq!(app.update(Action::ScanJunk), Effect::ScanJunk);
}

#[test]
fn folder_sizes_saturate() {
    assert_eq!(folder_size(&vec![]), 0);
    assert_eq!(folder_size(&vec![1, 2, 3]), 6);
    assert_eq!(folder_size(&vec![u64::MAX, 1, 2]), u64::MAX);
}

#[test]
fn usage_percent_rounds_exact_halves_up() {
    assert_eq!(usage_percent(3, 8), 38);
    assert_eq!(usage_percent(5, 8), 63);
    assert_eq!(usage_percent(7, 8), 88);
    assert_eq!(usage_percent(1, 8 << 40), 0);
    assert_eq!(usage_percent(1 << 40, 8 << 40), 13);
    for k in 1..=12u32 {
        let total = 1u64 << k;
        for used in 0..=total {
            let r = usage_percent(used, total) as u64;
            assert!(2 * r * total <= 200 * used + total, "{used} / {total}");
            assert!(200 * used + total < 2 * r * total + 2 * total, "{used} / {total}");
        }
    }
}

#[test]
fn usage_percent_rounds_and_grows() {
    assert_eq!(usage_percent(2, 3), 67);
    assert_eq!(usage_percent(1, 3), 33);
    assert_eq!(usage_percent(1, 8), 13);
    assert_eq!(usage_percent(995, 1000), 100);
    assert_eq!(usage_percent(994, 1000), 99);
    for total in [1u64, 3, 7, 200, 1000, 1 << 53, u64::MAX] {
        let mut last = 0;
        for k in 0..=400u64 {
            let used = ((total as u128 * k as u128) / 300).min(u64::MAX as u128) as u64;
            let r = usage_percent(used, total);
            assert!(r >= last, "{used} / {total}");
            if used <= total {
                let exact = 100.0 * used as f64 / total as f64;
                assert!((r as f64 - exact).abs() <= 0.5 + 1e-9, "{used} / {total}");
            }
            last = r;
        }
    }
}
