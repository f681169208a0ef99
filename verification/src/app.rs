//! The workspace: which view is shown, the overlays on top of it, and how
//! keys become actions and actions change the state. Work that reaches
//! outside the program (the file system, the USB bus, opening a file,
//! sampling the system) is returned as an `Effect` for the caller to carry
//! out; its outcome comes back through the `finish_*` methods.
use vstd::prelude::*;
use crate::features::apps::{AppItem, AppsMsg, AppsState};
use crate::features::devices::DevicesState;
use crate::features::files::{FileItem, FileMsg, FilesState, next_generation};
use crate::features::junk::{JunkItem, JunkMsg, JunkState, total_size_of};
use crate::features::packages::{PackageItem, PackagesState, PkgsMsg};
use crate::paths::{
    file_name, file_name_spec, is_safe_child, is_valid_entry_name, join, join_spec, safe_child_spec,
    same_path, same_path_spec, valid_entry_name_spec, components, is_prefix, tail_trimmed,
};
use crate::selection::{clamp_index, next_index, prev_index};
use crate::text::{is_control, is_control_char, pop_char, push_char, trim, concat_str};
use crate::theme::{THEME_COUNT, ThemeKind, theme_at, theme_name};
use crate::utils::{
    is_path_safe, path_safe, sanitize_error_message, sanitize_error_spec, sanitize_filename,
    sanitize_filename_spec,
};

verus! {

/// The different main views of the application.
#[derive(Debug, PartialEq, Eq, Clone, Copy, Structural)]
pub enum Tab {
    Monitor,
    Apps,
    Packages,
    Files,
    Storage,
    Junk,
    Devices,
    Info,
}

/// How many views there are.
pub const TAB_COUNT: usize = 8;

/// The views in sidebar order.
pub open spec fn tab_at(i: int) -> Tab {
    if i == 0 {
        Tab::Monitor
    } else if i == 1 {
        Tab::Apps
    } else if i == 2 {
        Tab::Packages
    } else if i == 3 {
        Tab::Files
    } else if i == 4 {
        Tab::Storage
    } else if i == 5 {
        Tab::Junk
    } else if i == 6 {
        Tab::Devices
    } else {
        Tab::Info
    }
}

pub open spec fn tab_index(t: Tab) -> int {
    match t {
        Tab::Monitor => 0,
        Tab::Apps => 1,
        Tab::Packages => 2,
        Tab::Files => 3,
        Tab::Storage => 4,
        Tab::Junk => 5,
        Tab::Devices => 6,
        Tab::Info => 7,
    }
}

pub open spec fn tab_label(t: Tab) -> Seq<char> {
    match t {
        Tab::Monitor => "Dashboard"@,
        Tab::Apps => "Applications"@,
        Tab::Packages => "Packages"@,
        Tab::Files => "Files"@,
        Tab::Storage => "Storage"@,
        Tab::Junk => "Junk Cleaner"@,
        Tab::Devices => "Devices"@,
        Tab::Info => "System Info"@,
    }
}

/// `i + delta` taken around a ring of `n` positions.
pub open spec fn wrap(i: int, delta: int, n: int) -> int {
    (i + delta) % n
}

/// `i + delta` around a ring of `n`, without overflow.
fn wrap_exec(i: usize, delta: i32, n: usize) -> (r: usize)
    requires
        0 < n <= 8,
        i < n,
    ensures
        r == wrap(i as int, delta as int, n as int),
        r < n,
{
    let s: i64 = i as i64 + delta as i64;
    let m: i64 = n as i64;
    if s >= 0 {
        (s % m) as usize
    } else {
        let t: i64 = -(s + 1);
        let k: i64 = t % m;
        proof {
            let si = s as int;
            let mi = m as int;
            let ti = t as int;
            let ki = k as int;
            vstd::arithmetic::div_mod::lemma_fundamental_div_mod(ti, mi);
            let q = ti / mi;
            assert(0 <= ki < mi);
            assert(si == (-1 - q) * mi + (mi - 1 - ki)) by (nonlinear_arith)
                requires
                    ti == mi * q + ki,
                    ti == -(si + 1),
            ;
            vstd::arithmetic::div_mod::lemma_fundamental_div_mod_converse(
                si,
                mi,
                -1 - q,
                mi - 1 - ki,
            );
        }
        (m - 1 - k) as usize
    }
}

impl Default for Tab {
    /// The dashboard.
    fn default() -> (t: Self)
        ensures
            t == Tab::Monitor,
    {
        Tab::Monitor
    }
}

impl Tab {
    /// The view at a sidebar position (positions wrap).
    pub fn at(i: usize) -> (t: Tab)
        requires
            i < TAB_COUNT,
        ensures
            t == tab_at(i as int),
    {
        if i == 0 {
            Tab::Monitor
        } else if i == 1 {
            Tab::Apps
        } else if i == 2 {
            Tab::Packages
        } else if i == 3 {
            Tab::Files
        } else if i == 4 {
            Tab::Storage
        } else if i == 5 {
            Tab::Junk
        } else if i == 6 {
            Tab::Devices
        } else {
            Tab::Info
        }
    }

    /// The sidebar position of the view.
    pub fn index(self) -> (i: usize)
        ensures
            i == tab_index(self),
    {
        match self {
            Tab::Monitor => 0,
            Tab::Apps => 1,
            Tab::Packages => 2,
            Tab::Files => 3,
            Tab::Storage => 4,
            Tab::Junk => 5,
            Tab::Devices => 6,
            Tab::Info => 7,
        }
    }

    pub fn label(self) -> (s: &'static str)
        ensures
            s@ == tab_label(self),
    {
        match self {
            Tab::Monitor => "Dashboard",
            Tab::Apps => "Applications",
            Tab::Packages => "Packages",
            Tab::Files => "Files",
            Tab::Storage => "Storage",
            Tab::Junk => "Junk Cleaner",
            Tab::Devices => "Devices",
            Tab::Info => "System Info",
        }
    }

    /// The view `delta` places further along the sidebar, wrapping at both
    /// ends.
    pub fn adjacent(self, delta: i32) -> (t: Tab)
        ensures
            t == tab_at(wrap(tab_index(self), delta as int, TAB_COUNT as int)),
    {
        Tab::at(wrap_exec(self.index(), delta, TAB_COUNT))
    }
}

/// Moving one view forward and then one back returns to the same view, from
/// every view; and moving forward from the last view reaches the first.
pub proof fn law_tab_navigation_round_trip(t: Tab)
    ensures
        tab_at(wrap(tab_index(tab_at(wrap(tab_index(t), 1, 8))), -1, 8)) == t,
        tab_at(wrap(tab_index(tab_at(wrap(tab_index(t), -1, 8))), 1, 8)) == t,
        tab_at(wrap(tab_index(Tab::Info), 1, 8)) == Tab::Monitor,
        tab_at(wrap(tab_index(Tab::Monitor), -1, 8)) == Tab::Info,
{
}

/// The sidebar lists Dashboard, Applications, Packages, Files, Storage,
/// Junk Cleaner, Devices and System Info, in that order: moving down goes
/// to the next of them (from the last back to the first), moving up to the
/// one before, and every view has its own position.
pub proof fn law_sidebar_order(t: Tab)
    ensures
        tab_at(tab_index(t)) == t,
        0 <= tab_index(t) < TAB_COUNT,
        tab_at(wrap(tab_index(Tab::Monitor), 1, 8)) == Tab::Apps,
        tab_at(wrap(tab_index(Tab::Apps), 1, 8)) == Tab::Packages,
        tab_at(wrap(tab_index(Tab::Packages), 1, 8)) == Tab::Files,
        tab_at(wrap(tab_index(Tab::Files), 1, 8)) == Tab::Storage,
        tab_at(wrap(tab_index(Tab::Storage), 1, 8)) == Tab::Junk,
        tab_at(wrap(tab_index(Tab::Junk), 1, 8)) == Tab::Devices,
        tab_at(wrap(tab_index(Tab::Devices), 1, 8)) == Tab::Info,
        tab_at(wrap(tab_index(Tab::Info), 1, 8)) == Tab::Monitor,
        tab_at(wrap(tab_index(t), 1, 8)) != t,
        tab_label(Tab::Monitor) == "Dashboard"@,
        tab_label(Tab::Apps) == "Applications"@,
        tab_label(Tab::Packages) == "Packages"@,
        tab_label(Tab::Files) == "Files"@,
        tab_label(Tab::Storage) == "Storage"@,
        tab_label(Tab::Junk) == "Junk Cleaner"@,
        tab_label(Tab::Devices) == "Devices"@,
        tab_label(Tab::Info) == "System Info"@,
{
}

#[derive(Debug, Clone, Copy, PartialEq, Eq, Structural)]
pub enum FileDialog {
    NewFile,
    NewFolder,
    Rename,
}

impl FileDialog {
    pub fn title(self) -> (s: &'static str)
        ensures
            s@ == match self {
                FileDialog::NewFile => "Create file"@,
                FileDialog::NewFolder => "Create folder"@,
                FileDialog::Rename => "Rename item"@,
            },
    {
        match self {
            FileDialog::NewFile => "Create file",
            FileDialog::NewFolder => "Create folder",
            FileDialog::Rename => "Rename item",
        }
    }

    pub fn prompt(self) -> (s: &'static str)
        ensures
            s@ == match self {
                FileDialog::NewFile => "File name"@,
                FileDialog::NewFolder => "Folder name"@,
                FileDialog::Rename => "New name"@,
            },
    {
        match self {
            FileDialog::NewFile => "File name",
            FileDialog::NewFolder => "Folder name",
            FileDialog::Rename => "New name",
        }
    }
}

/// Sections within the settings overlay.
#[derive(Debug, Clone, Copy, PartialEq, Eq, Structural)]
pub enum SettingsSection {
    Theme,
    About,
}

pub open spec fn section_index(s: SettingsSection) -> int {
    match s {
        SettingsSection::Theme => 0,
        SettingsSection::About => 1,
    }
}

pub open spec fn section_at(i: int) -> SettingsSection {
    if i == 0 {
        SettingsSection::Theme
    } else {
        SettingsSection::About
    }
}

impl Default for SettingsSection {
    /// The theme section.
    fn default() -> (s: Self)
        ensures
            s == SettingsSection::Theme,
    {
        SettingsSection::Theme
    }
}

impl SettingsSection {
    pub fn label(self) -> (s: &'static str)
        ensures
            s@ == match self {
                SettingsSection::Theme => "Theme"@,
                SettingsSection::About => "About"@,
            },
    {
        match self {
            SettingsSection::Theme => "Theme",
            SettingsSection::About => "About",
        }
    }

    /// The section `delta` places further along, wrapping at both ends.
    pub fn adjacent(self, delta: i32) -> (s: SettingsSection)
        ensures
            s == section_at(wrap(section_index(self), delta as int, 2)),
    {
        let i: usize = match self {
            SettingsSection::Theme => 0,
            SettingsSection::About => 1,
        };
        if wrap_exec(i, delta, 2) == 0 {
            SettingsSection::Theme
        } else {
            SettingsSection::About
        }
    }
}

/// A key of the keyboard, as far as the workspace tells keys apart.
#[derive(Debug, Clone, Copy, PartialEq, Eq, Structural)]
pub enum KeyCode {
    Char(char),
    Enter,
    Esc,
    Backspace,
    Left,
    Up,
    Down,
    F(u8),
    Other,
}

/// A key event: the key, whether Control was held, and whether this is a
/// press (rather than a repeat or release).
#[derive(Debug, Clone, Copy, PartialEq, Eq, Structural)]
pub struct KeyInput {
    pub code: KeyCode,
    pub ctrl: bool,
    pub press: bool,
}

/// An event from the terminal or the clock.
#[derive(Debug, Clone, Copy, PartialEq, Eq, Structural)]
pub enum Event {
    Key(KeyInput),
    Resize,
    Tick,
    Error,
}

/// High-level actions that the application can perform.
#[derive(Debug, Clone, PartialEq, Eq)]
pub enum Action {
    Quit,
    Tick,
    SwitchTab(Tab),
    PreviousTab,
    NextTab,
    ToggleHelp,
    ToggleSettings,
    SettingsNextSection,
    SettingsPrevSection,
    SettingsNextItem,
    SettingsPrevItem,
    SettingsSelect,
    Navigate(String),
    OpenSelected,
    GoUp,
    SelectNext,
    SelectPrev,
    RefreshDevices,
    ScanJunk,
    DeleteJunk,
    DeleteAllJunk,
    ScanApps,
    ScanPackages,
    ShowUninstallCmd,
    StartNewFile,
    StartNewFolder,
    StartRename,
    StartDelete,
    RefreshFiles,
    PromptInput(char),
    PromptBackspace,
    SubmitPrompt,
    ConfirmDelete,
    CancelOverlay,
}

/// Work outside the program that an action asks for.
#[derive(Debug, Clone, PartialEq, Eq)]
pub enum Effect {
    /// Nothing to do.
    Nothing,
    /// Sample the system monitor, and the disks too when `storage`.
    Refresh { storage: bool },
    /// Open a path with the system's default application.
    OpenPath(String),
    /// Enumerate the USB devices again.
    RefreshDevices,
    /// Scan for the installed applications.
    ScanApps,
    /// Ask the package managers for the installed packages.
    ScanPackages,
    /// Scan the cache and temporary folders for junk files.
    ScanJunk,
    /// Remove the junk item under the cursor from disk.
    DeleteSelectedJunk,
    /// Remove every listed junk item from disk.
    DeleteAllJunk,
    /// Make a theme the active one.
    SetTheme(ThemeKind),
    /// Create a new, empty file (failing if it exists).
    CreateFile(String),
    /// Create a new folder.
    CreateFolder(String),
    /// Rename `from` to `to`, unless something already exists at `to`.
    Rename { from: String, to: String },
    /// Remove a file, or a folder with its contents.
    DeletePath(String),
}

/// The outcome of creating or renaming an entry.
#[derive(Debug, Clone, PartialEq, Eq)]
pub enum FileOutcome {
    Done,
    AlreadyExists,
    Failed(String),
}

/// The global application state.
#[derive(Debug)]
pub struct App {
    pub running: bool,
    pub current_tab: Tab,
    pub files: FilesState,
    pub devices: DevicesState,
    pub junk: JunkState,
    pub apps: AppsState,
    pub packages: PackagesState,
    pub show_help: bool,
    pub show_settings: bool,
    pub settings_section: SettingsSection,
    pub settings_selected: usize,
    pub file_dialog: Option<FileDialog>,
    pub dialog_input: String,
    pub dialog_target: Option<String>,
    pub delete_confirmation: Option<String>,
    pub status_message: String,
    pub files_rescan_requested: bool,
    pub scroll_offset: usize,
}

/// The longest name the file dialog accepts, in characters.
pub const MAX_DIALOG_INPUT: usize = 120;

// ----------------------------------------------------------------------
// keys to actions
// ----------------------------------------------------------------------

/// The action a key asks for in the settings overlay.
pub open spec fn settings_key(code: KeyCode) -> Option<Action> {
    match code {
        KeyCode::Esc => Some(Action::CancelOverlay),
        KeyCode::Up => Some(Action::SettingsPrevSection),
        KeyCode::Char('h') => Some(Action::SettingsPrevSection),
        KeyCode::Down => Some(Action::SettingsNextSection),
        KeyCode::Char('l') => Some(Action::SettingsNextSection),
        KeyCode::Char('j') => Some(Action::SettingsNextItem),
        KeyCode::Char('k') => Some(Action::SettingsPrevItem),
        KeyCode::Char('s') => Some(Action::CancelOverlay),
        KeyCode::Enter => Some(Action::SettingsSelect),
        KeyCode::Char(' ') => Some(Action::SettingsSelect),
        _ => None,
    }
}

/// The action a key asks for while the file dialog is open.
pub open spec fn dialog_key(code: KeyCode) -> Option<Action> {
    match code {
        KeyCode::Esc => Some(Action::CancelOverlay),
        KeyCode::Enter => Some(Action::SubmitPrompt),
        KeyCode::Backspace => Some(Action::PromptBackspace),
        KeyCode::Char(c) => Some(Action::PromptInput(c)),
        _ => None,
    }
}

/// The action a key asks for while a deletion waits for confirmation.
pub open spec fn confirm_key(code: KeyCode) -> Option<Action> {
    match code {
        KeyCode::Char('y') => Some(Action::ConfirmDelete),
        KeyCode::Enter => Some(Action::ConfirmDelete),
        KeyCode::Char('n') => Some(Action::CancelOverlay),
        KeyCode::Esc => Some(Action::CancelOverlay),
        _ => None,
    }
}

/// The view that a number key or function key jumps to.
pub open spec fn jump_key(code: KeyCode) -> Option<Tab> {
    match code {
        KeyCode::Char('1') => Some(Tab::Monitor),
        KeyCode::Char('2') => Some(Tab::Apps),
        KeyCode::Char('3') => Some(Tab::Packages),
        KeyCode::Char('4') => Some(Tab::Files),
        KeyCode::Char('5') => Some(Tab::Storage),
        KeyCode::Char('6') => Some(Tab::Junk),
        KeyCode::Char('7') => Some(Tab::Devices),
        KeyCode::Char('8') => Some(Tab::Info),
        KeyCode::F(n) => if 1 <= n <= 8 {
            Some(tab_at(n - 1))
        } else {
            None
        },
        _ => None,
    }
}

/// The action a key asks for in the main view.
pub open spec fn main_key(app: App, key: KeyInput) -> Option<Action> {
    let tab = app.current_tab;
    let files = tab == Tab::Files;
    match key.code {
        KeyCode::Char('c') if key.ctrl => Some(Action::Quit),
        KeyCode::Char('q') => Some(Action::Quit),
        KeyCode::Char('?') => Some(Action::ToggleHelp),
        KeyCode::Char('s') if key.ctrl => Some(Action::ToggleSettings),
        KeyCode::Up => Some(Action::PreviousTab),
        KeyCode::Down => Some(Action::NextTab),
        KeyCode::Char('j') => Some(Action::SelectNext),
        KeyCode::Char('k') => Some(Action::SelectPrev),
        KeyCode::Char('r') if tab == Tab::Devices => Some(Action::RefreshDevices),
        KeyCode::Char('r') if files => Some(Action::RefreshFiles),
        KeyCode::Char('d') if tab == Tab::Junk => Some(Action::DeleteJunk),
        KeyCode::Char('D') if tab == Tab::Junk => Some(Action::DeleteAllJunk),
        KeyCode::Char('i') if tab == Tab::Packages => Some(Action::ShowUninstallCmd),
        KeyCode::Char('s') if tab == Tab::Apps && !app.apps.is_scanning => Some(Action::ScanApps),
        KeyCode::Char('s') if tab == Tab::Packages && !app.packages.is_scanning => Some(
            Action::ScanPackages,
        ),
        KeyCode::Char('s') if tab == Tab::Junk && !app.junk.is_scanning => Some(Action::ScanJunk),
        KeyCode::Char('n') if files => Some(Action::StartNewFolder),
        KeyCode::Char('f') if files => Some(Action::StartNewFile),
        KeyCode::Char('e') if files => Some(Action::StartRename),
        KeyCode::Char('x') if files => Some(Action::StartDelete),
        KeyCode::Enter if files => {
            let sel = app.files.selected as int;
            if sel < app.files.items@.len() && app.files.items@[sel].is_dir {
                Some(Action::Navigate(app.files.items@[sel].path))
            } else {
                Some(Action::OpenSelected)
            }
        },
        KeyCode::Backspace if files => Some(Action::GoUp),
        KeyCode::Left if files => Some(Action::GoUp),
        _ => match jump_key(key.code) {
            Some(t) => Some(Action::SwitchTab(t)),
            None => None,
        },
    }
}

/// The action a key asks for: only presses count, and an open overlay
/// (settings, then help, then the file dialog, then a pending deletion)
/// takes the key before the main view.
pub open spec fn key_action(app: App, key: KeyInput) -> Option<Action> {
    if !key.press {
        None
    } else if app.show_settings {
        settings_key(key.code)
    } else if app.show_help {
        match key.code {
            KeyCode::Esc => Some(Action::ToggleHelp),
            KeyCode::Char('?') => Some(Action::ToggleHelp),
            _ => None,
        }
    } else if app.file_dialog is Some {
        dialog_key(key.code)
    } else if app.delete_confirmation is Some {
        confirm_key(key.code)
    } else {
        main_key(app, key)
    }
}

/// The action an event asks for.
pub open spec fn event_action(app: App, event: Event) -> Option<Action> {
    match event {
        Event::Tick => Some(Action::Tick),
        Event::Key(key) => key_action(app, key),
        Event::Resize => Some(Action::Tick),
        Event::Error => Some(Action::Quit),
    }
}

// ----------------------------------------------------------------------
// state changes
// ----------------------------------------------------------------------

/// The highest item position in the current settings section.
pub open spec fn settings_max(section: SettingsSection) -> int {
    match section {
        SettingsSection::Theme => THEME_COUNT - 1,
        SettingsSection::About => 0,
    }
}

/// The overlays are closed: no dialog, empty input, no target, no pending
/// deletion, settings closed with the cursor at the top.
pub open spec fn overlay_closed(old: App, new: App) -> bool {
    &&& new == App {
        dialog_input: new.dialog_input,
        file_dialog: None,
        dialog_target: None,
        delete_confirmation: None,
        show_settings: false,
        settings_selected: 0,
        ..old
    }
    &&& new.dialog_input@.len() == 0
}

/// A scan of the applications has started.
pub open spec fn apps_scan_started(old: App, new: App) -> bool {
    &&& new == App { apps: new.apps, status_message: new.status_message, ..old }
    &&& new.apps.items@.len() == 0
    &&& new.apps.selected == 0
    &&& new.apps.is_scanning
    &&& new.status_message@ == "Scanning installed applications"@
}

/// A scan of the packages has started.
pub open spec fn packages_scan_started(old: App, new: App) -> bool {
    &&& new == App { packages: new.packages, status_message: new.status_message, ..old }
    &&& new.packages.items@.len() == 0
    &&& new.packages.selected == 0
    &&& new.packages.is_scanning
    &&& new.packages.uninstall_cmd@.len() == 0
    &&& new.status_message@ == "Scanning installed packages"@
}

/// A scan for junk files has started.
pub open spec fn junk_scan_started(old: App, new: App) -> bool {
    &&& new == App { junk: new.junk, status_message: new.status_message, ..old }
    &&& new.junk.items@.len() == 0
    &&& new.junk.selected == 0
    &&& new.junk.is_scanning
    &&& new.junk.total_size == 0
    &&& new.status_message@ == "Scanning for reclaimable files"@
}

/// Only the status message changed, to `msg`.
pub open spec fn status_only(old: App, new: App, msg: Seq<char>) -> bool {
    new == App { status_message: new.status_message, ..old } && new.status_message@ == msg
}

/// The path of the entry under the file cursor.
pub open spec fn selected_path(app: App) -> Option<String> {
    let sel = app.files.selected as int;
    if sel < app.files.items@.len() {
        Some(app.files.items@[sel].path)
    } else {
        None
    }
}

/// The file dialog opened (input empty) with a target.
pub open spec fn dialog_opened(old: App, new: App, d: FileDialog, target: Option<String>) -> bool {
    &&& new == App {
        file_dialog: Some(d),
        dialog_target: new.dialog_target,
        dialog_input: new.dialog_input,
        ..old
    }
    &&& match (target, new.dialog_target) {
        (Some(a), Some(b)) => a@ == b@,
        (None, None) => true,
        _ => false,
    }
}

/// What the file dialog asks for when it is submitted.
pub open spec fn submit_post(old: App, new: App, effect: Effect) -> bool {
    match old.file_dialog {
        None => new == old && effect == Effect::Nothing,
        Some(d) => {
            let name = sanitize_filename_spec(trim(old.dialog_input@));
            let dest = join_spec(old.files.current_dir@, name);
            if !valid_entry_name_spec(name) {
                status_only(
                    old,
                    new,
                    "Use a simple file or folder name without path separators"@,
                ) && effect == Effect::Nothing
            } else {
                match d {
                    FileDialog::NewFile => new == old && (effect matches Effect::CreateFile(p)
                        && p@ == dest),
                    FileDialog::NewFolder => new == old && (effect matches Effect::CreateFolder(p)
                        && p@ == dest),
                    FileDialog::Rename => match old.dialog_target {
                        None => effect == Effect::Nothing && overlay_closed(
                            App { status_message: new.status_message, ..old },
                            new,
                        ) && new.status_message@ == "Nothing selected to rename"@,
                        Some(t) => if same_path_spec(t@, dest) {
                            effect == Effect::Nothing && overlay_closed(
                                App { status_message: new.status_message, ..old },
                                new,
                            ) && new.status_message@ == "Name unchanged"@
                        } else {
                            new == old && (effect matches Effect::Rename { from, to } && from@
                                == t@ && to@ == dest)
                        },
                    },
                }
            }
        },
    }
}

/// What a confirmed deletion asks for.
pub open spec fn confirm_post(old: App, new: App, effect: Effect) -> bool {
    match old.delete_confirmation {
        None => new == old && effect == Effect::Nothing,
        Some(t) => {
            let taken = App { delete_confirmation: None, ..old };
            if !safe_child_spec(old.files.current_dir@, t@) || !path_safe(t@) {
                status_only(taken, new, "Refused to delete an unsafe path"@) && effect
                    == Effect::Nothing
            } else {
                new == taken && (effect matches Effect::DeletePath(p) && p@ == t@)
            }
        },
    }
}

/// The state after an action, and the outside work it asks for.
pub open spec fn update_post(old: App, action: Action, new: App, effect: Effect) -> bool {
    match action {
        Action::Quit => new == App { running: false, ..old } && effect == Effect::Nothing,
        Action::SwitchTab(tab) => {
            let moved = App { current_tab: tab, scroll_offset: 0, ..old };
            if tab == Tab::Apps && old.apps.items@.len() == 0 && !old.apps.is_scanning {
                apps_scan_started(moved, new) && effect == Effect::ScanApps
            } else if tab == Tab::Packages && old.packages.items@.len() == 0
                && !old.packages.is_scanning {
                packages_scan_started(moved, new) && effect == Effect::ScanPackages
            } else if tab == Tab::Junk && old.junk.items@.len() == 0 && !old.junk.is_scanning {
                junk_scan_started(moved, new) && effect == Effect::ScanJunk
            } else {
                new == moved && effect == Effect::Nothing
            }
        },
        Action::PreviousTab => new == App {
            current_tab: tab_at(wrap(tab_index(old.current_tab), -1, 8)),
            scroll_offset: 0,
            ..old
        } && effect == Effect::Nothing,
        Action::NextTab => new == App {
            current_tab: tab_at(wrap(tab_index(old.current_tab), 1, 8)),
            scroll_offset: 0,
            ..old
        } && effect == Effect::Nothing,
        Action::ToggleHelp => new == App { show_help: !old.show_help, ..old } && effect
            == Effect::Nothing,
        Action::ToggleSettings => new == App {
            show_settings: !old.show_settings,
            settings_section: SettingsSection::Theme,
            settings_selected: 0,
            ..old
        } && effect == Effect::Nothing,
        Action::Tick => new == App {
            scroll_offset: if old.current_tab == Tab::Monitor {
                usize::MAX
            } else if old.current_tab == Tab::Info {
                0
            } else {
                old.scroll_offset
            },
            ..old
        } && effect == Effect::Refresh { storage: old.current_tab == Tab::Storage },
        Action::SelectNext => effect == Effect::Nothing && match old.current_tab {
            Tab::Apps => new == App {
                apps: AppsState {
                    selected: next_index(old.apps.selected as int, old.apps.items@.len() as int)
                        as usize,
                    ..old.apps
                },
                ..old
            },
            Tab::Packages => new == App {
                packages: PackagesState {
                    selected: next_index(
                        old.packages.selected as int,
                        old.packages.items@.len() as int,
                    ) as usize,
                    ..old.packages
                },
                ..old
            },
            Tab::Files => new == App {
                files: FilesState {
                    selected: next_index(old.files.selected as int, old.files.items@.len() as int)
                        as usize,
                    ..old.files
                },
                ..old
            },
            Tab::Junk => new == App {
                junk: JunkState {
                    selected: next_index(old.junk.selected as int, old.junk.items@.len() as int)
                        as usize,
                    ..old.junk
                },
                ..old
            },
            Tab::Devices => new == App {
                devices: DevicesState {
                    selected: next_index(
                        old.devices.selected as int,
                        old.devices.devices@.len() as int,
                    ) as usize,
                    ..old.devices
                },
                ..old
            },
            _ => new == old,
        },
        Action::SelectPrev => effect == Effect::Nothing && match old.current_tab {
            Tab::Apps => new == App {
                apps: AppsState { selected: prev_index(old.apps.selected as int) as usize, ..old.apps },
                ..old
            },
            Tab::Packages => new == App {
                packages: PackagesState {
                    selected: prev_index(old.packages.selected as int) as usize,
                    ..old.packages
                },
                ..old
            },
            Tab::Files => new == App {
                files: FilesState {
                    selected: prev_index(old.files.selected as int) as usize,
                    ..old.files
                },
                ..old
            },
            Tab::Junk => new == App {
                junk: JunkState { selected: prev_index(old.junk.selected as int) as usize, ..old.junk },
                ..old
            },
            Tab::Devices => new == App {
                devices: DevicesState {
                    selected: prev_index(old.devices.selected as int) as usize,
                    ..old.devices
                },
                ..old
            },
            _ => new == old,
        },
        Action::Navigate(path) => new == App {
            files: FilesState { current_dir: new.files.current_dir, selected: 0, ..old.files },
            status_message: new.status_message,
            ..old
        } && new.files.current_dir@ == path@ && new.status_message@ == "Opening folder"@ && effect
            == Effect::Nothing,
        Action::OpenSelected => match selected_path(old) {
            None => status_only(old, new, "Select a file or folder first"@) && effect == Effect::Nothing,
            Some(p) => new == old && (effect matches Effect::OpenPath(q) && q@ == p@),
        },
        Action::GoUp => effect == Effect::Nothing && if components(old.files.current_dir@).len() == 0
            || components(old.files.current_dir@).last() is Root {
            new == old
        } else {
            &&& new == App {
                files: FilesState { current_dir: new.files.current_dir, selected: 0, ..old.files },
                status_message: new.status_message,
                ..old
            }
            &&& components(new.files.current_dir@) == components(old.files.current_dir@).drop_last()
            &&& is_prefix(new.files.current_dir@, old.files.current_dir@)
            &&& tail_trimmed(new.files.current_dir@)
            &&& new.status_message@ == "Moved to parent folder"@
        },
        Action::RefreshDevices => status_only(old, new, "USB device list refreshed"@) && effect
            == Effect::RefreshDevices,
        Action::RefreshFiles => new == App {
            files_rescan_requested: true,
            status_message: new.status_message,
            ..old
        } && new.status_message@ == "Refreshing folder"@ && effect == Effect::Nothing,
        Action::ScanJunk => junk_scan_started(old, new) && effect == Effect::ScanJunk,
        Action::ScanApps => apps_scan_started(old, new) && effect == Effect::ScanApps,
        Action::ScanPackages => packages_scan_started(old, new) && effect == Effect::ScanPackages,
        Action::DeleteJunk => status_only(old, new, "Selected junk item removed when permitted"@)
            && effect == Effect::DeleteSelectedJunk,
        Action::DeleteAllJunk => status_only(old, new, "Junk cleanup completed"@) && effect
            == Effect::DeleteAllJunk,
        Action::ShowUninstallCmd => effect == Effect::Nothing && new == App {
            packages: new.packages,
            ..old
        } && new.packages == PackagesState { uninstall_cmd: new.packages.uninstall_cmd, ..old.packages }
            && (old.packages.selected < old.packages.items@.len() ==> new.packages.uninstall_cmd@
            == crate::features::packages::uninstall_command(
            old.packages.items@[old.packages.selected as int].manager@,
            old.packages.items@[old.packages.selected as int].name@,
        )) && (old.packages.selected >= old.packages.items@.len()
            ==> new.packages.uninstall_cmd@.len() == 0),
        Action::StartNewFile => dialog_opened(old, new, FileDialog::NewFile, None)
            && new.dialog_input@.len() == 0 && effect == Effect::Nothing,
        Action::StartNewFolder => dialog_opened(old, new, FileDialog::NewFolder, None)
            && new.dialog_input@.len() == 0 && effect == Effect::Nothing,
        Action::StartRename => effect == Effect::Nothing && match selected_path(old) {
            None => status_only(old, new, "Select a file or folder to rename"@),
            Some(p) => dialog_opened(old, new, FileDialog::Rename, Some(p)) && match file_name_spec(
                p@,
            ) {
                Some(n) => new.dialog_input@ == n,
                None => new.dialog_input@.len() == 0,
            },
        },
        Action::StartDelete => effect == Effect::Nothing && match selected_path(old) {
            None => status_only(old, new, "Select a file or folder to delete"@),
            Some(p) => new == App { delete_confirmation: new.delete_confirmation, ..old } && (
            new.delete_confirmation matches Some(q) && q@ == p@),
        },
        Action::PromptInput(c) => effect == Effect::Nothing && new == App {
            dialog_input: new.dialog_input,
            ..old
        } && new.dialog_input@ == if !is_control(c) && old.dialog_input@.len()
            < MAX_DIALOG_INPUT {
            old.dialog_input@.push(c)
        } else {
            old.dialog_input@
        },
        Action::PromptBackspace => effect == Effect::Nothing && new == App {
            dialog_input: new.dialog_input,
            ..old
        } && new.dialog_input@ == if old.dialog_input@.len() > 0 {
            old.dialog_input@.drop_last()
        } else {
            old.dialog_input@
        },
        Action::SubmitPrompt => submit_post(old, new, effect),
        Action::ConfirmDelete => confirm_post(old, new, effect),
        Action::CancelOverlay => overlay_closed(old, new) && effect == Effect::Nothing,
        Action::SettingsNextSection => new == App {
            settings_section: section_at(wrap(section_index(old.settings_section), 1, 2)),
            settings_selected: 0,
            ..old
        } && effect == Effect::Nothing,
        Action::SettingsPrevSection => new == App {
            settings_section: section_at(wrap(section_index(old.settings_section), -1, 2)),
            settings_selected: 0,
            ..old
        } && effect == Effect::Nothing,
        Action::SettingsNextItem => new == App {
            settings_selected: if old.settings_selected >= settings_max(old.settings_section) {
                0
            } else {
                (old.settings_selected + 1) as usize
            },
            ..old
        } && effect == Effect::Nothing,
        Action::SettingsPrevItem => new == App {
            settings_selected: if old.settings_selected == 0 {
                settings_max(old.settings_section) as usize
            } else {
                (old.settings_selected - 1) as usize
            },
            ..old
        } && effect == Effect::Nothing,
        Action::SettingsSelect => match old.settings_section {
            SettingsSection::Theme => {
                let kind = theme_at((old.settings_selected % THEME_COUNT) as int);
                status_only(old, new, "Theme changed to "@ + theme_name(kind)) && effect
                    == Effect::SetTheme(kind)
            },
            SettingsSection::About => new == old && effect == Effect::Nothing,
        },
    }
}

impl App {
    /// A fresh workspace: the dashboard shown, the file browser on
    /// `start_dir`, nothing scanned, no overlay, status "Ready".
    pub fn new(start_dir: String) -> (a: Self)
        ensures
            a.running,
            a.current_tab == Tab::Monitor,
            a.files.current_dir@ == start_dir@,
            a.files.items@.len() == 0,
            a.files.selected == 0,
            !a.files.is_scanning,
            a.files.scan_generation == 0,
            a.devices.devices@.len() == 0,
            a.devices.selected == 0,
            a.junk.items@.len() == 0,
            a.junk.selected == 0,
            !a.junk.is_scanning,
            a.junk.total_size == 0,
            a.apps.items@.len() == 0,
            a.apps.selected == 0,
            !a.apps.is_scanning,
            a.packages.items@.len() == 0,
            a.packages.selected == 0,
            !a.packages.is_scanning,
            a.packages.uninstall_cmd@.len() == 0,
            !a.show_help,
            !a.show_settings,
            a.settings_section == SettingsSection::Theme,
            a.settings_selected == 0,
            a.file_dialog is None,
            a.dialog_input@.len() == 0,
            a.dialog_target is None,
            a.delete_confirmation is None,
            a.status_message@ == "Ready"@,
            !a.files_rescan_requested,
            a.scroll_offset == 0,
    {
        App {
            running: true,
            current_tab: Tab::Monitor,
            files: FilesState::new(start_dir),
            devices: DevicesState::new(),
            junk: JunkState::new(),
            apps: AppsState::new(),
            packages: PackagesState::new(),
            show_help: false,
            show_settings: false,
            settings_section: SettingsSection::Theme,
            settings_selected: 0,
            file_dialog: None,
            dialog_input: String::new(),
            dialog_target: None,
            delete_confirmation: None,
            status_message: String::from_str("Ready"),
            files_rescan_requested: false,
            scroll_offset: 0,
        }
    }

    /// The action an event asks for; the state is not changed.
    pub fn handle_event(&mut self, event: Event) -> (a: Option<Action>)
        ensures
            *final(self) == *old(self),
            a == event_action(*old(self), event),
    {
        match event {
            Event::Tick => Some(Action::Tick),
            Event::Key(key) => self.handle_key_event(key),
            Event::Resize => Some(Action::Tick),
            Event::Error => Some(Action::Quit),
        }
    }

    fn jump_target(code: KeyCode) -> (t: Option<Tab>)
        ensures
            t == jump_key(code),
    {
        match code {
            KeyCode::Char('1') => Some(Tab::Monitor),
            KeyCode::Char('2') => Some(Tab::Apps),
            KeyCode::Char('3') => Some(Tab::Packages),
            KeyCode::Char('4') => Some(Tab::Files),
            KeyCode::Char('5') => Some(Tab::Storage),
            KeyCode::Char('6') => Some(Tab::Junk),
            KeyCode::Char('7') => Some(Tab::Devices),
            KeyCode::Char('8') => Some(Tab::Info),
            KeyCode::F(n) => if 1 <= n && n <= 8 {
                Some(Tab::at((n - 1) as usize))
            } else {
                None
            },
            _ => None,
        }
    }

    fn main_key_event(&self, key: KeyInput) -> (a: Option<Action>)
        ensures
            a == main_key(*self, key),
    {
        let tab = self.current_tab;
        let files = tab == Tab::Files;
        match key.code {
            KeyCode::Char('c') if key.ctrl => Some(Action::Quit),
            KeyCode::Char('q') => Some(Action::Quit),
            KeyCode::Char('?') => Some(Action::ToggleHelp),
            KeyCode::Char('s') if key.ctrl => Some(Action::ToggleSettings),
            KeyCode::Up => Some(Action::PreviousTab),
            KeyCode::Down => Some(Action::NextTab),
            KeyCode::Char('j') => Some(Action::SelectNext),
            KeyCode::Char('k') => Some(Action::SelectPrev),
            KeyCode::Char('r') if tab == Tab::Devices => Some(Action::RefreshDevices),
            KeyCode::Char('r') if files => Some(Action::RefreshFiles),
            KeyCode::Char('d') if tab == Tab::Junk => Some(Action::DeleteJunk),
            KeyCode::Char('D') if tab == Tab::Junk => Some(Action::DeleteAllJunk),
            KeyCode::Char('i') if tab == Tab::Packages => Some(Action::ShowUninstallCmd),
            KeyCode::Char('s') if tab == Tab::Apps && !self.apps.is_scanning => Some(
                Action::ScanApps,
            ),
            KeyCode::Char('s') if tab == Tab::Packages && !self.packages.is_scanning => Some(
                Action::ScanPackages,
            ),
            KeyCode::Char('s') if tab == Tab::Junk && !self.junk.is_scanning => Some(
                Action::ScanJunk,
            ),
            KeyCode::Char('n') if files => Some(Action::StartNewFolder),
            KeyCode::Char('f') if files => Some(Action::StartNewFile),
            KeyCode::Char('e') if files => Some(Action::StartRename),
            KeyCode::Char('x') if files => Some(Action::StartDelete),
            KeyCode::Enter if files => {
                match self.files.enter_selected() {
                    Some(path) => Some(Action::Navigate(path)),
                    None => Some(Action::OpenSelected),
                }
            },
            KeyCode::Backspace if files => Some(Action::GoUp),
            KeyCode::Left if files => Some(Action::GoUp),
            _ => match Self::jump_target(key.code) {
                Some(t) => Some(Action::SwitchTab(t)),
                None => None,
            },
        }
    }

    fn handle_key_event(&mut self, key: KeyInput) -> (a: Option<Action>)
        ensures
            *final(self) == *old(self),
            a == key_action(*old(self), key),
    {
        if !key.press {
            return None;
        }
        if self.show_settings {
            return match key.code {
                KeyCode::Esc => Some(Action::CancelOverlay),
                KeyCode::Up => Some(Action::SettingsPrevSection),
                KeyCode::Char('h') => Some(Action::SettingsPrevSection),
                KeyCode::Down => Some(Action::SettingsNextSection),
                KeyCode::Char('l') => Some(Action::SettingsNextSection),
                KeyCode::Char('j') => Some(Action::SettingsNextItem),
                KeyCode::Char('k') => Some(Action::SettingsPrevItem),
                KeyCode::Char('s') => Some(Action::CancelOverlay),
                KeyCode::Enter => Some(Action::SettingsSelect),
                KeyCode::Char(' ') => Some(Action::SettingsSelect),
                _ => None,
            };
        }
        if self.show_help {
            return match key.code {
                KeyCode::Esc => Some(Action::ToggleHelp),
                KeyCode::Char('?') => Some(Action::ToggleHelp),
                _ => None,
            };
        }
        if self.file_dialog.is_some() {
            return match key.code {
                KeyCode::Esc => Some(Action::CancelOverlay),
                KeyCode::Enter => Some(Action::SubmitPrompt),
                KeyCode::Backspace => Some(Action::PromptBackspace),
                KeyCode::Char(c) => Some(Action::PromptInput(c)),
                _ => None,
            };
        }
        if self.delete_confirmation.is_some() {
            return match key.code {
                KeyCode::Char('y') => Some(Action::ConfirmDelete),
                KeyCode::Enter => Some(Action::ConfirmDelete),
                KeyCode::Char('n') => Some(Action::CancelOverlay),
                KeyCode::Esc => Some(Action::CancelOverlay),
                _ => None,
            };
        }
        self.main_key_event(key)
    }
}


/// What a finished scan of a folder does: results for the folder and the
/// scan generation now current are taken, anything else is ignored.
pub open spec fn file_msg_post(old: App, msg: FileMsg, new: App) -> bool {
    match msg {
        FileMsg::Start(path, g) => if same_path_spec(path@, old.files.current_dir@) && g
            == old.files.scan_generation {
            &&& new == App { files: new.files, ..old }
            &&& new.files == FilesState {
                items: new.files.items,
                selected: 0,
                is_scanning: true,
                ..old.files
            }
            &&& new.files.items@.len() == 0
        } else {
            new == old
        },
        FileMsg::Done(path, g, items) => if same_path_spec(path@, old.files.current_dir@) && g
            == old.files.scan_generation {
            &&& new == App { files: new.files, ..old }
            &&& new.files == FilesState {
                items: new.files.items,
                selected: clamp_index(old.files.selected as int, items@.len() as int) as usize,
                is_scanning: false,
                ..old.files
            }
            &&& new.files.items@ == items@
        } else {
            new == old
        },
    }
}


/// What `take_rescan` does: when the folder is no longer `old_dir` or a
/// rescan was asked for, the request is cleared and a scan begins with the
/// next generation; otherwise nothing changes.
pub open spec fn rescan_post(old: App, old_dir: Seq<char>, new: App, g: Option<u64>) -> bool {
    if !same_path_spec(old.files.current_dir@, old_dir) || old.files_rescan_requested {
        &&& g == Some(next_generation(old.files.scan_generation))
        &&& new == App {
            files: FilesState {
                items: new.files.items,
                selected: 0,
                is_scanning: true,
                scan_generation: next_generation(old.files.scan_generation),
                ..old.files
            },
            files_rescan_requested: false,
            ..old
        }
        &&& new.files.items@.len() == 0
    } else {
        g is None && new == old
    }
}

/// The status shown after trying to open a path.
pub open spec fn open_message(result: Result<(), String>) -> Seq<char> {
    match result {
        Ok(_) => "Opened with the system default application"@,
        Err(e) => "Unable to open item: "@ + sanitize_error_spec(e@),
    }
}

/// What the outcome of a create or rename does to the state.
pub open spec fn file_outcome_post(old: App, outcome: FileOutcome, new: App) -> bool {
    match outcome {
        FileOutcome::Done => {
            let shown = App {
                status_message: new.status_message,
                files_rescan_requested: true,
                ..old
            };
            &&& overlay_closed(shown, new)
            &&& new.status_message@ == match old.file_dialog {
                Some(FileDialog::NewFile) => "File created"@,
                Some(FileDialog::NewFolder) => "Folder created"@,
                _ => "Item renamed"@,
            }
        },
        FileOutcome::AlreadyExists => status_only(old, new, "An item with that name already exists"@),
        FileOutcome::Failed(e) => status_only(old, new, "Operation failed: "@ + sanitize_error_spec(e@)),
    }
}

/// What the outcome of a deletion does to the state.
pub open spec fn delete_outcome_post(old: App, result: Result<(), String>, new: App) -> bool {
    match result {
        Ok(_) => {
            &&& new == App {
                status_message: new.status_message,
                files_rescan_requested: true,
                files: FilesState {
                    selected: prev_index(old.files.selected as int) as usize,
                    ..old.files
                },
                ..old
            }
            &&& new.status_message@ == "Item deleted"@
        },
        Err(e) => status_only(old, new, "Delete failed: "@ + sanitize_error_spec(e@)),
    }
}

/// The total size of a finished junk scan fits the counter.
pub open spec fn junk_msg_fits(msg: JunkMsg) -> bool {
    match msg {
        JunkMsg::Done(items) => total_size_of(items@) <= u64::MAX,
        JunkMsg::Start => true,
    }
}

pub open spec fn junk_msg_post(old: App, msg: JunkMsg, new: App) -> bool {
    &&& new == App { junk: new.junk, ..old }
    &&& match msg {
        JunkMsg::Start => new.junk == JunkState {
            items: new.junk.items,
            selected: 0,
            is_scanning: true,
            total_size: 0,
        } && new.junk.items@.len() == 0,
        JunkMsg::Done(items) => new.junk == JunkState {
            items: new.junk.items,
            selected: 0,
            is_scanning: false,
            total_size: total_size_of(items@) as u64,
        } && new.junk.items@ == items@,
    }
}

pub open spec fn apps_msg_post(old: App, msg: AppsMsg, new: App) -> bool {
    &&& new == App { apps: new.apps, ..old }
    &&& match msg {
        AppsMsg::Start => new.apps == AppsState {
            items: new.apps.items,
            selected: 0,
            is_scanning: true,
        } && new.apps.items@.len() == 0,
        AppsMsg::Done(items) => new.apps == AppsState {
            items: new.apps.items,
            selected: clamp_index(old.apps.selected as int, items@.len() as int) as usize,
            is_scanning: false,
        } && new.apps.items@ == items@,
    }
}

pub open spec fn pkgs_msg_post(old: App, msg: PkgsMsg, new: App) -> bool {
    &&& new == App { packages: new.packages, ..old }
    &&& new.packages.uninstall_cmd@.len() == 0
    &&& match msg {
        PkgsMsg::Start => new.packages == PackagesState {
            items: new.packages.items,
            selected: 0,
            is_scanning: true,
            uninstall_cmd: new.packages.uninstall_cmd,
        } && new.packages.items@.len() == 0,
        PkgsMsg::Done(items) => new.packages == PackagesState {
            items: new.packages.items,
            selected: clamp_index(old.packages.selected as int, items@.len() as int) as usize,
            is_scanning: false,
            uninstall_cmd: new.packages.uninstall_cmd,
        } && new.packages.items@ == items@,
    }
}

impl App {
    fn set_status(&mut self, msg: &str)
        ensures
            status_only(*old(self), *final(self), msg@),
    {
        self.status_message = String::from_str(msg);
    }

    fn selected_file_path(&self) -> (r: Option<String>)
        ensures
            r == selected_path(*self),
    {
        if self.files.selected < self.files.items.len() {
            Some(self.files.items[self.files.selected].path.clone())
        } else {
            None
        }
    }

    fn open_file_dialog(&mut self, dialog: FileDialog, target: Option<String>)
        ensures
            dialog_opened(*old(self), *final(self), dialog, target),
            final(self).dialog_input@.len() == 0,
    {
        self.file_dialog = Some(dialog);
        self.dialog_target = target;
        self.dialog_input = String::new();
    }

    fn close_overlay(&mut self)
        ensures
            overlay_closed(*old(self), *final(self)),
    {
        self.file_dialog = None;
        self.dialog_input = String::new();
        self.dialog_target = None;
        self.delete_confirmation = None;
        self.show_settings = false;
        self.settings_selected = 0;
    }

    fn start_apps_scan(&mut self)
        ensures
            apps_scan_started(*old(self), *final(self)),
    {
        self.apps.is_scanning = true;
        self.apps.items = Vec::new();
        self.apps.selected = 0;
        self.status_message = String::from_str("Scanning installed applications");
    }

    fn start_packages_scan(&mut self)
        ensures
            packages_scan_started(*old(self), *final(self)),
    {
        self.packages.is_scanning = true;
        self.packages.items = Vec::new();
        self.packages.selected = 0;
        self.packages.uninstall_cmd = String::new();
        self.status_message = String::from_str("Scanning installed packages");
    }

    fn start_junk_scan(&mut self)
        ensures
            junk_scan_started(*old(self), *final(self)),
    {
        self.junk.is_scanning = true;
        self.junk.items = Vec::new();
        self.junk.selected = 0;
        self.junk.total_size = 0;
        self.status_message = String::from_str("Scanning for reclaimable files");
    }

    fn switch_tab(&mut self, tab: Tab) -> (e: Effect)
        ensures
            update_post(*old(self), Action::SwitchTab(tab), *final(self), e),
    {
        self.current_tab = tab;
        self.scroll_offset = 0;
        if tab == Tab::Apps && self.apps.items.len() == 0 && !self.apps.is_scanning {
            self.start_apps_scan();
            Effect::ScanApps
        } else if tab == Tab::Packages && self.packages.items.len() == 0
            && !self.packages.is_scanning {
            self.start_packages_scan();
            Effect::ScanPackages
        } else if tab == Tab::Junk && self.junk.items.len() == 0 && !self.junk.is_scanning {
            self.start_junk_scan();
            Effect::ScanJunk
        } else {
            Effect::Nothing
        }
    }

    fn select_next(&mut self)
        ensures
            update_post(*old(self), Action::SelectNext, *final(self), Effect::Nothing),
    {
        match self.current_tab {
            Tab::Apps => self.apps.select_next(),
            Tab::Packages => self.packages.select_next(),
            Tab::Files => self.files.select_next(),
            Tab::Junk => self.junk.select_next(),
            Tab::Devices => self.devices.select_next(),
            _ => {},
        }
    }

    fn select_prev(&mut self)
        ensures
            update_post(*old(self), Action::SelectPrev, *final(self), Effect::Nothing),
    {
        match self.current_tab {
            Tab::Apps => self.apps.select_prev(),
            Tab::Packages => self.packages.select_prev(),
            Tab::Files => self.files.select_prev(),
            Tab::Junk => self.junk.select_prev(),
            Tab::Devices => self.devices.select_prev(),
            _ => {},
        }
    }

    fn start_rename(&mut self)
        ensures
            update_post(*old(self), Action::StartRename, *final(self), Effect::Nothing),
    {
        match self.selected_file_path() {
            Some(target) => {
                let name = file_name(target.as_str());
                self.open_file_dialog(FileDialog::Rename, Some(target));
                match name {
                    Some(n) => {
                        self.dialog_input = n;
                    },
                    None => {},
                }
            },
            None => self.set_status("Select a file or folder to rename"),
        }
    }

    fn start_delete(&mut self)
        ensures
            update_post(*old(self), Action::StartDelete, *final(self), Effect::Nothing),
    {
        match self.selected_file_path() {
            Some(target) => {
                self.delete_confirmation = Some(target);
            },
            None => self.set_status("Select a file or folder to delete"),
        }
    }

    fn go_up_folder(&mut self)
        ensures
            update_post(*old(self), Action::GoUp, *final(self), Effect::Nothing),
    {
        match self.files.go_up() {
            Some(parent) => {
                self.files.current_dir = parent;
                self.files.selected = 0;
                self.set_status("Moved to parent folder");
            },
            None => {},
        }
    }

    fn apply_settings_selection(&mut self) -> (e: Effect)
        ensures
            update_post(*old(self), Action::SettingsSelect, *final(self), e),
    {
        match self.settings_section {
            SettingsSection::Theme => {
                let kind = ThemeKind::at(self.settings_selected);
                self.status_message = concat_str("Theme changed to ", kind.name());
                Effect::SetTheme(kind)
            },
            SettingsSection::About => Effect::Nothing,
        }
    }

    fn settings_max_item(&self) -> (m: usize)
        ensures
            m == settings_max(self.settings_section),
    {
        match self.settings_section {
            SettingsSection::Theme => THEME_COUNT - 1,
            SettingsSection::About => 0,
        }
    }

    fn submit_file_dialog(&mut self) -> (e: Effect)
        ensures
            submit_post(*old(self), *final(self), e),
    {
        let dialog = match self.file_dialog {
            Some(d) => d,
            None => return Effect::Nothing,
        };
        let trimmed = crate::text::string_of(
            &crate::text::trim_chars(&crate::text::chars_of(self.dialog_input.as_str())),
        );
        let name = sanitize_filename(trimmed.as_str());
        if !is_valid_entry_name(name.as_str()) {
            self.set_status("Use a simple file or folder name without path separators");
            return Effect::Nothing;
        }
        let dest = join(self.files.current_dir.as_str(), name.as_str());
        match dialog {
            FileDialog::NewFile => Effect::CreateFile(dest),
            FileDialog::NewFolder => Effect::CreateFolder(dest),
            FileDialog::Rename => {
                let target = match &self.dialog_target {
                    Some(t) => t.clone(),
                    None => {
                        self.set_status("Nothing selected to rename");
                        self.close_overlay();
                        return Effect::Nothing;
                    },
                };
                if same_path(target.as_str(), dest.as_str()) {
                    self.set_status("Name unchanged");
                    self.close_overlay();
                    return Effect::Nothing;
                }
                Effect::Rename { from: target, to: dest }
            },
        }
    }

    fn confirm_delete(&mut self) -> (e: Effect)
        ensures
            confirm_post(*old(self), *final(self), e),
    {
        let target = match self.delete_confirmation.take() {
            Some(t) => t,
            None => return Effect::Nothing,
        };
        if !is_safe_child(self.files.current_dir.as_str(), target.as_str()) || !is_path_safe(
            target.as_str(),
        ) {
            self.set_status("Refused to delete an unsafe path");
            return Effect::Nothing;
        }
        Effect::DeletePath(target)
    }

    /// Carries out an action on the state, and returns the outside work it
    /// asks for.
    #[verifier::rlimit(40)]
    pub fn update(&mut self, action: Action) -> (e: Effect)
        ensures
            update_post(*old(self), action, *final(self), e),
    {
        match action {
            Action::Quit => {
                self.running = false;
                Effect::Nothing
            },
            Action::SwitchTab(tab) => self.switch_tab(tab),
            Action::PreviousTab => {
                self.current_tab = self.current_tab.adjacent(-1);
                self.scroll_offset = 0;
                Effect::Nothing
            },
            Action::NextTab => {
                self.current_tab = self.current_tab.adjacent(1);
                self.scroll_offset = 0;
                Effect::Nothing
            },
            Action::ToggleHelp => {
                self.show_help = !self.show_help;
                Effect::Nothing
            },
            Action::ToggleSettings => {
                self.show_settings = !self.show_settings;
                self.settings_section = SettingsSection::Theme;
                self.settings_selected = 0;
                Effect::Nothing
            },
            Action::Tick => {
                let storage = self.current_tab == Tab::Storage;
                if self.current_tab == Tab::Monitor {
                    self.scroll_offset = usize::MAX;
                } else if self.current_tab == Tab::Info {
                    self.scroll_offset = 0;
                }
                Effect::Refresh { storage }
            },
            Action::SelectNext => {
                self.select_next();
                Effect::Nothing
            },
            Action::SelectPrev => {
                self.select_prev();
                Effect::Nothing
            },
            Action::Navigate(path) => {
                self.files.current_dir = path;
                self.files.selected = 0;
                self.set_status("Opening folder");
                Effect::Nothing
            },
            Action::OpenSelected => match self.selected_file_path() {
                Some(target) => Effect::OpenPath(target),
                None => {
                    self.set_status("Select a file or folder first");
                    Effect::Nothing
                },
            },
            Action::GoUp => {
                self.go_up_folder();
                Effect::Nothing
            },
            Action::RefreshDevices => {
                self.set_status("USB device list refreshed");
                Effect::RefreshDevices
            },
            Action::RefreshFiles => {
                self.files_rescan_requested = true;
                self.set_status("Refreshing folder");
                Effect::Nothing
            },
            Action::ScanJunk => {
                self.start_junk_scan();
                Effect::ScanJunk
            },
            Action::ScanApps => {
                self.start_apps_scan();
                Effect::ScanApps
            },
            Action::ScanPackages => {
                self.start_packages_scan();
                Effect::ScanPackages
            },
            Action::DeleteJunk => {
                self.set_status("Selected junk item removed when permitted");
                Effect::DeleteSelectedJunk
            },
            Action::DeleteAllJunk => {
                self.set_status("Junk cleanup completed");
                Effect::DeleteAllJunk
            },
            Action::ShowUninstallCmd => {
                self.packages.generate_uninstall_cmd();
                Effect::Nothing
            },
            Action::StartNewFile => {
                self.open_file_dialog(FileDialog::NewFile, None);
                Effect::Nothing
            },
            Action::StartNewFolder => {
                self.open_file_dialog(FileDialog::NewFolder, None);
                Effect::Nothing
            },
            Action::StartRename => {
                self.start_rename();
                Effect::Nothing
            },
            Action::StartDelete => {
                self.start_delete();
                Effect::Nothing
            },
            Action::PromptInput(c) => {
                if !is_control_char(c) && self.dialog_input.as_str().unicode_len()
                    < MAX_DIALOG_INPUT {
                    push_char(&mut self.dialog_input, c);
                }
                Effect::Nothing
            },
            Action::PromptBackspace => {
                pop_char(&mut self.dialog_input);
                Effect::Nothing
            },
            Action::SubmitPrompt => self.submit_file_dialog(),
            Action::ConfirmDelete => self.confirm_delete(),
            Action::CancelOverlay => {
                self.close_overlay();
                Effect::Nothing
            },
            Action::SettingsNextSection => {
                self.settings_section = self.settings_section.adjacent(1);
                self.settings_selected = 0;
                Effect::Nothing
            },
            Action::SettingsPrevSection => {
                self.settings_section = self.settings_section.adjacent(-1);
                self.settings_selected = 0;
                Effect::Nothing
            },
            Action::SettingsNextItem => {
                let max = self.settings_max_item();
                self.settings_selected = if self.settings_selected >= max {
                    0
                } else {
                    self.settings_selected + 1
                };
                Effect::Nothing
            },
            Action::SettingsPrevItem => {
                let max = self.settings_max_item();
                self.settings_selected = if self.settings_selected == 0 {
                    max
                } else {
                    self.settings_selected - 1
                };
                Effect::Nothing
            },
            Action::SettingsSelect => self.apply_settings_selection(),
        }
    }

    /// Records whether opening a path with the default application worked.
    pub fn finish_open(&mut self, result: Result<(), String>)
        ensures
            status_only(*old(self), *final(self), open_message(result)),
    {
        match result {
            Ok(_) => self.set_status("Opened with the system default application"),
            Err(e) => {
                let clean = sanitize_error_message(e.as_str());
                self.status_message = concat_str("Unable to open item: ", clean.as_str());
            },
        }
    }

    /// Records the outcome of creating or renaming the entry that the open
    /// file dialog asked for: on success the dialog closes and the folder is
    /// scanned again; otherwise the dialog stays open with the reason shown.
    pub fn finish_file_dialog(&mut self, outcome: FileOutcome)
        requires
            old(self).file_dialog is Some,
        ensures
            file_outcome_post(*old(self), outcome, *final(self)),
    {
        match outcome {
            FileOutcome::Done => {
                match self.file_dialog {
                    Some(FileDialog::NewFile) => self.set_status("File created"),
                    Some(FileDialog::NewFolder) => self.set_status("Folder created"),
                    _ => self.set_status("Item renamed"),
                }
                self.files_rescan_requested = true;
                self.close_overlay();
            },
            FileOutcome::AlreadyExists => self.set_status("An item with that name already exists"),
            FileOutcome::Failed(e) => {
                let clean = sanitize_error_message(e.as_str());
                self.status_message = concat_str("Operation failed: ", clean.as_str());
            },
        }
    }

    /// Records the outcome of deleting the confirmed entry.
    pub fn finish_delete(&mut self, result: Result<(), String>)
        ensures
            delete_outcome_post(*old(self), result, *final(self)),
    {
        match result {
            Ok(_) => {
                self.set_status("Item deleted");
                self.files_rescan_requested = true;
                self.files.selected = self.files.selected.saturating_sub(1);
            },
            Err(e) => {
                let clean = sanitize_error_message(e.as_str());
                self.status_message = concat_str("Delete failed: ", clean.as_str());
            },
        }
    }

    /// After an action: when the folder being browsed is no longer `old_dir`
    /// (as a path) or a rescan was asked for, the request is cleared and a
    /// scan of the current folder begins, whose generation is returned;
    /// otherwise nothing changes.
    pub fn take_rescan(&mut self, old_dir: &str) -> (g: Option<u64>)
        ensures
            rescan_post(*old(self), old_dir@, *final(self), g),
    {
        if !same_path(self.files.current_dir.as_str(), old_dir) || self.files_rescan_requested {
            self.files_rescan_requested = false;
            Some(self.files.begin_scan())
        } else {
            None
        }
    }

    /// Takes a message from a folder scan.
    pub fn handle_file_msg(&mut self, msg: FileMsg)
        ensures
            file_msg_post(*old(self), msg, *final(self)),
    {
        match msg {
            FileMsg::Start(path, generation) => {
                if same_path(path.as_str(), self.files.current_dir.as_str()) && generation
                    == self.files.scan_generation {
                    self.files.is_scanning = true;
                    self.files.items = Vec::new();
                    self.files.selected = 0;
                }
            },
            FileMsg::Done(path, generation, items) => {
                if same_path(path.as_str(), self.files.current_dir.as_str()) && generation
                    == self.files.scan_generation {
                    self.files.items = items;
                    self.files.selected = crate::selection::clamp_index_exec(
                        self.files.selected,
                        self.files.items.len(),
                    );
                    self.files.is_scanning = false;
                }
            },
        }
    }

    /// Takes a message from a junk scan; the list of a finished scan comes
    /// with its total size.
    pub fn handle_junk_msg(&mut self, msg: JunkMsg)
        requires
            junk_msg_fits(msg),
        ensures
            junk_msg_post(*old(self), msg, *final(self)),
    {
        match msg {
            JunkMsg::Start => {
                self.junk.is_scanning = true;
                self.junk.items = Vec::new();
                self.junk.selected = 0;
                self.junk.total_size = 0;
            },
            JunkMsg::Done(items) => {
                let mut total: u64 = 0;
                let mut i: usize = 0;
                while i < items.len()
                    invariant
                        i <= items.len(),
                        total == total_size_of(items@.take(i as int)),
                        total_size_of(items@) <= u64::MAX,
                    decreases items.len() - i,
                {
                    proof {
                        lemma_total_prefix(items@, i as int + 1);
                        assert(items@.take(i + 1).drop_last() =~= items@.take(i as int));
                    }
                    total = total + items[i].size;
                    i = i + 1;
                }
                assert(items@.take(i as int) =~= items@);
                self.junk.items = items;
                self.junk.selected = 0;
                self.junk.total_size = total;
                self.junk.is_scanning = false;
            },
        }
    }

    /// Takes a message from an application scan.
    pub fn handle_apps_msg(&mut self, msg: AppsMsg)
        ensures
            apps_msg_post(*old(self), msg, *final(self)),
    {
        match msg {
            AppsMsg::Start => {
                self.apps.is_scanning = true;
                self.apps.items = Vec::new();
                self.apps.selected = 0;
            },
            AppsMsg::Done(items) => {
                self.apps.items = items;
                self.apps.clamp_selection();
                self.apps.is_scanning = false;
            },
        }
    }

    /// Takes a message from a package scan.
    pub fn handle_pkgs_msg(&mut self, msg: PkgsMsg)
        ensures
            pkgs_msg_post(*old(self), msg, *final(self)),
    {
        match msg {
            PkgsMsg::Start => {
                self.packages.is_scanning = true;
                self.packages.items = Vec::new();
                self.packages.selected = 0;
                self.packages.uninstall_cmd = String::new();
            },
            PkgsMsg::Done(items) => {
                self.packages.items = items;
                self.packages.clamp_selection();
                self.packages.uninstall_cmd = String::new();
                self.packages.is_scanning = false;
            },
        }
    }
}

proof fn lemma_total_prefix(items: Seq<JunkItem>, k: int)
    requires
        0 <= k <= items.len(),
    ensures
        total_size_of(items.take(k)) <= total_size_of(items),
    decreases items.len() - k,
{
    if k < items.len() {
        lemma_total_prefix(items, k + 1);
        assert(items.take(k + 1).drop_last() =~= items.take(k));
    } else {
        assert(items.take(k) =~= items);
    }
}

// ----------------------------------------------------------------------
// laws
// ----------------------------------------------------------------------

/// Whatever action is carried out, the file operations it asks for stay in
/// the folder being browsed: a file or folder is created, an entry renamed,
/// or a path deleted only directly inside the current folder, and a deletion
/// only of a path that passes the safety check.
pub proof fn law_file_effects_stay_inside(old: App, action: Action, new: App, effect: Effect)
    requires
        update_post(old, action, new, effect),
    ensures
        match effect {
            Effect::CreateFile(p) => safe_child_spec(old.files.current_dir@, p@),
            Effect::CreateFolder(p) => safe_child_spec(old.files.current_dir@, p@),
            Effect::Rename { from, to } => safe_child_spec(old.files.current_dir@, to@),
            Effect::DeletePath(p) => safe_child_spec(old.files.current_dir@, p@) && path_safe(p@),
            _ => true,
        },
{
    if action is SubmitPrompt && old.file_dialog is Some {
        let name = sanitize_filename_spec(trim(old.dialog_input@));
        if valid_entry_name_spec(name) {
            crate::paths::law_valid_name_stays_inside(old.files.current_dir@, name);
        }
    }
}

/// Once a new scan of a folder has begun, whatever the scan before it
/// reports is ignored: results are only ever taken for the latest scan.
pub proof fn law_earlier_scan_ignored(
    a: App,
    old_dir: Seq<char>,
    b: App,
    g: u64,
    msg: FileMsg,
    c: App,
)
    requires
        rescan_post(a, old_dir, b, Some(g)),
        msg matches FileMsg::Done(_, h, _) && h == a.files.scan_generation,
        file_msg_post(b, msg, c),
    ensures
        c == b,
{
}

/// In the main view (no settings, help, file dialog or pending deletion) a
/// key press asks for the action the help screen lists for it: `q` and
/// Ctrl-C quit, `?` opens help, Ctrl-S the settings, Up and Down change
/// view, `j`/`k` move the cursor, `1`-`8` jump to a view; on the junk view
/// `d` removes the selected item and `D` every item; `r` refreshes devices
/// or files; `i` shows a package's removal command; `s` starts a scan that
/// is not running; and on the files view `n`, `f`, `e`, `x` open the
/// dialogs and Backspace or Left go up a folder.
pub proof fn law_main_view_keys(app: App, key: KeyInput)
    requires
        key.press,
        !app.show_settings,
        !app.show_help,
        app.file_dialog is None,
        app.delete_confirmation is None,
    ensures
        key.code == KeyCode::Char('q') ==> key_action(app, key) == Some(Action::Quit),
        key.code == KeyCode::Char('c') && key.ctrl ==> key_action(app, key) == Some(Action::Quit),
        key.code == KeyCode::Char('?') ==> key_action(app, key) == Some(Action::ToggleHelp),
        key.code == KeyCode::Char('s') && key.ctrl ==> key_action(app, key) == Some(
            Action::ToggleSettings,
        ),
        key.code == KeyCode::Up ==> key_action(app, key) == Some(Action::PreviousTab),
        key.code == KeyCode::Down ==> key_action(app, key) == Some(Action::NextTab),
        key.code == KeyCode::Char('j') ==> key_action(app, key) == Some(Action::SelectNext),
        key.code == KeyCode::Char('k') ==> key_action(app, key) == Some(Action::SelectPrev),
        app.current_tab == Tab::Junk && key.code == KeyCode::Char('d') ==> key_action(app, key)
            == Some(Action::DeleteJunk),
        app.current_tab == Tab::Junk && key.code == KeyCode::Char('D') ==> key_action(app, key)
            == Some(Action::DeleteAllJunk),
        app.current_tab == Tab::Devices && key.code == KeyCode::Char('r') ==> key_action(app, key)
            == Some(Action::RefreshDevices),
        app.current_tab == Tab::Files && key.code == KeyCode::Char('r') ==> key_action(app, key)
            == Some(Action::RefreshFiles),
        app.current_tab == Tab::Packages && key.code == KeyCode::Char('i') ==> key_action(app, key)
            == Some(Action::ShowUninstallCmd),
        app.current_tab == Tab::Apps && !app.apps.is_scanning && key.code == KeyCode::Char('s')
            && !key.ctrl ==> key_action(app, key) == Some(Action::ScanApps),
        app.current_tab == Tab::Packages && !app.packages.is_scanning && key.code == KeyCode::Char(
            's',
        ) && !key.ctrl ==> key_action(app, key) == Some(Action::ScanPackages),
        app.current_tab == Tab::Junk && !app.junk.is_scanning && key.code == KeyCode::Char('s')
            && !key.ctrl ==> key_action(app, key) == Some(Action::ScanJunk),
        app.current_tab == Tab::Files && key.code == KeyCode::Char('n') ==> key_action(app, key)
            == Some(Action::StartNewFolder),
        app.current_tab == Tab::Files && key.code == KeyCode::Char('f') ==> key_action(app, key)
            == Some(Action::StartNewFile),
        app.current_tab == Tab::Files && key.code == KeyCode::Char('e') ==> key_action(app, key)
            == Some(Action::StartRename),
        app.current_tab == Tab::Files && key.code == KeyCode::Char('x') ==> key_action(app, key)
            == Some(Action::StartDelete),
        app.current_tab == Tab::Files && (key.code == KeyCode::Backspace || key.code
            == KeyCode::Left) ==> key_action(app, key) == Some(Action::GoUp),
        key.code == KeyCode::Char('1') ==> key_action(app, key) == Some(Action::SwitchTab(Tab::Monitor)),
        key.code == KeyCode::Char('2') ==> key_action(app, key) == Some(Action::SwitchTab(Tab::Apps)),
        key.code == KeyCode::Char('3') ==> key_action(app, key) == Some(
            Action::SwitchTab(Tab::Packages),
        ),
        key.code == KeyCode::Char('4') ==> key_action(app, key) == Some(Action::SwitchTab(Tab::Files)),
        key.code == KeyCode::Char('5') ==> key_action(app, key) == Some(
            Action::SwitchTab(Tab::Storage),
        ),
        key.code == KeyCode::Char('6') ==> key_action(app, key) == Some(Action::SwitchTab(Tab::Junk)),
        key.code == KeyCode::Char('7') ==> key_action(app, key) == Some(
            Action::SwitchTab(Tab::Devices),
        ),
        key.code == KeyCode::Char('8') ==> key_action(app, key) == Some(Action::SwitchTab(Tab::Info)),
{
}

/// Junk is removed only from the main view of the junk list: removing the
/// selected item is asked for by `d` alone, removing every item by `D`
/// alone, and never by a released key.
pub proof fn law_junk_removal_keys(app: App, key: KeyInput)
    ensures
        key_action(app, key) == Some(Action::DeleteJunk) ==> key.press && key.code
            == KeyCode::Char('d') && app.current_tab == Tab::Junk && !app.show_settings
            && !app.show_help && app.file_dialog is None && app.delete_confirmation is None,
        key_action(app, key) == Some(Action::DeleteAllJunk) ==> key.press && key.code
            == KeyCode::Char('D') && app.current_tab == Tab::Junk && !app.show_settings
            && !app.show_help && app.file_dialog is None && app.delete_confirmation is None,
{
}

/// Junk leaves the disk only when asked: removing the selected item asks
/// for the selected item alone and removing all asks for every item, both
/// leaving the listed junk as it was until the outcome is known; no other
/// action asks for either.
pub proof fn law_junk_removal_effects(old: App, action: Action, new: App, effect: Effect)
    requires
        update_post(old, action, new, effect),
    ensures
        action == Action::DeleteJunk ==> effect == Effect::DeleteSelectedJunk && new.junk
            == old.junk,
        action == Action::DeleteAllJunk ==> effect == Effect::DeleteAllJunk && new.junk == old.junk,
        effect == Effect::DeleteSelectedJunk ==> action == Action::DeleteJunk,
        effect == Effect::DeleteAllJunk ==> action == Action::DeleteAllJunk,
{
}

/// In the main view of the junk list, a press of `d` asks to remove the
/// selected item only, and a press of `D` every listed item.
pub proof fn law_junk_keys_to_effects(
    app: App,
    key: KeyInput,
    action: Action,
    new: App,
    effect: Effect,
)
    requires
        key.press,
        !app.show_settings,
        !app.show_help,
        app.file_dialog is None,
        app.delete_confirmation is None,
        app.current_tab == Tab::Junk,
        key_action(app, key) == Some(action),
        update_post(app, action, new, effect),
    ensures
        key.code == KeyCode::Char('d') ==> effect == Effect::DeleteSelectedJunk,
        key.code == KeyCode::Char('D') ==> effect == Effect::DeleteAllJunk,
{
}

/// The outside work each action asks for: scans and the device refresh ask
/// for their own work, the clock tick for a new sample (with the disks on
/// the storage view), and moving between views, moving a cursor, help,
/// settings and quitting ask for none.
pub proof fn law_action_effects(old: App, action: Action, new: App, effect: Effect)
    requires
        update_post(old, action, new, effect),
    ensures
        action == Action::Quit ==> effect == Effect::Nothing && !new.running,
        action == Action::ScanApps ==> effect == Effect::ScanApps && new.apps.is_scanning,
        action == Action::ScanPackages ==> effect == Effect::ScanPackages
            && new.packages.is_scanning,
        action == Action::ScanJunk ==> effect == Effect::ScanJunk && new.junk.is_scanning,
        action == Action::RefreshDevices ==> effect == Effect::RefreshDevices,
        action == Action::Tick ==> effect == (Effect::Refresh {
            storage: old.current_tab == Tab::Storage,
        }),
        action == Action::NextTab || action == Action::PreviousTab || action == Action::SelectNext
            || action == Action::SelectPrev || action == Action::ToggleHelp || action
            == Action::ToggleSettings || action == Action::CancelOverlay ==> effect
            == Effect::Nothing,
        action == Action::ToggleHelp ==> new.show_help == !old.show_help,
        action == Action::ToggleSettings ==> new.show_settings == !old.show_settings,
{
}

/// While the file dialog is open (and neither settings nor help is shown),
/// every key press goes to the dialog: a character key types that
/// character, whichever it is, and no key reaches the main view.
pub proof fn law_dialog_captures_keys(app: App, key: KeyInput)
    requires
        app.file_dialog is Some,
        !app.show_settings,
        !app.show_help,
        key.press,
    ensures
        key_action(app, key) == dialog_key(key.code),
        key.code matches KeyCode::Char(c) ==> key_action(app, key) == Some(Action::PromptInput(c)),
{
}

/// Typing and erasing in the file dialog keep its input within
/// `MAX_DIALOG_INPUT` characters, and a typed character is never a control
/// character.
pub proof fn law_dialog_input_bounded(old: App, action: Action, new: App, effect: Effect)
    requires
        update_post(old, action, new, effect),
        action is PromptInput || action is PromptBackspace,
        old.dialog_input@.len() <= MAX_DIALOG_INPUT,
    ensures
        new.dialog_input@.len() <= MAX_DIALOG_INPUT,
        forall|i: int|
            0 <= i < old.dialog_input@.len() && i < new.dialog_input@.len()
                ==> new.dialog_input@[i] == old.dialog_input@[i],
        new.dialog_input@.len() > old.dialog_input@.len() ==> !is_control(
            new.dialog_input@.last(),
        ),
{
}

/// The cursor of the settings overlay stays on an item of its section, and
/// stepping down then up (or up then down) returns it to where it was.
pub proof fn law_settings_cursor(a: App, b: App, c: App, e1: Effect, e2: Effect, down_first: bool)
    requires
        a.settings_selected <= settings_max(a.settings_section),
        update_post(
            a,
            if down_first {
                Action::SettingsNextItem
            } else {
                Action::SettingsPrevItem
            },
            b,
            e1,
        ),
        update_post(
            b,
            if down_first {
                Action::SettingsPrevItem
            } else {
                Action::SettingsNextItem
            },
            c,
            e2,
        ),
    ensures
        b.settings_selected <= settings_max(b.settings_section),
        c.settings_selected == a.settings_selected,
        c == a,
{
}

} // verus!
