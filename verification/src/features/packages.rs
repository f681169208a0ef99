//! Installed packages of the system and language package managers.
use vstd::prelude::*;
use crate::selection::{
    clamp_index, clamp_index_exec, next_index, next_index_exec, prev_index, prev_index_exec,
};
use crate::text::{chars_eq, chars_of, concat_str};

verus! {

#[derive(Debug, Clone)]
pub struct PackageItem {
    pub name: String,
    pub version: String,
    pub manager: String,
}

/// Progress of a scan of the installed packages.
#[derive(Debug, Clone)]
pub enum PkgsMsg {
    Start,
    Done(Vec<PackageItem>),
}

#[derive(Debug)]
pub struct PackagesState {
    pub items: Vec<PackageItem>,
    pub selected: usize,
    pub is_scanning: bool,
    pub uninstall_cmd: String,
}

/// The command that removes a package, before the package name, for each
/// known manager.
pub open spec fn uninstall_prefix(manager: Seq<char>) -> Option<Seq<char>> {
    if manager == "brew"@ {
        Some("brew uninstall "@)
    } else if manager == "macports"@ {
        Some("sudo port uninstall "@)
    } else if manager == "apt"@ {
        Some("sudo apt remove "@)
    } else if manager == "pacman"@ {
        Some("sudo pacman -Rns "@)
    } else if manager == "rpm"@ {
        Some("sudo dnf remove "@)
    } else if manager == "snap"@ {
        Some("sudo snap remove "@)
    } else if manager == "flatpak"@ {
        Some("flatpak uninstall "@)
    } else if manager == "nix"@ {
        Some("nix-env --uninstall "@)
    } else if manager == "winget"@ {
        Some("winget uninstall "@)
    } else if manager == "scoop"@ {
        Some("scoop uninstall "@)
    } else if manager == "choco"@ {
        Some("choco uninstall "@)
    } else if manager == "pip"@ {
        Some("pip uninstall "@)
    } else if manager == "uv"@ {
        Some("uv tool uninstall "@)
    } else if manager == "conda"@ {
        Some("conda remove "@)
    } else if manager == "npm"@ {
        Some("npm uninstall -g "@)
    } else if manager == "yarn"@ {
        Some("yarn global remove "@)
    } else if manager == "pnpm"@ {
        Some("pnpm remove -g "@)
    } else if manager == "cargo"@ {
        Some("cargo uninstall "@)
    } else if manager == "gem"@ {
        Some("gem uninstall "@)
    } else if manager == "go"@ {
        Some("go clean -modcache # "@)
    } else {
        None
    }
}

/// The uninstall command shown for a package.
pub open spec fn uninstall_command(manager: Seq<char>, name: Seq<char>) -> Seq<char> {
    match uninstall_prefix(manager) {
        Some(p) => p + name,
        None => "Unknown package manager"@,
    }
}

/// The removal command of a package is its manager's fixed command
/// followed by the package name, for each manager that the scans report;
/// for any other manager it is "Unknown package manager".
pub proof fn law_uninstall_commands(manager: Seq<char>, name: Seq<char>)
    ensures
        uninstall_command("brew"@, name) == "brew uninstall "@ + name,
        uninstall_command("macports"@, name) == "sudo port uninstall "@ + name,
        uninstall_command("apt"@, name) == "sudo apt remove "@ + name,
        uninstall_command("pacman"@, name) == "sudo pacman -Rns "@ + name,
        uninstall_command("rpm"@, name) == "sudo dnf remove "@ + name,
        uninstall_command("snap"@, name) == "sudo snap remove "@ + name,
        uninstall_command("flatpak"@, name) == "flatpak uninstall "@ + name,
        uninstall_command("nix"@, name) == "nix-env --uninstall "@ + name,
        uninstall_command("winget"@, name) == "winget uninstall "@ + name,
        uninstall_command("scoop"@, name) == "scoop uninstall "@ + name,
        uninstall_command("choco"@, name) == "choco uninstall "@ + name,
        uninstall_command("pip"@, name) == "pip uninstall "@ + name,
        uninstall_command("uv"@, name) == "uv tool uninstall "@ + name,
        uninstall_command("conda"@, name) == "conda remove "@ + name,
        uninstall_command("npm"@, name) == "npm uninstall -g "@ + name,
        uninstall_command("yarn"@, name) == "yarn global remove "@ + name,
        uninstall_command("pnpm"@, name) == "pnpm remove -g "@ + name,
        uninstall_command("cargo"@, name) == "cargo uninstall "@ + name,
        uninstall_command("gem"@, name) == "gem uninstall "@ + name,
        uninstall_command("go"@, name) == "go clean -modcache # "@ + name,
        manager != "brew"@ && manager != "macports"@ && manager != "apt"@ && manager != "pacman"@ && manager != "rpm"@ && manager != "snap"@ && manager != "flatpak"@ && manager != "nix"@ && manager != "winget"@ && manager != "scoop"@ && manager != "choco"@ && manager != "pip"@ && manager != "uv"@ && manager != "conda"@ && manager != "npm"@ && manager != "yarn"@ && manager != "pnpm"@ && manager != "cargo"@ && manager != "gem"@ && manager != "go"@ ==> uninstall_command(manager, name) == "Unknown package manager"@,
{
    reveal_strlit("brew");
    reveal_strlit("macports");
    reveal_strlit("apt");
    reveal_strlit("pacman");
    reveal_strlit("rpm");
    reveal_strlit("snap");
    reveal_strlit("flatpak");
    reveal_strlit("nix");
    reveal_strlit("winget");
    reveal_strlit("scoop");
    reveal_strlit("choco");
    reveal_strlit("pip");
    reveal_strlit("uv");
    reveal_strlit("conda");
    reveal_strlit("npm");
    reveal_strlit("yarn");
    reveal_strlit("pnpm");
    reveal_strlit("cargo");
    reveal_strlit("gem");
    reveal_strlit("go");
    assert("macports"@.len() != "brew"@.len());
    assert("apt"@.len() != "brew"@.len());
    assert("apt"@.len() != "macports"@.len());
    assert("pacman"@.len() != "brew"@.len());
    assert("pacman"@.len() != "macports"@.len());
    assert("pacman"@.len() != "apt"@.len());
    assert("rpm"@.len() != "brew"@.len());
    assert("rpm"@.len() != "macports"@.len());
    assert("rpm"@[0] != "apt"@[0]);
    assert("rpm"@.len() != "pacman"@.len());
    assert("snap"@[0] != "brew"@[0]);
    assert("snap"@.len() != "macports"@.len());
    assert("snap"@.len() != "apt"@.len());
    assert("snap"@.len() != "pacman"@.len());
    assert("snap"@.len() != "rpm"@.len());
    assert("flatpak"@.len() != "brew"@.len());
    assert("flatpak"@.len() != "macports"@.len());
    assert("flatpak"@.len() != "apt"@.len());
    assert("flatpak"@.len() != "pacman"@.len());
    assert("flatpak"@.len() != "rpm"@.len());
    assert("flatpak"@.len() != "snap"@.len());
    assert("nix"@.len() != "brew"@.len());
    assert("nix"@.len() != "macports"@.len());
    assert("nix"@[0] != "apt"@[0]);
    assert("nix"@.len() != "pacman"@.len());
    assert("nix"@[0] != "rpm"@[0]);
    assert("nix"@.len() != "snap"@.len());
    assert("nix"@.len() != "flatpak"@.len());
    assert("winget"@.len() != "brew"@.len());
    assert("winget"@.len() != "macports"@.len());
    assert("winget"@.len() != "apt"@.len());
    assert("winget"@[0] != "pacman"@[0]);
    assert("winget"@.len() != "rpm"@.len());
    assert("winget"@.len() != "snap"@.len());
    assert("winget"@.len() != "flatpak"@.len());
    assert("winget"@.len() != "nix"@.len());
    assert("scoop"@.len() != "brew"@.len());
    assert("scoop"@.len() != "macports"@.len());
    assert("scoop"@.len() != "apt"@.len());
    assert("scoop"@.len() != "pacman"@.len());
    assert("scoop"@.len() != "rpm"@.len());
    assert("scoop"@.len() != "snap"@.len());
    assert("scoop"@.len() != "flatpak"@.len());
    assert("scoop"@.len() != "nix"@.len());
    assert("scoop"@.len() != "winget"@.len());
    assert("choco"@.len() != "brew"@.len());
    assert("choco"@.len() != "macports"@.len());
    assert("choco"@.len() != "apt"@.len());
    assert("choco"@.len() != "pacman"@.len());
    assert("choco"@.len() != "rpm"@.len());
    assert("choco"@.len() != "snap"@.len());
    assert("choco"@.len() != "flatpak"@.len());
    assert("choco"@.len() != "nix"@.len());
    assert("choco"@.len() != "winget"@.len());
    assert("choco"@[0] != "scoop"@[0]);
    assert("pip"@.len() != "brew"@.len());
    assert("pip"@.len() != "macports"@.len());
    assert("pip"@[0] != "apt"@[0]);
    assert("pip"@.len() != "pacman"@.len());
    assert("pip"@[0] != "rpm"@[0]);
    assert("pip"@.len() != "snap"@.len());
    assert("pip"@.len() != "flatpak"@.len());
    assert("pip"@[0] != "nix"@[0]);
    assert("pip"@.len() != "winget"@.len());
    assert("pip"@.len() != "scoop"@.len());
    assert("pip"@.len() != "choco"@.len());
    assert("uv"@.len() != "brew"@.len());
    assert("uv"@.len() != "macports"@.len());
    assert("uv"@.len() != "apt"@.len());
    assert("uv"@.len() != "pacman"@.len());
    assert("uv"@.len() != "rpm"@.len());
    assert("uv"@.len() != "snap"@.len());
    assert("uv"@.len() != "flatpak"@.len());
    assert("uv"@.len() != "nix"@.len());
    assert("uv"@.len() != "winget"@.len());
    assert("uv"@.len() != "scoop"@.len());
    assert("uv"@.len() != "choco"@.len());
    assert("uv"@.len() != "pip"@.len());
    assert("conda"@.len() != "brew"@.len());
    assert("conda"@.len() != "macports"@.len());
    assert("conda"@.len() != "apt"@.len());
    assert("conda"@.len() != "pacman"@.len());
    assert("conda"@.len() != "rpm"@.len());
    assert("conda"@.len() != "snap"@.len());
    assert("conda"@.len() != "flatpak"@.len());
    assert("conda"@.len() != "nix"@.len());
    assert("conda"@.len() != "winget"@.len());
    assert("conda"@[0] != "scoop"@[0]);
    assert("conda"@[1] != "choco"@[1]);
    assert("conda"@.len() != "pip"@.len());
    assert("conda"@.len() != "uv"@.len());
    assert("npm"@.len() != "brew"@.len());
    assert("npm"@.len() != "macports"@.len());
    assert("npm"@[0] != "apt"@[0]);
    assert("npm"@.len() != "pacman"@.len());
    assert("npm"@[0] != "rpm"@[0]);
    assert("npm"@.len() != "snap"@.len());
    assert("npm"@.len() != "flatpak"@.len());
    assert("npm"@[1] != "nix"@[1]);
    assert("npm"@.len() != "winget"@.len());
    assert("npm"@.len() != "scoop"@.len());
    assert("npm"@.len() != "choco"@.len());
    assert("npm"@[0] != "pip"@[0]);
    assert("npm"@.len() != "uv"@.len());
    assert("npm"@.len() != "conda"@.len());
    assert("yarn"@[0] != "brew"@[0]);
    assert("yarn"@.len() != "macports"@.len());
    assert("yarn"@.len() != "apt"@.len());
    assert("yarn"@.len() != "pacman"@.len());
    assert("yarn"@.len() != "rpm"@.len());
    assert("yarn"@[0] != "snap"@[0]);
    assert("yarn"@.len() != "flatpak"@.len());
    assert("yarn"@.len() != "nix"@.len());
    assert("yarn"@.len() != "winget"@.len());
    assert("yarn"@.len() != "scoop"@.len());
    assert("yarn"@.len() != "choco"@.len());
    assert("yarn"@.len() != "pip"@.len());
    assert("yarn"@.len() != "uv"@.len());
    assert("yarn"@.len() != "conda"@.len());
    assert("yarn"@.len() != "npm"@.len());
    assert("pnpm"@[0] != "brew"@[0]);
    assert("pnpm"@.len() != "macports"@.len());
    assert("pnpm"@.len() != "apt"@.len());
    assert("pnpm"@.len() != "pacman"@.len());
    assert("pnpm"@.len() != "rpm"@.len());
    assert("pnpm"@[0] != "snap"@[0]);
    assert("pnpm"@.len() != "flatpak"@.len());
    assert("pnpm"@.len() != "nix"@.len());
    assert("pnpm"@.len() != "winget"@.len());
    assert("pnpm"@.len() != "scoop"@.len());
    assert("pnpm"@.len() != "choco"@.len());
    assert("pnpm"@.len() != "pip"@.len());
    assert("pnpm"@.len() != "uv"@.len());
    assert("pnpm"@.len() != "conda"@.len());
    assert("pnpm"@.len() != "npm"@.len());
    assert("pnpm"@[0] != "yarn"@[0]);
    assert("cargo"@.len() != "brew"@.len());
    assert("cargo"@.len() != "macports"@.len());
    assert("cargo"@.len() != "apt"@.len());
    assert("cargo"@.len() != "pacman"@.len());
    assert("cargo"@.len() != "rpm"@.len());
    assert("cargo"@.len() != "snap"@.len());
    assert("cargo"@.len() != "flatpak"@.len());
    assert("cargo"@.len() != "nix"@.len());
    assert("cargo"@.len() != "winget"@.len());
    assert("cargo"@[0] != "scoop"@[0]);
    assert("cargo"@[1] != "choco"@[1]);
    assert("cargo"@.len() != "pip"@.len());
    assert("cargo"@.len() != "uv"@.len());
    assert("cargo"@[1] != "conda"@[1]);
    assert("cargo"@.len() != "npm"@.len());
    assert("cargo"@.len() != "yarn"@.len());
    assert("cargo"@.len() != "pnpm"@.len());
    assert("gem"@.len() != "brew"@.len());
    assert("gem"@.len() != "macports"@.len());
    assert("gem"@[0] != "apt"@[0]);
    assert("gem"@.len() != "pacman"@.len());
    assert("gem"@[0] != "rpm"@[0]);
    assert("gem"@.len() != "snap"@.len());
    assert("gem"@.len() != "flatpak"@.len());
    assert("gem"@[0] != "nix"@[0]);
    assert("gem"@.len() != "winget"@.len());
    assert("gem"@.len() != "scoop"@.len());
    assert("gem"@.len() != "choco"@.len());
    assert("gem"@[0] != "pip"@[0]);
    assert("gem"@.len() != "uv"@.len());
    assert("gem"@.len() != "conda"@.len());
    assert("gem"@[0] != "npm"@[0]);
    assert("gem"@.len() != "yarn"@.len());
    assert("gem"@.len() != "pnpm"@.len());
    assert("gem"@.len() != "cargo"@.len());
    assert("go"@.len() != "brew"@.len());
    assert("go"@.len() != "macports"@.len());
    assert("go"@.len() != "apt"@.len());
    assert("go"@.len() != "pacman"@.len());
    assert("go"@.len() != "rpm"@.len());
    assert("go"@.len() != "snap"@.len());
    assert("go"@.len() != "flatpak"@.len());
    assert("go"@.len() != "nix"@.len());
    assert("go"@.len() != "winget"@.len());
    assert("go"@.len() != "scoop"@.len());
    assert("go"@.len() != "choco"@.len());
    assert("go"@.len() != "pip"@.len());
    assert("go"@[0] != "uv"@[0]);
    assert("go"@.len() != "conda"@.len());
    assert("go"@.len() != "npm"@.len());
    assert("go"@.len() != "yarn"@.len());
    assert("go"@.len() != "pnpm"@.len());
    assert("go"@.len() != "cargo"@.len());
    assert("go"@.len() != "gem"@.len());
}

fn is(m: &Vec<char>, lit: &str) -> (b: bool)
    ensures
        b == (m@ == lit@),
{
    chars_eq(m, &chars_of(lit))
}

fn uninstall_prefix_exec(manager: &str) -> (r: Option<&'static str>)
    ensures
        match r {
            Some(p) => uninstall_prefix(manager@) == Some(p@),
            None => uninstall_prefix(manager@) is None,
        },
{
    let m = chars_of(manager);
    if is(&m, "brew") {
        Some("brew uninstall ")
    } else if is(&m, "macports") {
        Some("sudo port uninstall ")
    } else if is(&m, "apt") {
        Some("sudo apt remove ")
    } else if is(&m, "pacman") {
        Some("sudo pacman -Rns ")
    } else if is(&m, "rpm") {
        Some("sudo dnf remove ")
    } else if is(&m, "snap") {
        Some("sudo snap remove ")
    } else if is(&m, "flatpak") {
        Some("flatpak uninstall ")
    } else if is(&m, "nix") {
        Some("nix-env --uninstall ")
    } else if is(&m, "winget") {
        Some("winget uninstall ")
    } else if is(&m, "scoop") {
        Some("scoop uninstall ")
    } else if is(&m, "choco") {
        Some("choco uninstall ")
    } else if is(&m, "pip") {
        Some("pip uninstall ")
    } else if is(&m, "uv") {
        Some("uv tool uninstall ")
    } else if is(&m, "conda") {
        Some("conda remove ")
    } else if is(&m, "npm") {
        Some("npm uninstall -g ")
    } else if is(&m, "yarn") {
        Some("yarn global remove ")
    } else if is(&m, "pnpm") {
        Some("pnpm remove -g ")
    } else if is(&m, "cargo") {
        Some("cargo uninstall ")
    } else if is(&m, "gem") {
        Some("gem uninstall ")
    } else if is(&m, "go") {
        Some("go clean -modcache # ")
    } else {
        None
    }
}

impl PackagesState {
    pub fn new() -> (s: Self)
        ensures
            s.items@.len() == 0,
            s.selected == 0,
            !s.is_scanning,
            s.uninstall_cmd@.len() == 0,
    {
        PackagesState { items: Vec::new(), selected: 0, is_scanning: false, uninstall_cmd: String::new() }
    }

    pub fn select_next(&mut self)
        ensures
            final(self).selected == next_index(old(self).selected as int, old(self).items@.len() as int),
            final(self).items == old(self).items,
            final(self).is_scanning == old(self).is_scanning,
            final(self).uninstall_cmd == old(self).uninstall_cmd,
    {
        self.selected = next_index_exec(self.selected, self.items.len());
    }

    pub fn select_prev(&mut self)
        ensures
            final(self).selected == prev_index(old(self).selected as int),
            final(self).items == old(self).items,
            final(self).is_scanning == old(self).is_scanning,
            final(self).uninstall_cmd == old(self).uninstall_cmd,
    {
        self.selected = prev_index_exec(self.selected);
    }

    pub fn clamp_selection(&mut self)
        ensures
            final(self).selected == clamp_index(old(self).selected as int, old(self).items@.len() as int),
            final(self).items == old(self).items,
            final(self).is_scanning == old(self).is_scanning,
            final(self).uninstall_cmd == old(self).uninstall_cmd,
    {
        self.selected = clamp_index_exec(self.selected, self.items.len());
    }

    /// Shows the command that removes the package under the cursor (or
    /// clears it when the cursor is on no package).
    pub fn generate_uninstall_cmd(&mut self)
        ensures
            final(self).items == old(self).items,
            final(self).selected == old(self).selected,
            final(self).is_scanning == old(self).is_scanning,
            old(self).selected < old(self).items@.len() ==> final(self).uninstall_cmd@
                == uninstall_command(
                old(self).items@[old(self).selected as int].manager@,
                old(self).items@[old(self).selected as int].name@,
            ),
            old(self).selected >= old(self).items@.len() ==> final(self).uninstall_cmd@.len() == 0,
    {
        if self.selected < self.items.len() {
            let pkg = &self.items[self.selected];
            let cmd = match uninstall_prefix_exec(pkg.manager.as_str()) {
                Some(p) => concat_str(p, pkg.name.as_str()),
                None => String::from_str("Unknown package manager"),
            };
            self.uninstall_cmd = cmd;
        } else {
            self.uninstall_cmd = String::new();
        }
    }
}

impl Default for PackagesState {
    fn default() -> (s: Self)
        ensures
            s.items@.len() == 0,
            s.selected == 0,
            !s.is_scanning,
            s.uninstall_cmd@.len() == 0,
    {
        PackagesState::new()
    }
}

} // verus!
