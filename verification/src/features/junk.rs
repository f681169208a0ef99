//! Reclaimable temporary, log and cache files.
use vstd::prelude::*;
use crate::paths::{
    Component, components, components_eq, components_le, file_name, file_name_spec, lemma_part_order, parts_of,
    part_lt, path_components, path_le, same_path_spec,
};
use crate::sorting::{
    lemma_insert_at, lemma_lex_total, lemma_lex_transitive, law_sort_by, sort_by, sorted_by,
    total_preorder,
};
use crate::selection::{
    clamp_index, clamp_index_exec, next_index, next_index_exec, prev_index, prev_index_exec,
};
use crate::text::{ascii_lowercase, ascii_lowercase_chars, chars_eq, chars_of};

verus! {

#[derive(Debug, Clone)]
pub struct JunkItem {
    pub path: String,
    pub size: u64,
    pub reason: String,
}

/// Progress of a scan for junk files.
#[derive(Debug, Clone)]
pub enum JunkMsg {
    Start,
    Done(Vec<JunkItem>),
}

#[derive(Debug)]
pub struct JunkState {
    pub items: Vec<JunkItem>,
    pub selected: usize,
    pub is_scanning: bool,
    pub total_size: u64,
}

/// The items that stay after a cleanup: those whose removal failed.
pub open spec fn kept_items(items: Seq<JunkItem>, removed: Seq<bool>) -> Seq<JunkItem>
    decreases items.len(),
{
    if items.len() == 0 {
        items
    } else {
        let rest = kept_items(items.drop_last(), removed.drop_last());
        if removed.last() {
            rest
        } else {
            rest.push(items.last())
        }
    }
}

/// How many items were removed.
pub open spec fn removed_count(removed: Seq<bool>) -> nat
    decreases removed.len(),
{
    if removed.len() == 0 {
        0
    } else {
        removed_count(removed.drop_last()) + if removed.last() {
            1nat
        } else {
            0nat
        }
    }
}

/// The total size of the removed items.
pub open spec fn removed_size(items: Seq<JunkItem>, removed: Seq<bool>) -> nat
    decreases items.len(),
{
    if items.len() == 0 {
        0
    } else {
        removed_size(items.drop_last(), removed.drop_last()) + if removed.last() {
            items.last().size as nat
        } else {
            0nat
        }
    }
}

/// The total size of a list of junk items.
pub open spec fn total_size_of(items: Seq<JunkItem>) -> nat
    decreases items.len(),
{
    if items.len() == 0 {
        0
    } else {
        total_size_of(items.drop_last()) + items.last().size as nat
    }
}

pub open spec fn saturating_sub(a: int, b: int) -> int {
    if a >= b {
        a - b
    } else {
        0
    }
}

pub open spec fn min_u64(a: nat) -> nat {
    if a <= u64::MAX {
        a
    } else {
        u64::MAX as nat
    }
}

/// A cleanup accounts for every item: each one is either kept or counted as
/// removed, and the sizes of the kept and the removed items add up to the
/// size of the whole list.
pub proof fn law_cleanup_accounting(items: Seq<JunkItem>, removed: Seq<bool>)
    requires
        items.len() == removed.len(),
    ensures
        kept_items(items, removed).len() + removed_count(removed) == items.len(),
        total_size_of(kept_items(items, removed)) + removed_size(items, removed) == total_size_of(
            items,
        ),
    decreases items.len(),
{
    if items.len() > 0 {
        law_cleanup_accounting(items.drop_last(), removed.drop_last());
        let rest = kept_items(items.drop_last(), removed.drop_last());
        if !removed.last() {
            assert(rest.push(items.last()).drop_last() =~= rest);
        }
    }
}

impl JunkState {
    pub fn new() -> (s: Self)
        ensures
            s.items@.len() == 0,
            s.selected == 0,
            !s.is_scanning,
            s.total_size == 0,
    {
        JunkState { items: Vec::new(), selected: 0, is_scanning: false, total_size: 0 }
    }

    pub fn select_next(&mut self)
        ensures
            final(self).selected == next_index(old(self).selected as int, old(self).items@.len() as int),
            final(self).items == old(self).items,
            final(self).is_scanning == old(self).is_scanning,
            final(self).total_size == old(self).total_size,
    {
        self.selected = next_index_exec(self.selected, self.items.len());
    }

    pub fn select_prev(&mut self)
        ensures
            final(self).selected == prev_index(old(self).selected as int),
            final(self).items == old(self).items,
            final(self).is_scanning == old(self).is_scanning,
            final(self).total_size == old(self).total_size,
    {
        self.selected = prev_index_exec(self.selected);
    }

    pub fn clamp_selection(&mut self)
        ensures
            final(self).selected == clamp_index(old(self).selected as int, old(self).items@.len() as int),
            final(self).items == old(self).items,
            final(self).is_scanning == old(self).is_scanning,
            final(self).total_size == old(self).total_size,
    {
        self.selected = clamp_index_exec(self.selected, self.items.len());
    }

    /// Records the outcome of removing the item under the cursor from disk
    /// (`removed`): when it was removed it leaves the list and its size the
    /// total, and `true` is returned; when nothing is under the cursor or the
    /// removal failed, nothing changes and `false` is returned.
    pub fn delete_selected(&mut self, removed: bool) -> (r: bool)
        ensures
            r == (removed && old(self).selected < old(self).items@.len()),
            !r ==> *final(self) == *old(self),
            r ==> {
                let size = old(self).items@[old(self).selected as int].size;
                &&& final(self).items@ == old(self).items@.remove(old(self).selected as int)
                &&& final(self).total_size == saturating_sub(
                    old(self).total_size as int,
                    size as int,
                )
                &&& final(self).selected == clamp_index(
                    old(self).selected as int,
                    old(self).items@.len() - 1,
                )
                &&& final(self).is_scanning == old(self).is_scanning
            },
    {
        if !removed || self.selected >= self.items.len() {
            return false;
        }
        let size = self.items[self.selected].size;
        self.items.remove(self.selected);
        self.total_size = self.total_size.saturating_sub(size);
        self.clamp_selection();
        true
    }

    /// Records the outcome of removing every listed item from disk
    /// (`removed[i]` for the `i`-th item): the removed items leave the list,
    /// their total size (saturating) leaves the total, and their number is
    /// returned.
    pub fn delete_all(&mut self, removed: &Vec<bool>) -> (n: usize)
        requires
            removed@.len() == old(self).items@.len(),
        ensures
            n == removed_count(removed@),
            n + final(self).items@.len() == old(self).items@.len(),
            final(self).items@ == kept_items(old(self).items@, removed@),
            final(self).total_size == saturating_sub(
                old(self).total_size as int,
                min_u64(removed_size(old(self).items@, removed@)) as int,
            ),
            final(self).selected == clamp_index(
                old(self).selected as int,
                kept_items(old(self).items@, removed@).len() as int,
            ),
            final(self).is_scanning == old(self).is_scanning,
    {
        let mut input: Vec<JunkItem> = Vec::new();
        std::mem::swap(&mut input, &mut self.items);
        let ghost orig = input@;
        let mut kept: Vec<JunkItem> = Vec::new();
        let mut count: usize = 0;
        let mut freed: u64 = 0;
        let mut i: usize = 0;
        assert(orig.take(0) =~= Seq::<JunkItem>::empty());
        assert(removed@.take(0) =~= Seq::<bool>::empty());
        while i < removed.len()
            invariant
                removed@.len() == orig.len(),
                i <= orig.len(),
                input@ == orig.skip(i as int),
                kept@ == kept_items(orig.take(i as int), removed@.take(i as int)),
                count == removed_count(removed@.take(i as int)),
                count <= i,
                freed == min_u64(removed_size(orig.take(i as int), removed@.take(i as int))),
            decreases orig.len() - i,
        {
            let item = input.remove(0);
            let gone = removed[i];
            proof {
                assert(orig.take(i + 1).drop_last() =~= orig.take(i as int));
                assert(removed@.take(i + 1).drop_last() =~= removed@.take(i as int));
                assert(orig.take(i + 1).last() == item);
                assert(input@ =~= orig.skip(i + 1));
            }
            if gone {
                count = count + 1;
                freed = freed.saturating_add(item.size);
            } else {
                kept.push(item);
            }
            i = i + 1;
        }
        assert(orig.take(i as int) =~= orig);
        assert(removed@.take(i as int) =~= removed@);
        proof {
            law_cleanup_accounting(orig, removed@);
        }
        self.items = kept;
        self.total_size = self.total_size.saturating_sub(freed);
        self.clamp_selection();
        count
    }
}

impl Default for JunkState {
    fn default() -> (s: Self)
        ensures
            s.items@.len() == 0,
            s.selected == 0,
            !s.is_scanning,
            s.total_size == 0,
    {
        JunkState::new()
    }
}

/// Folders that a junk scan does not descend into.
pub open spec fn skipped_directory_name(name: Seq<char>) -> bool {
    let n = ascii_lowercase(name);
    n == ".git"@ || n == "node_modules"@ || n == "target"@ || n == "venv"@ || n == ".venv"@
}

/// A junk scan does not descend into version-control, dependency, build or
/// virtual-environment folders (`.git`, `node_modules`, `target`, `venv`,
/// `.venv`, in any ASCII case), and descends into every other folder.
pub proof fn law_skipped_directories(name: Seq<char>)
    ensures
        ascii_lowercase(name) == ".git"@ ==> skipped_directory_name(name),
        ascii_lowercase(name) == "node_modules"@ ==> skipped_directory_name(name),
        ascii_lowercase(name) == "target"@ ==> skipped_directory_name(name),
        ascii_lowercase(name) == "venv"@ ==> skipped_directory_name(name),
        ascii_lowercase(name) == ".venv"@ ==> skipped_directory_name(name),
        ascii_lowercase(name) != ".git"@ && ascii_lowercase(name) != "node_modules"@
            && ascii_lowercase(name) != "target"@ && ascii_lowercase(name) != "venv"@
            && ascii_lowercase(name) != ".venv"@ ==> !skipped_directory_name(name),
{
}

/// Whether a junk scan skips this entry: a folder whose name is `.git`,
/// `node_modules`, `target`, `venv` or `.venv` in any ASCII case.
pub fn is_skipped_directory(path: &str, is_dir: bool) -> (r: bool)
    ensures
        r == (is_dir && match file_name_spec(path@) {
            Some(n) => skipped_directory_name(n),
            None => false,
        }),
{
    if !is_dir {
        return false;
    }
    match file_name(path) {
        None => false,
        Some(name) => {
            let n = ascii_lowercase_chars(&chars_of(name.as_str()));
            chars_eq(&n, &chars_of(".git")) || chars_eq(&n, &chars_of("node_modules")) || chars_eq(
                &n,
                &chars_of("target"),
            ) || chars_eq(&n, &chars_of("venv")) || chars_eq(&n, &chars_of(".venv"))
        },
    }
}

/// The extension of a file name (`Path::extension`): what follows the last
/// `.`, unless there is none or the only one starts the name.
pub open spec fn extension_spec(name: Seq<char>) -> Option<Seq<char>> {
    let i = last_dot(name);
    if i <= 0 {
        None
    } else {
        Some(name.skip(i + 1))
    }
}

/// Index of the last `.` in `s`, or -1.
pub open spec fn last_dot(s: Seq<char>) -> int
    decreases s.len(),
{
    if s.len() == 0 {
        -1
    } else if s.last() == '.' {
        s.len() - 1
    } else {
        last_dot(s.drop_last())
    }
}

proof fn lemma_last_dot(s: Seq<char>)
    ensures
        -1 <= last_dot(s) < s.len(),
    decreases s.len(),
{
    if s.len() > 0 && s.last() != '.' {
        lemma_last_dot(s.drop_last());
    }
}

/// Why a file counts as junk, from its name and extension in ASCII lower
/// case: a known system or cache file name, or a temporary or log extension.
pub open spec fn junk_reason_spec(path: Seq<char>) -> Option<Seq<char>> {
    let name = match file_name_spec(path) {
        Some(n) => n,
        None => Seq::<char>::empty(),
    };
    let lower = ascii_lowercase(name);
    let ext = match extension_spec(name) {
        Some(e) => ascii_lowercase(e),
        None => Seq::<char>::empty(),
    };
    if lower == "thumbs.db"@ || lower == ".ds_store"@ || lower == "desktop.ini"@ || lower
        == "npm-debug.log"@ || lower == "yarn-error.log"@ {
        Some("System/Cache File"@)
    } else if ext == "tmp"@ || ext == "log"@ || ext == "bak"@ || ext == "old"@ || ext == "dmp"@
        || ext == "cache"@ {
        Some("Temp/Log File"@)
    } else {
        None
    }
}

fn extension_chars(name: &Vec<char>) -> (r: Vec<char>)
    ensures
        r@ == match extension_spec(name@) {
            Some(e) => e,
            None => Seq::<char>::empty(),
        },
{
    let mut i: usize = name.len();
    assert(name@.take(name@.len() as int) =~= name@);
    while i > 0 && name[i - 1] != '.'
        invariant
            i <= name.len(),
            last_dot(name@) == last_dot(name@.take(i as int)),
        decreases i,
    {
        assert(name@.take(i as int).drop_last() =~= name@.take(i - 1));
        i = i - 1;
    }
    proof {
        lemma_last_dot(name@);
        if i > 0 {
            assert(last_dot(name@.take(i as int)) == i - 1);
        } else {
            assert(name@.take(0) =~= Seq::<char>::empty());
        }
    }
    assert(name@.take(name@.len() as int) =~= name@);
    let mut r: Vec<char> = Vec::new();
    if i <= 1 {
        return r;
    }
    let mut k: usize = i;
    while k < name.len()
        invariant
            i <= k <= name.len(),
            r@ == name@.subrange(i as int, k as int),
        decreases name.len() - k,
    {
        r.push(name[k]);
        k = k + 1;
        assert(r@ =~= name@.subrange(i as int, k as int));
    }
    assert(r@ =~= name@.skip(i as int));
    r
}

/// The extension of `stem.ext`, for a non-empty stem and an extension
/// without a dot, is `ext`.
pub proof fn law_extension_after_last_dot(stem: Seq<char>, ext: Seq<char>)
    requires
        stem.len() > 0,
        forall|i: int| 0 <= i < ext.len() ==> ext[i] != '.',
    ensures
        extension_spec(stem + seq!['.'] + ext) == Some(ext),
        last_dot(stem + seq!['.'] + ext) == stem.len(),
    decreases ext.len(),
{
    let name = stem + seq!['.'] + ext;
    if ext.len() == 0 {
        assert(name.last() == '.');
        assert(last_dot(name) == stem.len());
        assert(name.skip(stem.len() as int + 1) =~= ext);
    } else {
        law_extension_after_last_dot(stem, ext.drop_last());
        let shorter = stem + seq!['.'] + ext.drop_last();
        assert(name.drop_last() =~= shorter);
        assert(name.last() == ext.last());
        assert(last_dot(shorter) == stem.len());
        assert(last_dot(name) == stem.len());
        assert(name.skip(stem.len() as int + 1) =~= ext);
    }
}

/// A file is junk by its name and extension, in ASCII lower case:
/// `thumbs.db`, `.ds_store`, `desktop.ini`, `npm-debug.log` and
/// `yarn-error.log` are system or cache files; any other file whose
/// extension is `tmp`, `log`, `bak`, `old`, `dmp` or `cache` is a temporary
/// or log file; every other file is kept.
pub proof fn law_junk_reasons(path: Seq<char>, name: Seq<char>)
    requires
        file_name_spec(path) == Some(name),
    ensures
        ascii_lowercase(name) == "thumbs.db"@ || ascii_lowercase(name) == ".ds_store"@
            || ascii_lowercase(name) == "desktop.ini"@ || ascii_lowercase(name) == "npm-debug.log"@
            || ascii_lowercase(name) == "yarn-error.log"@ ==> junk_reason_spec(path) == Some(
            "System/Cache File"@,
        ),
        !(ascii_lowercase(name) == "thumbs.db"@ || ascii_lowercase(name) == ".ds_store"@
            || ascii_lowercase(name) == "desktop.ini"@ || ascii_lowercase(name) == "npm-debug.log"@
            || ascii_lowercase(name) == "yarn-error.log"@) ==> match extension_spec(name) {
            Some(e) => if ascii_lowercase(e) == "tmp"@ || ascii_lowercase(e) == "log"@
                || ascii_lowercase(e) == "bak"@ || ascii_lowercase(e) == "old"@ || ascii_lowercase(e)
                == "dmp"@ || ascii_lowercase(e) == "cache"@ {
                junk_reason_spec(path) == Some("Temp/Log File"@)
            } else {
                junk_reason_spec(path) is None
            },
            None => junk_reason_spec(path) is None,
        },
{
    if extension_spec(name) is None {
        assert(ascii_lowercase(Seq::<char>::empty()) =~= Seq::<char>::empty());
        reveal_strlit("tmp");
        reveal_strlit("log");
        reveal_strlit("bak");
        reveal_strlit("old");
        reveal_strlit("dmp");
        reveal_strlit("cache");
    }
}

/// A path with no file name (such as `/` or one ending in `..`) is never
/// junk.
pub proof fn law_no_name_no_junk(path: Seq<char>)
    requires
        file_name_spec(path) is None,
    ensures
        junk_reason_spec(path) is None,
{
    assert(ascii_lowercase(Seq::<char>::empty()) =~= Seq::<char>::empty());
    reveal_strlit("thumbs.db");
    reveal_strlit(".ds_store");
    reveal_strlit("desktop.ini");
    reveal_strlit("npm-debug.log");
    reveal_strlit("yarn-error.log");
    reveal_strlit("tmp");
    reveal_strlit("log");
    reveal_strlit("bak");
    reveal_strlit("old");
    reveal_strlit("dmp");
    reveal_strlit("cache");
    assert(last_dot(Seq::<char>::empty()) == -1);
    assert(extension_spec(Seq::<char>::empty()) is None);
}

/// Why a file found by a junk scan is listed, or `None` when it is kept.
pub fn junk_reason(path: &str) -> (r: Option<&'static str>)
    ensures
        match r {
            Some(s) => junk_reason_spec(path@) == Some(s@),
            None => junk_reason_spec(path@) is None,
        },
{
    let name = match file_name(path) {
        Some(n) => chars_of(n.as_str()),
        None => Vec::new(),
    };
    let ghost spec_name = match file_name_spec(path@) {
        Some(n) => n,
        None => Seq::<char>::empty(),
    };
    assert(name@ == spec_name);
    let lower = ascii_lowercase_chars(&name);
    let ext = ascii_lowercase_chars(&extension_chars(&name));
    assert(ext@ == match extension_spec(spec_name) {
        Some(e) => ascii_lowercase(e),
        None => Seq::<char>::empty(),
    }) by {
        assert(ascii_lowercase(Seq::<char>::empty()) =~= Seq::<char>::empty());
    }
    if chars_eq(&lower, &chars_of("thumbs.db")) || chars_eq(&lower, &chars_of(".ds_store"))
        || chars_eq(&lower, &chars_of("desktop.ini")) || chars_eq(&lower, &chars_of("npm-debug.log"))
        || chars_eq(&lower, &chars_of("yarn-error.log")) {
        Some("System/Cache File")
    } else if chars_eq(&ext, &chars_of("tmp")) || chars_eq(&ext, &chars_of("log")) || chars_eq(
        &ext,
        &chars_of("bak"),
    ) || chars_eq(&ext, &chars_of("old")) || chars_eq(&ext, &chars_of("dmp")) || chars_eq(
        &ext,
        &chars_of("cache"),
    ) {
        Some("Temp/Log File")
    } else {
        None
    }
}


/// The `i`-th item names a path that an earlier item already names.
pub open spec fn repeats_earlier(s: Seq<JunkItem>, i: int) -> bool {
    exists|j: int| 0 <= j < i && same_path_spec(#[trigger] s[j].path@, s[i].path@)
}

/// Some item of `s` names the path `p`.
pub open spec fn names_path(s: Seq<JunkItem>, p: Seq<char>) -> bool {
    exists|k: int| 0 <= k < s.len() && same_path_spec(#[trigger] s[k].path@, p)
}

/// The items in their order, each one left out whose path an earlier item
/// already names: the first item of each path stays.
pub open spec fn first_of_each_path(s: Seq<JunkItem>) -> Seq<JunkItem>
    decreases s.len(),
{
    if s.len() == 0 {
        s
    } else {
        let rest = first_of_each_path(s.drop_last());
        if repeats_earlier(s, s.len() - 1) {
            rest
        } else {
            rest.push(s.last())
        }
    }
}

#[verifier::spinoff_prover]
#[verifier::rlimit(40)]
proof fn lemma_first_of_each_path(s: Seq<JunkItem>)
    ensures
        forall|k: int|
            0 <= k < first_of_each_path(s).len() ==> exists|j: int|
                0 <= j < s.len() && !repeats_earlier(s, j) && s[j] == #[trigger] first_of_each_path(s)[k],
        forall|a: int, b: int|
            0 <= a < b < first_of_each_path(s).len() ==> !same_path_spec(
                #[trigger] first_of_each_path(s)[a].path@,
                #[trigger] first_of_each_path(s)[b].path@,
            ),
        forall|j: int|
            0 <= j < s.len() ==> names_path(first_of_each_path(s), #[trigger] s[j].path@),
    decreases s.len(),
{
    if s.len() > 0 {
        let p = s.drop_last();
        lemma_first_of_each_path(p);
        let rest = first_of_each_path(p);
        let out = first_of_each_path(s);
        assert forall|j: int| 0 <= j < p.len() implies repeats_earlier(p, j) == repeats_earlier(s, j) by {
            if repeats_earlier(p, j) {
                let w = choose|w: int| 0 <= w < j && same_path_spec(#[trigger] p[w].path@, p[j].path@);
                assert(s[w] == p[w]);
            }
            if repeats_earlier(s, j) {
                let w = choose|w: int| 0 <= w < j && same_path_spec(#[trigger] s[w].path@, s[j].path@);
                assert(s[w] == p[w]);
            }
        }
        assert forall|k: int| 0 <= k < out.len() implies exists|j: int|
            0 <= j < s.len() && !repeats_earlier(s, j) && s[j] == #[trigger] out[k] by {
            if k < rest.len() {
                assert(out[k] == rest[k]);
                let j = choose|j: int| 0 <= j < p.len() && !repeats_earlier(p, j) && p[j] == rest[k];
                assert(s[j] == p[j]);
            } else {
                assert(s[s.len() - 1] == out[k]);
            }
        }
        assert forall|j: int| 0 <= j < s.len() implies names_path(out, #[trigger] s[j].path@) by {
            if j < p.len() {
                assert(s[j] == p[j]);
                assert(names_path(rest, p[j].path@));
                let k = choose|k: int| 0 <= k < rest.len() && same_path_spec(#[trigger] rest[k].path@, p[j].path@);
                assert(out[k] == rest[k]);
            } else if repeats_earlier(s, j) {
                let w = choose|w: int| 0 <= w < j && same_path_spec(#[trigger] s[w].path@, s[j].path@);
                assert(s[w] == p[w]);
                assert(names_path(rest, p[w].path@));
                let k = choose|k: int| 0 <= k < rest.len() && same_path_spec(#[trigger] rest[k].path@, p[w].path@);
                assert(out[k] == rest[k]);
            } else {
                assert(out[out.len() - 1] == s[j]);
            }
        }
        if !repeats_earlier(s, s.len() - 1) {
            assert forall|a: int, b: int| 0 <= a < b < out.len() implies !same_path_spec(
                #[trigger] out[a].path@,
                #[trigger] out[b].path@,
            ) by {
                assert(out[a] == rest[a]);
                if b < rest.len() {
                    assert(out[b] == rest[b]);
                } else {
                    let j = choose|j: int| 0 <= j < p.len() && !repeats_earlier(p, j) && p[j] == rest[a];
                    assert(s[j] == p[j]);
                }
            }
        }
    }
}

/// Leaving out repeated paths gives a list in which no two items name the
/// same path, that names every path of the input, and whose items come from
/// the input, each the first of its path, in the input's order.
pub proof fn law_first_of_each_path(items: Seq<JunkItem>)
    ensures
        forall|a: int, b: int|
            0 <= a < b < first_of_each_path(items).len() ==> !same_path_spec(
                #[trigger] first_of_each_path(items)[a].path@,
                #[trigger] first_of_each_path(items)[b].path@,
            ),
        forall|j: int|
            0 <= j < items.len() ==> names_path(first_of_each_path(items), #[trigger] items[j].path@),
        forall|k: int|
            0 <= k < first_of_each_path(items).len() ==> exists|j: int|
                0 <= j < items.len() && !repeats_earlier(items, j) && items[j]
                    == #[trigger] first_of_each_path(items)[k],
{
    lemma_first_of_each_path(items);
}

/// Keeps the first item of each path and leaves out the later ones that
/// name the same path again, keeping the order.
pub fn first_of_each_path_items(items: Vec<JunkItem>) -> (out: Vec<JunkItem>)
    ensures
        out@ == first_of_each_path(items@),
{
    let mut input = items;
    let ghost orig = input@;
    let mut out: Vec<JunkItem> = Vec::new();
    let mut keys: Vec<Vec<Component>> = Vec::new();
    assert(orig.take(0) =~= Seq::<JunkItem>::empty());
    while input.len() > 0
        invariant
            keys@.len() <= orig.len(),
            input@ == orig.skip(keys@.len() as int),
            out@ == first_of_each_path(orig.take(keys@.len() as int)),
            forall|k: int|
                0 <= k < keys@.len() ==> parts_of((#[trigger] keys@[k])@) == components(
                    orig[k].path@,
                ),
        decreases input.len(),
    {
        let ghost n = keys@.len() as int;
        let x = input.remove(0);
        let x_key = path_components(x.path.as_str());
        let mut seen = false;
        let mut j: usize = 0;
        while j < keys.len()
            invariant
                j <= keys@.len(),
                keys@.len() == n,
                forall|k: int|
                    0 <= k < keys@.len() ==> parts_of((#[trigger] keys@[k])@) == components(
                        orig[k].path@,
                    ),
                parts_of(x_key@) == components(x.path@),
                seen == exists|w: int| 0 <= w < j && same_path_spec(#[trigger] orig[w].path@, x.path@),
            decreases keys@.len() - j,
        {
            if components_eq(&keys[j], &x_key) {
                seen = true;
            }
            j = j + 1;
        }
        proof {
            let t = orig.take(n + 1);
            assert(t.drop_last() =~= orig.take(n));
            assert(t.last() == x);
            assert(input@ =~= orig.skip(n + 1));
            assert(repeats_earlier(t, n) == seen) by {
                if seen {
                    let w = choose|w: int| 0 <= w < n && same_path_spec(#[trigger] orig[w].path@, x.path@);
                    assert(t[w] == orig[w]);
                }
                if repeats_earlier(t, n) {
                    let w = choose|w: int| 0 <= w < n && same_path_spec(#[trigger] t[w].path@, t[n].path@);
                    assert(t[w] == orig[w]);
                }
            }
        }
        if !seen {
            out.push(x);
        }
        keys.push(x_key);
    }
    assert(orig.take(keys@.len() as int) =~= orig);
    out
}

/// Junk items are listed in the order of their paths.
pub open spec fn junk_le() -> spec_fn(JunkItem, JunkItem) -> bool {
    |a: JunkItem, b: JunkItem| path_le(a.path@, b.path@)
}

/// The junk list is ordered by path and holds every item found, once.
pub proof fn law_junk_order(items: Seq<JunkItem>)
    ensures
        sorted_by(sort_by(items, junk_le()), junk_le()),
        sort_by(items, junk_le()).to_multiset() == items.to_multiset(),
{
    lemma_part_order();
    let le = junk_le();
    assert forall|a: JunkItem, b: JunkItem| #[trigger] le(a, b) || le(b, a) by {
        lemma_lex_total(components(a.path@), components(b.path@), part_lt());
    }
    assert forall|a: JunkItem, b: JunkItem, c: JunkItem|
        #[trigger] le(a, b) && #[trigger] le(b, c) implies le(a, c) by {
        lemma_lex_transitive(
            components(a.path@),
            components(b.path@),
            components(c.path@),
            part_lt(),
        );
    }
    assert(total_preorder(le));
    law_sort_by(items, le);
}

/// Orders junk items by path; items with equal paths keep their order.
pub fn sort_junk(items: Vec<JunkItem>) -> (out: Vec<JunkItem>)
    ensures
        out@ == sort_by(items@, junk_le()),
{
    let mut input = items;
    let ghost orig = input@;
    let mut out: Vec<JunkItem> = Vec::new();
    let mut keys: Vec<Vec<Component>> = Vec::new();
    let ghost mut taken: int = 0;
    assert(orig.take(0) =~= Seq::<JunkItem>::empty());
    while input.len() > 0
        invariant
            0 <= taken <= orig.len(),
            input@ == orig.skip(taken),
            out@ == sort_by(orig.take(taken), junk_le()),
            keys@.len() == out@.len(),
            forall|k: int|
                0 <= k < keys@.len() ==> parts_of((#[trigger] keys@[k])@) == components(
                    out@[k].path@,
                ),
        decreases input.len(),
    {
        let x = input.remove(0);
        let x_key = path_components(x.path.as_str());
        let mut j = out.len();
        while j > 0 && !components_le(&keys[j - 1], &x_key)
            invariant
                j <= out.len(),
                keys@.len() == out@.len(),
                forall|k: int|
                    0 <= k < keys@.len() ==> parts_of((#[trigger] keys@[k])@) == components(
                        out@[k].path@,
                    ),
                parts_of(x_key@) == components(x.path@),
                forall|k: int| j <= k < out@.len() ==> !junk_le()(#[trigger] out@[k], x),
            decreases j,
        {
            j = j - 1;
        }
        proof {
            lemma_insert_at(out@, x, junk_le(), j as int);
            assert(orig.take(taken + 1).drop_last() =~= orig.take(taken));
            assert(orig.take(taken + 1).last() == x);
            assert(input@ =~= orig.skip(taken + 1));
            taken = taken + 1;
        }
        let ghost (old_out, old_keys) = (out@, keys@);
        out.insert(j, x);
        keys.insert(j, x_key);
        assert forall|k: int| 0 <= k < keys@.len() implies parts_of((#[trigger] keys@[k])@)
            == components(out@[k].path@) by {
            if k < j {
                assert(keys@[k] == old_keys[k] && out@[k] == old_out[k]);
            } else if k > j {
                assert(keys@[k] == old_keys[k - 1] && out@[k] == old_out[k - 1]);
            }
        }
    }
    assert(orig.take(taken) =~= orig);
    out
}

} // verus!
