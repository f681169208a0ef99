//! The file browser.
use vstd::prelude::*;
use crate::paths::{components, is_prefix, parent, tail_trimmed};
use crate::features::storage::saturating_sum;
use crate::selection::{next_index, next_index_exec, prev_index, prev_index_exec};
use crate::sorting::{
    lemma_insert_at, lemma_lex_antisymmetric, lemma_lex_total, lemma_lex_transitive,
    lemma_sort_map, law_sort_by, second, sort_by, sorted_by, strip_keys, total_preorder,
};
use crate::text::{
    char_lt, chars_eq, chars_le, chars_le_exec, chars_of, lemma_char_order, lowercase,
    to_lowercase,
};

verus! {

#[derive(Debug, Clone)]
pub struct FileItem {
    pub name: String,
    pub is_dir: bool,
    pub size: u64,
    pub path: String,
}

/// Progress of a scan of a folder: the folder and the scan generation it
/// was started for, and at the end the entries found.
#[derive(Debug, Clone)]
pub enum FileMsg {
    Start(String, u64),
    Done(String, u64, Vec<FileItem>),
}

#[derive(Debug)]
pub struct FilesState {
    pub current_dir: String,
    pub items: Vec<FileItem>,
    pub selected: usize,
    pub is_scanning: bool,
    pub scan_generation: u64,
}

/// The generation after `g`, wrapping at the end of the range.
pub open spec fn next_generation(g: u64) -> u64 {
    if g == u64::MAX {
        0
    } else {
        (g + 1) as u64
    }
}

impl FilesState {
    /// A browser opened on `start_dir`, with nothing scanned yet.
    pub fn new(start_dir: String) -> (s: Self)
        ensures
            s.current_dir@ == start_dir@,
            s.items@.len() == 0,
            s.selected == 0,
            !s.is_scanning,
            s.scan_generation == 0,
    {
        FilesState {
            current_dir: start_dir,
            items: Vec::new(),
            selected: 0,
            is_scanning: false,
            scan_generation: 0,
        }
    }

    /// Starts a new scan of the current folder: a fresh generation (which
    /// is returned), the list emptied and the cursor at the top.
    pub fn begin_scan(&mut self) -> (g: u64)
        ensures
            g == next_generation(old(self).scan_generation),
            g != old(self).scan_generation,
            final(self).scan_generation == g,
            final(self).is_scanning,
            final(self).items@.len() == 0,
            final(self).selected == 0,
            final(self).current_dir == old(self).current_dir,
    {
        self.scan_generation = self.scan_generation.wrapping_add(1);
        self.is_scanning = true;
        self.items = Vec::new();
        self.selected = 0;
        self.scan_generation
    }

    pub fn select_next(&mut self)
        ensures
            final(self).selected == next_index(old(self).selected as int, old(self).items@.len() as int),
            final(self).items == old(self).items,
            final(self).current_dir == old(self).current_dir,
            final(self).is_scanning == old(self).is_scanning,
            final(self).scan_generation == old(self).scan_generation,
    {
        self.selected = next_index_exec(self.selected, self.items.len());
    }

    pub fn select_prev(&mut self)
        ensures
            final(self).selected == prev_index(old(self).selected as int),
            final(self).items == old(self).items,
            final(self).current_dir == old(self).current_dir,
            final(self).is_scanning == old(self).is_scanning,
            final(self).scan_generation == old(self).scan_generation,
    {
        self.selected = prev_index_exec(self.selected);
    }

    /// The folder under the cursor, if the cursor is on a folder.
    pub fn enter_selected(&self) -> (r: Option<String>)
        ensures
            match r {
                Some(p) => self.selected < self.items@.len() && self.items@[self.selected as int].is_dir
                    && p == self.items@[self.selected as int].path,
                None => !(self.selected < self.items@.len() && self.items@[self.selected as int].is_dir),
            },
    {
        if self.selected < self.items.len() && self.items[self.selected].is_dir {
            Some(self.items[self.selected].path.clone())
        } else {
            None
        }
    }

    /// The folder that holds the current one, if there is one.
    pub fn go_up(&self) -> (r: Option<String>)
        ensures
            r is None <==> (components(self.current_dir@).len() == 0 || components(
                self.current_dir@,
            ).last() is Root),
            match r {
                Some(q) => components(q@) == components(self.current_dir@).drop_last() && is_prefix(
                    q@,
                    self.current_dir@,
                ) && tail_trimmed(q@),
                None => true,
            },
    {
        parent(self.current_dir.as_str())
    }
}

/// A scan always starts a generation different from the one before, so
/// results of an earlier scan are never taken for the current one.
pub proof fn law_new_generation_differs(g: u64)
    ensures
        next_generation(g) != g,
{
}


/// The order of folder entries, each given by whether it is a folder, its
/// name in lower case and its name: folders first, then by the lower-case
/// name, then by the name.
pub open spec fn entry_order(
    a_dir: bool,
    a_low: Seq<char>,
    a_name: Seq<char>,
    b_dir: bool,
    b_low: Seq<char>,
    b_name: Seq<char>,
) -> bool {
    if a_dir != b_dir {
        a_dir
    } else if a_low != b_low {
        chars_le(a_low, b_low)
    } else {
        chars_le(a_name, b_name)
    }
}

/// The order of a folder listing: folders first, then by name in lower
/// case, then by name.
pub open spec fn entry_le() -> spec_fn(FileItem, FileItem) -> bool {
    |a: FileItem, b: FileItem|
        entry_order(a.is_dir, lowercase(a.name@), a.name@, b.is_dir, lowercase(b.name@), b.name@)
}

/// The same order, on entries paired with their names in lower case.
pub open spec fn keyed_entry_le() -> spec_fn((String, FileItem), (String, FileItem)) -> bool {
    |a: (String, FileItem), b: (String, FileItem)|
        entry_order(a.1.is_dir, a.0@, a.1.name@, b.1.is_dir, b.0@, b.1.name@)
}

proof fn lemma_entry_order()
    ensures
        total_preorder(entry_le()),
{
    lemma_char_order();
    let le = entry_le();
    assert forall|a: FileItem, b: FileItem| #[trigger] le(a, b) || le(b, a) by {
        lemma_lex_total(lowercase(a.name@), lowercase(b.name@), char_lt());
        lemma_lex_total(a.name@, b.name@, char_lt());
    }
    assert forall|a: FileItem, b: FileItem, c: FileItem|
        #[trigger] le(a, b) && #[trigger] le(b, c) implies le(a, c) by {
        let (la, lb, lc) = (lowercase(a.name@), lowercase(b.name@), lowercase(c.name@));
        if a.is_dir == b.is_dir && b.is_dir == c.is_dir {
            if la != lb && lb != lc {
                lemma_lex_transitive(la, lb, lc, char_lt());
                if la == lc {
                    lemma_lex_antisymmetric(la, lb, char_lt());
                }
            } else if la == lb && lb == lc {
                lemma_lex_transitive(a.name@, b.name@, c.name@, char_lt());
            }
        }
    }
}

/// A folder listing is ordered: folders before files, names in lower case
/// in order, and no entry is dropped or repeated.
pub proof fn law_entry_order(items: Seq<FileItem>)
    ensures
        sorted_by(sort_by(items, entry_le()), entry_le()),
        sort_by(items, entry_le()).to_multiset() == items.to_multiset(),
        forall|i: int, j: int|
            0 <= i < j < items.len() && (#[trigger] sort_by(items, entry_le())[j]).is_dir
                ==> (#[trigger] sort_by(items, entry_le())[i]).is_dir,
{
    lemma_entry_order();
    law_sort_by(items, entry_le());
}

fn keyed_le_exec(
    a_dir: bool,
    a_low: &Vec<char>,
    a_name: &Vec<char>,
    b_dir: bool,
    b_low: &Vec<char>,
    b_name: &Vec<char>,
) -> (r: bool)
    ensures
        r == entry_order(a_dir, a_low@, a_name@, b_dir, b_low@, b_name@),
{
    if a_dir != b_dir {
        a_dir
    } else if !chars_eq(a_low, b_low) {
        chars_le_exec(a_low, b_low)
    } else {
        chars_le_exec(a_name, b_name)
    }
}

/// Orders folder entries paired with their names in lower case by
/// `keyed_entry_le`; entries that compare equal keep their order.
pub fn sort_keyed_entries(entries: Vec<(String, FileItem)>) -> (out: Vec<(String, FileItem)>)
    ensures
        out@ == sort_by(entries@, keyed_entry_le()),
{
    let mut input = entries;
    let ghost orig = input@;
    let mut out: Vec<(String, FileItem)> = Vec::new();
    let mut lows: Vec<Vec<char>> = Vec::new();
    let mut names: Vec<Vec<char>> = Vec::new();
    let ghost mut taken: int = 0;
    assert(orig.take(0) =~= Seq::<(String, FileItem)>::empty());
    while input.len() > 0
        invariant
            0 <= taken <= orig.len(),
            input@ == orig.skip(taken),
            out@ == sort_by(orig.take(taken), keyed_entry_le()),
            lows@.len() == out@.len(),
            names@.len() == out@.len(),
            forall|k: int| 0 <= k < lows@.len() ==> (#[trigger] lows@[k])@ == out@[k].0@,
            forall|k: int| 0 <= k < names@.len() ==> (#[trigger] names@[k])@ == out@[k].1.name@,
        decreases input.len(),
    {
        let x = input.remove(0);
        let x_low = chars_of(x.0.as_str());
        let x_name = chars_of(x.1.name.as_str());
        let mut j = out.len();
        while j > 0 && !keyed_le_exec(
            out[j - 1].1.is_dir,
            &lows[j - 1],
            &names[j - 1],
            x.1.is_dir,
            &x_low,
            &x_name,
        )
            invariant
                j <= out.len(),
                lows@.len() == out@.len(),
                names@.len() == out@.len(),
                forall|k: int| 0 <= k < lows@.len() ==> (#[trigger] lows@[k])@ == out@[k].0@,
                forall|k: int| 0 <= k < names@.len() ==> (#[trigger] names@[k])@ == out@[k].1.name@,
                x_low@ == x.0@,
                x_name@ == x.1.name@,
                forall|k: int| j <= k < out@.len() ==> !keyed_entry_le()(#[trigger] out@[k], x),
            decreases j,
        {
            j = j - 1;
        }
        proof {
            lemma_insert_at(out@, x, keyed_entry_le(), j as int);
            assert(orig.take(taken + 1).drop_last() =~= orig.take(taken));
            assert(orig.take(taken + 1).last() == x);
            assert(input@ =~= orig.skip(taken + 1));
            taken = taken + 1;
        }
        let ghost (old_out, old_lows, old_names) = (out@, lows@, names@);
        out.insert(j, x);
        lows.insert(j, x_low);
        names.insert(j, x_name);
        assert forall|k: int| 0 <= k < lows@.len() implies (#[trigger] lows@[k])@ == out@[k].0@ by {
            if k < j {
                assert(lows@[k] == old_lows[k] && out@[k] == old_out[k]);
            } else if k > j {
                assert(lows@[k] == old_lows[k - 1] && out@[k] == old_out[k - 1]);
            }
        }
        assert forall|k: int| 0 <= k < names@.len() implies (#[trigger] names@[k])@
            == out@[k].1.name@ by {
            if k < j {
                assert(names@[k] == old_names[k] && out@[k] == old_out[k]);
            } else if k > j {
                assert(names@[k] == old_names[k - 1] && out@[k] == old_out[k - 1]);
            }
        }
    }
    assert(orig.take(taken) =~= orig);
    out
}

/// Orders the entries of a folder listing by `entry_le`; entries that
/// compare equal keep their order.
pub fn sort_entries(items: Vec<FileItem>) -> (out: Vec<FileItem>)
    ensures
        out@ == sort_by(items@, entry_le()),
{
    let mut input = items;
    let ghost orig = input@;
    let mut keyed: Vec<(String, FileItem)> = Vec::new();
    let ghost entry = second::<String, FileItem>();
    assert(orig.take(0) =~= Seq::<FileItem>::empty());
    while input.len() > 0
        invariant
            entry == second::<String, FileItem>(),
            keyed@.len() + input@.len() == orig.len(),
            input@ == orig.skip(keyed@.len() as int),
            keyed@.map_values(entry) == orig.take(keyed@.len() as int),
            forall|k: int| 0 <= k < keyed@.len() ==> (#[trigger] keyed@[k]).0@ == lowercase(
                keyed@[k].1.name@,
            ),
        decreases input.len(),
    {
        let ghost n = keyed@.len() as int;
        let ghost old_keyed = keyed@;
        let x = input.remove(0);
        assert(x == orig[n]);
        let low = to_lowercase(x.name.as_str());
        keyed.push((low, x));
        assert(input@ =~= orig.skip(n + 1));
        assert forall|k: int| 0 <= k < n + 1 implies keyed@.map_values(entry)[k] == orig.take(
            n + 1,
        )[k] by {
            if k < n {
                assert(keyed@[k] == old_keyed[k]);
                assert(old_keyed.map_values(entry)[k] == orig.take(n)[k]);
            }
        }
        assert(keyed@.map_values(entry) =~= orig.take(n + 1));
    }
    assert(orig.take(orig.len() as int) =~= orig);
    proof {
        assert forall|p: (String, FileItem), q: (String, FileItem)|
            keyed@.contains(p) && keyed@.contains(q) implies #[trigger] keyed_entry_le()(p, q)
            == entry_le()(entry(p), entry(q)) by {
            let i = choose|i: int| 0 <= i < keyed@.len() && keyed@[i] == p;
            let j = choose|j: int| 0 <= j < keyed@.len() && keyed@[j] == q;
        }
        lemma_sort_map(keyed@, entry, keyed_entry_le(), entry_le());
    }
    strip_keys(sort_keyed_entries(keyed))
}


/// The size of a folder from the sizes of the files under it: their sum,
/// kept at the largest count once it overflows.
pub fn folder_size(file_sizes: &Vec<u64>) -> (r: u64)
    ensures
        r == saturating_sum(file_sizes@),
{
    let mut total: u64 = 0;
    let mut i: usize = 0;
    while i < file_sizes.len()
        invariant
            i <= file_sizes@.len(),
            total == saturating_sum(file_sizes@.take(i as int)),
        decreases file_sizes.len() - i,
    {
        assert(file_sizes@.take(i + 1).drop_last() =~= file_sizes@.take(i as int));
        total = total.saturating_add(file_sizes[i]);
        i = i + 1;
    }
    assert(file_sizes@.take(i as int) =~= file_sizes@);
    total
}

} // verus!
