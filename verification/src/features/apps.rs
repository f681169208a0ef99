//! Installed applications.
use vstd::prelude::*;
use crate::selection::{
    clamp_index, clamp_index_exec, next_index, next_index_exec, prev_index, prev_index_exec,
};
use crate::sorting::{
    lemma_insert_at, lemma_lex_total, lemma_lex_transitive, lemma_sort_map, law_sort_by, second,
    sort_by, sorted_by, strip_keys, total_preorder,
};
use crate::text::{
    char_lt, chars_le, chars_le_exec, chars_of, lemma_char_order, lowercase, replace_all,
    replace_chars, string_of, to_lowercase,
};

verus! {

#[derive(Debug, Clone)]
pub struct AppItem {
    pub name: String,
    pub path: String,
    pub size: u64,
}

/// Progress of a scan of the installed applications.
#[derive(Debug, Clone)]
pub enum AppsMsg {
    Start,
    Done(Vec<AppItem>),
}

#[derive(Debug)]
pub struct AppsState {
    pub items: Vec<AppItem>,
    pub selected: usize,
    pub is_scanning: bool,
}

impl AppsState {
    pub fn new() -> (s: Self)
        ensures
            s.items@.len() == 0,
            s.selected == 0,
            !s.is_scanning,
    {
        AppsState { items: Vec::new(), selected: 0, is_scanning: false }
    }

    pub fn select_next(&mut self)
        ensures
            final(self).selected == next_index(old(self).selected as int, old(self).items@.len() as int),
            final(self).items == old(self).items,
            final(self).is_scanning == old(self).is_scanning,
    {
        self.selected = next_index_exec(self.selected, self.items.len());
    }

    pub fn select_prev(&mut self)
        ensures
            final(self).selected == prev_index(old(self).selected as int),
            final(self).items == old(self).items,
            final(self).is_scanning == old(self).is_scanning,
    {
        self.selected = prev_index_exec(self.selected);
    }

    pub fn clamp_selection(&mut self)
        ensures
            final(self).selected == clamp_index(old(self).selected as int, old(self).items@.len() as int),
            final(self).items == old(self).items,
            final(self).is_scanning == old(self).is_scanning,
    {
        self.selected = clamp_index_exec(self.selected, self.items.len());
    }
}

impl Default for AppsState {
    fn default() -> (s: Self)
        ensures
            s.items@.len() == 0,
            s.selected == 0,
            !s.is_scanning,
    {
        AppsState::new()
    }
}

/// The name an application entry is listed under: the file name with every
/// ".app" and then every ".desktop" removed.
pub open spec fn app_display_name_spec(file_name: Seq<char>) -> Seq<char> {
    replace_all(replace_all(file_name, ".app"@, ""@), ".desktop"@, ""@)
}

pub fn app_display_name(file_name: &str) -> (s: String)
    ensures
        s@ == app_display_name_spec(file_name@),
{
    proof {
        reveal_strlit(".app");
        reveal_strlit(".desktop");
    }
    let v = chars_of(file_name);
    let empty: Vec<char> = Vec::new();
    assert(empty@ =~= ""@) by {
        reveal_strlit("");
    }
    let v = replace_chars(&v, &chars_of(".app"), &empty);
    let v = replace_chars(&v, &chars_of(".desktop"), &empty);
    string_of(&v)
}


/// A pattern that starts with a dot is not found in a stretch of text
/// without dots.
proof fn lemma_replace_after_dotless(name: Seq<char>, t: Seq<char>, from: Seq<char>, to: Seq<char>)
    requires
        forall|i: int| 0 <= i < name.len() ==> name[i] != '.',
        from.len() > 0,
        from[0] == '.',
    ensures
        replace_all(name + t, from, to) == name + replace_all(t, from, to),
    decreases name.len(),
{
    if name.len() > 0 {
        let s = name + t;
        assert(s[0] == name[0]);
        if s.len() >= from.len() {
            assert(s.take(from.len() as int)[0] != from[0]);
        }
        assert(s.drop_first() =~= name.drop_first() + t);
        lemma_replace_after_dotless(name.drop_first(), t, from, to);
        assert(seq![name[0]] + (name.drop_first() + replace_all(t, from, to)) =~= name
            + replace_all(t, from, to));
    } else {
        assert(name + t =~= t);
        assert(name + replace_all(t, from, to) =~= replace_all(t, from, to));
    }
}

/// An application bundle `NAME.app` or launcher `NAME.desktop` is listed
/// as `NAME` (for a name without dots), and a name without dots is listed
/// as it is.
pub proof fn law_app_display_name(name: Seq<char>)
    requires
        forall|i: int| 0 <= i < name.len() ==> name[i] != '.',
    ensures
        app_display_name_spec(name + ".app"@) == name,
        app_display_name_spec(name + ".desktop"@) == name,
        app_display_name_spec(name) == name,
{
    reveal_strlit(".app");
    reveal_strlit(".desktop");
    reveal_strlit("");
    let (app, desk, none) = (".app"@, ".desktop"@, ""@);
    let empty = Seq::<char>::empty();
    // nothing to replace in the empty text
    assert(replace_all(empty, app, none) == empty);
    assert(replace_all(empty, desk, none) == empty);
    // the bare name
    lemma_replace_after_dotless(name, empty, app, none);
    lemma_replace_after_dotless(name, empty, desk, none);
    assert(name + empty =~= name);
    // NAME.app
    assert(app.take(4) =~= app);
    assert(app.skip(4) =~= empty);
    assert(replace_all(app, app, none) =~= empty);
    lemma_replace_after_dotless(name, app, app, none);
    // NAME.desktop
    let rest = desk.drop_first();
    assert forall|i: int| 0 <= i < rest.len() implies rest[i] != '.' by {}
    lemma_replace_after_dotless(rest, empty, app, none);
    assert(rest + empty =~= rest);
    assert(desk.take(4) != app) by {
        assert(desk.take(4)[1] != app[1]);
    }
    assert(seq![desk[0]] + rest =~= desk);
    assert(replace_all(desk, app, none) == desk);
    lemma_replace_after_dotless(name, desk, app, none);
    lemma_replace_after_dotless(name, desk, desk, none);
    assert(desk.take(8) =~= desk);
    assert(desk.skip(8) =~= empty);
    assert(replace_all(desk, desk, none) =~= empty);
}

/// Applications are listed by name in lower case.
pub open spec fn app_le() -> spec_fn(AppItem, AppItem) -> bool {
    |a: AppItem, b: AppItem| chars_le(lowercase(a.name@), lowercase(b.name@))
}

/// The application list is ordered by name in lower case and holds every
/// application found, once.
pub proof fn law_app_order(items: Seq<AppItem>)
    ensures
        sorted_by(sort_by(items, app_le()), app_le()),
        sort_by(items, app_le()).to_multiset() == items.to_multiset(),
{
    lemma_char_order();
    let le = app_le();
    assert forall|a: AppItem, b: AppItem| #[trigger] le(a, b) || le(b, a) by {
        lemma_lex_total(lowercase(a.name@), lowercase(b.name@), char_lt());
    }
    assert forall|a: AppItem, b: AppItem, c: AppItem|
        #[trigger] le(a, b) && #[trigger] le(b, c) implies le(a, c) by {
        lemma_lex_transitive(lowercase(a.name@), lowercase(b.name@), lowercase(c.name@), char_lt());
    }
    assert(total_preorder(le));
    law_sort_by(items, le);
}

/// The same order, on applications paired with their names in lower case.
pub open spec fn keyed_app_le() -> spec_fn((String, AppItem), (String, AppItem)) -> bool {
    |a: (String, AppItem), b: (String, AppItem)| chars_le(a.0@, b.0@)
}

/// Orders applications paired with their names in lower case by those
/// names; applications whose names agree in lower case keep their order.
pub fn sort_keyed_apps(entries: Vec<(String, AppItem)>) -> (out: Vec<(String, AppItem)>)
    ensures
        out@ == sort_by(entries@, keyed_app_le()),
{
    let mut input = entries;
    let ghost orig = input@;
    let mut out: Vec<(String, AppItem)> = Vec::new();
    let mut lows: Vec<Vec<char>> = Vec::new();
    let ghost mut taken: int = 0;
    assert(orig.take(0) =~= Seq::<(String, AppItem)>::empty());
    while input.len() > 0
        invariant
            0 <= taken <= orig.len(),
            input@ == orig.skip(taken),
            out@ == sort_by(orig.take(taken), keyed_app_le()),
            lows@.len() == out@.len(),
            forall|k: int| 0 <= k < lows@.len() ==> (#[trigger] lows@[k])@ == out@[k].0@,
        decreases input.len(),
    {
        let x = input.remove(0);
        let x_low = chars_of(x.0.as_str());
        let mut j = out.len();
        while j > 0 && !chars_le_exec(&lows[j - 1], &x_low)
            invariant
                j <= out.len(),
                lows@.len() == out@.len(),
                forall|k: int| 0 <= k < lows@.len() ==> (#[trigger] lows@[k])@ == out@[k].0@,
                x_low@ == x.0@,
                forall|k: int| j <= k < out@.len() ==> !keyed_app_le()(#[trigger] out@[k], x),
            decreases j,
        {
            j = j - 1;
        }
        proof {
            lemma_insert_at(out@, x, keyed_app_le(), j as int);
            assert(orig.take(taken + 1).drop_last() =~= orig.take(taken));
            assert(orig.take(taken + 1).last() == x);
            assert(input@ =~= orig.skip(taken + 1));
            taken = taken + 1;
        }
        let ghost (old_out, old_lows) = (out@, lows@);
        out.insert(j, x);
        lows.insert(j, x_low);
        assert forall|k: int| 0 <= k < lows@.len() implies (#[trigger] lows@[k])@ == out@[k].0@ by {
            if k < j {
                assert(lows@[k] == old_lows[k] && out@[k] == old_out[k]);
            } else if k > j {
                assert(lows@[k] == old_lows[k - 1] && out@[k] == old_out[k - 1]);
            }
        }
    }
    assert(orig.take(taken) =~= orig);
    out
}

/// Orders applications by `app_le`; those whose names agree in lower case
/// keep their order.
pub fn sort_apps(items: Vec<AppItem>) -> (out: Vec<AppItem>)
    ensures
        out@ == sort_by(items@, app_le()),
{
    let mut input = items;
    let ghost orig = input@;
    let mut keyed: Vec<(String, AppItem)> = Vec::new();
    let ghost entry = second::<String, AppItem>();
    assert(orig.take(0) =~= Seq::<AppItem>::empty());
    while input.len() > 0
        invariant
            entry == second::<String, AppItem>(),
            keyed@.len() + input@.len() == orig.len(),
            input@ == orig.skip(keyed@.len() as int),
            keyed@.map_values(entry) == orig.take(keyed@.len() as int),
            forall|k: int| 0 <= k < keyed@.len() ==> (#[trigger] keyed@[k]).0@ == lowercase(
                keyed@[k].1.name@,
            ),
        decreases input.len(),
    {
        let ghost n = keyed@.len() as int;
        let ghost old_keyed = keyed@;
        let x = input.remove(0);
        assert(x == orig[n]);
        let low = to_lowercase(x.name.as_str());
        keyed.push((low, x));
        assert(input@ =~= orig.skip(n + 1));
        assert forall|k: int| 0 <= k < n + 1 implies keyed@.map_values(entry)[k] == orig.take(
            n + 1,
        )[k] by {
            if k < n {
                assert(keyed@[k] == old_keyed[k]);
                assert(old_keyed.map_values(entry)[k] == orig.take(n)[k]);
            }
        }
        assert(keyed@.map_values(entry) =~= orig.take(n + 1));
    }
    assert(orig.take(orig.len() as int) =~= orig);
    proof {
        assert forall|p: (String, AppItem), q: (String, AppItem)|
            keyed@.contains(p) && keyed@.contains(q) implies #[trigger] keyed_app_le()(p, q)
            == app_le()(entry(p), entry(q)) by {
            let i = choose|i: int| 0 <= i < keyed@.len() && keyed@[i] == p;
            let j = choose|j: int| 0 <= j < keyed@.len() && keyed@[j] == q;
        }
        lemma_sort_map(keyed@, entry, keyed_app_le(), app_le());
    }
    strip_keys(sort_keyed_apps(keyed))
}

} // verus!
