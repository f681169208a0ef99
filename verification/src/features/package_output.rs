//! Reading the package lists that package managers print.
use vstd::prelude::*;
use vstd::utf8::{decode_utf8, valid_utf8};
use crate::features::packages::PackageItem;
use crate::text::{
    chars_of, find_first, find_first_exec, index_of, index_of_exec, is_whitespace,
    is_whitespace_char, last_index_of, last_index_of_exec, lemma_index_of, lemma_last_index_of,
    lemma_find_from, occurs_at, slice_chars, string_of,
    trim, trim_chars, trim_end, trim_start, trim_start_char, trim_start_char_exec, trim_start_chars,
};

verus! {

// ----------------------------------------------------------------------
// bytes to text
// ----------------------------------------------------------------------

/// `std::str::from_utf8`: the text, when the bytes are valid UTF-8.
#[verifier::external_body]
fn utf8_text(bytes: &[u8]) -> (r: Option<&str>)
    ensures
        r is Some <==> valid_utf8(bytes@),
        r matches Some(s) ==> s@ == decode_utf8(bytes@),
{
    std::str::from_utf8(bytes).ok()
}

/// What `String::from_utf8_lossy` makes of some bytes.
pub uninterp spec fn utf8_lossy(bytes: Seq<u8>) -> Seq<char>;

/// `String::from_utf8_lossy`: the text, with each invalid sequence replaced
/// by U+FFFD; valid UTF-8 comes back unchanged.
#[verifier::external_body]
fn utf8_lossy_text(bytes: &[u8]) -> (s: String)
    ensures
        s@ == utf8_lossy(bytes@),
        valid_utf8(bytes@) ==> s@ == decode_utf8(bytes@),
{
    String::from_utf8_lossy(bytes).into_owned()
}

/// The text of a command's output: empty unless it is valid UTF-8.
pub open spec fn output_text(bytes: Seq<u8>) -> Seq<char> {
    if valid_utf8(bytes) {
        decode_utf8(bytes)
    } else {
        Seq::empty()
    }
}

fn output_chars(bytes: &[u8]) -> (v: Vec<char>)
    ensures
        v@ == output_text(bytes@),
{
    match utf8_text(bytes) {
        Some(s) => chars_of(s),
        None => Vec::new(),
    }
}

// ----------------------------------------------------------------------
// lines and words
// ----------------------------------------------------------------------

/// A line without its carriage return, if it ends with one.
pub open spec fn strip_cr(l: Seq<char>) -> Seq<char> {
    if l.len() > 0 && l.last() == '\r' {
        l.drop_last()
    } else {
        l
    }
}

pub proof fn lemma_index_of_bounds(s: Seq<char>, c: char)
    ensures
        -1 <= index_of(s, c) < s.len(),
        index_of(s, c) >= 0 ==> s[index_of(s, c)] == c,
        forall|j: int| 0 <= j < index_of(s, c) ==> s[j] != c,
        index_of(s, c) == -1 ==> forall|j: int| 0 <= j < s.len() ==> s[j] != c,
    decreases s.len(),
{
    if s.len() > 0 && s[0] != c {
        lemma_index_of_bounds(s.drop_first(), c);
        assert forall|j: int| 0 <= j < index_of(s, c) implies s[j] != c by {
            if j > 0 {
                assert(s[j] == s.drop_first()[j - 1]);
            }
        }
        if index_of(s, c) == -1 {
            assert forall|j: int| 0 <= j < s.len() implies s[j] != c by {
                if j > 0 {
                    assert(s[j] == s.drop_first()[j - 1]);
                }
            }
        }
    }
}

pub proof fn lemma_last_index_of_bounds(s: Seq<char>, c: char)
    ensures
        -1 <= last_index_of(s, c) < s.len(),
        last_index_of(s, c) >= 0 ==> s[last_index_of(s, c)] == c,
    decreases s.len(),
{
    if s.len() > 0 && s.last() != c {
        lemma_last_index_of_bounds(s.drop_last(), c);
    }
}

/// The lines of a text (`str::lines`): split at each newline, a carriage
/// return before the newline dropped, no empty line after a final newline.
pub open spec fn line_list(s: Seq<char>) -> Seq<Seq<char>>
    decreases s.len(),
{
    if s.len() == 0 {
        seq![]
    } else {
        let i = index_of(s, '\n');
        if i < 0 {
            seq![s]
        } else {
            proof {
                lemma_index_of_bounds(s, '\n');
            }
            seq![strip_cr(s.take(i))] + line_list(s.skip(i + 1))
        }
    }
}

pub open spec fn string_views(v: Seq<String>) -> Seq<Seq<char>> {
    v.map_values(|s: String| s@)
}

pub open spec fn views_of(v: Seq<Vec<char>>) -> Seq<Seq<char>> {
    v.map_values(|l: Vec<char>| l@)
}

/// The first `c` in `v` at or after `start`.
fn index_of_from(v: &Vec<char>, start: usize, c: char) -> (r: Option<usize>)
    requires
        start <= v@.len(),
    ensures
        match r {
            Some(i) => start <= i < v@.len() && index_of(v@.skip(start as int), c) == i - start,
            None => index_of(v@.skip(start as int), c) == -1,
        },
{
    let mut i: usize = start;
    while i < v.len()
        invariant
            start <= i <= v@.len(),
            forall|j: int| start <= j < i ==> v@[j] != c,
        decreases v.len() - i,
    {
        if v[i] == c {
            proof {
                lemma_index_of(v@.skip(start as int), c, i - start);
            }
            return Some(i);
        }
        i = i + 1;
    }
    proof {
        lemma_index_of(v@.skip(start as int), c, i - start);
    }
    None
}

fn strip_cr_exec(l: Vec<char>) -> (r: Vec<char>)
    ensures
        r@ == strip_cr(l@),
{
    let mut l = l;
    if l.len() > 0 && l[l.len() - 1] == '\r' {
        l.pop();
    }
    l
}

/// The lines of a text.
fn lines_chars(v: &Vec<char>) -> (r: Vec<Vec<char>>)
    ensures
        views_of(r@) == line_list(v@),
{
    let mut out: Vec<Vec<char>> = Vec::new();
    let mut start: usize = 0;
    assert(v@.skip(0) =~= v@);
    while start < v.len()
        invariant
            start <= v@.len(),
            views_of(out@) + line_list(v@.skip(start as int)) == line_list(v@),
        decreases v.len() - start,
    {
        let ghost rest = v@.skip(start as int);
        match index_of_from(v, start, '\n') {
            Some(i) => {
                let line = strip_cr_exec(slice_chars(v, start, i));
                proof {
                    assert(rest.take(i - start) =~= v@.subrange(start as int, i as int));
                    assert(rest.skip(i - start + 1) =~= v@.skip(i + 1));
                }
                let ghost before = views_of(out@);
                out.push(line);
                assert(views_of(out@) =~= before.push(line@));
                assert(before + line_list(rest) =~= views_of(out@) + line_list(v@.skip(i + 1)));
                start = i + 1;
            },
            None => {
                let line = slice_chars(v, start, v.len());
                assert(line@ =~= rest);
                let ghost before = views_of(out@);
                out.push(line);
                assert(views_of(out@) =~= before.push(line@));
                assert(v@.skip(v@.len() as int) =~= Seq::<char>::empty());
                assert(before + line_list(rest) =~= views_of(out@) + line_list(
                    v@.skip(v@.len() as int),
                ));
                start = v.len();
            },
        }
    }
    assert(v@.skip(start as int) =~= Seq::<char>::empty());
    assert(views_of(out@) + Seq::<Seq<char>>::empty() =~= views_of(out@));
    out
}

/// The lines of a command's output, empty unless the output is valid
/// UTF-8.
pub fn lines(bytes: &[u8]) -> (r: Vec<String>)
    ensures
        string_views(r@) == line_list(output_text(bytes@)),
{
    let v = output_chars(bytes);
    let ls = lines_chars(&v);
    let mut out: Vec<String> = Vec::new();
    let mut i: usize = 0;
    while i < ls.len()
        invariant
            i <= ls@.len(),
            out@.len() == i,
            string_views(out@) == views_of(ls@).take(i as int),
        decreases ls.len() - i,
    {
        let ghost before = out@;
        let s = string_of(&ls[i]);
        out.push(s);
        assert(views_of(ls@)[i as int] == ls@[i as int]@);
        assert(out@ == before.push(s));
        assert forall|k: int| 0 <= k <= i implies #[trigger] string_views(out@)[k]
            == views_of(ls@).take(i + 1)[k] by {
            if k < i {
                assert(out@[k] == before[k]);
                assert(string_views(before)[k] == views_of(ls@).take(i as int)[k]);
            }
        }
        i = i + 1;
        assert(string_views(out@) =~= views_of(ls@).take(i as int));
    }
    assert(views_of(ls@).take(i as int) =~= views_of(ls@));
    out
}

/// Length of the run of non-whitespace characters that starts `s`.
pub open spec fn word_len(s: Seq<char>) -> nat
    decreases s.len(),
{
    if s.len() == 0 || is_whitespace(s[0]) {
        0
    } else {
        1 + word_len(s.drop_first())
    }
}

pub proof fn lemma_word_len(s: Seq<char>)
    ensures
        word_len(s) <= s.len(),
        s.len() > 0 && !is_whitespace(s[0]) ==> word_len(s) >= 1,
    decreases s.len(),
{
    if s.len() > 0 && !is_whitespace(s[0]) {
        lemma_word_len(s.drop_first());
    }
}

proof fn lemma_word_len_is(s: Seq<char>, n: int)
    requires
        0 <= n <= s.len(),
        forall|j: int| 0 <= j < n ==> !is_whitespace(#[trigger] s[j]),
        n == s.len() || is_whitespace(s[n]),
    ensures
        word_len(s) == n,
    decreases n,
{
    if n > 0 {
        lemma_word_len_is(s.drop_first(), n - 1);
    }
}

/// The whitespace-separated words of `s` (`str::split_whitespace`).
pub open spec fn words(s: Seq<char>) -> Seq<Seq<char>>
    decreases s.len(),
{
    if s.len() == 0 {
        seq![]
    } else if is_whitespace(s[0]) {
        words(s.drop_first())
    } else {
        proof {
            lemma_word_len(s);
        }
        let k = word_len(s) as int;
        seq![s.take(k)] + words(s.skip(k))
    }
}

fn words_exec(v: &Vec<char>) -> (r: Vec<Vec<char>>)
    ensures
        views_of(r@) == words(v@),
{
    let mut out: Vec<Vec<char>> = Vec::new();
    let mut i: usize = 0;
    assert(v@.skip(0) =~= v@);
    while i < v.len()
        invariant
            i <= v@.len(),
            views_of(out@) + words(v@.skip(i as int)) == words(v@),
        decreases v.len() - i,
    {
        let ghost rest = v@.skip(i as int);
        if is_whitespace_char(v[i]) {
            assert(rest.drop_first() =~= v@.skip(i + 1));
            i = i + 1;
        } else {
            let mut j: usize = i;
            while j < v.len() && !is_whitespace_char(v[j])
                invariant
                    i <= j <= v@.len(),
                    forall|k: int| i <= k < j ==> !is_whitespace(#[trigger] v@[k]),
                decreases v.len() - j,
            {
                j = j + 1;
            }
            proof {
                assert forall|k: int| 0 <= k < j - i implies !is_whitespace(#[trigger] rest[k]) by {
                    assert(rest[k] == v@[i + k]);
                }
                lemma_word_len_is(rest, j - i);
                assert(rest.take(j - i) =~= v@.subrange(i as int, j as int));
                assert(rest.skip(j - i) =~= v@.skip(j as int));
            }
            let w = slice_chars(v, i, j);
            let ghost before = views_of(out@);
            out.push(w);
            assert(views_of(out@) =~= before.push(w@));
            assert(before + words(rest) =~= views_of(out@) + words(v@.skip(j as int)));
            i = j;
        }
    }
    assert(v@.skip(i as int) =~= Seq::<char>::empty());
    assert(views_of(out@) + Seq::<Seq<char>>::empty() =~= views_of(out@));
    out
}

// ----------------------------------------------------------------------
// one line, one package
// ----------------------------------------------------------------------

/// A package as plain text: name, version, manager.
pub type PackageText = (Seq<char>, Seq<char>, Seq<char>);

pub open spec fn package_text(p: PackageItem) -> PackageText {
    (p.name@, p.version@, p.manager@)
}

pub open spec fn packages_text(s: Seq<PackageItem>) -> Seq<PackageText> {
    s.map_values(|p: PackageItem| package_text(p))
}

/// The values of the present entries, in order.
pub open spec fn present<A>(s: Seq<Option<A>>) -> Seq<A>
    decreases s.len(),
{
    if s.len() == 0 {
        seq![]
    } else {
        let rest = present(s.drop_last());
        match s.last() {
            Some(x) => rest.push(x),
            None => rest,
        }
    }
}

/// How a package manager prints one package per line.
#[derive(Debug, Clone, Copy)]
pub enum LineFormat {
    /// The first word is the name and the last word the version.
    Whitespace,
    /// Name and version around the first occurrence of a separator.
    Separated(char),
    /// `name@version`, possibly after tree-drawing characters.
    AtVersion,
    /// `name@version`, inside the first pair of double quotes when there is
    /// one.
    Quoted,
    /// `name vVERSION:`.
    Cargo,
    /// `name (VERSION)`.
    Gem,
}

/// Tree-drawing characters that npm and pnpm print before a package.
pub open spec fn is_tree_char(c: char) -> bool {
    c == '├' || c == '└' || c == '─' || c == '│'
}

pub open spec fn trim_start_tree(s: Seq<char>) -> Seq<char>
    decreases s.len(),
{
    if s.len() > 0 && is_tree_char(s[0]) {
        trim_start_tree(s.drop_first())
    } else {
        s
    }
}

/// `name@version` read from a line: the last `@` splits the trimmed line,
/// tree characters removed; the name must be non-empty without whitespace,
/// the version is the first word after the `@` without leading `v`s.
pub open spec fn at_version_spec(line: Seq<char>) -> Option<(Seq<char>, Seq<char>)> {
    let t = trim(trim_start_tree(trim(line)));
    let i = last_index_of(t, '@');
    if i < 0 {
        None
    } else {
        let name = t.take(i);
        let w = words(t.skip(i + 1));
        if w.len() == 0 || name.len() == 0 || (exists|j: int|
            0 <= j < name.len() && is_whitespace(#[trigger] name[j])) || w[0].len() == 0 {
            None
        } else {
            Some((name, trim_start_char(w[0], 'v')))
        }
    }
}

/// The text inside the first pair of double quotes, or the whole line.
pub open spec fn quoted_part(line: Seq<char>) -> Seq<char> {
    let i = index_of(line, '"');
    if i < 0 {
        line
    } else {
        let rest = line.skip(i + 1);
        let j = index_of(rest, '"');
        if j < 0 {
            line
        } else {
            rest.take(j)
        }
    }
}

/// Name and version of a line, before the non-empty check.
pub open spec fn line_fields(fmt: LineFormat, line: Seq<char>) -> Option<(Seq<char>, Seq<char>)> {
    match fmt {
        LineFormat::Whitespace => {
            let w = words(line);
            if w.len() >= 2 {
                Some((w[0], w.last()))
            } else {
                None
            }
        },
        LineFormat::Separated(sep) => {
            let i = index_of(line, sep);
            if i < 0 {
                None
            } else {
                Some((line.take(i), line.skip(i + 1)))
            }
        },
        LineFormat::AtVersion => at_version_spec(line),
        LineFormat::Quoted => at_version_spec(quoted_part(line)),
        LineFormat::Cargo => {
            let t = trim(line);
            if t.len() == 0 || t.last() != ':' {
                None
            } else {
                let nv = t.drop_last();
                let i = index_of(nv, ' ');
                if i < 0 {
                    None
                } else {
                    let v = trim(nv.skip(i + 1));
                    if v.len() == 0 || v[0] != 'v' {
                        None
                    } else {
                        Some((nv.take(i), v.drop_first()))
                    }
                }
            }
        },
        LineFormat::Gem => {
            let t = trim(line);
            let i = index_of(t, ' ');
            if i < 0 {
                None
            } else {
                let v = trim(t.skip(i));
                if v.len() < 2 || v[0] != '(' || v.last() != ')' {
                    None
                } else {
                    Some((t.take(i), v.subrange(1, v.len() - 1)))
                }
            }
        },
    }
}

/// A word followed by nothing or by whitespace starts the words of the text.
proof fn lemma_words_first(w: Seq<char>, rest: Seq<char>)
    requires
        w.len() > 0,
        forall|j: int| 0 <= j < w.len() ==> !is_whitespace(#[trigger] w[j]),
        rest.len() == 0 || is_whitespace(rest[0]),
    ensures
        words(w + rest) == seq![w] + words(rest),
{
    let s = w + rest;
    assert forall|j: int| 0 <= j < w.len() implies !is_whitespace(#[trigger] s[j]) by {
        assert(s[j] == w[j]);
    }
    if rest.len() > 0 {
        assert(s[w.len() as int] == rest[0]);
    }
    lemma_word_len_is(s, w.len() as int);
    assert(s.take(w.len() as int) =~= w);
    assert(s.skip(w.len() as int) =~= rest);
}

/// A word of `a + b` that starts in `a` ends in `a` when `a` ends in
/// whitespace.
proof fn lemma_word_len_concat(a: Seq<char>, b: Seq<char>)
    requires
        a.len() > 0,
        is_whitespace(a.last()),
    ensures
        word_len(a + b) == word_len(a),
        word_len(a) < a.len(),
    decreases a.len(),
{
    if !is_whitespace(a[0]) {
        assert(a.len() > 1);
        assert((a + b).drop_first() =~= a.drop_first() + b);
        lemma_word_len_concat(a.drop_first(), b);
    }
}

/// The words of `a + b` are those of `a` then those of `b` when `a` is empty
/// or ends in whitespace.
proof fn lemma_words_concat(a: Seq<char>, b: Seq<char>)
    requires
        a.len() == 0 || is_whitespace(a.last()),
    ensures
        words(a + b) == words(a) + words(b),
    decreases a.len(),
{
    if a.len() == 0 {
        assert(a + b =~= b);
        assert(words(a) + words(b) =~= words(b));
    } else if is_whitespace(a[0]) {
        assert((a + b).drop_first() =~= a.drop_first() + b);
        assert((a + b)[0] == a[0]);
        lemma_words_concat(a.drop_first(), b);
    } else {
        lemma_word_len_concat(a, b);
        lemma_word_len(a);
        let k = word_len(a) as int;
        assert((a + b)[0] == a[0]);
        assert((a + b).take(k) =~= a.take(k));
        assert((a + b).skip(k) =~= a.skip(k) + b);
        lemma_words_concat(a.skip(k), b);
        assert(words(a + b) =~= seq![a.take(k)] + (words(a.skip(k)) + words(b)));
        assert(words(a) =~= seq![a.take(k)] + words(a.skip(k)));
    }
}

/// A line whose first word is `NAME` and whose last word is `VERSION`, with
/// anything between them, reads as that name and version in the
/// whitespace-column format (a manager that lists several versions of a
/// package gives the last one).
pub proof fn law_whitespace_line(
    pre: Seq<char>,
    name: Seq<char>,
    mid: Seq<char>,
    version: Seq<char>,
    post: Seq<char>,
    manager: Seq<char>,
)
    requires
        forall|j: int| 0 <= j < pre.len() ==> is_whitespace(#[trigger] pre[j]),
        forall|j: int| 0 <= j < post.len() ==> is_whitespace(#[trigger] post[j]),
        mid.len() > 0,
        is_whitespace(mid[0]),
        is_whitespace(mid.last()),
        name.len() > 0,
        version.len() > 0,
        forall|j: int| 0 <= j < name.len() ==> !is_whitespace(#[trigger] name[j]),
        forall|j: int| 0 <= j < version.len() ==> !is_whitespace(#[trigger] version[j]),
    ensures
        line_package(LineFormat::Whitespace, pre + name + mid + version + post, manager) == Some(
            (name, version, manager),
        ),
{
    let r1 = version + post;
    let r2 = mid + r1;
    let r3 = name + r2;
    let line = pre + r3;
    assert(line =~= pre + name + mid + version + post);
    lemma_words_blank(post);
    lemma_words_first(version, post);
    assert(words(r1) =~= seq![version]);
    lemma_words_concat(mid, r1);
    assert(r2[0] == mid[0]);
    lemma_words_first(name, r2);
    lemma_words_blank_prefix(pre, r3);
    let w = words(line);
    assert(w =~= seq![name] + (words(mid) + seq![version]));
    assert(w.len() >= 2);
    assert(w[0] == name);
    assert(w.last() == version);
}

/// Whitespace alone holds no words.
proof fn lemma_words_blank(s: Seq<char>)
    requires
        forall|j: int| 0 <= j < s.len() ==> is_whitespace(#[trigger] s[j]),
    ensures
        words(s) == Seq::<Seq<char>>::empty(),
    decreases s.len(),
{
    if s.len() > 0 {
        lemma_words_blank(s.drop_first());
    }
}

/// Leading whitespace does not change the words.
proof fn lemma_words_blank_prefix(b: Seq<char>, s: Seq<char>)
    requires
        forall|j: int| 0 <= j < b.len() ==> is_whitespace(#[trigger] b[j]),
    ensures
        words(b + s) == words(s),
    decreases b.len(),
{
    if b.len() > 0 {
        assert((b + s).drop_first() =~= b.drop_first() + s);
        assert((b + s)[0] == b[0]);
        lemma_words_blank_prefix(b.drop_first(), s);
    }
}

/// A line `NAME` + separator + `VERSION` reads as that name and version when
/// the name holds no separator: the line is split at the first one, so the
/// version may hold more.
pub proof fn law_separated_line(
    sep: char,
    name: Seq<char>,
    version: Seq<char>,
    manager: Seq<char>,
)
    requires
        name.len() > 0,
        version.len() > 0,
        forall|j: int| 0 <= j < name.len() ==> name[j] != sep,
    ensures
        line_package(LineFormat::Separated(sep), name + seq![sep] + version, manager) == Some(
            (name, version, manager),
        ),
{
    let t = name + seq![sep] + version;
    let n = name.len() as int;
    assert(t[n] == sep);
    assert forall|j: int| 0 <= j < n implies t[j] != sep by {
        assert(t[j] == name[j]);
    }
    lemma_index_of(t, sep, n);
    assert(t.take(n) =~= name);
    assert(t.skip(n + 1) =~= version);
}

/// A `cargo install --list` line `NAME vVERSION:` reads as that name and
/// version: the name ends at the first space and one `v` is taken off the
/// version.
pub proof fn law_cargo_line(line: Seq<char>, name: Seq<char>, version: Seq<char>, manager: Seq<char>)
    requires
        trim(line) == name + seq![' ', 'v'] + version + seq![':'],
        name.len() > 0,
        forall|i: int| 0 <= i < name.len() ==> name[i] != ' ',
        version.len() > 0,
        !is_whitespace(version.last()),
    ensures
        line_package(LineFormat::Cargo, line, manager) == Some((name, version, manager)),
{
    let t = trim(line);
    let nv = t.drop_last();
    assert(nv =~= name + seq![' ', 'v'] + version);
    let n = name.len() as int;
    assert(nv[n] == ' ');
    assert forall|j: int| 0 <= j < n implies nv[j] != ' ' by {
        assert(nv[j] == name[j]);
    }
    lemma_index_of(nv, ' ', n);
    let v = seq!['v'] + version;
    assert(nv.skip(n + 1) =~= v);
    assert(!is_whitespace(v[0]));
    assert(trim_start(v) == v);
    assert(v.last() == version.last());
    assert(trim_end(v) == v);
    assert(v.drop_first() =~= version);
    assert(nv.take(n) =~= name);
}

/// A line `NAME@VERSION` reads as that name and version: the line is split
/// at its last `@`, so a scoped name such as `@scope/pkg` keeps its own
/// `@`, and the version is read without a leading `v`.
pub proof fn law_at_version_line(name: Seq<char>, version: Seq<char>)
    requires
        name.len() > 0,
        !is_tree_char(name[0]),
        forall|j: int| 0 <= j < name.len() ==> !is_whitespace(#[trigger] name[j]),
        version.len() > 0,
        version[0] != 'v',
        forall|j: int| 0 <= j < version.len() ==> !is_whitespace(#[trigger] version[j]),
        forall|j: int| 0 <= j < version.len() ==> version[j] != '@',
    ensures
        at_version_spec(name + seq!['@'] + version) == Some((name, version)),
{
    let line = name + seq!['@'] + version;
    let n = name.len() as int;
    assert(line[0] == name[0]);
    assert(line.last() == version.last());
    assert(trim_start(line) == line);
    assert(trim_end(line) == line);
    assert(trim_start_tree(line) == line);
    assert(line[n] == '@');
    assert forall|j: int| n < j < line.len() implies line[j] != '@' by {
        assert(line[j] == version[j - n - 1]);
    }
    lemma_last_index_of(line, '@', n);
    assert(line.take(n) =~= name);
    assert(line.skip(n + 1) =~= version);
    assert(version + Seq::<char>::empty() =~= version);
    lemma_words_first(version, Seq::<char>::empty());
    assert(words(Seq::<char>::empty()) =~= Seq::<Seq<char>>::empty());
    assert(words(version) =~= seq![version]);
    assert(trim_start_char(version, 'v') == version);
}

/// The text between the first two double quotes of a line.
pub proof fn law_quoted_part(before: Seq<char>, inner: Seq<char>, after: Seq<char>)
    requires
        forall|j: int| 0 <= j < before.len() ==> before[j] != '"',
        forall|j: int| 0 <= j < inner.len() ==> inner[j] != '"',
    ensures
        quoted_part(before + seq!['"'] + inner + seq!['"'] + after) == inner,
{
    let line = before + seq!['"'] + inner + seq!['"'] + after;
    let n = before.len() as int;
    assert(line[n] == '"');
    assert forall|j: int| 0 <= j < n implies line[j] != '"' by {
        assert(line[j] == before[j]);
    }
    lemma_index_of(line, '"', n);
    let rest = line.skip(n + 1);
    assert(rest =~= inner + seq!['"'] + after);
    let m = inner.len() as int;
    assert(rest[m] == '"');
    assert forall|j: int| 0 <= j < m implies rest[j] != '"' by {
        assert(rest[j] == inner[j]);
    }
    lemma_index_of(rest, '"', m);
    assert(rest.take(m) =~= inner);
}

/// A `gem list` line reads as the gem's name, up to the first space, and
/// what the brackets after it hold, spaces and commas included (a gem
/// installed in several versions lists them all there).
pub proof fn law_gem_line(line: Seq<char>, name: Seq<char>, version: Seq<char>, manager: Seq<char>)
    requires
        trim(line) == name + seq![' ', '('] + version + seq![')'],
        name.len() > 0,
        forall|i: int| 0 <= i < name.len() ==> name[i] != ' ',
        version.len() > 0,
    ensures
        line_package(LineFormat::Gem, line, manager) == Some((name, version, manager)),
{
    let t = trim(line);
    let n = name.len() as int;
    assert(t[n] == ' ');
    assert forall|j: int| 0 <= j < n implies t[j] != ' ' by {
        assert(t[j] == name[j]);
    }
    lemma_index_of(t, ' ', n);
    let w = t.skip(n);
    let v = seq!['('] + version + seq![')'];
    assert(w.drop_first() =~= v);
    assert(is_whitespace(w[0]));
    assert(!is_whitespace(v[0]));
    assert(trim_start(v) == v);
    assert(trim_start(w) == v);
    assert(!is_whitespace(v.last()));
    assert(trim_end(v) == v);
    assert(trim(w) == v);
    assert(v.subrange(1, v.len() - 1) =~= version);
    assert(t.take(n) =~= name);
}

/// Whether a format's lines are taken only with a non-empty name and
/// version; `name@version` lines are taken as they are read, so a version
/// that was only `v`s stays empty.
pub open spec fn checks_fields(fmt: LineFormat) -> bool {
    !(fmt is AtVersion || fmt is Quoted)
}

/// The package a line describes, if it names one.
pub open spec fn line_package(fmt: LineFormat, line: Seq<char>, manager: Seq<char>) -> Option<
    PackageText,
> {
    match line_fields(fmt, line) {
        Some((name, version)) => if !checks_fields(fmt) || (name.len() > 0 && version.len() > 0) {
            Some((name, version, manager))
        } else {
            None
        },
        None => None,
    }
}

/// The packages that lines describe.
pub open spec fn lines_packages(ls: Seq<Seq<char>>, fmt: LineFormat, manager: Seq<char>) -> Seq<
    PackageText,
> {
    present(ls.map_values(|l: Seq<char>| line_package(fmt, l, manager)))
}

/// Every value of `present(s)` is present in `s`.
proof fn lemma_present_from<A>(s: Seq<Option<A>>, k: int)
    requires
        0 <= k < present(s).len(),
    ensures
        exists|i: int| 0 <= i < s.len() && s[i] == Some(present(s)[k]),
    decreases s.len(),
{
    let rest = present(s.drop_last());
    if k < rest.len() {
        lemma_present_from(s.drop_last(), k);
        let i = choose|i: int| 0 <= i < s.drop_last().len() && s.drop_last()[i] == Some(rest[k]);
        assert(s[i] == Some(present(s)[k]));
    } else {
        assert(s[s.len() - 1] == Some(present(s)[k]));
    }
}

/// Every package read from the lines of a listing has a name and the
/// listing's manager, and a version too unless the format is
/// `name@version`, whose version may be only `v`s.
pub proof fn law_listed_packages_named(ls: Seq<Seq<char>>, fmt: LineFormat, manager: Seq<char>)
    ensures
        forall|k: int|
            0 <= k < lines_packages(ls, fmt, manager).len() ==> {
                let p = #[trigger] lines_packages(ls, fmt, manager)[k];
                &&& p.0.len() > 0
                &&& p.2 == manager
                &&& checks_fields(fmt) ==> p.1.len() > 0
            },
{
    let mapped = ls.map_values(|l: Seq<char>| line_package(fmt, l, manager));
    assert forall|k: int| 0 <= k < lines_packages(ls, fmt, manager).len() implies {
        let p = #[trigger] lines_packages(ls, fmt, manager)[k];
        &&& p.0.len() > 0
        &&& p.2 == manager
        &&& checks_fields(fmt) ==> p.1.len() > 0
    } by {
        lemma_present_from(mapped, k);
        let i = choose|i: int| 0 <= i < mapped.len() && mapped[i] == Some(present(mapped)[k]);
        assert(mapped[i] == line_package(fmt, ls[i], manager));
    }
}

fn trim_start_tree_exec(v: &Vec<char>) -> (r: Vec<char>)
    ensures
        r@ == trim_start_tree(v@),
{
    let mut i: usize = 0;
    assert(v@.skip(0) =~= v@);
    while i < v.len() && (v[i] == '├' || v[i] == '└' || v[i] == '─' || v[i] == '│')
        invariant
            i <= v.len(),
            trim_start_tree(v@) == trim_start_tree(v@.skip(i as int)),
        decreases v.len() - i,
    {
        assert(v@.skip(i as int).drop_first() =~= v@.skip(i + 1));
        i = i + 1;
    }
    let r = slice_chars(v, i, v.len());
    assert(r@ =~= v@.skip(i as int));
    r
}

fn has_whitespace(v: &Vec<char>) -> (b: bool)
    ensures
        b == exists|j: int| 0 <= j < v@.len() && is_whitespace(#[trigger] v@[j]),
{
    let mut i: usize = 0;
    while i < v.len()
        invariant
            i <= v.len(),
            forall|j: int| 0 <= j < i ==> !is_whitespace(#[trigger] v@[j]),
        decreases v.len() - i,
    {
        if is_whitespace_char(v[i]) {
            return true;
        }
        i = i + 1;
    }
    false
}

fn at_version_chars(line: &Vec<char>) -> (r: Option<(Vec<char>, Vec<char>)>)
    ensures
        match r {
            Some((n, v)) => at_version_spec(line@) == Some((n@, v@)),
            None => at_version_spec(line@) is None,
        },
{
    assert(line@.skip(0) =~= line@);
    let t = trim_chars(&trim_start_tree_exec(&trim_chars(line)));
    let i = match last_index_of_exec(&t, '@') {
        Some(i) => i,
        None => return None,
    };
    let name = slice_chars(&t, 0, i);
    let after = slice_chars(&t, i + 1, t.len());
    assert(name@ =~= t@.take(i as int));
    assert(after@ =~= t@.skip(i + 1));
    let w = words_exec(&after);
    if w.len() == 0 || name.len() == 0 || has_whitespace(&name) || w[0].len() == 0 {
        assert(w.len() > 0 ==> views_of(w@)[0] == w@[0]@);
        return None;
    }
    assert(views_of(w@)[0] == w@[0]@);
    let version = trim_start_char_exec(&w[0], 'v');
    Some((name, version))
}

fn quoted_part_exec(line: &Vec<char>) -> (r: Vec<char>)
    ensures
        r@ == quoted_part(line@),
{
    match index_of_exec(line, '"') {
        None => slice_chars(line, 0, line.len()),
        Some(i) => {
            let n = line.len();
            assert(i < n);
            let rest = slice_chars(line, i + 1, n);
            assert(rest@ =~= line@.skip(i + 1));
            match index_of_exec(&rest, '"') {
                None => slice_chars(line, 0, line.len()),
                Some(j) => {
                    let r = slice_chars(&rest, 0, j);
                    assert(r@ =~= rest@.take(j as int));
                    r
                },
            }
        },
    }
}

fn line_fields_exec(fmt: LineFormat, line: &Vec<char>) -> (r: Option<(Vec<char>, Vec<char>)>)
    ensures
        match r {
            Some((n, v)) => line_fields(fmt, line@) == Some((n@, v@)),
            None => line_fields(fmt, line@) is None,
        },
{
    assert(line@.subrange(0, line@.len() as int) =~= line@);
    match fmt {
        LineFormat::Whitespace => {
            let w = words_exec(line);
            if w.len() >= 2 {
                let first = slice_chars(&w[0], 0, w[0].len());
                let last = slice_chars(&w[w.len() - 1], 0, w[w.len() - 1].len());
                assert(w@[0]@.subrange(0, w@[0]@.len() as int) =~= w@[0]@);
                assert(w@[w.len() - 1]@.subrange(0, w@[w.len() - 1]@.len() as int) =~= w@[w.len()
                    - 1]@);
                assert(views_of(w@)[0] == w@[0]@);
                assert(views_of(w@).last() == w@[w.len() - 1]@);
                Some((first, last))
            } else {
                None
            }
        },
        LineFormat::Separated(sep) => match index_of_exec(line, sep) {
            None => None,
            Some(i) => {
                let n = line.len();
                let name = slice_chars(line, 0, i);
                let version = slice_chars(line, i + 1, n);
                assert(name@ =~= line@.take(i as int));
                assert(version@ =~= line@.skip(i + 1));
                Some((name, version))
            },
        },
        LineFormat::AtVersion => at_version_chars(line),
        LineFormat::Quoted => at_version_chars(&quoted_part_exec(line)),
        LineFormat::Cargo => {
            let t = trim_chars(line);
            if t.len() == 0 || t[t.len() - 1] != ':' {
                return None;
            }
            let nv = slice_chars(&t, 0, t.len() - 1);
            assert(nv@ =~= t@.drop_last());
            match index_of_exec(&nv, ' ') {
                None => None,
                Some(i) => {
                    let rest = slice_chars(&nv, i + 1, nv.len());
                    assert(rest@ =~= nv@.skip(i + 1));
                    let v = trim_chars(&rest);
                    if v.len() == 0 || v[0] != 'v' {
                        return None;
                    }
                    let name = slice_chars(&nv, 0, i);
                    let version = slice_chars(&v, 1, v.len());
                    assert(name@ =~= nv@.take(i as int));
                    assert(version@ =~= v@.drop_first());
                    Some((name, version))
                },
            }
        },
        LineFormat::Gem => {
            let t = trim_chars(line);
            match index_of_exec(&t, ' ') {
                None => None,
                Some(i) => {
                    let rest = slice_chars(&t, i, t.len());
                    assert(rest@ =~= t@.skip(i as int));
                    let v = trim_chars(&rest);
                    if v.len() < 2 || v[0] != '(' || v[v.len() - 1] != ')' {
                        return None;
                    }
                    let name = slice_chars(&t, 0, i);
                    let version = slice_chars(&v, 1, v.len() - 1);
                    assert(name@ =~= t@.take(i as int));
                    Some((name, version))
                },
            }
        },
    }
}

/// The packages that lines describe, each with the given manager.
fn lines_packages_exec(ls: &Vec<Vec<char>>, from: usize, fmt: LineFormat, manager: &str) -> (r: Vec<
    PackageItem,
>)
    ensures
        packages_text(r@) == lines_packages(
            if from <= ls@.len() {
                views_of(ls@).skip(from as int)
            } else {
                seq![]
            },
            fmt,
            manager@,
        ),
{
    let ghost all = if from <= ls@.len() {
        views_of(ls@).skip(from as int)
    } else {
        seq![]
    };
    let ghost mapped = all.map_values(|l: Seq<char>| line_package(fmt, l, manager@));
    let mut out: Vec<PackageItem> = Vec::new();
    if from > ls.len() {
        assert(mapped =~= Seq::<Option<PackageText>>::empty());
        assert(packages_text(out@) =~= present(mapped));
        return out;
    }
    let mut i: usize = from;
    assert(mapped.take(0) =~= Seq::<Option<PackageText>>::empty());
    while i < ls.len()
        invariant
            from <= i <= ls@.len(),
            all == views_of(ls@).skip(from as int),
            mapped == all.map_values(|l: Seq<char>| line_package(fmt, l, manager@)),
            packages_text(out@) == present(mapped.take(i - from)),
        decreases ls.len() - i,
    {
        let ghost before = packages_text(out@);
        assert(mapped.take(i - from + 1).drop_last() =~= mapped.take(i - from));
        assert(mapped[i - from] == line_package(fmt, ls@[i as int]@, manager@));
        match line_fields_exec(fmt, &ls[i]) {
            Some((name, version)) => {
                let checked = match fmt {
                    LineFormat::AtVersion => false,
                    LineFormat::Quoted => false,
                    _ => true,
                };
                if !checked || (name.len() > 0 && version.len() > 0) {
                    out.push(
                        PackageItem {
                            name: string_of(&name),
                            version: string_of(&version),
                            manager: String::from_str(manager),
                        },
                    );
                    assert(packages_text(out@) =~= before.push(
                        (name@, version@, manager@),
                    ));
                }
            },
            None => {},
        }
        i = i + 1;
    }
    assert(mapped.take(i - from) =~= mapped);
    out
}

// ----------------------------------------------------------------------
// the parsers
// ----------------------------------------------------------------------

/// Packages listed one per line as whitespace-separated columns, after
/// `skip` header lines: the first column is the name and the last the
/// version.
pub fn parse_whitespace_packages(bytes: &[u8], manager: &str, skip: usize) -> (r: Vec<PackageItem>)
    ensures
        packages_text(r@) == lines_packages(
            if skip <= line_list(output_text(bytes@)).len() {
                line_list(output_text(bytes@)).skip(skip as int)
            } else {
                seq![]
            },
            LineFormat::Whitespace,
            manager@,
        ),
{
    let ls = lines_chars(&output_chars(bytes));
    lines_packages_exec(&ls, skip, LineFormat::Whitespace, manager)
}

/// Packages listed one per line in one of the known formats.
pub fn parse_line_packages(bytes: &[u8], fmt: LineFormat, manager: &str) -> (r: Vec<PackageItem>)
    ensures
        packages_text(r@) == lines_packages(line_list(output_text(bytes@)), fmt, manager@),
{
    let ls = lines_chars(&output_chars(bytes));
    let r = lines_packages_exec(&ls, 0, fmt, manager);
    assert(views_of(ls@).skip(0) =~= views_of(ls@));
    r
}

/// `name@version` read from a line of `npm`, `pnpm`, `yarn` or `uv`
/// output.
pub fn parse_at_version(line: &str) -> (r: Option<(String, String)>)
    ensures
        match r {
            Some((n, v)) => at_version_spec(line@) == Some((n@, v@)),
            None => at_version_spec(line@) is None,
        },
{
    match at_version_chars(&chars_of(line)) {
        Some((n, v)) => Some((string_of(&n), string_of(&v))),
        None => None,
    }
}

/// The position of the closing quote of a JSON string body that starts at
/// `i`, skipping escaped characters.
pub open spec fn closing_quote_from(s: Seq<char>, i: int, escaped: bool) -> Option<int>
    decreases s.len() - i,
{
    if i < 0 || i >= s.len() {
        None
    } else if escaped {
        closing_quote_from(s, i + 1, false)
    } else if s[i] == '\\' {
        closing_quote_from(s, i + 1, true)
    } else if s[i] == '"' {
        Some(i)
    } else {
        closing_quote_from(s, i + 1, false)
    }
}

/// The raw text of a string field `"field": "..."` of a JSON object (the
/// first occurrence of the quoted key), escapes kept as written.
pub open spec fn json_field_spec(object: Seq<char>, field: Seq<char>) -> Option<Seq<char>> {
    let marker = seq!['"'] + field + seq!['"'];
    let i = find_first(object, marker);
    if i < 0 {
        None
    } else {
        let rest = trim_start(object.skip(i + marker.len()));
        if rest.len() == 0 || rest[0] != ':' {
            None
        } else {
            let v = trim_start(rest.drop_first());
            if v.len() == 0 || v[0] != '"' {
                None
            } else {
                let body = v.drop_first();
                match closing_quote_from(body, 0, false) {
                    Some(k) => Some(body.take(k)),
                    None => None,
                }
            }
        }
    }
}

fn closing_quote(s: &Vec<char>) -> (r: Option<usize>)
    ensures
        match r {
            Some(k) => k < s@.len() && closing_quote_from(s@, 0, false) == Some(k as int),
            None => closing_quote_from(s@, 0, false) is None,
        },
{
    let mut escaped = false;
    let mut i: usize = 0;
    while i < s.len()
        invariant
            i <= s@.len(),
            closing_quote_from(s@, 0, false) == closing_quote_from(s@, i as int, escaped),
        decreases s.len() - i,
    {
        let c = s[i];
        if escaped {
            escaped = false;
        } else if c == '\\' {
            escaped = true;
        } else if c == '"' {
            return Some(i);
        }
        i = i + 1;
    }
    None
}

fn json_field_chars(object: &Vec<char>, field: &Vec<char>) -> (r: Option<Vec<char>>)
    ensures
        match r {
            Some(v) => json_field_spec(object@, field@) == Some(v@),
            None => json_field_spec(object@, field@) is None,
        },
{
    let mut marker: Vec<char> = Vec::new();
    marker.push('"');
    let mut k: usize = 0;
    while k < field.len()
        invariant
            k <= field@.len(),
            marker@ == seq!['"'] + field@.take(k as int),
        decreases field.len() - k,
    {
        marker.push(field[k]);
        k = k + 1;
        assert(marker@ =~= seq!['"'] + field@.take(k as int));
    }
    marker.push('"');
    assert(marker@ =~= seq!['"'] + field@ + seq!['"']);
    let i = match find_first_exec(object, &marker) {
        Some(i) => i,
        None => return None,
    };
    let n = object.len();
    assert(i + marker@.len() <= n);
    let tail = slice_chars(object, i + marker.len(), n);
    assert(tail@ =~= object@.skip(i + marker@.len()));
    let rest = trim_start_chars(&tail);
    if rest.len() == 0 || rest[0] != ':' {
        return None;
    }
    let after = slice_chars(&rest, 1, rest.len());
    assert(after@ =~= rest@.drop_first());
    let v = trim_start_chars(&after);
    if v.len() == 0 || v[0] != '"' {
        return None;
    }
    let body = slice_chars(&v, 1, v.len());
    assert(body@ =~= v@.drop_first());
    match closing_quote(&body) {
        Some(end) => {
            let r = slice_chars(&body, 0, end);
            assert(r@ =~= body@.take(end as int));
            Some(r)
        },
        None => None,
    }
}

/// The raw text of the string field `field` of a JSON object.
pub fn json_string_field(object: &str, field: &str) -> (r: Option<String>)
    ensures
        match r {
            Some(v) => json_field_spec(object@, field@) == Some(v@),
            None => json_field_spec(object@, field@) is None,
        },
{
    match json_field_chars(&chars_of(object), &chars_of(field)) {
        Some(v) => Some(string_of(&v)),
        None => None,
    }
}

/// The pieces of `s` between occurrences of `c` (`str::split`).
pub open spec fn split_on(s: Seq<char>, c: char) -> Seq<Seq<char>>
    decreases s.len(),
{
    let i = index_of(s, c);
    if i < 0 {
        seq![s]
    } else {
        proof {
            lemma_index_of_bounds(s, c);
        }
        seq![s.take(i)] + split_on(s.skip(i + 1), c)
    }
}

/// The last `/`-separated piece of a name.
pub open spec fn last_segment(s: Seq<char>) -> Seq<char> {
    s.skip(last_index_of(s, '/') + 1)
}

/// The first of two fields that is present.
pub open spec fn either_field(object: Seq<char>, a: Seq<char>, b: Seq<char>) -> Option<Seq<char>> {
    match json_field_spec(object, a) {
        Some(v) => Some(v),
        None => json_field_spec(object, b),
    }
}

/// The package a JSON object describes: its `name` (or `Path`), shortened
/// to the part after the last `/`, and its `version` (or `Version`).
pub open spec fn json_object_package(object: Seq<char>, manager: Seq<char>) -> Option<PackageText> {
    match (either_field(object, "name"@, "Path"@), either_field(object, "version"@, "Version"@)) {
        (Some(n), Some(v)) => if n.len() > 0 && v.len() > 0 {
            Some((last_segment(n), v, manager))
        } else {
            None
        },
        _ => None,
    }
}

/// The packages of every object of a JSON listing: each text after a `{`
/// is read as one object.
pub open spec fn json_packages_spec(text: Seq<char>, manager: Seq<char>) -> Seq<PackageText> {
    present(
        split_on(text, '{').drop_first().map_values(
            |o: Seq<char>| json_object_package(o, manager),
        ),
    )
}

/// A string body whose characters before position `k` are neither quotes
/// nor backslashes closes at `k` when a quote stands there.
proof fn lemma_closing_quote_at(body: Seq<char>, i: int, k: int)
    requires
        0 <= i <= k < body.len(),
        body[k] == '"',
        forall|j: int| i <= j < k ==> body[j] != '"' && body[j] != '\\',
    ensures
        closing_quote_from(body, i, false) == Some(k),
    decreases k - i,
{
    if i < k {
        lemma_closing_quote_at(body, i + 1, k);
    }
}

/// A field written `"FIELD":"VALUE"`, after text without quotes, reads as
/// its value when the value holds no quote or backslash.
pub proof fn law_json_field(pre: Seq<char>, field: Seq<char>, value: Seq<char>, post: Seq<char>)
    requires
        forall|j: int| 0 <= j < pre.len() ==> pre[j] != '"',
        forall|j: int| 0 <= j < value.len() ==> value[j] != '"' && value[j] != '\\',
    ensures
        json_field_spec(
            pre + seq!['"'] + field + seq!['"'] + seq![':', '"'] + value + seq!['"'] + post,
            field,
        ) == Some(value),
{
    let marker = seq!['"'] + field + seq!['"'];
    let after = seq![':', '"'] + value + seq!['"'] + post;
    let s = pre + marker + after;
    assert(s =~= pre + seq!['"'] + field + seq!['"'] + seq![':', '"'] + value + seq!['"'] + post);
    let n = pre.len() as int;
    let m = marker.len() as int;
    assert(s.subrange(n, n + m) =~= marker);
    assert(occurs_at(s, marker, n));
    assert forall|j: int| 0 <= j < n implies !occurs_at(s, marker, j) by {
        if occurs_at(s, marker, j) {
            assert(s.subrange(j, j + m)[0] == s[j]);
            assert(s[j] == pre[j]);
        }
    }
    lemma_find_from(s, marker, 0, n);
    assert(s.skip(n + m) =~= after);
    assert(after[0] == ':');
    assert(trim_start(after) == after);
    let tail = after.drop_first();
    assert(tail[0] == '"');
    assert(trim_start(tail) == tail);
    let body = tail.drop_first();
    assert(body =~= value + seq!['"'] + post);
    let k = value.len() as int;
    assert forall|j: int| 0 <= j < k implies body[j] != '"' && body[j] != '\\' by {
        assert(body[j] == value[j]);
    }
    lemma_closing_quote_at(body, 0, k);
    assert(body.take(k) =~= value);
}

/// A JSON object's package is read from its `name` field (or, without one,
/// its `Path` field), shortened to what follows the last `/`, and its
/// `version` field (or, without one, its `Version` field); an object
/// without both, or with an empty one, names no package.
pub proof fn law_json_object_fields(object: Seq<char>, manager: Seq<char>)
    ensures
        match (json_field_spec(object, "name"@), json_field_spec(object, "version"@)) {
            (Some(n), Some(v)) => n.len() > 0 && v.len() > 0 ==> json_object_package(
                object,
                manager,
            ) == Some((last_segment(n), v, manager)),
            _ => true,
        },
        json_field_spec(object, "name"@) is None ==> match (
            json_field_spec(object, "Path"@),
            json_field_spec(object, "Version"@),
        ) {
            (Some(n), Some(v)) => json_field_spec(object, "version"@) is None && n.len() > 0
                && v.len() > 0 ==> json_object_package(object, manager) == Some(
                (last_segment(n), v, manager),
            ),
            _ => true,
        },
        (json_field_spec(object, "name"@) is None && json_field_spec(object, "Path"@) is None)
            || (json_field_spec(object, "version"@) is None && json_field_spec(
            object,
            "Version"@,
        ) is None) ==> json_object_package(object, manager) is None,
{
}

/// The last `/`-separated piece of `a/b` is `b` when `b` holds no `/`.
pub proof fn law_last_segment(a: Seq<char>, b: Seq<char>)
    requires
        forall|j: int| 0 <= j < b.len() ==> b[j] != '/',
    ensures
        last_segment(a + seq!['/'] + b) == b,
        last_segment(b) == b,
{
    let s = a + seq!['/'] + b;
    let n = a.len() as int;
    assert(s[n] == '/');
    assert forall|j: int| n < j < s.len() implies s[j] != '/' by {
        assert(s[j] == b[j - n - 1]);
    }
    lemma_last_index_of(s, '/', n);
    assert(s.skip(n + 1) =~= b);
    lemma_last_index_of(b, '/', -1);
    assert(b.skip(0) =~= b);
}

fn split_on_exec(v: &Vec<char>, c: char) -> (r: Vec<Vec<char>>)
    ensures
        views_of(r@) == split_on(v@, c),
{
    let mut out: Vec<Vec<char>> = Vec::new();
    let mut start: usize = 0;
    assert(v@.skip(0) =~= v@);
    loop
        invariant
            start <= v@.len(),
            views_of(out@) + split_on(v@.skip(start as int), c) == split_on(v@, c),
        decreases v@.len() - start,
    {
        let ghost rest = v@.skip(start as int);
        let n = v.len();
        match index_of_from(v, start, c) {
            Some(i) => {
                assert(i < n);
                let piece = slice_chars(v, start, i);
                assert(piece@ =~= rest.take(i - start));
                assert(rest.skip(i - start + 1) =~= v@.skip(i + 1));
                let ghost before = views_of(out@);
                out.push(piece);
                assert(views_of(out@) =~= before.push(piece@));
                assert(before + split_on(rest, c) =~= views_of(out@) + split_on(
                    v@.skip(i + 1),
                    c,
                ));
                start = i + 1;
            },
            None => {
                let piece = slice_chars(v, start, v.len());
                assert(piece@ =~= rest);
                let ghost before = views_of(out@);
                out.push(piece);
                assert(views_of(out@) =~= before.push(piece@));
                assert(before + split_on(rest, c) =~= views_of(out@));
                return out;
            },
        }
    }
}

fn last_segment_exec(v: &Vec<char>) -> (r: Vec<char>)
    ensures
        r@ == last_segment(v@),
{
    let n = v.len();
    let start = match last_index_of_exec(v, '/') {
        Some(i) => {
            assert(i < n);
            i + 1
        },
        None => 0,
    };
    let r = slice_chars(v, start, v.len());
    assert(r@ =~= last_segment(v@));
    r
}

fn either_field_exec(object: &Vec<char>, a: &str, b: &str) -> (r: Option<Vec<char>>)
    ensures
        match r {
            Some(v) => either_field(object@, a@, b@) == Some(v@),
            None => either_field(object@, a@, b@) is None,
        },
{
    match json_field_chars(object, &chars_of(a)) {
        Some(v) => Some(v),
        None => json_field_chars(object, &chars_of(b)),
    }
}

/// Packages described by the JSON objects of a listing's text: every
/// object after a `{` with a non-empty name (or path) and version.
pub fn json_packages(text: &str, manager: &str) -> (r: Vec<PackageItem>)
    ensures
        packages_text(r@) == json_packages_spec(text@, manager@),
{
    let pieces = split_on_exec(&chars_of(text), '{');
    let ghost objects = split_on(text@, '{').drop_first();
    let ghost mapped = objects.map_values(|o: Seq<char>| json_object_package(o, manager@));
    let mut out: Vec<PackageItem> = Vec::new();
    let mut i: usize = 1;
    assert(views_of(pieces@).len() >= 1);
    assert(mapped.take(0) =~= Seq::<Option<PackageText>>::empty());
    while i < pieces.len()
        invariant
            1 <= i <= pieces@.len(),
            objects == views_of(pieces@).drop_first(),
            mapped == objects.map_values(|o: Seq<char>| json_object_package(o, manager@)),
            packages_text(out@) == present(mapped.take(i - 1)),
        decreases pieces.len() - i,
    {
        let ghost before = packages_text(out@);
        assert(mapped.take(i as int).drop_last() =~= mapped.take(i - 1));
        assert(mapped[i - 1] == json_object_package(pieces@[i as int]@, manager@));
        let obj = &pieces[i];
        match (either_field_exec(obj, "name", "Path"), either_field_exec(obj, "version", "Version")) {
            (Some(n), Some(v)) => {
                if n.len() > 0 && v.len() > 0 {
                    let short = last_segment_exec(&n);
                    out.push(
                        PackageItem {
                            name: string_of(&short),
                            version: string_of(&v),
                            manager: String::from_str(manager),
                        },
                    );
                    assert(packages_text(out@) =~= before.push((short@, v@, manager@)));
                }
            },
            _ => {},
        }
        i = i + 1;
    }
    assert(mapped.take(i - 1) =~= mapped);
    out
}

/// Packages described by the JSON objects of a listing (`nix`, `conda`,
/// `go`), read from its bytes with invalid UTF-8 replaced.
pub fn parse_json_packages(bytes: &[u8], manager: &str) -> (r: Vec<PackageItem>)
    ensures
        packages_text(r@) == json_packages_spec(utf8_lossy(bytes@), manager@),
{
    let text = utf8_lossy_text(bytes);
    json_packages(text.as_str(), manager)
}

} // verus!
