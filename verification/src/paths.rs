//! Unix paths held as strings, with the component structure that `Path`
//! gives them: a path is a sequence of pieces separated by `/`; empty and
//! `.` pieces carry no meaning except for a leading root or current folder.
use vstd::prelude::*;
use crate::sorting::{lex_le, lemma_lex_antisymmetric, lemma_lex_total, lemma_lex_transitive, strict_total};
use crate::text::{char_lt, chars_eq, chars_le, chars_le_exec, chars_of, concat_chars, lemma_char_order, string_of};

verus! {

/// One component of a path.
pub enum PathPart {
    Root,
    Cur,
    Up,
    Name(Seq<char>),
}

pub open spec fn slash() -> char {
    '/'
}

/// What a piece between separators contributes: nothing for an empty piece
/// or `.`, a step up for `..`, otherwise a name.
pub open spec fn piece_parts(p: Seq<char>) -> Seq<PathPart> {
    if p.len() == 0 || p == seq!['.'] {
        seq![]
    } else if p == seq!['.', '.'] {
        seq![PathPart::Up]
    } else {
        seq![PathPart::Name(p)]
    }
}

/// Index of the last separator in `s`, or -1.
pub open spec fn last_slash(s: Seq<char>) -> int
    decreases s.len(),
{
    if s.len() == 0 {
        -1
    } else if s.last() == slash() {
        s.len() - 1
    } else {
        last_slash(s.drop_last())
    }
}

/// The components that the pieces of `s` contribute, in order.
pub open spec fn body_parts(s: Seq<char>) -> Seq<PathPart>
    decreases s.len(),
{
    let i = last_slash(s);
    if i < 0 {
        piece_parts(s)
    } else {
        proof {
            lemma_last_slash(s);
        }
        body_parts(s.take(i)) + piece_parts(s.skip(i + 1))
    }
}

pub open spec fn has_root(s: Seq<char>) -> bool {
    s.len() > 0 && s[0] == slash()
}

/// A relative path that begins with the current folder: "." or "./...".
pub open spec fn leading_cur(s: Seq<char>) -> bool {
    !has_root(s) && s.len() > 0 && s[0] == '.' && (s.len() == 1 || s[1] == slash())
}

/// The components of a path, as `Path::components` gives them.
pub open spec fn components(s: Seq<char>) -> Seq<PathPart> {
    (if has_root(s) {
        seq![PathPart::Root]
    } else {
        seq![]
    }) + (if leading_cur(s) {
        seq![PathPart::Cur]
    } else {
        seq![]
    }) + body_parts(s)
}

/// The last component, when it is a name (`Path::file_name`).
pub open spec fn file_name_spec(s: Seq<char>) -> Option<Seq<char>> {
    let c = components(s);
    if c.len() > 0 && c.last() is Name {
        Some(c.last()->Name_0)
    } else {
        None
    }
}

/// Two paths are equal as paths when their components are equal.
pub open spec fn same_path_spec(a: Seq<char>, b: Seq<char>) -> bool {
    components(a) == components(b)
}

/// `child` names an entry directly inside `parent`.
pub open spec fn safe_child_spec(parent: Seq<char>, child: Seq<char>) -> bool {
    let c = components(child);
    c.len() > 0 && c.last() is Name && c.drop_last() == components(parent)
}

/// A name that creates or renames an entry inside the current folder and
/// nowhere else.
pub open spec fn valid_entry_name_spec(name: Seq<char>) -> bool {
    &&& name.len() > 0
    &&& name != seq!['.']
    &&& name != seq!['.', '.']
    &&& components(name).len() == 1
    &&& file_name_spec(name) is Some
}

/// `PathBuf::join`: an absolute `name` replaces `base`; otherwise `name` is
/// appended, with a separator unless `base` is empty or already ends in one.
pub open spec fn join_spec(base: Seq<char>, name: Seq<char>) -> Seq<char> {
    if has_root(name) {
        name
    } else if base.len() == 0 || base.last() == slash() {
        base + name
    } else {
        base.push(slash()) + name
    }
}

// ----------------------------------------------------------------------
// lemmas
// ----------------------------------------------------------------------

pub proof fn lemma_last_slash(s: Seq<char>)
    ensures
        -1 <= last_slash(s) < s.len(),
        last_slash(s) >= 0 ==> s[last_slash(s)] == slash(),
        forall|j: int| last_slash(s) < j < s.len() ==> s[j] != slash(),
    decreases s.len(),
{
    if s.len() > 0 && s.last() != slash() {
        lemma_last_slash(s.drop_last());
        assert forall|j: int| last_slash(s) < j < s.len() implies s[j] != slash() by {
            if j < s.len() - 1 {
                assert(s[j] == s.drop_last()[j]);
            }
        }
    }
}

proof fn lemma_last_slash_none(s: Seq<char>)
    requires
        forall|j: int| 0 <= j < s.len() ==> s[j] != slash(),
    ensures
        last_slash(s) == -1,
    decreases s.len(),
{
    if s.len() > 0 {
        lemma_last_slash_none(s.drop_last());
    }
}

proof fn lemma_last_slash_concat(a: Seq<char>, b: Seq<char>)
    requires
        a.len() > 0,
        a.last() == slash(),
    ensures
        last_slash(a + b) == if last_slash(b) >= 0 {
            a.len() + last_slash(b)
        } else {
            a.len() - 1
        },
    decreases b.len(),
{
    if b.len() == 0 {
        assert(a + b =~= a);
    } else if b.last() == slash() {
    } else {
        assert((a + b).drop_last() =~= a + b.drop_last());
        lemma_last_slash_concat(a, b.drop_last());
    }
}

/// After a separator, the components of what follows simply add on.
pub proof fn lemma_body_concat(a: Seq<char>, b: Seq<char>)
    requires
        a.len() > 0,
        a.last() == slash(),
    ensures
        body_parts(a + b) == body_parts(a) + body_parts(b),
    decreases b.len(),
{
    lemma_last_slash(b);
    lemma_last_slash_concat(a, b);
    lemma_last_slash(a);
    assert(last_slash(a) == a.len() - 1);
    assert(a.skip(a.len() as int) =~= Seq::<char>::empty());
    assert(body_parts(a) == body_parts(a.drop_last()) + piece_parts(Seq::<char>::empty()));
    assert(a.take(a.len() - 1) =~= a.drop_last());
    let j = last_slash(b);
    if j < 0 {
        assert((a + b).take(a.len() - 1) =~= a.drop_last());
        assert((a + b).skip(a.len() as int) =~= b);
        assert(body_parts(a) =~= body_parts(a.drop_last()));
    } else {
        assert((a + b).take(a.len() + j) =~= a + b.take(j));
        assert((a + b).skip(a.len() + j + 1) =~= b.skip(j + 1));
        lemma_body_concat(a, b.take(j));
        assert(body_parts(a) =~= body_parts(a.drop_last()));
    }
}

/// The pieces of a path never contribute a root.
proof fn lemma_body_no_root(s: Seq<char>)
    ensures
        forall|i: int| 0 <= i < body_parts(s).len() ==> !(#[trigger] body_parts(s)[i] is Root),
    decreases s.len(),
{
    lemma_last_slash(s);
    let i = last_slash(s);
    if i >= 0 {
        lemma_body_no_root(s.take(i));
    }
}

/// A piece without separators contributes exactly its own components.
proof fn lemma_body_piece(p: Seq<char>)
    requires
        forall|j: int| 0 <= j < p.len() ==> p[j] != slash(),
    ensures
        body_parts(p) == piece_parts(p),
{
    lemma_last_slash_none(p);
}

/// A trailing separator adds no component.
proof fn lemma_body_trailing_slash(y: Seq<char>)
    ensures
        body_parts(y.push(slash())) == body_parts(y),
{
    let s = y.push(slash());
    assert(last_slash(s) == y.len());
    assert(s.take(y.len() as int) =~= y);
    assert(s.skip(y.len() as int + 1) =~= Seq::<char>::empty());
    assert(body_parts(s) =~= body_parts(y));
}

/// A piece that contributes a component starts at `k`: it is not empty and
/// is not the single `.`.
pub open spec fn starts_name(s: Seq<char>, k: int) -> bool {
    0 <= k < s.len() && s[k] != slash() && !(s[k] == '.' && (k + 1 == s.len() || s[k + 1]
        == slash()))
}

proof fn lemma_piece_starts_name(s: Seq<char>, start: int, end: int)
    requires
        0 <= start <= end <= s.len(),
        forall|j: int| start <= j < end ==> s[j] != slash(),
        end == s.len() || s[end] == slash(),
        piece_parts(s.subrange(start, end)).len() > 0,
    ensures
        starts_name(s, start),
{
    let p = s.subrange(start, end);
    assert(p.len() > 0);
    if s[start] == '.' && (start + 1 == s.len() || s[start + 1] == slash()) {
        assert(end == start + 1);
        assert(p =~= seq!['.']);
    }
}

// ----------------------------------------------------------------------
// executable components
// ----------------------------------------------------------------------

/// One component of a path, as computed.
pub enum Component {
    RootDir,
    CurDir,
    ParentDir,
    Normal(Vec<char>),
}

impl View for Component {
    type V = PathPart;

    open spec fn view(&self) -> PathPart {
        match self {
            Component::RootDir => PathPart::Root,
            Component::CurDir => PathPart::Cur,
            Component::ParentDir => PathPart::Up,
            Component::Normal(v) => PathPart::Name(v@),
        }
    }
}

pub open spec fn parts_of(v: Seq<Component>) -> Seq<PathPart> {
    v.map_values(|c: Component| c@)
}

/// The components a piece contributes, appended to `out`.
fn push_piece(out: &mut Vec<Component>, piece: Vec<char>)
    ensures
        parts_of(final(out)@) == parts_of(old(out)@) + piece_parts(piece@),
{
    let ghost p = piece@;
    let n = piece.len();
    if n == 0 {
        assert(parts_of(out@) =~= parts_of(out@) + piece_parts(p));
    } else if n == 1 && piece[0] == '.' {
        assert(p =~= seq!['.']);
        assert(parts_of(out@) =~= parts_of(out@) + piece_parts(p));
    } else if n == 2 && piece[0] == '.' && piece[1] == '.' {
        assert(p =~= seq!['.', '.']);
        out.push(Component::ParentDir);
        assert(parts_of(out@) =~= parts_of(old(out)@) + piece_parts(p));
    } else {
        assert(p != seq!['.']);
        assert(p != seq!['.', '.']);
        out.push(Component::Normal(piece));
        assert(parts_of(out@) =~= parts_of(old(out)@) + piece_parts(p));
    }
}

/// The components of the pieces of `v`, and the position where the last
/// piece that contributes a component starts (or `None`).
fn body_components(v: &Vec<char>) -> (r: (Vec<Component>, Option<usize>))
    ensures
        parts_of(r.0@) == body_parts(v@),
        match r.1 {
            None => body_parts(v@).len() == 0,
            Some(k) => k < v@.len() && (k == 0 || v@[k - 1] == slash()) && body_parts(v@).len()
                > 0 && body_parts(v@.take(k as int)) == body_parts(v@).drop_last() && starts_name(
                v@,
                k as int,
            ),
        },
{
    let mut out: Vec<Component> = Vec::new();
    let mut last_start: Option<usize> = None;
    let mut start: usize = 0;
    let mut piece: Vec<char> = Vec::new();
    let mut i: usize = 0;
    while i < v.len()
        invariant
            start <= i <= v.len(),
            start == 0 || v@[start - 1] == slash(),
            piece@ == v@.subrange(start as int, i as int),
            forall|j: int| start <= j < i ==> v@[j] != slash(),
            start == 0 ==> parts_of(out@) == Seq::<PathPart>::empty(),
            start > 0 ==> parts_of(out@) == body_parts(v@.take(start as int)),
            match last_start {
                None => parts_of(out@).len() == 0,
                Some(k) => k < start && (k == 0 || v@[k - 1] == slash()) && parts_of(out@).len()
                    > 0 && (k == 0 ==> Seq::<PathPart>::empty() == parts_of(out@).drop_last())
                    && (k > 0 ==> body_parts(v@.take(k as int)) == parts_of(out@).drop_last())
                    && starts_name(v@, k as int),
            },
        decreases v.len() - i,
    {
        if v[i] == '/' {
            let ghost before = parts_of(out@);
            let ghost p = piece@;
            let len_before = out.len();
            let done = piece;
            piece = Vec::new();
            push_piece(&mut out, done);
            proof {
                lemma_body_piece(p);
                let t = v@.take(i + 1);
                assert(t =~= v@.take(start as int) + p.push(slash()));
                lemma_body_trailing_slash(p);
                if start > 0 {
                    lemma_body_concat(v@.take(start as int), p.push(slash()));
                } else {
                    assert(t =~= p.push(slash()));
                }
                assert(parts_of(out@) == body_parts(t));
            }
            if out.len() > len_before {
                last_start = Some(start);
                proof {
                    assert(parts_of(out@).drop_last() =~= before);
                    lemma_piece_starts_name(v@, start as int, i as int);
                }
            } else {
                assert(parts_of(out@) =~= before);
            }
            start = i + 1;
        } else {
            piece.push(v[i]);
        }
        i = i + 1;
        assert(piece@ =~= v@.subrange(start as int, i as int));
    }
    let ghost before = parts_of(out@);
    let ghost p = piece@;
    let len_before = out.len();
    push_piece(&mut out, piece);
    proof {
        lemma_body_piece(p);
        if start > 0 {
            assert(v@ =~= v@.take(start as int) + p);
            lemma_body_concat(v@.take(start as int), p);
        } else {
            assert(v@ =~= p);
        }
        assert(parts_of(out@) == body_parts(v@));
    }
    if out.len() > len_before {
        last_start = Some(start);
        proof {
            assert(parts_of(out@).drop_last() =~= before);
            lemma_piece_starts_name(v@, start as int, v@.len() as int);
            if start == 0 {
                assert(body_parts(v@.take(0)) == piece_parts(Seq::<char>::empty())) by {
                    assert(v@.take(0) =~= Seq::<char>::empty());
                    lemma_body_piece(Seq::<char>::empty());
                }
            }
            assert(start < v@.len()) by {
                if start == v@.len() {
                    assert(p.len() == 0);
                }
            }
        }
    } else {
        assert(parts_of(out@) =~= before);
        proof {
            match last_start {
                Some(k) => {
                    if k == 0 {
                        assert(body_parts(v@.take(0)) == piece_parts(Seq::<char>::empty())) by {
                            assert(v@.take(0) =~= Seq::<char>::empty());
                            lemma_body_piece(Seq::<char>::empty());
                        }
                    }
                },
                None => {},
            }
        }
    }
    (out, last_start)
}

fn prefix_components(v: &Vec<char>) -> (r: Vec<Component>)
    ensures
        parts_of(r@) == (if has_root(v@) {
            seq![PathPart::Root]
        } else {
            seq![]
        }) + (if leading_cur(v@) {
            seq![PathPart::Cur]
        } else {
            seq![]
        }),
{
    let mut out: Vec<Component> = Vec::new();
    if v.len() > 0 && v[0] == '/' {
        out.push(Component::RootDir);
    } else if v.len() > 0 && v[0] == '.' && (v.len() == 1 || v[1] == '/') {
        out.push(Component::CurDir);
    }
    assert(parts_of(out@) =~= (if has_root(v@) {
        seq![PathPart::Root]
    } else {
        seq![]
    }) + (if leading_cur(v@) {
        seq![PathPart::Cur]
    } else {
        seq![]
    }));
    out
}

/// The components of a path.
pub fn path_components(path: &str) -> (r: Vec<Component>)
    ensures
        parts_of(r@) == components(path@),
{
    let v = chars_of(path);
    let mut pre = prefix_components(&v);
    let (body, _) = body_components(&v);
    let ghost p0 = parts_of(pre@);
    let mut body = body;
    pre.append(&mut body);
    assert(parts_of(pre@) =~= components(v@));
    pre
}

fn component_eq(a: &Component, b: &Component) -> (r: bool)
    ensures
        r == (a@ == b@),
{
    match (a, b) {
        (Component::RootDir, Component::RootDir) => true,
        (Component::CurDir, Component::CurDir) => true,
        (Component::ParentDir, Component::ParentDir) => true,
        (Component::Normal(x), Component::Normal(y)) => chars_eq(x, y),
        _ => false,
    }
}

pub(crate) fn components_eq(a: &Vec<Component>, b: &Vec<Component>) -> (r: bool)
    ensures
        r == (parts_of(a@) == parts_of(b@)),
{
    if a.len() != b.len() {
        assert(parts_of(a@).len() != parts_of(b@).len());
        return false;
    }
    let mut i: usize = 0;
    while i < a.len()
        invariant
            a.len() == b.len(),
            i <= a.len(),
            forall|j: int| 0 <= j < i ==> a@[j]@ == b@[j]@,
        decreases a.len() - i,
    {
        if !component_eq(&a[i], &b[i]) {
            assert(parts_of(a@)[i as int] != parts_of(b@)[i as int]);
            return false;
        }
        i = i + 1;
    }
    assert(parts_of(a@) =~= parts_of(b@));
    true
}

/// Whether two paths are the same path (`Path` equality).
pub fn same_path(a: &str, b: &str) -> (r: bool)
    ensures
        r == same_path_spec(a@, b@),
{
    components_eq(&path_components(a), &path_components(b))
}

/// The final component of a path when it is a name (`Path::file_name`).
pub fn file_name(path: &str) -> (r: Option<String>)
    ensures
        match r {
            Some(s) => file_name_spec(path@) == Some(s@),
            None => file_name_spec(path@) is None,
        },
{
    let c = path_components(path);
    if c.len() == 0 {
        return None;
    }
    let last = c.len() - 1;
    match &c[last] {
        Component::Normal(v) => Some(string_of(v)),
        _ => None,
    }
}

/// Whether `child` is an entry directly inside `parent`.
pub fn is_safe_child(parent: &str, child: &str) -> (r: bool)
    ensures
        r == safe_child_spec(parent@, child@),
{
    let mut c = path_components(child);
    let p = path_components(parent);
    if c.len() == 0 {
        return false;
    }
    let ghost full = parts_of(c@);
    let last = c.pop().unwrap();
    let is_name = match last {
        Component::Normal(_) => true,
        _ => false,
    };
    assert(parts_of(c@) =~= full.drop_last());
    is_name && components_eq(&c, &p)
}

/// Whether a name can be used for a new or renamed entry of the current
/// folder: not empty, not `.` or `..`, a single name component.
pub fn is_valid_entry_name(name: &str) -> (r: bool)
    ensures
        r == valid_entry_name_spec(name@),
{
    let v = chars_of(name);
    if v.len() == 0 {
        return false;
    }
    if v.len() == 1 && v[0] == '.' {
        assert(v@ =~= seq!['.']);
        return false;
    }
    if v.len() == 2 && v[0] == '.' && v[1] == '.' {
        assert(v@ =~= seq!['.', '.']);
        return false;
    }
    assert(v@ != seq!['.'] && v@ != seq!['.', '.']) by {
        if v@ =~= seq!['.'] {
        }
        if v@ =~= seq!['.', '.'] {
        }
    }
    let c = path_components(name);
    if c.len() != 1 {
        return false;
    }
    match &c[0] {
        Component::Normal(_) => true,
        _ => false,
    }
}

/// No separator or `.` piece trails the path past its root or leading
/// current folder.
pub open spec fn tail_trimmed(q: Seq<char>) -> bool {
    let floor = if has_root(q) || leading_cur(q) {
        1int
    } else {
        0int
    };
    !(q.len() > floor && (q.last() == slash() || (q.last() == '.' && q.len() >= 2 && q[q.len()
        - 2] == slash())))
}

pub open spec fn is_prefix(a: Seq<char>, b: Seq<char>) -> bool {
    a.len() <= b.len() && b.take(a.len() as int) == a
}

/// Dropping a trailing separator or `.` piece past the root or leading
/// current folder keeps the components.
proof fn lemma_trim_tail(q: Seq<char>, floor: int)
    requires
        floor == (if has_root(q) || leading_cur(q) {
            1int
        } else {
            0int
        }),
        q.len() > floor,
        q.last() == slash() || (q.last() == '.' && q.len() >= 2 && q[q.len() - 2] == slash()),
    ensures
        components(q.drop_last()) == components(q),
        floor == (if has_root(q.drop_last()) || leading_cur(q.drop_last()) {
            1int
        } else {
            0int
        }),
{
    let y = q.drop_last();
    assert(q =~= y.push(q.last()));
    if q.last() == slash() {
        lemma_body_trailing_slash(y);
    } else {
        lemma_body_concat(y, seq!['.']);
        assert(y + seq!['.'] =~= q);
        lemma_body_piece(seq!['.']);
    }
    assert(has_root(y) == has_root(q));
    assert(leading_cur(y) == leading_cur(q));
}

/// The path without its final component (`Path::parent`): `None` for an
/// empty path and for one that ends in the root.
pub fn parent(path: &str) -> (r: Option<String>)
    ensures
        r is None <==> (components(path@).len() == 0 || components(path@).last() is Root),
        match r {
            Some(q) => components(q@) == components(path@).drop_last() && is_prefix(q@, path@)
                && tail_trimmed(q@),
            None => true,
        },
{
    let v = chars_of(path);
    let (_, last) = body_components(&v);
    let ghost pre = (if has_root(v@) {
        seq![PathPart::Root]
    } else {
        seq![]
    }) + (if leading_cur(v@) {
        seq![PathPart::Cur]
    } else {
        seq![]
    });
    let ghost full = components(v@);
    match last {
        None => {
            assert(full =~= pre);
            let root = v.len() > 0 && v[0] == '/';
            let cur = !root && v.len() > 0 && v[0] == '.' && (v.len() == 1 || v[1] == '/');
            if cur {
                assert(full =~= seq![PathPart::Cur]);
                let e: Vec<char> = Vec::new();
                assert(components(e@) =~= Seq::<PathPart>::empty()) by {
                    lemma_body_piece(e@);
                }
                assert(v@.take(0) =~= e@);
                Some(string_of(&e))
            } else {
                None
            }
        },
        Some(k) => {
            let mut q: Vec<char> = Vec::new();
            let mut i: usize = 0;
            while i < k
                invariant
                    i <= k,
                    k < v.len(),
                    q@ == v@.take(i as int),
                decreases k - i,
            {
                q.push(v[i]);
                i = i + 1;
                assert(q@ =~= v@.take(i as int));
            }
            proof {
                lemma_body_no_root(v@);
                assert(full.last() == body_parts(v@).last());
                if k == 0 {
                    assert(q@ =~= Seq::<char>::empty());
                    lemma_body_piece(q@);
                }
                assert(has_root(q@) == has_root(v@));
                assert(leading_cur(q@) == leading_cur(v@));
                assert(components(q@) =~= full.drop_last());
            }
            let floor: usize = if q.len() > 0 && q[0] == '/' {
                1
            } else if q.len() > 0 && q[0] == '.' && (q.len() == 1 || q[1] == '/') {
                1
            } else {
                0
            };
            while q.len() > floor && (q[q.len() - 1] == '/' || (q[q.len() - 1] == '.' && q.len()
                >= 2 && q[q.len() - 2] == '/'))
                invariant
                    floor == (if has_root(q@) || leading_cur(q@) {
                        1int
                    } else {
                        0int
                    }),
                    components(q@) == full.drop_last(),
                    is_prefix(q@, v@),
                decreases q.len(),
            {
                proof {
                    lemma_trim_tail(q@, floor as int);
                }
                let ghost old_q = q@;
                q.pop();
                assert(v@.take(q@.len() as int) =~= old_q.take(q@.len() as int));
            }
            Some(string_of(&q))
        },
    }
}

/// `base` joined with `name` (`Path::join`).
pub fn join(base: &str, name: &str) -> (r: String)
    ensures
        r@ == join_spec(base@, name@),
{
    let b = chars_of(base);
    let n = chars_of(name);
    if n.len() > 0 && n[0] == '/' {
        return string_of(&n);
    }
    if b.len() == 0 || b[b.len() - 1] == '/' {
        string_of(&concat_chars(&b, &n))
    } else {
        let mut b2 = b;
        b2.push('/');
        string_of(&concat_chars(&b2, &n))
    }
}

/// Names that pass the entry-name check cannot leave the folder they are
/// joined to: for every folder `dir` and every valid `name`, the joined path
/// is an entry directly inside `dir`.
pub proof fn law_valid_name_stays_inside(dir: Seq<char>, name: Seq<char>)
    requires
        valid_entry_name_spec(name),
    ensures
        safe_child_spec(dir, join_spec(dir, name)),
        file_name_spec(join_spec(dir, name)) == file_name_spec(name),
{
    let cn = components(name);
    // A valid name has neither a root nor a leading current folder.
    assert(!has_root(name));
    assert(!leading_cur(name));
    assert(cn =~= body_parts(name));
    let j = join_spec(dir, name);
    if dir.len() == 0 {
        assert(j =~= name);
        assert(components(dir) =~= Seq::<PathPart>::empty()) by {
            lemma_body_piece(dir);
        }
        assert(cn.drop_last() =~= Seq::<PathPart>::empty());
    } else {
        let d2 = if dir.last() == slash() {
            dir
        } else {
            dir.push(slash())
        };
        assert(j =~= d2 + name);
        if dir.last() != slash() {
            lemma_body_trailing_slash(dir);
        }
        assert(body_parts(d2) == body_parts(dir));
        lemma_body_concat(d2, name);
        assert(has_root(j) == has_root(dir));
        assert(leading_cur(j) == leading_cur(dir));
        assert(components(j) =~= components(dir) + cn);
        assert(components(j).drop_last() =~= components(dir));
    }
}


// ----------------------------------------------------------------------
// the order of paths
// ----------------------------------------------------------------------

/// The rank of a component's kind in the order of paths: the root, then the
/// current folder, then the parent folder, then names.
pub open spec fn part_rank(p: PathPart) -> int {
    match p {
        PathPart::Root => 0,
        PathPart::Cur => 1,
        PathPart::Up => 2,
        PathPart::Name(_) => 3,
    }
}

/// Components are ordered by kind, and names by their characters.
pub open spec fn part_lt() -> spec_fn(PathPart, PathPart) -> bool {
    |a: PathPart, b: PathPart|
        match (a, b) {
            (PathPart::Name(x), PathPart::Name(y)) => x != y && chars_le(x, y),
            _ => part_rank(a) < part_rank(b),
        }
}

/// The order of paths (`Path::cmp`): their components compared in turn.
pub open spec fn path_le(a: Seq<char>, b: Seq<char>) -> bool {
    lex_le(components(a), components(b), part_lt())
}

pub proof fn lemma_part_order()
    ensures
        strict_total(part_lt()),
{
    lemma_char_order();
    let lt = part_lt();
    assert forall|a: PathPart, b: PathPart| a != b implies #[trigger] lt(a, b) || lt(b, a) by {
        if a is Name && b is Name {
            lemma_lex_total(a->Name_0, b->Name_0, char_lt());
        }
    }
    assert forall|a: PathPart, b: PathPart, c: PathPart|
        #[trigger] lt(a, b) && #[trigger] lt(b, c) implies lt(a, c) by {
        if a is Name && b is Name && c is Name {
            let (x, y, z) = (a->Name_0, b->Name_0, c->Name_0);
            lemma_lex_transitive(x, y, z, char_lt());
            if x == z {
                lemma_lex_antisymmetric(x, y, char_lt());
            }
        }
    }
}

fn part_rank_exec(c: &Component) -> (r: u8)
    ensures
        r == part_rank(c@),
{
    match c {
        Component::RootDir => 0,
        Component::CurDir => 1,
        Component::ParentDir => 2,
        Component::Normal(_) => 3,
    }
}

fn part_lt_exec(a: &Component, b: &Component) -> (r: bool)
    ensures
        r == part_lt()(a@, b@),
{
    match (a, b) {
        (Component::Normal(x), Component::Normal(y)) => !chars_eq(x, y) && chars_le_exec(x, y),
        _ => part_rank_exec(a) < part_rank_exec(b),
    }
}

/// Whether the path with components `a` comes before (or is) the path with
/// components `b`.
pub fn components_le(a: &Vec<Component>, b: &Vec<Component>) -> (r: bool)
    ensures
        r == lex_le(parts_of(a@), parts_of(b@), part_lt()),
{
    let ghost (pa, pb) = (parts_of(a@), parts_of(b@));
    let mut i: usize = 0;
    assert(pa.skip(0) =~= pa && pb.skip(0) =~= pb);
    while i < a.len() && i < b.len() && component_eq(&a[i], &b[i])
        invariant
            i <= a.len(),
            i <= b.len(),
            pa == parts_of(a@),
            pb == parts_of(b@),
            lex_le(pa, pb, part_lt()) == lex_le(pa.skip(i as int), pb.skip(i as int), part_lt()),
        decreases a.len() - i,
    {
        assert(pa.skip(i as int).drop_first() =~= pa.skip(i + 1));
        assert(pb.skip(i as int).drop_first() =~= pb.skip(i + 1));
        i = i + 1;
    }
    if i == a.len() {
        true
    } else if i == b.len() {
        false
    } else {
        assert(pa.skip(i as int)[0] == a@[i as int]@);
        assert(pb.skip(i as int)[0] == b@[i as int]@);
        part_lt_exec(&a[i], &b[i])
    }
}

} // verus!
