//! Where a converted image is written: the output name and directory come
//! from templates in which `{name}` and `{path}` stand for the input's
//! stem and directory, and the input's path is made absolute lexically,
//! without resolving symbolic links.
use vstd::prelude::*;
use crate::cli::{format_name, Format};
use crate::text::{opt_text, str_eq};

verus! {

/// `s` with every occurrence of `pat`, scanned from left to right without
/// overlap, replaced by `rep` (as `str::replace` does for a non-empty
/// pattern).
pub open spec fn replace_all(s: Seq<char>, pat: Seq<char>, rep: Seq<char>) -> Seq<char>
    decreases s.len(),
{
    if pat.len() == 0 || s.len() < pat.len() {
        s
    } else if s.take(pat.len() as int) == pat {
        rep + replace_all(s.skip(pat.len() as int), pat, rep)
    } else {
        seq![s[0]] + replace_all(s.drop_first(), pat, rep)
    }
}

/// Replaces every occurrence of a non-empty `pat` in `s` by `rep`.
pub fn replace_text(s: &str, pat: &str, rep: &str) -> (r: String)
    requires
        pat@.len() > 0,
    ensures
        r@ == replace_all(s@, pat@, rep@),
{
    let n = s.unicode_len();
    let m = pat.unicode_len();
    let mut out = String::new();
    let mut i: usize = 0;
    assert(s@.skip(0) =~= s@);
    assert(out@ + replace_all(s@, pat@, rep@) =~= replace_all(s@, pat@, rep@));
    while i < n
        invariant
            n == s@.len(),
            m == pat@.len(),
            m > 0,
            i <= n,
            replace_all(s@, pat@, rep@) == out@ + replace_all(s@.skip(i as int), pat@, rep@),
        ensures
            i <= n,
            n - i < m,
            replace_all(s@, pat@, rep@) == out@ + replace_all(s@.skip(i as int), pat@, rep@),
        decreases n - i,
    {
        let ghost rest = s@.skip(i as int);
        if n - i < m {
            break;
        }
        let window = s.substring_char(i, i + m);
        assert(rest.take(m as int) =~= window@);
        if str_eq(window, pat) {
            let ghost before = out@;
            out.append(rep);
            assert(rest.skip(m as int) =~= s@.skip(i + m));
            assert(before + (rep@ + replace_all(rest.skip(m as int), pat@, rep@)) =~= out@
                + replace_all(s@.skip(i + m), pat@, rep@));
            i = i + m;
        } else {
            let ghost before = out@;
            let one = s.substring_char(i, i + 1);
            out.append(one);
            assert(one@ =~= seq![rest[0]]);
            assert(rest.drop_first() =~= s@.skip(i + 1));
            assert(before + (seq![rest[0]] + replace_all(rest.drop_first(), pat@, rep@)) =~= out@
                + replace_all(s@.skip(i + 1), pat@, rep@));
            i = i + 1;
        }
    }
    let rest = s.substring_char(i, n);
    assert(rest@ =~= s@.skip(i as int));
    assert(replace_all(s@.skip(i as int), pat@, rep@) == s@.skip(i as int));
    out.append(rest);
    out
}

/// The name of the file a conversion writes: the output template with
/// `{name}` replaced by the input's stem, a dot, and the format's extension.
pub open spec fn output_name(template: Seq<char>, stem: Seq<char>, format: Format) -> Seq<char> {
    replace_all(template, "{name}"@, stem) + "."@ + format_name(format)
}

/// The directory a conversion writes to: the path template with `{path}`
/// replaced by the directory of the (absolute) input.
pub open spec fn output_dir(template: Seq<char>, parent: Seq<char>) -> Seq<char> {
    replace_all(template, "{path}"@, parent)
}

/// The name of the file a conversion writes.
pub fn output_file_name(template: &str, stem: &str, format: Format) -> (r: String)
    ensures
        r@ == output_name(template@, stem@, format),
{
    proof {
        reveal_strlit("{name}");
    }
    let mut r = replace_text(template, "{name}", stem);
    r.append(".");
    r.append(format.extension());
    r
}

/// The directory a conversion writes to.
pub fn output_directory(template: &str, parent: &str) -> (r: String)
    ensures
        r@ == output_dir(template@, parent@),
{
    proof {
        reveal_strlit("{path}");
    }
    replace_text(template, "{path}", parent)
}

/// With the default name template `{name}`, the output is named after the
/// input's stem with the format's extension.
pub proof fn lemma_default_name_is_stem(stem: Seq<char>, format: Format)
    ensures
        output_name("{name}"@, stem, format) == stem + "."@ + format_name(format),
{
    reveal_strlit("{name}");
    let t = "{name}"@;
    assert(t.take(t.len() as int) =~= t);
    assert(t.skip(t.len() as int) =~= Seq::<char>::empty());
    assert(replace_all(t.skip(t.len() as int), t, stem) == Seq::<char>::empty());
    assert(replace_all(t, t, stem) =~= stem);
}

/// With the default path template `{path}`, the output goes to the input's
/// directory.
pub proof fn lemma_default_dir_is_parent(parent: Seq<char>)
    ensures
        output_dir("{path}"@, parent) == parent,
{
    reveal_strlit("{path}");
    let t = "{path}"@;
    assert(t.take(t.len() as int) =~= t);
    assert(t.skip(t.len() as int) =~= Seq::<char>::empty());
    assert(replace_all(t.skip(t.len() as int), t, parent) == Seq::<char>::empty());
    assert(replace_all(t, t, parent) =~= parent);
}

/// Whether `pat` occurs in `s` at position `i`.
pub open spec fn occurs_at(s: Seq<char>, pat: Seq<char>, i: int) -> bool {
    0 <= i && i + pat.len() <= s.len() && s.subrange(i, i + pat.len()) == pat
}

/// A template without the placeholder is kept as it is.
pub proof fn lemma_replace_without_placeholder(s: Seq<char>, pat: Seq<char>, rep: Seq<char>)
    requires
        forall|i: int| !#[trigger] occurs_at(s, pat, i),
    ensures
        replace_all(s, pat, rep) == s,
    decreases s.len(),
{
    if pat.len() == 0 || s.len() < pat.len() {
    } else {
        assert(s.subrange(0, pat.len() as int) =~= s.take(pat.len() as int));
        assert(!occurs_at(s, pat, 0));
        let rest = s.drop_first();
        assert forall|i: int| !#[trigger] occurs_at(rest, pat, i) by {
            if 0 <= i && i + pat.len() <= rest.len() {
                assert(rest.subrange(i, i + pat.len()) =~= s.subrange(i + 1, i + 1 + pat.len()));
                assert(!occurs_at(s, pat, i + 1));
            }
        }
        lemma_replace_without_placeholder(rest, pat, rep);
        assert(seq![s[0]] + rest =~= s);
    }
}


/// One component of a path, as `std::path::Path::components` yields it.
#[derive(Debug)]
pub enum PathPart {
    /// A Windows prefix such as `C:`.
    Prefix(String),
    /// The root directory.
    Root,
    /// `.`
    CurDir,
    /// `..`
    ParentDir,
    /// A name.
    Normal(String),
}

/// A path component as a mathematical value.
pub enum PartView {
    Prefix(Seq<char>),
    Root,
    CurDir,
    ParentDir,
    Normal(Seq<char>),
}

/// The view of a path component.
pub open spec fn part_view(p: PathPart) -> PartView {
    match p {
        PathPart::Prefix(s) => PartView::Prefix(s@),
        PathPart::Root => PartView::Root,
        PathPart::CurDir => PartView::CurDir,
        PathPart::ParentDir => PartView::ParentDir,
        PathPart::Normal(s) => PartView::Normal(s@),
    }
}

/// The views of a sequence of components.
pub open spec fn parts_view(parts: Seq<PathPart>) -> Seq<PartView> {
    parts.map_values(|p: PathPart| part_view(p))
}

/// Whether a `..` cancels this component: only a name is taken back.
pub open spec fn removable(p: PartView) -> bool {
    p is Normal
}

/// Adds one component to a normalized path: `.` is dropped; `..` removes
/// the name before it, is dropped right after the root (nothing lies above
/// it), and is kept anywhere else (at the start of a relative path, after
/// another `..` or after a drive prefix).
pub open spec fn normalize_step(acc: Seq<PartView>, p: PartView) -> Seq<PartView> {
    match p {
        PartView::CurDir => acc,
        PartView::ParentDir => if acc.len() > 0 && removable(acc.last()) {
            acc.drop_last()
        } else if acc.len() > 0 && acc.last() is Root {
            acc
        } else {
            acc.push(PartView::ParentDir)
        },
        _ => acc.push(p),
    }
}

/// The lexical normalization of a path, component by component from the
/// left.
pub open spec fn normalize_parts(parts: Seq<PartView>) -> Seq<PartView>
    decreases parts.len(),
{
    if parts.len() == 0 {
        Seq::empty()
    } else {
        normalize_step(normalize_parts(parts.drop_last()), parts.last())
    }
}

/// Whether a `..` may stand right after this component in a normalized
/// path: after anything but a name or the root.
pub open spec fn may_precede_parent(p: PartView) -> bool {
    !(p is Normal) && !(p is Root)
}

/// The shape of a normalized path: no `.`, and a `..` only at the start,
/// after another `..` or after a drive prefix; so an absolute path holds
/// no `..` at all.
pub open spec fn is_normalized(parts: Seq<PartView>) -> bool {
    forall|i: int|
        0 <= i < parts.len() ==> !(#[trigger] parts[i] is CurDir) && (parts[i] is ParentDir ==> i
            == 0 || may_precede_parent(parts[i - 1]))
}

fn copy_part(p: &PathPart) -> (r: PathPart)
    ensures
        part_view(r) == part_view(*p),
{
    match p {
        PathPart::Prefix(s) => PathPart::Prefix(s.clone()),
        PathPart::Root => PathPart::Root,
        PathPart::CurDir => PathPart::CurDir,
        PathPart::ParentDir => PathPart::ParentDir,
        PathPart::Normal(s) => PathPart::Normal(s.clone()),
    }
}

/// Normalizes a path lexically, as Python's `os.path.abspath` does after
/// joining a relative path to the working directory: `.` components are
/// dropped, `..` cancels the name before it and stops at the root, without
/// looking at the file system.
pub fn normalize_components(parts: &[PathPart]) -> (r: Vec<PathPart>)
    ensures
        parts_view(r@) == normalize_parts(parts_view(parts@)),
{
    let ghost pv = parts_view(parts@);
    let mut acc: Vec<PathPart> = Vec::new();
    let n = parts.len();
    let mut i: usize = 0;
    assert(parts_view(acc@) =~= Seq::<PartView>::empty());
    while i < n
        invariant
            n == parts@.len(),
            pv == parts_view(parts@),
            i <= n,
            parts_view(acc@) == normalize_parts(pv.take(i as int)),
        decreases n - i,
    {
        let ghost before = parts_view(acc@);
        assert(pv.take(i + 1).drop_last() =~= pv.take(i as int));
        assert(pv.take(i + 1).last() == part_view(parts@[i as int]));
        match &parts[i] {
            PathPart::CurDir => {},
            PathPart::ParentDir => {
                let k = acc.len();
                let can_pop = k > 0 && match &acc[k - 1] {
                    PathPart::Normal(_) => true,
                    _ => false,
                };
                let at_root = k > 0 && match &acc[k - 1] {
                    PathPart::Root => true,
                    _ => false,
                };
                if k > 0 {
                    assert(before.last() == part_view(acc@[k - 1]));
                }
                if can_pop {
                    acc.pop();
                    assert(parts_view(acc@) =~= before.drop_last());
                } else if at_root {
                } else {
                    acc.push(PathPart::ParentDir);
                    assert(parts_view(acc@) =~= before.push(PartView::ParentDir));
                }
            },
            other => {
                let c = copy_part(other);
                acc.push(c);
                assert(parts_view(acc@) =~= before.push(part_view(parts@[i as int])));
            },
        }
        i = i + 1;
    }
    assert(pv.take(n as int) =~= pv);
    acc
}

/// Normalization yields a normalized path.
pub proof fn lemma_normalize_shape(parts: Seq<PartView>)
    ensures
        is_normalized(normalize_parts(parts)),
    decreases parts.len(),
{
    if parts.len() > 0 {
        let q = normalize_parts(parts.drop_last());
        lemma_normalize_shape(parts.drop_last());
        let r = normalize_parts(parts);
        assert(r == normalize_step(q, parts.last()));
        match parts.last() {
            PartView::CurDir => {},
            PartView::ParentDir => {
                if q.len() > 0 && removable(q.last()) {
                    assert forall|i: int| 0 <= i < r.len() implies !(#[trigger] r[i] is CurDir) && (
                    r[i] is ParentDir ==> i == 0 || may_precede_parent(r[i - 1])) by {
                        assert(r[i] == q[i]);
                        if i > 0 {
                            assert(r[i - 1] == q[i - 1]);
                        }
                    }
                } else {
                    assert forall|i: int| 0 <= i < r.len() implies !(#[trigger] r[i] is CurDir) && (
                    r[i] is ParentDir ==> i == 0 || may_precede_parent(r[i - 1])) by {
                        if i < q.len() {
                            assert(r[i] == q[i]);
                            if i > 0 {
                                assert(r[i - 1] == q[i - 1]);
                            }
                        } else if i > 0 {
                            assert(r[i - 1] == q.last());
                        }
                    }
                }
            },
            _ => {
                assert forall|i: int| 0 <= i < r.len() implies !(#[trigger] r[i] is CurDir) && (
                r[i] is ParentDir ==> i == 0 || may_precede_parent(r[i - 1])) by {
                    if i < q.len() {
                        assert(r[i] == q[i]);
                        if i > 0 {
                            assert(r[i - 1] == q[i - 1]);
                        }
                    }
                }
            },
        }
    }
}

/// A normalized path is left as it is by normalization.
pub proof fn lemma_normalized_is_fixed(parts: Seq<PartView>)
    requires
        is_normalized(parts),
    ensures
        normalize_parts(parts) == parts,
    decreases parts.len(),
{
    if parts.len() > 0 {
        let q = parts.drop_last();
        assert forall|i: int| 0 <= i < q.len() implies !(#[trigger] q[i] is CurDir) && (q[i] is ParentDir
            ==> i == 0 || may_precede_parent(q[i - 1])) by {
            assert(q[i] == parts[i]);
            if i > 0 {
                assert(q[i - 1] == parts[i - 1]);
            }
        }
        lemma_normalized_is_fixed(q);
        let last = parts.last();
        assert(!(parts[parts.len() - 1] is CurDir));
        if last is ParentDir && q.len() > 0 {
            assert(q.last() == parts[parts.len() - 2]);
        }
        assert(q.push(last) =~= parts);
    }
}

/// Normalizing twice is normalizing once.
pub proof fn lemma_normalize_idempotent(parts: Seq<PartView>)
    ensures
        normalize_parts(normalize_parts(parts)) == normalize_parts(parts),
{
    lemma_normalize_shape(parts);
    lemma_normalized_is_fixed(normalize_parts(parts));
}

/// Whether a path is absolute: it starts at the root, or at a drive prefix
/// followed by the root.
pub open spec fn absolute_start(s: Seq<PartView>) -> bool {
    (s.len() > 0 && s[0] is Root) || (s.len() > 1 && s[0] is Prefix && s[1] is Root)
}

/// An absolute path whose only drive prefix, if any, stands first
/// normalizes to an absolute path without any `.` or `..` component.
pub proof fn lemma_absolute_has_no_dots(parts: Seq<PartView>)
    requires
        absolute_start(parts),
        forall|i: int| 0 < i < parts.len() ==> !(#[trigger] parts[i] is Prefix),
    ensures
        absolute_start(normalize_parts(parts)),
        forall|i: int|
            0 <= i < normalize_parts(parts).len() ==> !(#[trigger] normalize_parts(parts)[i] is ParentDir)
                && !(normalize_parts(parts)[i] is CurDir) && (i > 0 ==> !(normalize_parts(parts)[i] is Prefix)),
    decreases parts.len(),
{
    let r = normalize_parts(parts);
    if parts.len() == 1 {
        assert(parts.drop_last().len() == 0);
        assert(r =~= seq![parts[0]]);
    } else if parts.len() == 2 && parts[0] is Prefix {
        let d = parts.drop_last();
        assert(d.drop_last().len() == 0);
        assert(normalize_parts(d.drop_last()) == Seq::<PartView>::empty());
        assert(d.last() == parts[0]);
        assert(normalize_parts(d) =~= seq![parts[0]]);
        assert(r =~= seq![parts[0], parts[1]]);
    } else {
        let d = parts.drop_last();
        assert(d[0] == parts[0]);
        if parts[0] is Prefix {
            assert(d[1] == parts[1]);
        }
        assert forall|i: int| 0 < i < d.len() implies !(#[trigger] d[i] is Prefix) by {
            assert(d[i] == parts[i]);
        }
        lemma_absolute_has_no_dots(d);
        let q = normalize_parts(d);
        assert(r == normalize_step(q, parts.last()));
        assert(!(parts[parts.len() - 1] is Prefix));
        if parts.last() is ParentDir && q.len() > 0 && removable(q.last()) {
            assert(!(q[q.len() - 1] is Root));
            assert(q.len() > 2 || !(q[0] is Prefix));
            assert(q.len() > 1);
            assert(r[0] == q[0]);
            if q[0] is Prefix {
                assert(r[1] == q[1]);
            }
            assert forall|i: int| 0 <= i < r.len() implies !(#[trigger] r[i] is ParentDir) && !(r[i] is CurDir)
                && (i > 0 ==> !(r[i] is Prefix)) by {
                assert(r[i] == q[i]);
            }
        } else {
            assert forall|i: int| 0 <= i < r.len() implies !(#[trigger] r[i] is ParentDir) && !(r[i] is CurDir)
                && (i > 0 ==> !(r[i] is Prefix)) by {
                if i < q.len() {
                    assert(r[i] == q[i]);
                }
            }
            assert(r[0] == q[0]);
            if q[0] is Prefix {
                assert(r[1] == q[1]);
            }
        }
    }
}

/// The name a path ends in, as `Path::file_name` gives it: its last
/// component when that is a name.
pub open spec fn last_name(parts: Seq<PartView>) -> Option<Seq<char>> {
    if parts.len() == 0 {
        None
    } else {
        match parts.last() {
            PartView::Normal(name) => Some(name),
            _ => None,
        }
    }
}

/// The position of the last `.` of a name, or -1 when it has none.
pub open spec fn last_dot(name: Seq<char>) -> int
    decreases name.len(),
{
    if name.len() == 0 {
        -1
    } else if name.last() == '.' {
        name.len() - 1
    } else {
        last_dot(name.drop_last())
    }
}

/// The stem of a file name, as `Path::file_stem` takes it: the name without
/// its last extension; `..`, a name without a dot and a name whose only
/// dot leads (`.bashrc`) are their own stem.
pub open spec fn stem_of(name: Seq<char>) -> Seq<char> {
    if name == seq!['.', '.'] || last_dot(name) <= 0 {
        name
    } else {
        name.take(last_dot(name))
    }
}

/// The directory a path lies in, as `Path::parent` gives it: the path
/// without its last component when that is a name, `.` or `..`; none for a
/// path that is empty or ends at a root or prefix.
pub open spec fn parent_parts(parts: Seq<PartView>) -> Option<Seq<PartView>> {
    if parts.len() > 0 && (parts.last() is Normal || parts.last() is CurDir
        || parts.last() is ParentDir) {
        Some(parts.drop_last())
    } else {
        None
    }
}

/// The name a path ends in (`Path::file_name`), from its components.
pub fn file_name_of(parts: &[PathPart]) -> (r: Option<String>)
    ensures
        opt_text(r) == last_name(parts_view(parts@)),
{
    let n = parts.len();
    if n == 0 {
        return None;
    }
    assert(parts_view(parts@).last() == part_view(parts@[n - 1]));
    match &parts[n - 1] {
        PathPart::Normal(name) => Some(name.clone()),
        _ => None,
    }
}

/// The stem of a file name (`Path::file_stem` of a name).
pub fn file_stem(name: &str) -> (stem: String)
    ensures
        stem@ == stem_of(name@),
{
    let n = name.unicode_len();
    let mut k: usize = n;
    assert(name@.take(n as int) =~= name@);
    while k > 0 && name.get_char(k - 1) != '.'
        invariant
            n == name@.len(),
            k <= n,
            last_dot(name@) == last_dot(name@.take(k as int)),
        decreases k,
    {
        assert(name@.take(k as int).drop_last() =~= name@.take(k - 1));
        k = k - 1;
    }
    let ghost dot: int = if k == 0 { -1 } else { k - 1 };
    proof {
        if k > 0 {
            assert(name@.take(k as int).last() == '.');
        }
        assert(last_dot(name@) == dot);
    }
    let both_dots = n == 2 && name.get_char(0) == '.' && name.get_char(1) == '.';
    proof {
        if both_dots {
            assert(name@ =~= seq!['.', '.']);
        }
        if name@ == seq!['.', '.'] {
            assert(name@[0] == '.' && name@[1] == '.');
        }
    }
    if both_dots || k <= 1 {
        String::from_str(name)
    } else {
        let stem = String::from_str(name.substring_char(0, k - 1));
        assert(stem@ =~= name@.take(k - 1));
        stem
    }
}

/// The directory a path lies in (`Path::parent`), from its components.
pub fn parent_components(parts: &[PathPart]) -> (r: Option<Vec<PathPart>>)
    ensures
        match r {
            Some(p) => parent_parts(parts_view(parts@)) == Some(parts_view(p@)),
            None => parent_parts(parts_view(parts@)) is None,
        },
{
    let n = parts.len();
    if n == 0 {
        return None;
    }
    assert(parts_view(parts@).last() == part_view(parts@[n - 1]));
    let removable_last = match &parts[n - 1] {
        PathPart::Normal(_) => true,
        PathPart::CurDir => true,
        PathPart::ParentDir => true,
        _ => false,
    };
    if !removable_last {
        return None;
    }
    let mut out: Vec<PathPart> = Vec::new();
    let mut i: usize = 0;
    while i + 1 < n
        invariant
            n == parts@.len(),
            n > 0,
            i < n,
            parts_view(out@) == parts_view(parts@).take(i as int),
        decreases n - i,
    {
        let c = copy_part(&parts[i]);
        let ghost before = parts_view(out@);
        out.push(c);
        assert(parts_view(out@) =~= before.push(part_view(parts@[i as int])));
        assert(parts_view(parts@).take(i + 1) =~= parts_view(parts@).take(i as int).push(
            part_view(parts@[i as int]),
        ));
        i = i + 1;
    }
    assert(parts_view(parts@).take(i as int) =~= parts_view(parts@).drop_last());
    Some(out)
}

/// `..` takes back the name just before it, and `.` changes nothing:
/// whatever came before, `p/x/..` and `p/.` normalize as `p` does.
pub proof fn lemma_dots_cancel(parts: Seq<PartView>, name: Seq<char>)
    ensures
        normalize_parts(parts.push(PartView::Normal(name)).push(PartView::ParentDir))
            == normalize_parts(parts),
        normalize_parts(parts.push(PartView::CurDir)) == normalize_parts(parts),
{
    let with_name = parts.push(PartView::Normal(name));
    assert(with_name.drop_last() =~= parts);
    assert(with_name.push(PartView::ParentDir).drop_last() =~= with_name);
    assert(parts.push(PartView::CurDir).drop_last() =~= parts);
    let n = normalize_parts(parts);
    assert(normalize_parts(with_name) == n.push(PartView::Normal(name)));
    assert(n.push(PartView::Normal(name)).drop_last() =~= n);
}

/// A path of names, possibly after a root, normalizes to itself.
pub proof fn lemma_names_are_kept(parts: Seq<PartView>)
    requires
        forall|i: int|
            0 <= i < parts.len() ==> (#[trigger] parts[i]) is Normal || (i == 0 && parts[i] is Root),
    ensures
        normalize_parts(parts) == parts,
    decreases parts.len(),
{
    if parts.len() > 0 {
        let d = parts.drop_last();
        assert forall|i: int| 0 <= i < d.len() implies (#[trigger] d[i]) is Normal || (i == 0
            && d[i] is Root) by {
            assert(d[i] == parts[i]);
        }
        lemma_names_are_kept(d);
        assert(parts[parts.len() - 1] is Normal || parts[parts.len() - 1] is Root);
        assert(d.push(parts.last()) =~= parts);
    }
}

} // verus!
