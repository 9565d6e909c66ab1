//! Paths written with `/`, and the sandbox that confines every path that is
//! served to the root directory.
//!
//! A path is taken apart into its pieces between `/`. Empty pieces and `.`
//! say nothing, `..` takes back the name before it, and what is left are the
//! names of the path. One path is confined to another where both are
//! absolute and the names of the second begin with the names of the first.
use vstd::prelude::*;
use crate::text::{
    index_of, lemma_index_of, lemma_index_of_bounds, lemma_split_concat, push_chars, split,
    split_window, to_chars, window_is, windows,
};

verus! {

/// One step through the pieces of a path: `names` are the names so far, and
/// `piece` is the piece that comes next.
pub open spec fn step(names: Seq<Seq<char>>, piece: Seq<char>) -> Seq<Seq<char>> {
    if piece.len() == 0 || piece == "."@ {
        names
    } else if piece == ".."@ {
        if names.len() > 0 {
            names.drop_last()
        } else {
            names
        }
    } else {
        names.push(piece)
    }
}

/// The names that are left of `pieces` once every `.` and empty piece is
/// dropped and every `..` has taken back the name before it. A `..` with no
/// name before it is dropped: nothing lies above the top.
pub open spec fn resolve(pieces: Seq<Seq<char>>) -> Seq<Seq<char>>
    decreases pieces.len(),
{
    if pieces.len() == 0 {
        Seq::empty()
    } else {
        step(resolve(pieces.drop_last()), pieces.last())
    }
}

/// The names of `path`, from the top down.
pub open spec fn normal(path: Seq<char>) -> Seq<Seq<char>> {
    resolve(split(path, '/'))
}

/// Whether `path` begins at the top of the file system.
pub open spec fn is_absolute(path: Seq<char>) -> bool {
    path.len() > 0 && path[0] == '/'
}

/// Whether the names `longer` begin with the names `shorter`.
pub open spec fn begins_with(longer: Seq<Seq<char>>, shorter: Seq<Seq<char>>) -> bool {
    shorter.len() <= longer.len() && longer.take(shorter.len() as int) == shorter
}

/// Whether `path` lies in the directory `root` or is `root` itself: both are
/// absolute, and the names of `path` begin with those of `root`.
pub open spec fn confined(root: Seq<char>, path: Seq<char>) -> bool {
    is_absolute(root) && is_absolute(path) && begins_with(normal(path), normal(root))
}

/// Each of `names` behind a `/`, one after the other.
pub open spec fn render(names: Seq<Seq<char>>) -> Seq<char>
    decreases names.len(),
{
    if names.len() == 0 {
        Seq::empty()
    } else {
        seq!['/'] + names[0] + render(names.drop_first())
    }
}

/// The absolute path with the names `names`: `/` where there are none.
pub open spec fn absolute_path(names: Seq<Seq<char>>) -> Seq<char> {
    if names.len() == 0 {
        seq!['/']
    } else {
        render(names)
    }
}

/// What a request path is joined to the directory as: the path without one
/// leading `/`.
pub open spec fn relative_part(url_path: Seq<char>) -> Seq<char> {
    if url_path.len() > 0 && url_path[0] == '/' {
        url_path.drop_first()
    } else {
        url_path
    }
}

/// `filepath` as seen from the directory `base`: an absolute `filepath`
/// stands for itself, any other is taken to lie under `base`.
pub open spec fn join(base: Seq<char>, filepath: Seq<char>) -> Seq<char> {
    if is_absolute(filepath) {
        filepath
    } else {
        base + seq!['/'] + filepath
    }
}

/// `directory` joined with the request path `url_path`. Where what is left
/// of the request path without its leading `/` is absolute itself, it takes
/// the place of the directory.
pub open spec fn joined(directory: Seq<char>, url_path: Seq<char>) -> Seq<char> {
    join(directory, relative_part(url_path))
}

/// `filepath` as seen from the directory `base`, in its shortest form, or
/// `None` where neither of them is absolute.
pub open spec fn combined(base: Seq<char>, filepath: Seq<char>) -> Option<Seq<char>> {
    if is_absolute(base) || is_absolute(filepath) {
        Some(absolute_path(normal(join(base, filepath))))
    } else {
        None
    }
}

/// The directory that holds the file or directory at `path`, or `None`
/// where `path` is not absolute or has no names.
pub open spec fn parent_of(path: Seq<char>) -> Option<Seq<char>> {
    if is_absolute(path) && normal(path).len() > 0 {
        Some(absolute_path(normal(path).drop_last()))
    } else {
        None
    }
}

/// The file that the request path `url_path` names under `directory`: the
/// joined path in its shortest form, or `None` where that path is not
/// confined to `directory`.
pub open spec fn resolved_path(directory: Seq<char>, url_path: Seq<char>) -> Option<Seq<char>> {
    let target = joined(directory, url_path);
    if confined(directory, target) {
        Some(absolute_path(normal(target)))
    } else {
        None
    }
}

/// Appends the window `[lo, hi)` of `v` to `dst`.
fn append_window(dst: &mut Vec<char>, v: &Vec<char>, lo: usize, hi: usize)
    requires
        lo <= hi <= v.len(),
    ensures
        final(dst)@ == old(dst)@ + v@.subrange(lo as int, hi as int),
{
    let mut i: usize = lo;
    while i < hi
        invariant
            lo <= i <= hi <= v.len(),
            dst@ == old(dst)@ + v@.subrange(lo as int, i as int),
        decreases hi - i,
    {
        dst.push(v[i]);
        i += 1;
        assert(dst@ =~= old(dst)@ + v@.subrange(lo as int, i as int));
    }
}

/// The names of the path `v`, as windows of `v`.
fn normalize(v: &Vec<char>) -> (names: Vec<(usize, usize)>)
    ensures
        windows(v@, names@) == normal(v@),
        forall|i: int| 0 <= i < names.len() ==> (#[trigger] names[i]).0 <= names[i].1 <= v.len(),
{
    assert(v@.subrange(0, v.len() as int) =~= v@);
    let pieces = split_window(v, 0, v.len(), '/');
    let ghost all = split(v@, '/');
    let mut names: Vec<(usize, usize)> = Vec::new();
    let mut i: usize = 0;
    assert(windows(v@, names@) =~= resolve(all.take(0)));
    while i < pieces.len()
        invariant
            i <= pieces.len(),
            windows(v@, pieces@) == all,
            forall|k: int|
                0 <= k < pieces.len() ==> (#[trigger] pieces[k]).0 <= pieces[k].1 <= v.len(),
            forall|k: int| 0 <= k < names.len() ==> (#[trigger] names[k]).0 <= names[k].1 <= v.len(),
            windows(v@, names@) == resolve(all.take(i as int)),
        decreases pieces.len() - i,
    {
        let (a, b) = pieces[i];
        let ghost before = names@;
        proof {
            assert(all[i as int] == v@.subrange(a as int, b as int));
            assert(all.take(i + 1).drop_last() =~= all.take(i as int));
            assert(all.take(i + 1).last() == all[i as int]);
        }
        if a == b || window_is(v, a, b, ".") {
        } else if window_is(v, a, b, "..") {
            if names.len() > 0 {
                names.pop();
                assert(windows(v@, names@) =~= windows(v@, before).drop_last());
            }
        } else {
            names.push((a, b));
            assert(windows(v@, names@) =~= windows(v@, before).push(
                v@.subrange(a as int, b as int),
            ));
        }
        i += 1;
    }
    assert(all.take(i as int) =~= all);
    names
}

/// Tells whether the two windows hold the same characters.
fn same_window(v: &Vec<char>, lo: usize, hi: usize, w: &Vec<char>, from: usize, to: usize) -> (b:
    bool)
    requires
        lo <= hi <= v.len(),
        from <= to <= w.len(),
    ensures
        b == (v@.subrange(lo as int, hi as int) == w@.subrange(from as int, to as int)),
{
    if hi - lo != to - from {
        assert(v@.subrange(lo as int, hi as int).len() != w@.subrange(from as int, to as int).len());
        return false;
    }
    let mut i: usize = 0;
    while i < hi - lo
        invariant
            lo <= hi <= v.len(),
            from <= to <= w.len(),
            hi - lo == to - from,
            i <= hi - lo,
            forall|k: int| lo <= k < lo + i ==> #[trigger] v@[k] == w@[k - lo + from],
        decreases hi - lo - i,
    {
        if v[lo + i] != w[from + i] {
            assert(v@.subrange(lo as int, hi as int)[i as int] != w@.subrange(
                from as int,
                to as int,
            )[i as int]);
            return false;
        }
        i += 1;
    }
    assert(v@.subrange(lo as int, hi as int) =~= w@.subrange(from as int, to as int));
    true
}

/// Tells whether the names `names` of `v` begin with the names `base_names`
/// of `base`.
fn names_begin_with(
    v: &Vec<char>,
    names: &Vec<(usize, usize)>,
    base: &Vec<char>,
    base_names: &Vec<(usize, usize)>,
) -> (b: bool)
    requires
        forall|i: int| 0 <= i < names.len() ==> (#[trigger] names[i]).0 <= names[i].1 <= v.len(),
        forall|i: int|
            0 <= i < base_names.len() ==> (#[trigger] base_names[i]).0 <= base_names[i].1
                <= base.len(),
    ensures
        b == begins_with(windows(v@, names@), windows(base@, base_names@)),
{
    if base_names.len() > names.len() {
        return false;
    }
    let ghost longer = windows(v@, names@);
    let ghost shorter = windows(base@, base_names@);
    let mut i: usize = 0;
    while i < base_names.len()
        invariant
            i <= base_names.len() <= names.len(),
            longer == windows(v@, names@),
            shorter == windows(base@, base_names@),
            forall|k: int| 0 <= k < names.len() ==> (#[trigger] names[k]).0 <= names[k].1 <= v.len(),
            forall|k: int|
                0 <= k < base_names.len() ==> (#[trigger] base_names[k]).0 <= base_names[k].1
                    <= base.len(),
            forall|k: int| 0 <= k < i ==> longer[k] == shorter[k],
        decreases base_names.len() - i,
    {
        let (a, b) = names[i];
        let (c, d) = base_names[i];
        if !same_window(v, a, b, base, c, d) {
            assert(longer.take(shorter.len() as int)[i as int] != shorter[i as int]);
            return false;
        }
        i += 1;
    }
    assert(longer.take(shorter.len() as int) =~= shorter);
    true
}

/// The names of `path` where `path` is confined to `root`, as windows of
/// `path`.
fn confined_names(root: &Vec<char>, path: &Vec<char>) -> (r: Option<Vec<(usize, usize)>>)
    ensures
        r is Some == confined(root@, path@),
        r matches Some(names) ==> {
            &&& windows(path@, names@) == normal(path@)
            &&& forall|i: int|
                0 <= i < names.len() ==> (#[trigger] names[i]).0 <= names[i].1 <= path.len()
        },
{
    if root.len() == 0 || root[0] != '/' {
        return None;
    }
    if path.len() == 0 || path[0] != '/' {
        return None;
    }
    let root_names = normalize(root);
    let names = normalize(path);
    if names_begin_with(path, &names, root, &root_names) {
        Some(names)
    } else {
        None
    }
}

/// `render` of a list of names is that of all but the last, then `/` and
/// the last.
pub proof fn lemma_render_push(names: Seq<Seq<char>>, name: Seq<char>)
    ensures
        render(names.push(name)) == render(names) + seq!['/'] + name,
    decreases names.len(),
{
    if names.len() == 0 {
        let one = names.push(name);
        assert(one.drop_first() =~= Seq::<Seq<char>>::empty());
        assert(render(one.drop_first()) =~= Seq::<char>::empty());
        assert(render(names) =~= Seq::<char>::empty());
        assert(render(one) == seq!['/'] + one[0] + render(one.drop_first()));
        assert(render(one) =~= render(names) + seq!['/'] + name);
    } else {
        lemma_render_push(names.drop_first(), name);
        assert(names.push(name).drop_first() =~= names.drop_first().push(name));
        assert(render(names.push(name)) =~= render(names) + seq!['/'] + name);
    }
}

/// The absolute path with the names that `names` marks in `v`.
fn render_names(v: &Vec<char>, names: &Vec<(usize, usize)>) -> (s: String)
    requires
        forall|i: int| 0 <= i < names.len() ==> (#[trigger] names[i]).0 <= names[i].1 <= v.len(),
    ensures
        s@ == absolute_path(windows(v@, names@)),
{
    let mut s = String::new();
    if names.len() == 0 {
        s.push('/');
        assert(s@ =~= seq!['/']);
        return s;
    }
    let ghost all = windows(v@, names@);
    let mut i: usize = 0;
    assert(all.take(0) =~= Seq::<Seq<char>>::empty());
    while i < names.len()
        invariant
            i <= names.len(),
            all == windows(v@, names@),
            forall|k: int| 0 <= k < names.len() ==> (#[trigger] names[k]).0 <= names[k].1 <= v.len(),
            s@ == render(all.take(i as int)),
        decreases names.len() - i,
    {
        let (a, b) = names[i];
        s.push('/');
        push_chars(&mut s, v, a, b);
        proof {
            lemma_render_push(all.take(i as int), all[i as int]);
            assert(all.take(i + 1) =~= all.take(i as int).push(all[i as int]));
        }
        i += 1;
    }
    assert(all.take(i as int) =~= all);
    s
}

/// Tells whether `request_path` lies in the directory `base_dir` or is that
/// directory itself.
pub fn valid_path(base_dir: &str, request_path: &str) -> (valid: bool)
    ensures
        valid == confined(base_dir@, request_path@),
{
    let root = to_chars(base_dir);
    let path = to_chars(request_path);
    confined_names(&root, &path).is_some()
}

/// `join` of `base` and the window of `filepath` from position `from` on.
fn join_chars(base: &Vec<char>, filepath: &Vec<char>, from: usize) -> (target: Vec<char>)
    requires
        from <= filepath.len(),
    ensures
        target@ == join(base@, filepath@.subrange(from as int, filepath.len() as int)),
{
    let mut target: Vec<char> = Vec::new();
    if from < filepath.len() && filepath[from] == '/' {
        append_window(&mut target, filepath, from, filepath.len());
    } else {
        append_window(&mut target, base, 0, base.len());
        target.push('/');
        append_window(&mut target, filepath, from, filepath.len());
        assert(base@.subrange(0, base.len() as int) =~= base@);
    }
    assert(target@ =~= join(base@, filepath@.subrange(from as int, filepath.len() as int)));
    target
}

/// Maps the path of a request URL to a file under `directory`.
///
/// One leading `/` of `url_path` is dropped and the rest is joined to
/// `directory`. Returns the joined path in its shortest form, free of `.`
/// and `..`, or `None` where it does not lie in `directory`.
pub fn get_path_from_request_url(directory: &str, url_path: &str) -> (path: Option<String>)
    ensures
        match resolved_path(directory@, url_path@) {
            Some(p) => path matches Some(found) && found@ == p,
            None => path is None,
        },
{
    let root = to_chars(directory);
    let url = to_chars(url_path);
    let from: usize = if url.len() > 0 && url[0] == '/' {
        1
    } else {
        0
    };
    assert(url@.subrange(from as int, url.len() as int) =~= relative_part(url_path@));
    let target = join_chars(&root, &url, from);
    match confined_names(&root, &target) {
        Some(names) => Some(render_names(&target, &names)),
        None => None,
    }
}

/// `filepath` as seen from the directory `base_dir`, in its shortest form.
/// An absolute `filepath` stands for itself. Returns `None` where neither
/// path is absolute.
pub fn combine_pathbuff(base_dir: &str, filepath: &str) -> (path: Option<String>)
    ensures
        path.deep_view() == combined(base_dir@, filepath@),
{
    let base = to_chars(base_dir);
    let file = to_chars(filepath);
    assert(file@.subrange(0, file.len() as int) =~= file@);
    if !(base.len() > 0 && base[0] == '/') && !(file.len() > 0 && file[0] == '/') {
        return None;
    }
    let target = join_chars(&base, &file, 0);
    let names = normalize(&target);
    Some(render_names(&target, &names))
}

/// The directory that holds the file or directory at `path`, in its
/// shortest form. Returns `None` where `path` is not absolute or names
/// nothing below the top.
pub fn parent_dir(path: &str) -> (parent: Option<String>)
    ensures
        parent.deep_view() == parent_of(path@),
{
    let v = to_chars(path);
    if v.len() == 0 || v[0] != '/' {
        return None;
    }
    let mut names = normalize(&v);
    if names.len() == 0 {
        return None;
    }
    let ghost all = names@;
    names.pop();
    assert(windows(v@, names@) =~= windows(v@, all).drop_last());
    Some(render_names(&v, &names))
}

/// An absolute path is absolute: whatever the names, the path that is
/// written from them begins at the top.
pub proof fn lemma_absolute_path_is_absolute(names: Seq<Seq<char>>)
    ensures
        is_absolute(absolute_path(names)),
{
}

/// Whether `name` can name a file or a directory: it is not empty, is
/// neither `.` nor `..`, and holds no `/`.
pub open spec fn is_name(name: Seq<char>) -> bool {
    name.len() > 0 && name != "."@ && name != ".."@ && !name.contains('/')
}

/// Whether each of `names` can name a file or a directory.
pub open spec fn all_names(names: Seq<Seq<char>>) -> bool {
    forall|i: int| 0 <= i < names.len() ==> is_name(#[trigger] names[i])
}

/// No piece of a split holds the separator.
pub proof fn lemma_split_free_of_sep(s: Seq<char>, sep: char)
    ensures
        forall|i: int| 0 <= i < split(s, sep).len() ==> !(#[trigger] split(s, sep)[i]).contains(sep),
    decreases s.len(),
{
    let i = index_of(s, sep);
    lemma_index_of_bounds(s, sep);
    if i >= s.len() {
        assert(split(s, sep) =~= seq![s]);
        assert(!s.contains(sep));
    } else {
        let first = s.take(i as int);
        let rest = split(s.skip(i + 1 as int), sep);
        lemma_split_free_of_sep(s.skip(i + 1 as int), sep);
        assert(!first.contains(sep)) by {
            assert forall|k: int| 0 <= k < first.len() implies first[k] != sep by {
                assert(first[k] == s[k]);
            }
        }
        assert forall|j: int| 0 <= j < split(s, sep).len() implies !(#[trigger] split(
            s,
            sep,
        )[j]).contains(sep) by {
            if j > 0 {
                assert(split(s, sep)[j] == rest[j - 1]);
            }
        }
    }
}

/// What is left of pieces that hold no `/` are names.
pub proof fn lemma_resolve_gives_names(pieces: Seq<Seq<char>>)
    requires
        forall|i: int| 0 <= i < pieces.len() ==> !(#[trigger] pieces[i]).contains('/'),
    ensures
        all_names(resolve(pieces)),
    decreases pieces.len(),
{
    if pieces.len() > 0 {
        lemma_resolve_gives_names(pieces.drop_last());
        let before = resolve(pieces.drop_last());
        let after = resolve(pieces);
        assert(!pieces[pieces.len() - 1].contains('/'));
        assert forall|i: int| 0 <= i < after.len() implies is_name(#[trigger] after[i]) by {
            if i < before.len() {
                assert(after[i] == before[i]);
            }
        }
    }
}

/// A name followed by a rendered list of names splits into the name and
/// the names of the list.
proof fn lemma_split_render(name: Seq<char>, rest: Seq<Seq<char>>)
    requires
        !name.contains('/'),
        all_names(rest),
    ensures
        split(name + render(rest), '/') == seq![name] + rest,
    decreases rest.len(),
{
    let s = name + render(rest);
    if rest.len() == 0 {
        assert(s =~= name);
        lemma_index_of(name, '/', name.len() as int);
        assert(seq![name] + rest =~= seq![name]);
    } else {
        let tail = rest[0] + render(rest.drop_first());
        assert(s =~= name + seq!['/'] + tail);
        assert forall|k: int| 0 <= k < name.len() implies s[k] != '/' by {
            assert(s[k] == name[k]);
        }
        assert(s[name.len() as int] == '/');
        lemma_index_of(s, '/', name.len() as int);
        assert(s.take(name.len() as int) =~= name);
        assert(s.skip(name.len() + 1 as int) =~= tail);
        assert(is_name(rest[0]));
        assert(all_names(rest.drop_first())) by {
            assert forall|i: int| 0 <= i < rest.drop_first().len() implies is_name(
                #[trigger] rest.drop_first()[i],
            ) by {
                assert(rest.drop_first()[i] == rest[i + 1]);
            }
        }
        lemma_split_render(rest[0], rest.drop_first());
        assert(seq![rest[0]] + rest.drop_first() =~= rest);
    }
}

/// Names stay as they are when they are resolved behind an empty piece.
proof fn lemma_resolve_names(names: Seq<Seq<char>>)
    requires
        all_names(names),
    ensures
        resolve(seq![Seq::<char>::empty()] + names) == names,
    decreases names.len(),
{
    let pieces = seq![Seq::<char>::empty()] + names;
    if names.len() == 0 {
        assert(pieces.drop_last() =~= Seq::<Seq<char>>::empty());
        assert(resolve(pieces.drop_last()) =~= Seq::<Seq<char>>::empty());
        assert(pieces.last().len() == 0);
        assert(resolve(pieces) =~= names);
    } else {
        assert(pieces.drop_last() =~= seq![Seq::<char>::empty()] + names.drop_last());
        assert(pieces.last() == names.last());
        assert(all_names(names.drop_last())) by {
            assert forall|i: int| 0 <= i < names.drop_last().len() implies is_name(
                #[trigger] names.drop_last()[i],
            ) by {
                assert(names.drop_last()[i] == names[i]);
            }
        }
        lemma_resolve_names(names.drop_last());
        assert(is_name(names.last()));
        assert(names.drop_last().push(names.last()) =~= names);
    }
}

/// The shortest form of a path is a fixed point: an absolute path that is
/// written from names has exactly those names.
pub proof fn lemma_normal_of_absolute_path(names: Seq<Seq<char>>)
    requires
        all_names(names),
    ensures
        is_absolute(absolute_path(names)),
        normal(absolute_path(names)) == names,
{
    let empty = Seq::<char>::empty();
    if names.len() == 0 {
        let path = seq!['/'];
        lemma_index_of(path, '/', 0);
        assert(path.take(0) =~= empty);
        assert(path.skip(1) =~= empty);
        assert(split(empty, '/') =~= seq![empty]);
        assert(split(path, '/') =~= seq![empty] + seq![empty]);
        assert(seq![empty] + seq![empty] =~= seq![empty] + seq![empty].drop_last().push(empty));
        let pieces = split(path, '/');
        assert(pieces.drop_last() =~= seq![empty]);
        assert(seq![empty].drop_last() =~= Seq::<Seq<char>>::empty());
        assert(resolve(seq![empty].drop_last()) =~= Seq::<Seq<char>>::empty());
        assert(resolve(seq![empty]) =~= Seq::<Seq<char>>::empty());
        assert(resolve(pieces) =~= names);
    } else {
        assert(!empty.contains('/'));
        lemma_split_render(empty, names);
        assert(empty + render(names) =~= render(names));
        lemma_resolve_names(names);
    }
}

/// What lies in a path that is confined is confined: the names of `path`
/// followed by `name` are the names of `path`, then `name`, and where `path`
/// lies in `directory`, so does the path of `name` in it.
pub proof fn lemma_child_is_confined(directory: Seq<char>, path: Seq<char>, name: Seq<char>)
    requires
        is_name(name),
    ensures
        normal(path + seq!['/'] + name) == normal(path).push(name),
        confined(directory, path) ==> confined(directory, path + seq!['/'] + name),
{
    let child = path + seq!['/'] + name;
    lemma_split_concat(path, name, '/');
    lemma_index_of(name, '/', name.len() as int);
    assert(split(name, '/') =~= seq![name]);
    let pieces = split(child, '/');
    assert(pieces =~= split(path, '/').push(name));
    assert(pieces.drop_last() =~= split(path, '/'));
    assert(pieces.last() == name);
    if confined(directory, path) {
        let short = normal(directory);
        assert(child[0] == path[0]);
        assert(normal(child).take(short.len() as int) =~= normal(path).take(short.len() as int));
    }
}

/// The sandbox: whatever the request path holds, the file that it is mapped
/// to lies in the directory. The path that is returned is absolute, its
/// names begin with the names of the directory, none of its names is `.` or
/// `..`, and it is written in its shortest form.
pub proof fn lemma_resolved_path_is_confined(directory: Seq<char>, url_path: Seq<char>)
    ensures
        resolved_path(directory, url_path) matches Some(path) ==> {
            &&& confined(directory, path)
            &&& all_names(normal(path))
            &&& absolute_path(normal(path)) == path
        },
{
    let target = joined(directory, url_path);
    if confined(directory, target) {
        lemma_split_free_of_sep(target, '/');
        lemma_resolve_gives_names(split(target, '/'));
        lemma_normal_of_absolute_path(normal(target));
    }
}

} // verus!
