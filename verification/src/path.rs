//! Unix paths as text: joining, the directory of a path, and the places where
//! Vigil looks for its own files.

use crate::text::{from_chars, same, texts, to_chars, Text};
use vstd::prelude::*;

verus! {

/// `path` under `base`. An absolute path stands for itself.
pub open spec fn joined(base: Text, path: Text) -> Text {
    if path.len() > 0 && path[0] == '/' {
        path
    } else if base.len() == 0 || base.last() == '/' {
        base + path
    } else {
        base + "/"@ + path
    }
}

/// Joins two paths.
pub fn join(base: &str, path: &str) -> (r: String)
    ensures
        r@ == joined(base@, path@),
{
    let b = to_chars(base);
    let p = to_chars(path);
    if p.len() > 0 && p[0] == '/' {
        path.to_string()
    } else if b.len() == 0 || b[b.len() - 1] == '/' {
        base.to_string().concat(path)
    } else {
        base.to_string().concat("/").concat(path)
    }
}

/// Where the components of a path begin: behind the root, or behind a leading
/// `.` component.
pub open spec fn body_start(s: Text) -> int {
    if s.len() > 0 && s[0] == '/' {
        1
    } else if s.len() > 0 && s[0] == '.' && (s.len() == 1 || s[1] == '/') {
        1
    } else {
        0
    }
}

/// Where the last component of `p` begins, if its body begins at `start`.
pub open spec fn component_start(p: Text, start: int) -> int {
    match p.skip(start).index_of_last('/') {
        Some(i) => start + i + 1,
        None => start,
    }
}

/// Where `p` ends without its last component and the separator before it.
pub open spec fn component_cut(p: Text, start: int) -> int {
    match p.skip(start).index_of_last('/') {
        Some(i) => start + i,
        None => start,
    }
}

/// Whether the last component of `p` says nothing: it is empty or `.`.
pub open spec fn ends_idle(p: Text, start: int) -> bool {
    let c = component_start(p, start);
    ||| c == p.len()
    ||| c == p.len() - 1 && p[c] == '.'
}

/// `p` without the components at its end that say nothing.
pub open spec fn without_idle(p: Text, start: int) -> Text
    decreases p.len(),
{
    if 0 <= start < p.len() && ends_idle(p, start) {
        proof {
            lemma_cut(p, start);
        }
        without_idle(p.take(component_cut(p, start)), start)
    } else {
        p
    }
}

/// The directory of a path: the path without its final component. The root
/// and the empty path have none; that of a bare name is the empty path.
pub open spec fn parent_of(s: Text) -> Option<Text> {
    let start = body_start(s);
    let p = without_idle(s, start);
    if p.len() > start {
        Some(without_idle(p.take(component_cut(p, start)), start))
    } else if s.len() > 0 && s[0] == '.' {
        Some(Seq::empty())
    } else {
        None
    }
}

pub proof fn lemma_cut(p: Text, start: int)
    requires
        0 <= start < p.len(),
    ensures
        start <= component_cut(p, start) < p.len(),
        component_cut(p, start) <= component_start(p, start) <= p.len(),
{
    p.skip(start).index_of_last_ensures('/');
}

/// Where the last component of `v[..end]` begins and where the path ends
/// without it.
fn last_component(v: &Vec<char>, end: usize, start: usize) -> (r: (usize, usize))
    requires
        start < end <= v@.len(),
    ensures
        r.0 == component_start(v@.take(end as int), start as int),
        r.1 == component_cut(v@.take(end as int), start as int),
        start <= r.1 < end,
        r.1 <= r.0 <= end,
{
    let ghost p = v@.take(end as int);
    let ghost body = p.skip(start as int);
    let mut i: usize = end;
    while i > start
        invariant
            start <= i <= end <= v@.len(),
            start < end,
            p == v@.take(end as int),
            body == p.skip(start as int),
            forall|j: int| i - start <= j < body.len() ==> body[j] != '/',
        decreases i,
    {
        if v[i - 1] == '/' {
            proof {
                assert(body[i - 1 - start] == '/');
                body.index_of_last_ensures('/');
                assert(body.index_of_last('/') == Some(i - 1 - start));
            }
            return (i, i - 1);
        }
        assert(body[i - 1 - start] == v@[i - 1]);
        i -= 1;
    }
    proof {
        body.index_of_last_ensures('/');
    }
    (start, start)
}

/// Where `v[..end]` ends without the components at its end that say nothing.
fn trim_idle(v: &Vec<char>, end: usize, start: usize) -> (r: usize)
    requires
        end <= v@.len(),
    ensures
        r <= end,
        v@.take(r as int) == without_idle(v@.take(end as int), start as int),
{
    let mut e: usize = end;
    while e > start
        invariant
            e <= end <= v@.len(),
            without_idle(v@.take(end as int), start as int) == without_idle(
                v@.take(e as int),
                start as int,
            ),
        decreases e,
    {
        let ghost p = v@.take(e as int);
        let (c, cut) = last_component(v, e, start);
        let idle = c == e || (c == e - 1 && v[c] == '.');
        if !idle {
            return e;
        }
        assert(p.take(cut as int) =~= v@.take(cut as int));
        e = cut;
    }
    e
}

/// The directory of a path.
pub fn parent(path: &str) -> (r: Option<String>)
    ensures
        match r {
            Some(d) => parent_of(path@) == Some(d@),
            None => parent_of(path@) is None,
        },
{
    let v = to_chars(path);
    let n = v.len();
    let start: usize = if n > 0 && v[0] == '/' {
        1
    } else if n > 0 && v[0] == '.' && (n == 1 || v[1] == '/') {
        1
    } else {
        0
    };
    assert(v@.take(n as int) =~= v@);
    let e = trim_idle(&v, n, start);
    if e > start {
        let (_c, cut) = last_component(&v, e, start);
        assert(v@.take(e as int).take(cut as int) =~= v@.take(cut as int));
        let d = trim_idle(&v, cut, start);
        assert(v@.subrange(0, d as int) =~= v@.take(d as int));
        Some(from_chars(&v, 0, d))
    } else if n > 0 && v[0] == '.' {
        proof {
            assert(v@.take(e as int).len() == e);
            reveal_strlit("");
            assert(""@ =~= Seq::<char>::empty());
        }
        Some("".to_string())
    } else {
        None
    }
}

/// The directories in which helper binaries are looked for, after that of the
/// running binary.
pub open spec fn search_dirs() -> Seq<Text> {
    seq!["/usr/local/bin"@, "/usr/sbin"@, "/sbin"@, "/usr/bin"@, "/bin"@]
}

/// The directory of the running binary, where it is known.
pub open spec fn own_dir(exe: Option<Text>) -> Option<Text> {
    match exe {
        Some(e) => parent_of(e),
        None => None,
    }
}

/// The directories in which a helper binary is looked for, in order: that of
/// the running binary, then the fixed ones that differ from it.
pub open spec fn search_order(exe: Option<Text>) -> Seq<Text> {
    match own_dir(exe) {
        Some(dir) => seq![dir] + search_dirs().remove_value(dir),
        None => search_dirs(),
    }
}

/// The paths at which a helper binary is looked for, in order. One that is
/// named by an absolute path is looked for there alone.
pub open spec fn search_paths(exe: Option<Text>, binary: Text) -> Seq<Text> {
    if binary.len() > 0 && binary[0] == '/' {
        seq![binary]
    } else {
        search_order(exe).map_values(|dir: Text| joined(dir, binary))
    }
}

fn fixed_dirs() -> (r: Vec<String>)
    ensures
        texts(r@) == search_dirs(),
{
    let mut dirs: Vec<String> = Vec::new();
    dirs.push("/usr/local/bin".to_string());
    dirs.push("/usr/sbin".to_string());
    dirs.push("/sbin".to_string());
    dirs.push("/usr/bin".to_string());
    dirs.push("/bin".to_string());
    assert(texts(dirs@) =~= search_dirs());
    dirs
}

/// What is left without a value when one more element comes.
proof fn lemma_remove_push(s: Seq<Text>, x: Text, value: Text)
    requires
        s.push(x).no_duplicates(),
    ensures
        s.push(x).remove_value(value) == if x == value {
            s.remove_value(value)
        } else {
            s.remove_value(value).push(x)
        },
{
    s.index_of_first_ensures(value);
    s.push(x).index_of_first_ensures(value);
    let n = s.len() as int;
    assert(s.push(x)[n] == x);
    if s.contains(value) {
        let k = s.index_of_first(value)->0;
        assert(s.push(x)[k] == value);
        assert(s.push(x).contains(value));
        assert(s.push(x)[n] != s.push(x)[k]);
        assert(s.push(x).index_of_first(value) == Some(k));
        assert(s.push(x).remove(k) =~= s.remove(k).push(x));
    } else if x == value {
        assert(s.push(x).contains(value));
        let k = s.push(x).index_of_first(value)->0;
        assert(k == n) by {
            if k < n {
                assert(s[k] == value);
            }
        }
        assert(s.push(x).remove(n) =~= s);
    } else {
        assert(!s.push(x).contains(value)) by {
            if s.push(x).contains(value) {
                let k = choose|k: int| 0 <= k < s.push(x).len() && s.push(x)[k] == value;
                assert(s[k] == value);
            }
        }
    }
}

/// The fixed directories without that of the running binary.
fn other_dirs(own: &str) -> (r: Vec<String>)
    ensures
        texts(r@) == search_dirs().remove_value(own@),
{
    let fixed = fixed_dirs();
    let ghost dirs = search_dirs();
    let mut out: Vec<String> = Vec::new();
    let mut i: usize = 0;
    proof {
        lemma_search_dirs();
        dirs.take(0).index_of_first_ensures(own@);
        assert(texts(out@) =~= dirs.take(0).remove_value(own@));
    }
    while i < fixed.len()
        invariant
            i <= fixed@.len(),
            texts(fixed@) == dirs,
            dirs.no_duplicates(),
            texts(out@) == dirs.take(i as int).remove_value(own@),
        decreases fixed@.len() - i,
    {
        let ghost before = texts(out@);
        proof {
            assert(texts(fixed@)[i as int] == fixed@[i as int]@);
            assert(dirs.take(i + 1) =~= dirs.take(i as int).push(dirs[i as int]));
            lemma_remove_push(dirs.take(i as int), dirs[i as int], own@);
        }
        if !same(fixed[i].as_str(), own) {
            out.push(fixed[i].clone());
            assert(texts(out@) =~= before.push(dirs[i as int]));
        }
        i += 1;
    }
    assert(dirs.take(i as int) =~= dirs);
    out
}

/// The ordered list of absolute paths to search for one of Vigil's helper
/// binaries, each once. `exe` is the path of the running binary, where it is
/// known: its directory is tried first, so that freshly built binaries work
/// without installation.
pub fn exec_search_paths(exe: Option<&str>, binary: &str) -> (r: Vec<String>)
    ensures
        texts(r@) == search_paths(
            match exe {
                Some(e) => Some(e@),
                None => None,
            },
            binary@,
        ),
        texts(r@).no_duplicates(),
        !(binary@.len() > 0 && binary@[0] == '/') ==> {
            &&& r@.len() >= 5
            &&& forall|k: int|
                0 <= k < 5 ==> texts(r@).contains(joined(#[trigger] search_dirs()[k], binary@))
        },
{
    let ghost at = match exe {
        Some(e) => Some(e@),
        None => None,
    };
    proof {
        search_paths_are_distinct(at, binary@);
    }
    let mut paths: Vec<String> = Vec::new();
    let name = to_chars(binary);
    if name.len() > 0 && name[0] == '/' {
        paths.push(binary.to_string());
        assert(texts(paths@) =~= search_paths(at, binary@));
        return paths;
    }
    let own = match exe {
        Some(e) => parent(e),
        None => None,
    };
    let dirs = match own {
        Some(dir) => {
            let mut dirs: Vec<String> = other_dirs(dir.as_str());
            let ghost others = texts(dirs@);
            dirs.insert(0, dir);
            assert(texts(dirs@) =~= seq![dir@] + others);
            dirs
        },
        None => fixed_dirs(),
    };
    assert(texts(dirs@) == search_order(at));
    let mut i: usize = 0;
    while i < dirs.len()
        invariant
            i <= dirs@.len(),
            texts(dirs@) == search_order(at),
            !(binary@.len() > 0 && binary@[0] == '/'),
            texts(paths@) == search_paths(at, binary@).take(i as int),
        decreases dirs@.len() - i,
    {
        let ghost before = texts(paths@);
        paths.push(join(dirs[i].as_str(), binary));
        proof {
            assert(texts(dirs@)[i as int] == dirs@[i as int]@);
            assert(texts(paths@) =~= before.push(joined(search_order(at)[i as int], binary@)));
            assert(texts(paths@) =~= search_paths(at, binary@).take(i + 1));
        }
        i += 1;
    }
    assert(search_paths(at, binary@).take(i as int) =~= search_paths(at, binary@));
    paths
}

/// The fixed directories are five different ones.
proof fn lemma_search_dirs()
    ensures
        search_dirs().len() == 5,
        search_dirs().no_duplicates(),
        forall|k: int|
            0 <= k < 5 ==> (#[trigger] search_dirs()[k]).len() > 1 && search_dirs()[k].last() != '/',
{
    reveal_strlit("/usr/local/bin");
    reveal_strlit("/usr/sbin");
    reveal_strlit("/sbin");
    reveal_strlit("/usr/bin");
    reveal_strlit("/bin");
    let dirs = search_dirs();
    assert(dirs[0].len() == 14 && dirs[1].len() == 9 && dirs[2].len() == 5 && dirs[3].len() == 8
        && dirs[4].len() == 4);
}

/// Only the root among directories ends in a separator.
proof fn lemma_parent_end(s: Text)
    requires
        parent_of(s) matches Some(d) && d.len() > 1,
    ensures
        parent_of(s)->0.last() != '/',
{
    let start = body_start(s);
    let p = without_idle(s, start);
    let cut = p.take(component_cut(p, start));
    let d = without_idle(cut, start);
    if p.len() > start {
        lemma_without_idle(cut, start);
        assert(!ends_idle(d, start));
        if d.last() == '/' {
            let body = d.skip(start);
            body.index_of_last_ensures('/');
            assert(body[body.len() - 1] == '/');
            assert(body.contains('/'));
            assert(component_start(d, start) == d.len());
        }
    }
}

/// What is left of a path does not end idly.
proof fn lemma_without_idle(p: Text, start: int)
    requires
        0 <= start,
        without_idle(p, start).len() > start,
    ensures
        !ends_idle(without_idle(p, start), start),
    decreases p.len(),
{
    if start < p.len() && ends_idle(p, start) {
        lemma_cut(p, start);
        lemma_without_idle(p.take(component_cut(p, start)), start);
    }
}

// ---------------------------------------------------------------------------
// Laws
// ---------------------------------------------------------------------------

/// Every search path ends in the name of the binary.
pub proof fn search_paths_bear_the_name(exe: Option<Text>, binary: Text, i: int)
    requires
        0 <= i < search_paths(exe, binary).len(),
    ensures
        ({
            let p = search_paths(exe, binary)[i];
            binary.len() <= p.len() && p.skip(p.len() - binary.len()) == binary
        }),
{
    let p = search_paths(exe, binary)[i];
    if !(binary.len() > 0 && binary[0] == '/') {
        assert(p == joined(search_order(exe)[i], binary));
    }
    reveal_strlit("/");
    assert(p.skip(p.len() - binary.len()) =~= binary);
}

/// No path is searched twice, wherever the running binary lies; all the fixed
/// directories are searched for a binary that is given by its name.
pub proof fn search_paths_are_distinct(exe: Option<Text>, binary: Text)
    ensures
        search_paths(exe, binary).no_duplicates(),
        !(binary.len() > 0 && binary[0] == '/') ==> {
            &&& search_paths(exe, binary).len() >= 5
            &&& forall|k: int|
                0 <= k < 5 ==> search_paths(exe, binary).contains(
                    joined(#[trigger] search_dirs()[k], binary),
                )
        },
{
    if !(binary.len() > 0 && binary[0] == '/') {
        lemma_search_dirs();
        reveal_strlit("/");
        let dirs = search_dirs();
        let order = search_order(exe);
        let paths = search_paths(exe, binary);
        if own_dir(exe) is Some {
            let own = own_dir(exe)->0;
            dirs.index_of_first_ensures(own);
            if own.len() > 1 {
                lemma_parent_end(exe->0);
            }
        }
        assert forall|i: int, j: int| 0 <= i < j < order.len() implies paths[i] != paths[j] by {
            let a = order[i];
            let b = order[j];
            assert(dirs.contains(b));
            assert(a != b);
            assert(b.len() > 1 && b.last() != '/');
            assert(paths[j] == b + "/"@ + binary);
            assert(paths[i] == joined(a, binary));
            if paths[i] == paths[j] {
                if a.len() > 1 {
                    assert(a.last() != '/');
                    assert(a.len() == b.len());
                    assert(a =~= paths[i].take(a.len() as int));
                    assert(b =~= paths[j].take(b.len() as int));
                }
            }
        }
        assert forall|k: int| 0 <= k < 5 implies paths.contains(
            joined(#[trigger] dirs[k], binary),
        ) by {
            let i = choose|i: int| 0 <= i < order.len() && order[i] == dirs[k];
            assert(order.contains(dirs[k])) by {
                if own_dir(exe) is Some {
                    let own = own_dir(exe)->0;
                    if own == dirs[k] {
                        assert(order[0] == dirs[k]);
                    } else if dirs.contains(own) {
                        let m = dirs.index_of_first(own)->0;
                        if k < m {
                            assert(order[k + 1] == dirs[k]);
                        } else {
                            assert(order[k] == dirs[k]);
                        }
                    } else {
                        assert(order[k + 1] == dirs[k]);
                    }
                }
            }
            assert(paths[i] == joined(dirs[k], binary));
        }
    }
}

/// The directory of `dir/name` is `dir`, for a proper name and a directory
/// that does not itself end in a separator or an idle component.
pub proof fn parent_undoes_join(dir: Text, name: Text)
    requires
        name.len() > 0,
        !name.contains('/'),
        name != "."@,
        dir.len() > 0,
        dir.last() != '/',
        without_idle(dir, body_start(dir)) == dir,
    ensures
        parent_of(joined(dir, name)) == Some(dir),
{
    reveal_strlit("/");
    reveal_strlit(".");
    let s = joined(dir, name);
    assert(name[0] != '/') by {
        assert(name.contains(name[0]));
    }
    let start = body_start(s);
    assert(s =~= dir + "/"@ + name);
    assert(body_start(dir) == start);
    let body = s.skip(start);
    let k = dir.len() - start;
    assert(dir.len() >= start);
    assert(body[k] == '/');
    assert forall|j: int| k < j < body.len() implies body[j] != '/' by {
        assert(body[j] == name[j - k - 1]);
        assert(name.contains(name[j - k - 1]));
    }
    body.index_of_last_ensures('/');
    assert(body.index_of_last('/') == Some(k));
    assert(component_start(s, start) == dir.len() + 1);
    assert(!ends_idle(s, start)) by {
        if name.len() == 1 {
            assert(s[dir.len() as int + 1] == name[0]);
            assert(name =~= "."@ <==> name[0] == '.');
        }
    }
    assert(s.take(dir.len() as int) =~= dir);
}

/// A joined path is the path itself where it is absolute; otherwise it is the
/// base and the path with one separator between them, which is added only where
/// the base is there and does not end in one.
pub proof fn joined_paths_hold_both(base: Text, path: Text)
    ensures
        path.len() > 0 && path[0] == '/' ==> joined(base, path) == path,
        !(path.len() > 0 && path[0] == '/') ==> {
            &&& base.len() == 0 ==> joined(base, path) == path
            &&& base.len() > 0 && base.last() != '/' ==> joined(base, path) == base + seq!['/'] + path
                && joined(base.push('/'), path) == joined(base, path)
            &&& joined(base, path).len() >= base.len() + path.len()
            &&& joined(base, path).take(base.len() as int) == base
        },
{
    reveal_strlit("/");
    assert("/"@ =~= seq!['/']);
    if !(path.len() > 0 && path[0] == '/') {
        if base.len() == 0 {
            assert(base + path =~= path);
        }
        assert(joined(base, path).take(base.len() as int) =~= base);
        assert(base.push('/') + path =~= base + seq!['/'] + path);
        assert(base.push('/').last() == '/');
    }
}

proof fn lemma_idle_prefix(p: Text, start: int)
    ensures
        without_idle(p, start).len() <= p.len(),
        p.take(without_idle(p, start).len() as int) == without_idle(p, start),
    decreases p.len(),
{
    if 0 <= start < p.len() && ends_idle(p, start) {
        lemma_cut(p, start);
        let q = p.take(component_cut(p, start));
        lemma_idle_prefix(q, start);
        let w = without_idle(q, start);
        assert(p.take(w.len() as int) =~= q.take(w.len() as int));
    } else {
        assert(p.take(p.len() as int) =~= p);
    }
}

/// The directory of a path is a beginning of it, and shorter: going up ends.
pub proof fn directories_are_prefixes(s: Text)
    ensures
        parent_of(s) matches Some(d) ==> d.len() < s.len() && s.take(d.len() as int) == d,
        s.len() == 0 ==> parent_of(s) is None,
{
    let start = body_start(s);
    let p = without_idle(s, start);
    lemma_idle_prefix(s, start);
    if p.len() > start {
        lemma_cut(p, start);
        let q = p.take(component_cut(p, start));
        lemma_idle_prefix(q, start);
        let d = without_idle(q, start);
        assert(s.take(d.len() as int) =~= q.take(d.len() as int));
    } else if s.len() > 0 && s[0] == '.' {
        assert(s.take(0) =~= Seq::<char>::empty());
    }
}

/// Separators at its end do not change the directory of a path.
pub proof fn trailing_separators_say_nothing(s: Text)
    requires
        s.len() > 0,
    ensures
        parent_of(s.push('/')) == parent_of(s),
{
    let t = s.push('/');
    let start = body_start(s);
    assert(t[0] == s[0]);
    assert(s.len() > 1 ==> t[1] == s[1]);
    assert(body_start(t) == start);
    let body = t.skip(start);
    body.index_of_last_ensures('/');
    assert(body[s.len() - start] == '/');
    assert(body.contains('/'));
    assert(body.index_of_last('/') == Some(s.len() - start));
    assert(component_start(t, start) == t.len());
    assert(ends_idle(t, start));
    assert(t.take(s.len() as int) =~= s);
    assert(without_idle(t, start) == without_idle(s, start));
}

/// The directory of a name in the root is the root, and that of a bare name is
/// the empty path.
pub proof fn bare_names_lie_nowhere(name: Text)
    requires
        name.len() > 0,
        !name.contains('/'),
        name != seq!['.'],
    ensures
        parent_of(seq!['/'] + name) == Some(seq!['/']),
        parent_of(name) == Some(Seq::<char>::empty()),
{
    let s = seq!['/'] + name;
    assert(s[0] == '/');
    assert(s.skip(1) =~= name);
    name.index_of_last_ensures('/');
    assert(component_start(s, 1) == 1);
    assert(component_cut(s, 1) == 1);
    if name.len() == 1 {
        assert(name =~= seq![name[0]]);
    }
    assert(s[1] == name[0]);
    assert(!ends_idle(s, 1));
    assert(without_idle(s, 1) == s);
    assert(s.take(1) =~= seq!['/']);
    assert(without_idle(s.take(1), 1) == s.take(1));
    assert(name[0] != '/') by {
        assert(name.contains(name[0]));
    }
    if name.len() > 1 {
        assert(name[1] != '/') by {
            assert(name.contains(name[1]));
        }
    }
    assert(body_start(name) == 0);
    assert(name.skip(0) =~= name);
    assert(component_start(name, 0) == 0);
    assert(component_cut(name, 0) == 0);
    assert(!ends_idle(name, 0));
    assert(without_idle(name, 0) == name);
    assert(name.take(0) =~= Seq::<char>::empty());
    assert(without_idle(name.take(0), 0) == name.take(0));
}

/// A helper binary is looked for beside the running binary first and then in
/// the standard places, in their order; only the running binary's own directory
/// is left out of these, where it is one of them.
pub proof fn own_directory_comes_first(exe: Option<Text>, binary: Text, k: int, m: int)
    requires
        !(binary.len() > 0 && binary[0] == '/'),
        0 <= k < 5,
        0 <= m < 5,
    ensures
        ({
            let fixed = seq![
                "/usr/local/bin"@,
                "/usr/sbin"@,
                "/sbin"@,
                "/usr/bin"@,
                "/bin"@,
            ];
            let own = match exe {
                Some(e) => parent_of(e),
                None => None,
            };
            let paths = search_paths(exe, binary);
            match own {
                Some(dir) => {
                    &&& paths[0] == joined(dir, binary)
                    &&& !fixed.contains(dir) ==> paths.len() == 6 && paths[k + 1] == joined(
                        fixed[k],
                        binary,
                    )
                    &&& fixed[m] == dir ==> paths.len() == 5 && (k < m ==> paths[k + 1] == joined(
                        fixed[k],
                        binary,
                    )) && (k > m ==> paths[k] == joined(fixed[k], binary))
                },
                None => paths.len() == 5 && paths[k] == joined(fixed[k], binary),
            }
        }),
{
    let fixed = search_dirs();
    if own_dir(exe) is Some {
        let dir = own_dir(exe)->0;
        fixed.index_of_first_ensures(dir);
        if fixed[m] == dir {
            lemma_search_dirs();
            assert(fixed.contains(dir));
            assert(fixed.index_of_first(dir) == Some(m));
            assert(fixed.remove_value(dir) == fixed.remove(m));
            assert(fixed.remove_value(dir).len() == 4);
        } else if !fixed.contains(dir) {
            assert(fixed.remove_value(dir) == fixed);
        }
        assert(search_order(exe)[0] == dir);
    }
}

/// A binary that is named by an absolute path is looked for there alone.
pub proof fn absolute_binaries_are_not_searched(exe: Option<Text>, binary: Text)
    requires
        binary.len() > 0,
        binary[0] == '/',
    ensures
        search_paths(exe, binary) == seq![binary],
{
}

/// The directory of a name is the path before it, whatever stands further up:
/// `base/dir` for `base/dir/name`, and `dir` for `dir/name`.
pub proof fn names_lie_in_the_path_before_them(base: Text, dir: Text, name: Text)
    requires
        dir.len() > 0,
        !dir.contains('/'),
        dir != seq!['.'],
        name.len() > 0,
        !name.contains('/'),
        name != seq!['.'],
    ensures
        parent_of(base + seq!['/'] + dir + seq!['/'] + name) == Some(base + seq!['/'] + dir),
        parent_of(dir + seq!['/'] + name) == Some(dir),
{
    reveal_strlit("/");
    reveal_strlit(".");
    assert("/"@ =~= seq!['/']);
    assert("."@ =~= seq!['.']);
    assert(name[0] != '/') by {
        assert(name.contains(name[0]));
    }
    assert(dir.last() != '/') by {
        assert(dir.contains(dir.last()));
    }
    let d = base + seq!['/'] + dir;
    assert(d.skip(base.len() as int + 1) =~= dir);
    lemma_proper_end(d, base.len() as int + 1);
    assert(d.last() == dir.last());
    parent_undoes_join(d, name);
    assert(joined(d, name) =~= d + seq!['/'] + name);
    assert(dir.skip(0) =~= dir);
    lemma_proper_end(dir, 0);
    parent_undoes_join(dir, name);
    assert(joined(dir, name) =~= dir + seq!['/'] + name);
}

/// A path that ends in a proper name, from `at` on, does not end idly.
proof fn lemma_proper_end(d: Text, at: int)
    requires
        0 <= at < d.len(),
        at > 0 ==> d[at - 1] == '/',
        !d.skip(at).contains('/'),
        d.skip(at) != seq!['.'],
    ensures
        without_idle(d, body_start(d)) == d,
{
    let start = body_start(d);
    let comp = d.skip(at);
    assert forall|i: int| at <= i < d.len() implies #[trigger] d[i] != '/' by {
        assert(comp[i - at] == d[i]);
        assert(comp.contains(comp[i - at]));
    }
    if comp.len() == 1 {
        assert(comp =~= seq![comp[0]]);
        assert(comp[0] == d[at]);
    }
    if start < d.len() {
        let body = d.skip(start);
        body.index_of_last_ensures('/');
        match body.index_of_last('/') {
            Some(i) => {
                assert(body[i] == d[start + i]);
                assert(start + i < at);
                if start + i + 1 < at {
                    assert(body[at - 1 - start] == d[at - 1]);
                }
                assert(component_start(d, start) == at);
            },
            None => {
                assert(component_start(d, start) == start);
                if at > start {
                    assert(body[at - 1 - start] == d[at - 1]);
                    assert(body.contains('/'));
                }
                if at == 0 {
                    if start == 1 {
                        if d.len() > 1 {
                            assert(d[1] != '/');
                        } else {
                            assert(comp[0] == d[0]);
                        }
                    }
                }
            },
        }
    }
}

/// Idle components between a path and a name, or at the end of a path, change
/// nothing: doubled separators and `.`.
pub proof fn idle_components_say_nothing(s: Text, name: Text)
    requires
        s.len() > 0,
        name.len() > 0,
        !name.contains('/'),
        name != seq!['.'],
    ensures
        parent_of(s + seq!['/', '.']) == parent_of(s),
        parent_of(s + seq!['/', '/'] + name) == parent_of(s + seq!['/'] + name),
        parent_of(s + seq!['/', '.', '/'] + name) == parent_of(s + seq!['/'] + name),
{
    let start = body_start(s);
    let t = s + seq!['/', '.'];
    assert(t[0] == s[0]);
    assert(s.len() > 1 ==> t[1] == s[1]);
    assert(body_start(t) == start);
    lemma_last_slash(t, start, s.len() as int);
    assert(component_start(t, start) == t.len() - 1);
    assert(ends_idle(t, start));
    assert(t.take(s.len() as int) =~= s);
    assert(without_idle(t, start) == without_idle(s, start));
    let a = s + seq!['/'] + name;
    let b = s + seq!['/', '/'] + name;
    let c = s + seq!['/', '.', '/'] + name;
    lemma_behind(s, seq!['/'], name);
    lemma_behind(s, seq!['/', '/'], name);
    lemma_behind(s, seq!['/', '.', '/'], name);
    let p = s.push('/');
    assert(s + seq!['/', '/'].drop_last() =~= p);
    assert(s + seq!['/'].drop_last() =~= s);
    assert(s + seq!['/', '.', '/'].drop_last() =~= t);
    assert(p[0] == s[0]);
    lemma_last_slash(p, start, s.len() as int);
    assert(ends_idle(p, start));
    assert(p.take(s.len() as int) =~= s);
    assert(without_idle(p, start) == without_idle(s, start));
}

/// The last separator of a path is the one that no other follows.
proof fn lemma_last_slash(p: Text, start: int, at: int)
    requires
        0 <= start <= at < p.len(),
        p[at] == '/',
        forall|i: int| at < i < p.len() ==> #[trigger] p[i] != '/',
    ensures
        component_start(p, start) == at + 1,
        component_cut(p, start) == at,
{
    let body = p.skip(start);
    body.index_of_last_ensures('/');
    assert(body[at - start] == '/');
    assert(body.contains('/'));
    let i = body.index_of_last('/')->0;
    assert(body[i] == p[start + i]);
}

/// The directory of a name behind a path and separators is that path without
/// what is idle.
proof fn lemma_behind(s: Text, between: Text, name: Text)
    requires
        s.len() > 0,
        between.len() > 0,
        between[0] == '/',
        between.last() == '/',
        name.len() > 0,
        !name.contains('/'),
        name != seq!['.'],
    ensures
        parent_of(s + between + name) == Some(without_idle(s + between.drop_last(), body_start(s))),
{
    let w = s + between + name;
    let start = body_start(s);
    let at = (s.len() + between.len() - 1) as int;
    assert(w[0] == s[0]);
    assert(s.len() > 1 ==> w[1] == s[1]);
    assert(s.len() == 1 ==> w[1] == '/');
    assert(body_start(w) == start);
    assert(w[at] == between.last());
    assert forall|i: int| at < i < w.len() implies #[trigger] w[i] != '/' by {
        assert(w[i] == name[i - at - 1]);
        assert(name.contains(name[i - at - 1]));
    }
    lemma_last_slash(w, start, at);
    if name.len() == 1 {
        assert(name =~= seq![name[0]]);
        assert(w[at + 1] == name[0]);
    }
    assert(!ends_idle(w, start));
    assert(without_idle(w, start) == w);
    assert(w.take(at) =~= s + between.drop_last());
}

} // verus!
