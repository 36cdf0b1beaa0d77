//! Network namespaces, pinned by a bind mount on a file.

use crate::text::holds_text;
use vstd::prelude::*;
use vstd::string::*;

verus! {

/// The directory in which namespaces are pinned.
pub const NETNS_DIR: &'static str = "/var/run/netns";

/// One thing to do to the host. Each is done only where the one before it succeeded.
#[derive(Debug, PartialEq, Eq)]
pub enum NetnsOp {
    /// Make the directory, and those above it.
    MakeDir(String),
    /// Make the file, which must not be there yet.
    CreateFile(String),
    /// Enter a new network namespace and bind-mount it on the file.
    BindNewNamespace(String),
    /// Detach what is mounted on the file.
    Unmount(String),
    /// Delete the file.
    Unlink(String),
}

/// What a [`NetnsOp`] says.
pub enum NetnsOpView {
    MakeDir(Seq<char>),
    CreateFile(Seq<char>),
    BindNewNamespace(Seq<char>),
    Unmount(Seq<char>),
    Unlink(Seq<char>),
}

impl DeepView for NetnsOp {
    type V = NetnsOpView;

    open spec fn deep_view(&self) -> NetnsOpView {
        match self {
            NetnsOp::MakeDir(p) => NetnsOpView::MakeDir(p@),
            NetnsOp::CreateFile(p) => NetnsOpView::CreateFile(p@),
            NetnsOp::BindNewNamespace(p) => NetnsOpView::BindNewNamespace(p@),
            NetnsOp::Unmount(p) => NetnsOpView::Unmount(p@),
            NetnsOp::Unlink(p) => NetnsOpView::Unlink(p@),
        }
    }
}

/// The path of `name` in the directory `dir`.
pub open spec fn path_in(dir: Seq<char>, name: Seq<char>) -> Seq<char> {
    dir + seq!['/'] + name
}

/// The path of `name` in the directory `dir`.
pub fn join(dir: &str, name: &str) -> (r: String)
    ensures
        r@ == path_in(dir@, name@),
{
    let mut r = dir.to_owned();
    r.push('/');
    r.append(name);
    assert(r@ =~= path_in(dir@, name@));
    r
}

/// What makes a new namespace and pins it at `path`, in the directory `dir`.
pub open spec fn pinning(dir: Seq<char>, path: Seq<char>) -> Seq<NetnsOpView> {
    seq![
        NetnsOpView::MakeDir(dir),
        NetnsOpView::CreateFile(path),
        NetnsOpView::BindNewNamespace(path),
    ]
}

/// What releases the namespace pinned at `path`.
pub open spec fn releasing(path: Seq<char>) -> Seq<NetnsOpView> {
    seq![NetnsOpView::Unmount(path), NetnsOpView::Unlink(path)]
}

/// What makes a new namespace and pins it under `name`, with the path at which it is pinned.
pub fn create(name: &str) -> (r: (Vec<NetnsOp>, String))
    ensures
        r.1@ == path_in(NETNS_DIR@, name@),
        r.0.deep_view() == pinning(NETNS_DIR@, r.1@),
{
    let path = join(NETNS_DIR, name);
    let mut ops: Vec<NetnsOp> = Vec::new();
    ops.push(NetnsOp::MakeDir(NETNS_DIR.to_owned()));
    ops.push(NetnsOp::CreateFile(path.clone()));
    ops.push(NetnsOp::BindNewNamespace(path.clone()));
    assert(ops.deep_view() =~= pinning(NETNS_DIR@, path@));
    (ops, path)
}

/// What releases the namespace pinned at `path`: it is unmounted first, and the file is deleted
/// only then.
pub fn teardown(path: &str) -> (ops: Vec<NetnsOp>)
    ensures
        ops.deep_view() == releasing(path@),
{
    let mut ops: Vec<NetnsOp> = Vec::new();
    ops.push(NetnsOp::Unmount(path.to_owned()));
    ops.push(NetnsOp::Unlink(path.to_owned()));
    assert(ops.deep_view() =~= releasing(path@));
    ops
}

/// The entries that no sandbox uses.
pub open spec fn orphans(names: Seq<Seq<char>>, used: Seq<Seq<char>>) -> Seq<Seq<char>> {
    names.filter(|n: Seq<char>| !used.contains(n))
}

/// The paths in `dir` of the entries that no sandbox uses.
pub open spec fn swept(dir: Seq<char>, names: Seq<Seq<char>>, used: Seq<Seq<char>>) -> Seq<
    Seq<char>,
> {
    orphans(names, used).map_values(|n: Seq<char>| path_in(dir, n))
}

/// The paths of the namespaces pinned in `dir` that no sandbox uses, each of which is to be torn
/// down.
pub fn sweep(dir: &str, names: &Vec<String>, used: &Vec<String>) -> (r: Vec<String>)
    ensures
        r.deep_view() == swept(dir@, names.deep_view(), used.deep_view()),
{
    let ghost p = |n: Seq<char>| !used.deep_view().contains(n);
    let ghost f = |n: Seq<char>| path_in(dir@, n);
    let mut r: Vec<String> = Vec::new();
    let mut i: usize = 0;
    assert(r.deep_view() =~= names.deep_view().take(0).filter(p).map_values(f)) by {
        reveal(Seq::filter);
    }
    while i < names.len()
        invariant
            i <= names@.len(),
            p == (|n: Seq<char>| !used.deep_view().contains(n)),
            f == (|n: Seq<char>| path_in(dir@, n)),
            r.deep_view() == names.deep_view().take(i as int).filter(p).map_values(f),
        decreases names@.len() - i,
    {
        let ghost before = r.deep_view();
        proof {
            crate::seqs::lemma_filter_take(names.deep_view(), p, i as int);
        }
        assert(names.deep_view()[i as int] == names@[i as int]@);
        if !holds_text(used, names[i].as_str()) {
            r.push(join(dir, names[i].as_str()));
            assert(r.deep_view() =~= before.push(f(names@[i as int]@)));
            assert(r.deep_view() =~= names.deep_view().take(i + 1).filter(p).map_values(f));
        }
        i = i + 1;
    }
    assert(names.deep_view().take(names@.len() as int) =~= names.deep_view());
    r
}

/// What was pinned is released at the same place: the file that was made is deleted, after what was
/// mounted on it is gone.
pub proof fn law_release_undoes_pinning(dir: Seq<char>, name: Seq<char>)
    ensures
        ({
            let path = path_in(dir, name);
            let made = pinning(dir, path);
            let gone = releasing(path);
            &&& made.len() == 3 && gone.len() == 2
            &&& made[0] == NetnsOpView::MakeDir(dir)
            &&& made[1] == NetnsOpView::CreateFile(path) && gone[1] == NetnsOpView::Unlink(path)
            &&& made[2] == NetnsOpView::BindNewNamespace(path) && gone[0] == NetnsOpView::Unmount(
                path,
            )
        }),
{
}

/// Entries of a directory have paths of their own, which begin with that of the directory.
pub proof fn law_paths_are_distinct(dir: Seq<char>, a: Seq<char>, b: Seq<char>)
    ensures
        path_in(dir, a) == path_in(dir, b) <==> a == b,
        dir.push('/').is_prefix_of(path_in(dir, a)),
        path_in(dir, a).len() == dir.len() + 1 + a.len(),
{
    assert(path_in(dir, a).skip((dir.len() + 1) as int) =~= a);
    assert(path_in(dir, b).skip((dir.len() + 1) as int) =~= b);
    assert(path_in(dir, a).subrange(0, (dir.len() + 1) as int) =~= dir.push('/'));
}

/// A namespace is swept away if it is there and no sandbox uses it, and only then.
pub proof fn law_only_what_nobody_uses_is_swept(
    dir: Seq<char>,
    names: Seq<Seq<char>>,
    used: Seq<Seq<char>>,
    name: Seq<char>,
)
    ensures
        swept(dir, names, used).contains(path_in(dir, name)) <==> names.contains(name)
            && !used.contains(name),
        swept(dir, names, used).len() <= names.len(),
        (forall|i: int| 0 <= i < names.len() ==> !used.contains(#[trigger] names[i])) ==> swept(
            dir,
            names,
            used,
        ).len() == names.len(),
{
    broadcast use vstd::seq_lib::group_filter_ensures;

    let p = |n: Seq<char>| !used.contains(n);
    let f = |n: Seq<char>| path_in(dir, n);
    let kept = names.filter(p);
    lemma_kept(names, p);
    let paths = swept(dir, names, used);
    if paths.contains(path_in(dir, name)) {
        let i = paths.index_of(path_in(dir, name));
        assert(paths[i] == path_in(dir, kept[i]));
        law_paths_are_distinct(dir, kept[i], name);
        assert(kept.contains(name));
    }
    if names.contains(name) && !used.contains(name) {
        assert(kept.contains(name));
        let i = kept.index_of(name);
        assert(paths[i] == path_in(dir, name));
    }
}

proof fn lemma_kept(names: Seq<Seq<char>>, p: spec_fn(Seq<char>) -> bool)
    ensures
        forall|n: Seq<char>| #[trigger] names.filter(p).contains(n) <==> names.contains(n) && p(n),
        names.filter(p).len() <= names.len(),
        (forall|i: int| 0 <= i < names.len() ==> p(#[trigger] names[i])) ==> names.filter(p)
            == names,
    decreases names.len(),
{
    reveal(Seq::filter);
    if names.len() > 0 {
        let front = names.drop_last();
        lemma_kept(front, p);
        let kept = names.filter(p);
        assert forall|n: Seq<char>| #[trigger] kept.contains(n) <==> names.contains(n) && p(n) by {
            if kept.contains(n) {
                let i = kept.index_of(n);
                if i < front.filter(p).len() {
                    assert(front.filter(p)[i] == n);
                    assert(front.filter(p).contains(n));
                    let j = front.index_of(n);
                    assert(names[j] == n);
                } else {
                    assert(names[names.len() - 1] == n);
                }
            }
            if names.contains(n) && p(n) {
                let j = names.index_of(n);
                if j < front.len() {
                    assert(front[j] == n);
                    assert(front.filter(p).contains(n));
                    let i = front.filter(p).index_of(n);
                    assert(kept[i] == n);
                } else {
                    assert(kept[kept.len() - 1] == n);
                }
            }
        }
        if forall|i: int| 0 <= i < names.len() ==> p(#[trigger] names[i]) {
            assert forall|i: int| 0 <= i < front.len() implies p(#[trigger] front[i]) by {
                assert(front[i] == names[i]);
            }
            assert(p(names[names.len() - 1]));
            assert(kept =~= names);
        }
    } else {
        assert(names.filter(p) =~= names);
    }
}

} // verus!
