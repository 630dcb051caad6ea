//! A tree as the paths it holds, and what taking the members of an
//! archive into it makes of it.

use crate::archive::MemberKind;
use crate::archive::MemberView;
use crate::path::path_components;
use crate::path::PartView;
use crate::virtfs::file::FileView;
use crate::virtfs::MountError;
use vstd::prelude::*;

verus! {

/// What stands at a path of the tree.
pub enum Node {
    Directory,
    File(FileView),
}

/// A tree as the paths it holds, the root at the empty path.
pub type Tree = Map<Seq<Seq<char>>, Node>;

/// The tree that holds nothing but its root.
pub open spec fn empty_tree() -> Tree {
    map![Seq::<Seq<char>>::empty() => Node::Directory]
}

/// Whether every component is a plain name.
pub open spec fn all_normal(parts: Seq<PartView>) -> bool {
    forall|i: int| 0 <= i < parts.len() ==> parts[i] is Normal
}

/// The names of the components; a component that is no plain name counts
/// as the empty name.
pub open spec fn names_of(parts: Seq<PartView>) -> Seq<Seq<char>> {
    Seq::new(
        parts.len(),
        |i: int|
            match parts[i] {
                PartView::Normal(name) => name,
                _ => Seq::empty(),
            },
    )
}

/// All components but the last.
pub open spec fn parent_of(parts: Seq<PartView>) -> Seq<PartView> {
    if parts.len() == 0 {
        parts
    } else {
        parts.take(parts.len() - 1)
    }
}

/// Whether the tree holds a file at the path.
pub open spec fn is_file(m: Tree, p: Seq<Seq<char>>) -> bool {
    m.contains_key(p) && m[p] is File
}

/// How many leading components a descent from `cursor` can enter: it
/// stops before the first component that is no plain name, and where it
/// stands on a file.
pub open spec fn clear_len(m: Tree, cursor: Seq<Seq<char>>, parts: Seq<PartView>) -> nat
    decreases parts.len(),
{
    if parts.len() == 0 {
        0
    } else {
        match parts[0] {
            PartView::Normal(name) => if is_file(m, cursor) {
                0
            } else {
                1 + clear_len(m, cursor.push(name), parts.drop_first())
            },
            _ => 0,
        }
    }
}

/// The tree with a directory at every prefix of `names` that it lacks.
pub open spec fn with_dirs(m: Tree, names: Seq<Seq<char>>) -> Tree {
    Map::new(
        |p: Seq<Seq<char>>| m.contains_key(p) || p.is_prefix_of(names),
        |p: Seq<Seq<char>>|
            if m.contains_key(p) {
                m[p]
            } else {
                Node::Directory
            },
    )
}

/// The tree with a file at `names`, in place of whatever stood there and
/// below.
pub open spec fn with_file(m: Tree, names: Seq<Seq<char>>, file: FileView) -> Tree {
    Map::new(
        |p: Seq<Seq<char>>| p == names || (m.contains_key(p) && !names.is_prefix_of(p)),
        |p: Seq<Seq<char>>|
            if p == names {
                Node::File(file)
            } else {
                m[p]
            },
    )
}

/// The tree with the tree `sub` in the place of what stood at `at` and
/// below.
pub open spec fn graft(m: Tree, at: Seq<Seq<char>>, sub: Tree) -> Tree {
    Map::new(
        |p: Seq<Seq<char>>|
            if at.is_prefix_of(p) {
                sub.contains_key(p.skip(at.len() as int))
            } else {
                m.contains_key(p)
            },
        |p: Seq<Seq<char>>|
            if at.is_prefix_of(p) {
                sub[p.skip(at.len() as int)]
            } else {
                m[p]
            },
    )
}

/// What a tree holds at a path and below.
pub open spec fn subtree(m: Tree, at: Seq<Seq<char>>) -> Tree {
    Map::new(|q: Seq<Seq<char>>| m.contains_key(at + q), |q: Seq<Seq<char>>| m[at + q])
}

/// Whether the whole path can be entered: it is made of plain names, and
/// no file stands above its end.
pub open spec fn enterable(m: Tree, parts: Seq<PartView>) -> bool {
    clear_len(m, Seq::<Seq<char>>::empty(), parts) == parts.len()
}

/// Whether the path can stand as a directory: the whole path can be
/// entered, and no file stands at its end.
pub open spec fn dirs_ok(m: Tree, parts: Seq<PartView>) -> bool {
    enterable(m, parts) && !is_file(m, names_of(parts))
}

/// The tree after making the directories of a path, as far as the path
/// can be entered.
pub open spec fn dirs_tree(m: Tree, parts: Seq<PartView>) -> Tree {
    let k = clear_len(m, Seq::<Seq<char>>::empty(), parts);
    with_dirs(m, names_of(parts.take(k as int)))
}

/// Whether a file can be set at the path: the path is made of plain
/// names, at least one, and no file stands above its end.
pub open spec fn file_ok(m: Tree, parts: Seq<PartView>) -> bool {
    parts.len() > 0 && enterable(m, parts)
}

/// The tree after setting a file at the path, or, where that fails, after
/// making the directories above it as far as they can be entered.
pub open spec fn file_tree(m: Tree, parts: Seq<PartView>, file: FileView) -> Tree {
    if file_ok(m, parts) {
        with_file(with_dirs(m, names_of(parent_of(parts))), names_of(parts), file)
    } else {
        dirs_tree(m, parent_of(parts))
    }
}

/// Whether a member of an archive can be taken into the tree. A member
/// that is neither a regular file nor a directory is passed over, which
/// counts; a path that is not valid UTF-8 is refused.
pub open spec fn member_ok(m: Tree, member: MemberView) -> bool {
    match member.kind {
        MemberKind::Other => true,
        MemberKind::Regular => member.path is Some && file_ok(
            m,
            path_components(member.path.unwrap()),
        ),
        MemberKind::Directory => member.path is Some && dirs_ok(
            m,
            path_components(member.path.unwrap()),
        ),
    }
}

/// The tree after a member of the archive `content` was taken into it,
/// or refused.
pub open spec fn member_tree(m: Tree, content: Seq<u8>, member: MemberView) -> Tree {
    match member.path {
        Some(path) => match member.kind {
            MemberKind::Other => m,
            MemberKind::Regular => file_tree(
                m,
                path_components(path),
                FileView { content, offset: member.position },
            ),
            MemberKind::Directory => dirs_tree(m, path_components(path)),
        },
        None => m,
    }
}

/// The tree after the members of a listing were taken into it in order,
/// or the first failure.
pub open spec fn mount_spec(m: Tree, content: Seq<u8>, listing: Seq<Option<MemberView>>) -> Result<
    Tree,
    MountError,
>
    decreases listing.len(),
{
    if listing.len() == 0 {
        Ok(m)
    } else {
        match listing[0] {
            None => Err(MountError::Unreadable),
            Some(member) => if member_ok(m, member) {
                mount_spec(member_tree(m, content, member), content, listing.drop_first())
            } else {
                Err(MountError::InvalidInput)
            },
        }
    }
}

pub(crate) proof fn lemma_clear_len_shift(
    m: Tree,
    mc: Tree,
    pre: Seq<Seq<char>>,
    cursor: Seq<Seq<char>>,
    parts: Seq<PartView>,
)
    requires
        forall|q: Seq<Seq<char>>| is_file(m, pre + q) == #[trigger] is_file(mc, q),
    ensures
        clear_len(m, pre + cursor, parts) == clear_len(mc, cursor, parts),
    decreases parts.len(),
{
    if parts.len() > 0 {
        match parts[0] {
            PartView::Normal(name) => {
                assert(is_file(m, pre + cursor) == is_file(mc, cursor));
                assert((pre + cursor).push(name) =~= pre + cursor.push(name));
                lemma_clear_len_shift(m, mc, pre, cursor.push(name), parts.drop_first());
            },
            _ => {},
        }
    }
}

pub(crate) proof fn lemma_clear_len_bound(m: Tree, cursor: Seq<Seq<char>>, parts: Seq<PartView>)
    ensures
        clear_len(m, cursor, parts) <= parts.len(),
        forall|j: int| 0 <= j < clear_len(m, cursor, parts) ==> parts[j] is Normal,
    decreases parts.len(),
{
    if parts.len() > 0 {
        match parts[0] {
            PartView::Normal(name) => {
                let rest = parts.drop_first();
                lemma_clear_len_bound(m, cursor.push(name), rest);
                assert forall|j: int| 0 <= j < clear_len(m, cursor, parts) implies parts[j] is Normal by {
                    if j > 0 {
                        assert(parts[j] == rest[j - 1]);
                    }
                }
            },
            _ => {},
        }
    }
}

pub(crate) proof fn lemma_clear_full(m: Tree, cursor: Seq<Seq<char>>, parts: Seq<PartView>)
    requires
        clear_len(m, cursor, parts) == parts.len(),
    ensures
        all_normal(parts),
        forall|j: int|
            0 <= j < parts.len() ==> !is_file(m, cursor + #[trigger] names_of(parts).take(j)),
    decreases parts.len(),
{
    if parts.len() > 0 {
        let rest = parts.drop_first();
        let name = parts[0]->Normal_0;
        lemma_clear_len_bound(m, cursor.push(name), rest);
        lemma_clear_full(m, cursor.push(name), rest);
        assert forall|j: int| 0 <= j < parts.len() implies parts[j] is Normal by {
            if j > 0 {
                assert(parts[j] == rest[j - 1]);
            }
        }
        assert forall|j: int| 0 <= j < parts.len() implies !is_file(
            m,
            cursor + #[trigger] names_of(parts).take(j),
        ) by {
            if j == 0 {
                assert(cursor + names_of(parts).take(0) =~= cursor);
            } else {
                assert(cursor + names_of(parts).take(j) =~= cursor.push(name) + names_of(
                    rest,
                ).take(j - 1));
            }
        }
    }
}

pub(crate) proof fn lemma_graft_root(m: Tree, sub: Tree)
    ensures
        graft(m, Seq::<Seq<char>>::empty(), sub) =~= sub,
{
    let e = Seq::<Seq<char>>::empty();
    assert forall|p: Seq<Seq<char>>| e.is_prefix_of(p) && p.skip(0) == p by {
        assert(p.skip(0) =~= p);
        assert(e =~= p.subrange(0, 0));
    }
}

/// After a file was set at a path, the tree holds the file there, a
/// directory at every path above it, nothing below it, and elsewhere
/// what it held before.
pub proof fn law_file_is_found(m: Tree, parts: Seq<PartView>, file: FileView)
    requires
        file_ok(m, parts),
    ensures
        ({
            let after = file_tree(m, parts, file);
            let names = names_of(parts);
            &&& after.contains_key(names) && after[names] == Node::File(file)
            &&& forall|q: Seq<Seq<char>>|
                q.is_prefix_of(names) && q != names ==> #[trigger] after.contains_key(q)
                    && after[q] is Directory
            &&& forall|q: Seq<Seq<char>>|
                names.is_prefix_of(q) && q != names ==> !#[trigger] after.contains_key(q)
            &&& forall|q: Seq<Seq<char>>|
                !q.is_prefix_of(names) && !names.is_prefix_of(q) ==> (#[trigger] after.get(q))
                    == m.get(q)
        }),
{
    let e = Seq::<Seq<char>>::empty();
    let names = names_of(parts);
    let after = file_tree(m, parts, file);
    let par = names_of(parent_of(parts));
    lemma_clear_full(m, e, parts);
    assert(par =~= names.take(names.len() - 1));
    assert forall|q: Seq<Seq<char>>| q.is_prefix_of(names) && q != names implies #[trigger]
        after.contains_key(q) && after[q] is Directory by {
        if q.len() == names.len() {
            assert(q =~= names);
        }
        assert(q =~= names.take(q.len() as int));
        assert(e + names.take(q.len() as int) =~= q);
        assert(!is_file(m, e + names_of(parts).take(q.len() as int)));
        assert(!is_file(m, q));
        assert(q.is_prefix_of(par)) by {
            assert(q =~= par.subrange(0, q.len() as int));
        }
        assert(!names.is_prefix_of(q)) by {
            if names.is_prefix_of(q) {
                assert(q =~= names);
            }
        }
    }
    assert forall|q: Seq<Seq<char>>| !q.is_prefix_of(names) && !names.is_prefix_of(q) implies (
    #[trigger] after.get(q)) == m.get(q) by {
        assert(q != names);
        if q.is_prefix_of(par) {
            assert(q =~= names.subrange(0, q.len() as int));
        }
    }
}

/// After a file was set at a path of an empty tree, the tree holds the
/// file, a directory at every path above it, and nothing else.
pub proof fn law_only_file_is_found(parts: Seq<PartView>, file: FileView, q: Seq<Seq<char>>)
    requires
        file_ok(empty_tree(), parts),
    ensures
        file_tree(empty_tree(), parts, file).contains_key(q) <==> q.is_prefix_of(names_of(parts)),
{
    let names = names_of(parts);
    let par = names_of(parent_of(parts));
    lemma_clear_full(empty_tree(), Seq::<Seq<char>>::empty(), parts);
    assert(par =~= names.take(names.len() - 1));
    if q.is_prefix_of(names) {
        if q != names {
            if q.len() == names.len() {
                assert(q =~= names);
            }
            assert(q =~= names.take(q.len() as int));
            assert(q =~= par.subrange(0, q.len() as int));
            assert(!names.is_prefix_of(q)) by {
                if names.is_prefix_of(q) {
                    assert(q =~= names);
                }
            }
        }
    } else {
        if q.is_prefix_of(par) {
            assert(q =~= names.subrange(0, q.len() as int));
        }
        if q.len() == 0 {
            assert(q =~= names.subrange(0, 0));
        }
    }
}

/// After the directories of a path were made, the tree holds a directory
/// at the path and at every prefix of it, and elsewhere what it held
/// before.
pub proof fn law_directories_are_found(m: Tree, parts: Seq<PartView>, q: Seq<Seq<char>>)
    requires
        dirs_ok(m, parts),
    ensures
        dirs_tree(m, parts).get(q) == (if m.contains_key(q) {
            m.get(q)
        } else if q.is_prefix_of(names_of(parts)) {
            Some(Node::Directory)
        } else {
            None
        }),
        q.is_prefix_of(names_of(parts)) ==> dirs_tree(m, parts).get(q) == Some(Node::Directory),
{
    let e = Seq::<Seq<char>>::empty();
    let names = names_of(parts);
    assert(parts.take(parts.len() as int) =~= parts);
    if q.is_prefix_of(names) {
        if q.len() == names.len() {
            assert(q =~= names);
        } else {
            lemma_clear_full(m, e, parts);
            assert(q =~= names.take(q.len() as int));
            assert(e + names_of(parts).take(q.len() as int) =~= q);
            assert(!is_file(m, e + names_of(parts).take(q.len() as int)));
        }
    }
}

/// Whether a member can take the place of what stands at a path: a
/// regular file does at its own path and at every path below it.
pub open spec fn replaces(member: MemberView, path: Seq<Seq<char>>) -> bool {
    member.kind is Regular && member.path is Some && names_of(
        path_components(member.path.unwrap()),
    ).is_prefix_of(path)
}

/// Whether no member of a listing can take the place of what stands at a
/// path.
pub open spec fn stays(listing: Seq<Option<MemberView>>, path: Seq<Seq<char>>) -> bool {
    forall|j: int|
        0 <= j < listing.len() && listing[j] is Some ==> !replaces(
            (#[trigger] listing[j]).unwrap(),
            path,
        )
}

proof fn lemma_member_keeps(m: Tree, content: Seq<u8>, member: MemberView, path: Seq<Seq<char>>)
    requires
        member_ok(m, member),
        m.contains_key(path),
        !replaces(member, path),
    ensures
        member_tree(m, content, member).get(path) == m.get(path),
{
    if member.path is Some {
        let parts = path_components(member.path.unwrap());
        if member.kind is Regular {
            assert(path != names_of(parts)) by {
                if path == names_of(parts) {
                    assert(names_of(parts).is_prefix_of(path));
                }
            }
        }
    }
}

/// What a tree holds stays through a mount that succeeds, but for what a
/// regular file of the archive takes the place of.
pub proof fn law_mount_keeps(
    m: Tree,
    content: Seq<u8>,
    listing: Seq<Option<MemberView>>,
    path: Seq<Seq<char>>,
)
    requires
        mount_spec(m, content, listing) is Ok,
        m.contains_key(path),
        stays(listing, path),
    ensures
        mount_spec(m, content, listing).unwrap().get(path) == m.get(path),
    decreases listing.len(),
{
    if listing.len() > 0 {
        let member = listing[0].unwrap();
        let rest = listing.drop_first();
        assert(!replaces(listing[0].unwrap(), path));
        lemma_member_keeps(m, content, member, path);
        assert forall|j: int| 0 <= j < rest.len() && rest[j] is Some implies !replaces(
            (#[trigger] rest[j]).unwrap(),
            path,
        ) by {
            assert(rest[j] == listing[j + 1]);
        }
        law_mount_keeps(member_tree(m, content, member), content, rest, path);
    }
}

/// After a mount that succeeds, a lookup finds every regular file of the
/// archive that no later one took the place of: at the file's path stands
/// the file, which reads from the archive at the position of the member's
/// data.
pub proof fn law_mounted_file_is_found(
    m: Tree,
    content: Seq<u8>,
    listing: Seq<Option<MemberView>>,
    i: int,
)
    requires
        mount_spec(m, content, listing) is Ok,
        0 <= i < listing.len(),
        listing[i] matches Some(member) && member.kind is Regular && member.path is Some,
        stays(
            listing.skip(i + 1),
            names_of(path_components(listing[i].unwrap().path.unwrap())),
        ),
    ensures
        ({
            let member = listing[i].unwrap();
            let names = names_of(path_components(member.path.unwrap()));
            mount_spec(m, content, listing).unwrap().get(names) == Some(
                Node::File(FileView { content, offset: member.position }),
            )
        }),
    decreases i,
{
    let first = listing[0].unwrap();
    let rest = listing.drop_first();
    let next = member_tree(m, content, first);
    if i == 0 {
        let parts = path_components(first.path.unwrap());
        law_file_is_found(m, parts, FileView { content, offset: first.position });
        assert(listing.skip(1) =~= rest);
        law_mount_keeps(next, content, rest, names_of(parts));
    } else {
        assert(rest[i - 1] == listing[i]);
        assert(rest.skip(i) =~= listing.skip(i + 1));
        law_mounted_file_is_found(next, content, rest, i - 1);
    }
}

/// After a mount that succeeds, a lookup finds a directory at every path
/// above a member of the archive, and at the path of every directory of
/// it, that no later regular file took the place of.
pub proof fn law_mounted_directory_is_found(
    m: Tree,
    content: Seq<u8>,
    listing: Seq<Option<MemberView>>,
    i: int,
    above: Seq<Seq<char>>,
)
    requires
        mount_spec(m, content, listing) is Ok,
        0 <= i < listing.len(),
        listing[i] matches Some(member) && member.path is Some && ({
            let names = names_of(path_components(member.path.unwrap()));
            ||| member.kind is Regular && above.is_prefix_of(names) && above != names
            ||| member.kind is Directory && above.is_prefix_of(names)
        }),
        stays(listing.skip(i + 1), above),
    ensures
        mount_spec(m, content, listing).unwrap().get(above) == Some(Node::Directory),
    decreases i,
{
    let first = listing[0].unwrap();
    let rest = listing.drop_first();
    let next = member_tree(m, content, first);
    if i == 0 {
        let parts = path_components(first.path.unwrap());
        if first.kind is Regular {
            law_file_is_found(m, parts, FileView { content, offset: first.position });
            assert(next.contains_key(above) && next[above] is Directory);
        } else {
            law_directories_are_found(m, parts, above);
        }
        assert(listing.skip(1) =~= rest);
        law_mount_keeps(next, content, rest, above);
    } else {
        assert(rest[i - 1] == listing[i]);
        assert(rest.skip(i) =~= listing.skip(i + 1));
        law_mounted_directory_is_found(next, content, rest, i - 1, above);
    }
}

/// Whether a member stands at a path or below it: a regular file or a
/// directory whose path the path is a prefix of.
pub open spec fn reaches(member: MemberView, path: Seq<Seq<char>>) -> bool {
    !(member.kind is Other) && member.path is Some && path.is_prefix_of(
        names_of(path_components(member.path.unwrap())),
    )
}

proof fn lemma_member_adds(m: Tree, content: Seq<u8>, member: MemberView, path: Seq<Seq<char>>)
    requires
        member_ok(m, member),
        member_tree(m, content, member).contains_key(path),
    ensures
        m.contains_key(path) || reaches(member, path),
{
    if member.path is Some && !(member.kind is Other) {
        let parts = path_components(member.path.unwrap());
        let names = names_of(parts);
        if member.kind is Regular {
            let par = names_of(parent_of(parts));
            assert(par =~= names.take(names.len() - 1));
            if path != names && !m.contains_key(path) {
                assert(path.is_prefix_of(par));
                assert(path =~= names.subrange(0, path.len() as int));
            }
        } else {
            assert(parts.take(parts.len() as int) =~= parts);
        }
    }
}

/// After a mount that succeeds, the tree holds nothing but what it held
/// before and what the archive put there: at every other path than those
/// of the archive's regular files and directories, and those above them,
/// a lookup finds nothing.
pub proof fn law_mounted_nothing_else(
    m: Tree,
    content: Seq<u8>,
    listing: Seq<Option<MemberView>>,
    path: Seq<Seq<char>>,
)
    requires
        mount_spec(m, content, listing) is Ok,
        mount_spec(m, content, listing).unwrap().contains_key(path),
    ensures
        m.contains_key(path) || exists|i: int|
            0 <= i < listing.len() && listing[i] is Some && reaches(
                (#[trigger] listing[i]).unwrap(),
                path,
            ),
    decreases listing.len(),
{
    if listing.len() > 0 {
        let member = listing[0].unwrap();
        let rest = listing.drop_first();
        let next = member_tree(m, content, member);
        law_mounted_nothing_else(next, content, rest, path);
        if next.contains_key(path) {
            lemma_member_adds(m, content, member, path);
            if !m.contains_key(path) {
                assert(reaches(listing[0].unwrap(), path));
            }
        } else {
            let i = choose|i: int|
                0 <= i < rest.len() && rest[i] is Some && reaches((#[trigger] rest[i]).unwrap(), path);
            assert(rest[i] == listing[i + 1]);
            assert(reaches(listing[i + 1].unwrap(), path));
        }
    }
}

} // verus!
