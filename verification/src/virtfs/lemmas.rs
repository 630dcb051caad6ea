//! How a change to a directory of entries shows in the tree of paths.

use crate::path::PartView;
use crate::virtfs::file::FileView;
use crate::virtfs::find;
use crate::virtfs::tree::clear_len;
use crate::virtfs::tree::graft;
use crate::virtfs::tree::is_file;
use crate::virtfs::tree::lemma_clear_len_bound;
use crate::virtfs::tree::lemma_clear_len_shift;
use crate::virtfs::tree::names_of;
use crate::virtfs::tree::subtree;
use crate::virtfs::tree::with_dirs;
use crate::virtfs::tree::with_file;
use crate::virtfs::tree::all_normal;
use crate::virtfs::tree::Node;
use crate::virtfs::tree::Tree;
use crate::virtfs::DirItem;
use crate::virtfs::TarDirEntry;
use vstd::prelude::*;

verus! {

pub(crate) proof fn lemma_find_hit(items: Seq<DirItem>, name: Seq<char>, from: int, i: int)
    requires
        0 <= from <= i < items.len(),
        forall|j: int| from <= j < i ==> items[j].name@ != name,
        items[i].name@ == name,
    ensures
        find(items, name, from) == Some(i),
    decreases i - from,
{
    if from < i {
        lemma_find_hit(items, name, from + 1, i);
    }
}

pub(crate) proof fn lemma_find_miss(items: Seq<DirItem>, name: Seq<char>, from: int)
    requires
        0 <= from,
        forall|j: int| from <= j < items.len() ==> items[j].name@ != name,
    ensures
        find(items, name, from) is None,
    decreases items.len() - from,
{
    if from < items.len() {
        lemma_find_miss(items, name, from + 1);
    }
}

pub(crate) proof fn lemma_find_first(items: Seq<DirItem>, name: Seq<char>, from: int)
    requires
        0 <= from,
    ensures
        match find(items, name, from) {
            Some(i) => {
                &&& from <= i < items.len()
                &&& items[i].name@ == name
                &&& forall|j: int| from <= j < i ==> items[j].name@ != name
            },
            None => forall|j: int| from <= j < items.len() ==> items[j].name@ != name,
        },
    decreases items.len() - from,
{
    if from < items.len() && items[from].name@ != name {
        lemma_find_first(items, name, from + 1);
    }
}

pub(crate) proof fn lemma_find_same(a: Seq<DirItem>, b: Seq<DirItem>, x: Seq<char>, from: int)
    requires
        a.len() == b.len(),
        forall|j: int| 0 <= j < a.len() ==> a[j].name@ == b[j].name@,
    ensures
        find(a, x, from) == find(b, x, from),
    decreases a.len() - from,
{
    if 0 <= from < a.len() && a[from].name@ != x {
        lemma_find_same(a, b, x, from + 1);
    }
}

pub(crate) proof fn lemma_find_push(a: Seq<DirItem>, item: DirItem, x: Seq<char>, from: int)
    requires
        0 <= from <= a.len(),
    ensures
        find(a.push(item), x, from) == match find(a, x, from) {
            Some(i) => Some(i),
            None => if item.name@ == x {
                Some(a.len() as int)
            } else {
                None
            },
        },
    decreases a.len() - from,
{
    let b = a.push(item);
    if from < a.len() {
        assert(b[from] == a[from]);
        if a[from].name@ != x {
            lemma_find_push(a, item, x, from + 1);
        }
    } else {
        assert(b[from] == item);
        assert(find(b, x, from + 1) is None);
    }
}

pub(crate) proof fn lemma_empty_view(dir: TarDirEntry)
    requires
        dir matches TarDirEntry::Directory(items) && items@.len() == 0,
    ensures
        dir@ =~= map![Seq::<Seq<char>>::empty() => Node::Directory],
        dir.wf(),
{
    assert forall|p: Seq<Seq<char>>| dir.at(p) is Some implies p == Seq::<Seq<char>>::empty() by {
        if p.len() > 0 {
            assert(dir.child(p[0]) is None);
        } else {
            assert(p =~= Seq::<Seq<char>>::empty());
        }
    }
    assert(dir.at(Seq::<Seq<char>>::empty()) == Some(Node::Directory));
}

pub(crate) proof fn lemma_child_at(t: TarDirEntry, name: Seq<char>, q: Seq<Seq<char>>)
    ensures
        t.at(seq![name] + q) == match t.child(name) {
            Some(c) => c.at(q),
            None => None,
        },
{
    let p = seq![name] + q;
    assert(p[0] == name);
    assert(p.drop_first() =~= q);
}

pub(crate) proof fn lemma_with_no_dirs(t: TarDirEntry)
    ensures
        t@ =~= with_dirs(t@, Seq::<Seq<char>>::empty()),
{
    let e = Seq::<Seq<char>>::empty();
    assert(t.at(e) is Some);
    assert forall|p: Seq<Seq<char>>| p.is_prefix_of(e) implies t@.contains_key(p) by {
        assert(p =~= e);
    }
}

/// What stands in a directory after one of its entries was exchanged.
pub(crate) proof fn lemma_replace_at(tm: TarDirEntry, t1: TarDirEntry, name: Seq<char>, i: int)
    requires
        tm is Directory,
        t1 is Directory,
        find(tm->Directory_0@, name, 0) == Some(i),
        t1->Directory_0@.len() == tm->Directory_0@.len(),
        0 <= i < tm->Directory_0@.len(),
        forall|j: int|
            0 <= j < tm->Directory_0@.len() && j != i ==> t1->Directory_0@[j]
                == tm->Directory_0@[j],
        t1->Directory_0@[i].name@ == name,
    ensures
        find(t1->Directory_0@, name, 0) == Some(i),
        forall|p: Seq<Seq<char>>| #[trigger]
            t1.at(p) == (if p.len() > 0 && p[0] == name {
                t1->Directory_0@[i].entry.at(p.drop_first())
            } else {
                tm.at(p)
            }),
{
    let itemsm = tm->Directory_0@;
    let items1 = t1->Directory_0@;
    lemma_find_first(itemsm, name, 0);
    lemma_find_same(itemsm, items1, name, 0);
    assert forall|p: Seq<Seq<char>>| #[trigger]
        t1.at(p) == (if p.len() > 0 && p[0] == name {
            items1[i].entry.at(p.drop_first())
        } else {
            tm.at(p)
        }) by {
        if p.len() > 0 && p[0] != name {
            lemma_find_same(itemsm, items1, p[0], 0);
            lemma_find_first(itemsm, p[0], 0);
        }
    }
}

/// What stands in a directory after an entry of a new name was added.
pub(crate) proof fn lemma_push_at(t0: TarDirEntry, tm: TarDirEntry, item: DirItem)
    requires
        t0 is Directory,
        tm is Directory,
        find(t0->Directory_0@, item.name@, 0) is None,
        tm->Directory_0@ == t0->Directory_0@.push(item),
    ensures
        find(tm->Directory_0@, item.name@, 0) == Some(t0->Directory_0@.len() as int),
        forall|p: Seq<Seq<char>>| #[trigger]
            tm.at(p) == (if p.len() > 0 && p[0] == item.name@ {
                item.entry.at(p.drop_first())
            } else {
                t0.at(p)
            }),
{
    let items0 = t0->Directory_0@;
    lemma_find_push(items0, item, item.name@, 0);
    assert forall|p: Seq<Seq<char>>| #[trigger]
        tm.at(p) == (if p.len() > 0 && p[0] == item.name@ {
            item.entry.at(p.drop_first())
        } else {
            t0.at(p)
        }) by {
        if p.len() > 0 {
            lemma_find_push(items0, item, p[0], 0);
            lemma_find_first(items0, p[0], 0);
        }
    }
}

/// A descent into the entry of a name continues as a descent from the
/// root of that entry.
pub(crate) proof fn lemma_clear_len_step(
    t0: TarDirEntry,
    c: TarDirEntry,
    name: Seq<char>,
    parts: Seq<PartView>,
)
    requires
        t0 is Directory,
        parts.len() > 0,
        parts[0] == PartView::Normal(name),
        match t0.child(name) {
            Some(e) => e == c,
            None => c matches TarDirEntry::Directory(fresh) && fresh@.len() == 0,
        },
    ensures
        clear_len(t0@, Seq::<Seq<char>>::empty(), parts) == 1 + clear_len(
            c@,
            Seq::<Seq<char>>::empty(),
            parts.drop_first(),
        ),
{
    let e = Seq::<Seq<char>>::empty();
    if t0.child(name) is None {
        lemma_empty_view(c);
    }
    assert(t0.at(e) == Some(Node::Directory));
    assert(!is_file(t0@, e));
    assert(e.push(name) =~= seq![name] + e);
    assert forall|q: Seq<Seq<char>>| is_file(t0@, seq![name] + q) == #[trigger] is_file(c@, q) by {
        lemma_child_at(t0, name, q);
    }
    lemma_clear_len_shift(t0@, c@, seq![name], e, parts.drop_first());
}

/// One step of a descent that makes directories: `tm` is `t0`, with a new
/// empty directory of that name where it had none, and `t1` is `tm` with
/// the outcome of the descent into that directory in its place.
pub(crate) proof fn lemma_descend(
    t0: TarDirEntry,
    tm: TarDirEntry,
    t1: TarDirEntry,
    name: Seq<char>,
    i: int,
    parts: Seq<PartView>,
)
    requires
        t0 is Directory,
        tm is Directory,
        t1 is Directory,
        parts.len() > 0,
        parts[0] == PartView::Normal(name),
        find(t0->Directory_0@, name, 0) is Some ==> tm->Directory_0@ == t0->Directory_0@,
        find(t0->Directory_0@, name, 0) is None ==> {
            &&& tm->Directory_0@.len() == t0->Directory_0@.len() + 1
            &&& tm->Directory_0@ == t0->Directory_0@.push(tm->Directory_0@.last())
            &&& tm->Directory_0@.last().name@ == name
            &&& tm->Directory_0@.last().entry matches TarDirEntry::Directory(fresh)
                && fresh@.len() == 0
        },
        find(tm->Directory_0@, name, 0) == Some(i),
        t1->Directory_0@.len() == tm->Directory_0@.len(),
        forall|j: int|
            0 <= j < tm->Directory_0@.len() && j != i ==> t1->Directory_0@[j]
                == tm->Directory_0@[j],
        0 <= i < tm->Directory_0@.len(),
        t1->Directory_0@[i].name@ == name,
        t1->Directory_0@[i].entry@ == with_dirs(
            tm->Directory_0@[i].entry@,
            names_of(
                parts.drop_first().take(
                    clear_len(
                        tm->Directory_0@[i].entry@,
                        Seq::<Seq<char>>::empty(),
                        parts.drop_first(),
                    ) as int,
                ),
            ),
        ),
    ensures
        clear_len(t0@, Seq::<Seq<char>>::empty(), parts) == 1 + clear_len(
            tm->Directory_0@[i].entry@,
            Seq::<Seq<char>>::empty(),
            parts.drop_first(),
        ),
        t1@ == with_dirs(
            t0@,
            names_of(parts.take(clear_len(t0@, Seq::<Seq<char>>::empty(), parts) as int)),
        ),
{
    let items0 = t0->Directory_0@;
    let itemsm = tm->Directory_0@;
    let items1 = t1->Directory_0@;
    let c = itemsm[i].entry;
    let c1 = items1[i].entry;
    let rest = parts.drop_first();
    let e = Seq::<Seq<char>>::empty();
    let kc = clear_len(c@, e, rest);
    let hit = find(items0, name, 0) is Some;
    lemma_find_first(itemsm, name, 0);
    if !hit {
        lemma_find_push(items0, itemsm.last(), name, 0);
        lemma_empty_view(c);
    }
    assert(t0.at(e) == Some(Node::Directory));
    assert(!is_file(t0@, e));
    assert(e.push(name) =~= seq![name] + e);
    assert forall|q: Seq<Seq<char>>| is_file(t0@, seq![name] + q) == #[trigger] is_file(c@, q) by {
        lemma_child_at(t0, name, q);
    }
    lemma_clear_len_shift(t0@, c@, seq![name], e, rest);
    let k = kc + 1;
    assert(clear_len(t0@, e, parts) == k);
    lemma_clear_len_bound(c@, e, rest);
    let nc = names_of(rest.take(kc as int));
    let n = names_of(parts.take(k as int));
    assert(n =~= seq![name] + nc);
    lemma_find_same(itemsm, items1, name, 0);
    assert forall|p: Seq<Seq<char>>| #[trigger] t1.at(p) == (if t0.at(p) is Some {
        t0.at(p)
    } else if p.is_prefix_of(n) {
        Some(Node::Directory)
    } else {
        None
    }) by {
        if p.len() == 0 {
            assert(t1.at(p) == Some(Node::Directory));
            assert(t0.at(p) == Some(Node::Directory));
        } else if p[0] == name {
            let q = p.drop_first();
            assert(p =~= seq![name] + q);
            lemma_child_at(t1, name, q);
            lemma_child_at(t0, name, q);
            assert(t1.at(p) == c1.at(q));
            assert(c1@.contains_key(q) == (c1.at(q) is Some));
            assert(c@.contains_key(q) == (c.at(q) is Some));
            assert(p.is_prefix_of(n) == q.is_prefix_of(nc)) by {
                if p.is_prefix_of(n) {
                    assert(q =~= nc.subrange(0, q.len() as int));
                }
                if q.is_prefix_of(nc) {
                    assert(p =~= n.subrange(0, p.len() as int));
                }
            }
            if c1.at(q) is Some {
                assert(c1@[q] == c1.at(q).unwrap());
            }
            if c.at(q) is Some {
                assert(c@[q] == c.at(q).unwrap());
            }
        } else {
            lemma_find_same(itemsm, items1, p[0], 0);
            if !hit {
                lemma_find_push(items0, itemsm.last(), p[0], 0);
            }
            lemma_find_first(itemsm, p[0], 0);
            assert(!p.is_prefix_of(n)) by {
                if p.is_prefix_of(n) {
                    assert(n.subrange(0, p.len() as int)[0] == p[0]);
                }
            }
        }
    }
    assert(t1@ =~= with_dirs(t0@, n));
}

/// A file set into a directory under a name stands there alone.
pub(crate) proof fn lemma_set_file(t0: TarDirEntry, t1: TarDirEntry, name: Seq<char>, file: FileView)
    requires
        t0 is Directory,
        t1 is Directory,
        forall|p: Seq<Seq<char>>| #[trigger]
            t1.at(p) == (if p.len() > 0 && p[0] == name {
                if p.len() == 1 {
                    Some(Node::File(file))
                } else {
                    None
                }
            } else {
                t0.at(p)
            }),
    ensures
        t1@ == with_file(with_dirs(t0@, Seq::<Seq<char>>::empty()), seq![name], file),
{
    let n = seq![name];
    lemma_with_no_dirs(t0);
    assert forall|p: Seq<Seq<char>>| #[trigger] t1.at(p) == with_file(t0@, n, file).get(p) by {
        if p.len() > 0 && p[0] == name {
            if p.len() == 1 {
                assert(p =~= n);
            } else {
                assert(n =~= p.subrange(0, 1));
            }
        } else {
            assert(p != n);
            if n.is_prefix_of(p) {
                assert(p.subrange(0, 1)[0] == p[0]);
            }
        }
    }
    assert(t1@ =~= with_file(t0@, n, file));
}

/// One step of a descent that sets a file: the file was set below the
/// entry of that name, and so it is set below this directory.
pub(crate) proof fn lemma_descend_file(
    t0: TarDirEntry,
    c: TarDirEntry,
    t1: TarDirEntry,
    c1: TarDirEntry,
    name: Seq<char>,
    parts: Seq<PartView>,
    file: FileView,
)
    requires
        t0 is Directory,
        parts.len() >= 2,
        parts[0] == PartView::Normal(name),
        match t0.child(name) {
            Some(e) => e == c,
            None => c matches TarDirEntry::Directory(fresh) && fresh@.len() == 0,
        },
        forall|p: Seq<Seq<char>>| #[trigger]
            t1.at(p) == (if p.len() > 0 && p[0] == name {
                c1.at(p.drop_first())
            } else {
                t0.at(p)
            }),
        all_normal(parts),
        c1@ == with_file(
            with_dirs(c@, names_of(parts.drop_first().take(parts.len() - 2))),
            names_of(parts.drop_first()),
            file,
        ),
    ensures
        t1@ == with_file(
            with_dirs(t0@, names_of(parts.take(parts.len() - 1))),
            names_of(parts),
            file,
        ),
{
    let rest = parts.drop_first();
    let nc_all = names_of(rest);
    let nc_par = names_of(rest.take(parts.len() - 2));
    let n_all = names_of(parts);
    let n_par = names_of(parts.take(parts.len() - 1));
    assert(n_all =~= seq![name] + nc_all);
    assert(n_par =~= seq![name] + nc_par);
    if t0.child(name) is None {
        lemma_empty_view(c);
    }
    let goal = with_file(with_dirs(t0@, n_par), n_all, file);
    assert forall|p: Seq<Seq<char>>| #[trigger] t1.at(p) == goal.get(p) by {
        if p.len() == 0 {
            assert(t0.at(p) == Some(Node::Directory));
            assert(p != n_all);
            assert(!n_all.is_prefix_of(p));
        } else if p[0] == name {
            let q = p.drop_first();
            assert(p =~= seq![name] + q);
            lemma_child_at(t0, name, q);
            assert(c1@.contains_key(q) == (c1.at(q) is Some));
            assert(c@.contains_key(q) == (c.at(q) is Some));
            assert(n_all.drop_first() =~= nc_all);
            assert((p == n_all) == (q == nc_all)) by {
                if q == nc_all {
                    assert(p =~= n_all);
                }
            }
            assert(n_all.is_prefix_of(p) == nc_all.is_prefix_of(q)) by {
                if n_all.is_prefix_of(p) {
                    let head = p.subrange(0, n_all.len() as int);
                    assert forall|j: int| 0 <= j < nc_all.len() implies nc_all[j] == q[j] by {
                        assert(n_all[j + 1] == head[j + 1]);
                    }
                    assert(nc_all =~= q.subrange(0, nc_all.len() as int));
                }
                if nc_all.is_prefix_of(q) {
                    assert(n_all =~= p.subrange(0, n_all.len() as int));
                }
            }
            assert(p.is_prefix_of(n_par) == q.is_prefix_of(nc_par)) by {
                if p.is_prefix_of(n_par) {
                    assert(q =~= nc_par.subrange(0, q.len() as int));
                }
                if q.is_prefix_of(nc_par) {
                    assert(p =~= n_par.subrange(0, p.len() as int));
                }
            }
            if c1.at(q) is Some {
                assert(c1@[q] == c1.at(q).unwrap());
            }
            if c.at(q) is Some {
                assert(c@[q] == c.at(q).unwrap());
            }
            if t0.child(name) is None && q.len() == 0 {
                assert(q.is_prefix_of(nc_par));
            }
        } else {
            assert(p != n_all);
            assert(!p.is_prefix_of(n_par)) by {
                if p.is_prefix_of(n_par) {
                    assert(n_par.subrange(0, p.len() as int)[0] == p[0]);
                }
            }
            assert(!n_all.is_prefix_of(p)) by {
                if n_all.is_prefix_of(p) {
                    assert(p.subrange(0, n_all.len() as int)[0] == p[0]);
                }
            }
        }
    }
    assert(t1@ =~= goal);
}

pub(crate) proof fn lemma_graft_child(
    t0: TarDirEntry,
    t1: TarDirEntry,
    name: Seq<char>,
    i: int,
    rest: Seq<Seq<char>>,
    sub: Tree,
)
    requires
        t0 is Directory,
        t1 is Directory,
        find(t0->Directory_0@, name, 0) == Some(i),
        0 <= i < t0->Directory_0@.len(),
        forall|p: Seq<Seq<char>>| #[trigger]
            t1.at(p) == (if p.len() > 0 && p[0] == name {
                t1->Directory_0@[i].entry.at(p.drop_first())
            } else {
                t0.at(p)
            }),
        t1->Directory_0@[i].entry@ == graft(t0->Directory_0@[i].entry@, rest, sub),
    ensures
        t1@ == graft(t0@, seq![name] + rest, sub),
{
    let c = t0->Directory_0@[i].entry;
    let c1 = t1->Directory_0@[i].entry;
    let names = seq![name] + rest;
    let goal = graft(t0@, names, sub);
    assert forall|p: Seq<Seq<char>>| #[trigger] t1.at(p) == goal.get(p) by {
        if p.len() > 0 && p[0] == name {
            let q = p.drop_first();
            assert(p =~= seq![name] + q);
            lemma_child_at(t0, name, q);
            assert(c1@.contains_key(q) == (c1.at(q) is Some));
            assert(c@.contains_key(q) == (c.at(q) is Some));
            if c1.at(q) is Some {
                assert(c1@[q] == c1.at(q).unwrap());
            }
            if c.at(q) is Some {
                assert(c@[q] == c.at(q).unwrap());
            }
            assert(names.is_prefix_of(p) == rest.is_prefix_of(q)) by {
                if names.is_prefix_of(p) {
                    let head = p.subrange(0, names.len() as int);
                    assert forall|j: int| 0 <= j < rest.len() implies rest[j] == q[j] by {
                        assert(names[j + 1] == head[j + 1]);
                    }
                    assert(rest =~= q.subrange(0, rest.len() as int));
                }
                if rest.is_prefix_of(q) {
                    assert(names =~= p.subrange(0, names.len() as int));
                }
            }
            if rest.is_prefix_of(q) {
                assert(p.skip(names.len() as int) =~= q.skip(rest.len() as int));
            }
        } else {
            assert(!names.is_prefix_of(p)) by {
                if names.is_prefix_of(p) {
                    assert(p.subrange(0, names.len() as int)[0] == names[0]);
                }
            }
        }
    }
    assert(t1@ =~= goal);
}

/// Whatever a directory becomes by an exchange of the entry at `i` for
/// one that holds a tree grafted below `rest`, it holds that tree grafted
/// below the entry's name and `rest`.
pub(crate) proof fn lemma_graft_any(t0: TarDirEntry, name: Seq<char>, i: int, rest: Seq<Seq<char>>)
    requires
        t0 is Directory,
        find(t0->Directory_0@, name, 0) == Some(i),
        0 <= i < t0->Directory_0@.len(),
    ensures
        forall|t1: TarDirEntry, sub: Tree|
            #![trigger t1@, graft(t0@, seq![name] + rest, sub)]
            {
                &&& t1 is Directory
                &&& t1->Directory_0@.len() == t0->Directory_0@.len()
                &&& forall|j: int|
                    0 <= j < t0->Directory_0@.len() && j != i ==> t1->Directory_0@[j]
                        == t0->Directory_0@[j]
                &&& t1->Directory_0@[i].name@ == name
                &&& t1->Directory_0@[i].entry@ == graft(t0->Directory_0@[i].entry@, rest, sub)
            } ==> t1@ == graft(t0@, seq![name] + rest, sub),
{
    assert forall|t1: TarDirEntry, sub: Tree|
        #![trigger t1@, graft(t0@, seq![name] + rest, sub)]
        {
            &&& t1 is Directory
            &&& t1->Directory_0@.len() == t0->Directory_0@.len()
            &&& forall|j: int|
                0 <= j < t0->Directory_0@.len() && j != i ==> t1->Directory_0@[j]
                    == t0->Directory_0@[j]
            &&& t1->Directory_0@[i].name@ == name
            &&& t1->Directory_0@[i].entry@ == graft(t0->Directory_0@[i].entry@, rest, sub)
        } implies t1@ == graft(t0@, seq![name] + rest, sub) by {
        lemma_replace_at(t0, t1, name, i);
        lemma_graft_child(t0, t1, name, i, rest, sub);
    }
}

pub(crate) proof fn lemma_walk_subtree(t: TarDirEntry, names: Seq<Seq<char>>)
    requires
        t.walk(names) is Some,
    ensures
        t.walk(names).unwrap()@ == subtree(t@, names),
    decreases names.len(),
{
    let d = t.walk(names).unwrap();
    if names.len() == 0 {
        assert forall|q: Seq<Seq<char>>| names + q == q by {
            assert(names + q =~= q);
        }
        assert(d@ =~= subtree(t@, names));
    } else {
        let c = t.child(names[0]).unwrap();
        let rest = names.drop_first();
        lemma_walk_subtree(c, rest);
        assert forall|q: Seq<Seq<char>>| #[trigger] d.at(q) == t.at(names + q) by {
            assert(names + q =~= seq![names[0]] + (rest + q));
            lemma_child_at(t, names[0], rest + q);
            assert(subtree(c@, rest).contains_key(q) == c@.contains_key(rest + q));
            assert(d@.contains_key(q) == (d.at(q) is Some));
            assert(c@.contains_key(rest + q) == (c.at(rest + q) is Some));
            if d.at(q) is Some {
                assert(d@[q] == d.at(q).unwrap());
                assert(subtree(c@, rest)[q] == c@[rest + q]);
            }
        }
        assert(d@ =~= subtree(t@, names));
    }
}

pub(crate) proof fn lemma_walk_wf(t: TarDirEntry, names: Seq<Seq<char>>)
    requires
        t.walk(names) is Some,
    ensures
        t.wf() ==> t.walk(names).unwrap().wf(),
    decreases names.len(),
{
    if names.len() > 0 {
        let c = t.child(names[0]).unwrap();
        lemma_find_first(t->Directory_0@, names[0], 0);
        lemma_walk_wf(c, names.drop_first());
    }
}

} // verus!
