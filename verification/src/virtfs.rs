//! A read-only directory tree over the members of a bundled archive.

pub mod file;
mod lemmas;
pub mod tree;

pub use crate::virtfs::file::TarFileContents;

use crate::archive::listing_view;
use crate::archive::listing;
use crate::archive::listing_of;
use crate::archive::Member;
use crate::archive::MemberKind;
use crate::error::InvalidInput;
use crate::path::components;
use crate::path::parts_view;
use crate::path::path_components;
use crate::path::PartView;
use crate::path::PathPart;
use crate::virtfs::lemmas::lemma_child_at;
use crate::virtfs::lemmas::lemma_clear_len_step;
use crate::virtfs::lemmas::lemma_descend;
use crate::virtfs::lemmas::lemma_descend_file;
use crate::virtfs::lemmas::lemma_empty_view;
use crate::virtfs::lemmas::lemma_find_first;
use crate::virtfs::lemmas::lemma_find_hit;
use crate::virtfs::lemmas::lemma_find_miss;
use crate::virtfs::lemmas::lemma_find_push;
use crate::virtfs::lemmas::lemma_graft_any;
use crate::virtfs::lemmas::lemma_push_at;
use crate::virtfs::lemmas::lemma_replace_at;
use crate::virtfs::lemmas::lemma_set_file;
use crate::virtfs::lemmas::lemma_walk_subtree;
use crate::virtfs::lemmas::lemma_walk_wf;
use crate::virtfs::lemmas::lemma_with_no_dirs;
use crate::virtfs::tree::all_normal;
use crate::virtfs::tree::clear_len;
use crate::virtfs::tree::dirs_ok;
use crate::virtfs::tree::dirs_tree;
use crate::virtfs::tree::empty_tree;
use crate::virtfs::tree::file_ok;
use crate::virtfs::tree::file_tree;
use crate::virtfs::tree::is_file;
use crate::virtfs::tree::graft;
use crate::virtfs::tree::lemma_clear_len_bound;
use crate::virtfs::tree::lemma_graft_root;
use crate::virtfs::tree::member_ok;
use crate::virtfs::tree::member_tree;
use crate::virtfs::tree::mount_spec;
use crate::virtfs::tree::names_of;
use crate::virtfs::tree::parent_of;
use crate::virtfs::tree::subtree;
use crate::virtfs::tree::with_dirs;
use crate::virtfs::tree::with_file;
use crate::virtfs::tree::Node;
use crate::virtfs::tree::Tree;
use std::rc::Rc;
use vstd::prelude::*;

verus! {

/// A named entry of a directory.
#[derive(Debug, PartialEq)]
pub struct DirItem {
    pub name: String,
    pub entry: TarDirEntry,
}

/// An entry of the tree. A directory holds its entries by name; no name
/// occurs twice in a well-formed directory. The entries stand in a
/// vector that is searched by name: of a hash map keyed by strings, with
/// trees for values, the verifier would know nothing.
#[derive(Debug, PartialEq)]
pub enum TarDirEntry {
    Directory(Vec<DirItem>),
    File(Box<TarFileContents>),
}

/// Why an archive cannot be mounted.
#[derive(Clone, Copy, Debug, PartialEq, Eq, Structural)]
pub enum MountError {
    /// The archive holds a member that cannot be read.
    Unreadable,
    /// A member's path cannot be taken into the tree.
    InvalidInput,
}

/// The first index at or after `from` whose item bears the name.
pub open spec fn find(items: Seq<DirItem>, name: Seq<char>, from: int) -> Option<int>
    decreases items.len() - from,
{
    if from < 0 || from >= items.len() {
        None
    } else if items[from].name@ == name {
        Some(from)
    } else {
        find(items, name, from + 1)
    }
}

impl TarDirEntry {
    /// What this entry is, without what it holds.
    pub open spec fn node(self) -> Node {
        match self {
            TarDirEntry::Directory(_) => Node::Directory,
            TarDirEntry::File(file) => Node::File(file@),
        }
    }

    /// The entry of that name in this directory.
    pub open spec fn child(self, name: Seq<char>) -> Option<TarDirEntry> {
        match self {
            TarDirEntry::Directory(items) => match find(items@, name, 0) {
                Some(i) => Some(items@[i].entry),
                None => None,
            },
            TarDirEntry::File(_) => None,
        }
    }

    /// The entry reached by descending through the names in turn.
    pub open spec fn walk(self, names: Seq<Seq<char>>) -> Option<TarDirEntry>
        decreases names.len(),
    {
        if names.len() == 0 {
            Some(self)
        } else {
            match self.child(names[0]) {
                Some(c) => c.walk(names.drop_first()),
                None => None,
            }
        }
    }

    /// What stands at a path below this entry.
    pub open spec fn at(self, names: Seq<Seq<char>>) -> Option<Node> {
        match self.walk(names) {
            Some(e) => Some(e.node()),
            None => None,
        }
    }

    /// No directory of the tree holds a name twice.
    pub open spec fn wf(self) -> bool
        decreases self,
    {
        match self {
            TarDirEntry::Directory(items) => {
                &&& forall|i: int, j: int|
                    0 <= i < j < items@.len() ==> items@[i].name@ != items@[j].name@
                &&& forall|i: int| 0 <= i < items@.len() ==> (#[trigger] items@[i]).entry.wf()
            },
            TarDirEntry::File(_) => true,
        }
    }

    /// What a lookup by components finds: the path must be made of plain
    /// names, at least one, and each must lead on.
    pub open spec fn lookup_spec(self, parts: Seq<PartView>) -> Option<TarDirEntry> {
        if parts.len() > 0 && all_normal(parts) {
            self.walk(names_of(parts))
        } else {
            None
        }
    }
}

impl View for TarDirEntry {
    type V = Tree;

    open spec fn view(&self) -> Tree {
        Map::new(|p: Seq<Seq<char>>| self.at(p) is Some, |p: Seq<Seq<char>>| self.at(p).unwrap())
    }
}

/// The index of the item that bears the name.
fn find_child(items: &Vec<DirItem>, name: &String) -> (r: Option<usize>)
    ensures
        match r {
            Some(i) => i < items.len() && find(items@, name@, 0) == Some(i as int),
            None => find(items@, name@, 0) is None,
        },
{
    let mut i: usize = 0;
    while i < items.len()
        invariant
            i <= items.len(),
            forall|j: int| 0 <= j < i ==> items@[j].name@ != name@,
        decreases items.len() - i,
    {
        if items[i].name == *name {
            proof {
                lemma_find_hit(items@, name@, 0, i as int);
            }
            return Some(i);
        }
        i += 1;
    }
    proof {
        lemma_find_miss(items@, name@, 0);
    }
    None
}

impl TarDirEntry {
    /// A directory that holds nothing.
    pub fn empty_directory() -> (dir: Self)
        ensures
            dir matches TarDirEntry::Directory(items) && items@.len() == 0,
            dir@ == empty_tree(),
            dir.wf(),
    {
        let dir = TarDirEntry::Directory(Vec::new());
        proof {
            lemma_empty_view(dir);
        }
        dir
    }

    /// Descends through the components from index `from`, making each
    /// directory that is missing, and fails before the first component
    /// that is no plain name and where it stands on a file.
    fn make_dirs(&mut self, parts: &Vec<PathPart>, from: usize) -> (r: Result<(), InvalidInput>)
        requires
            from <= parts.len(),
        ensures
            final(self)@ == dirs_tree(old(self)@, parts_view(parts@).skip(from as int)),
            r is Ok <==> dirs_ok(old(self)@, parts_view(parts@).skip(from as int)),
            old(self).wf() ==> final(self).wf(),
        decreases parts.len() - from,
    {
        let ghost ps = parts_view(parts@).skip(from as int);
        let ghost t0 = *self;
        proof {
            lemma_with_no_dirs(t0);
            assert(ps.take(0) =~= Seq::<PartView>::empty());
            assert(names_of(Seq::<PartView>::empty()) =~= Seq::<Seq<char>>::empty());
        }
        if from >= parts.len() {
            proof {
                assert(names_of(ps) =~= Seq::<Seq<char>>::empty());
                assert(t0.at(Seq::<Seq<char>>::empty()) == Some(t0.node()));
            }
            return match self {
                TarDirEntry::Directory(_) => Ok(()),
                TarDirEntry::File(_) => Err(InvalidInput),
            };
        }
        assert(ps[0] == parts@[from as int]@);
        assert(ps.drop_first() =~= parts_view(parts@).skip(from as int + 1));
        let name = match &parts[from] {
            PathPart::Normal(name) => name,
            _ => {
                return Err(InvalidInput);
            },
        };
        let ghost tm = t0;
        let ghost at: int = 0;
        let r;
        match self {
            TarDirEntry::Directory(items) => {
                let i = match find_child(items, name) {
                    Some(i) => i,
                    None => {
                        let ghost before = items@;
                        let fresh = DirItem {
                            name: name.clone(),
                            entry: TarDirEntry::Directory(Vec::new()),
                        };
                        proof {
                            lemma_find_push(before, fresh, name@, 0);
                            lemma_find_first(before, name@, 0);
                            lemma_empty_view(fresh.entry);
                        }
                        items.push(fresh);
                        items.len() - 1
                    },
                };
                proof {
                    tm = TarDirEntry::Directory(*items);
                    at = i as int;
                    lemma_find_first(items@, name@, 0);
                }
                r = items[i].entry.make_dirs(parts, from + 1);
            },
            TarDirEntry::File(_) => {
                assert(t0.at(Seq::<Seq<char>>::empty()) == Some(t0.node()));
                return Err(InvalidInput);
            },
        }
        proof {
            lemma_descend(t0, tm, *self, name@, at, ps);
            if t0.wf() {
                lemma_find_first(t0->Directory_0@, name@, 0);
            }
            let rest = ps.drop_first();
            let c = tm->Directory_0@[at].entry;
            assert(names_of(ps) =~= seq![name@] + names_of(rest));
            lemma_child_at(t0, name@, names_of(rest));
            if find(t0->Directory_0@, name@, 0) is None {
                lemma_empty_view(c);
                assert(names_of(rest).len() > 0 ==> !c@.contains_key(names_of(rest)));
            }
            assert(is_file(t0@, names_of(ps)) == is_file(c@, names_of(rest)));
        }
        r
    }

    /// Descends through the components from index `from` to the entry
    /// that they name, which is there.
    fn descend(&mut self, parts: &Vec<PathPart>, from: usize) -> (ret: &mut TarDirEntry)
        requires
            from <= parts.len(),
            all_normal(parts_view(parts@)),
            old(self).walk(names_of(parts_view(parts@).skip(from as int))) is Some,
        ensures
            Some(*ret) == old(self).walk(names_of(parts_view(parts@).skip(from as int))),
            final(self)@ == graft(
                old(self)@,
                names_of(parts_view(parts@).skip(from as int)),
                final(ret)@,
            ),
            old(self).wf() && final(ret).wf() ==> final(self).wf(),
        decreases parts.len() - from,
    {
        let ghost ps = parts_view(parts@).skip(from as int);
        let ghost names = names_of(ps);
        let ghost t0 = *self;
        if from >= parts.len() {
            proof {
                assert(names =~= Seq::<Seq<char>>::empty());
                lemma_graft_root(old(self)@, final(self)@);
            }
            return self;
        }
        proof {
            assert(ps[0] == parts@[from as int]@);
            assert(parts_view(parts@)[from as int] is Normal);
            assert(ps.drop_first() =~= parts_view(parts@).skip(from as int + 1));
            assert(names.drop_first() =~= names_of(ps.drop_first()));
        }
        let name = match &parts[from] {
            PathPart::Normal(name) => name,
            _ => {
                assert(false);
                return self;
            },
        };
        match self {
            TarDirEntry::Directory(items) => {
                let i = match find_child(items, name) {
                    Some(i) => i,
                    None => {
                        assert(false);
                        0
                    },
                };
                let ghost before = items@;
                proof {
                    lemma_find_first(before, name@, 0);
                }
                proof {
                    assert(names =~= seq![name@] + names_of(ps.drop_first()));
                    lemma_graft_any(t0, name@, i as int, names_of(ps.drop_first()));
                }
                items[i].entry.descend(parts, from + 1)
            },
            TarDirEntry::File(_) => {
                assert(false);
                self
            },
        }
    }

    /// Makes the directories that a path split into components names,
    /// as far as the path can be entered, and hands out the entry at the
    /// end of the path.
    ///
    /// The descent enters plain names only and does not pass through a
    /// file: it fails at the first component that is not a plain name and
    /// where it stands on a file, be it with components left or at the
    /// end of the path. The directories made before that stay. The entry
    /// handed out is a directory, and what the caller makes of it stands
    /// in the tree at the path.
    pub fn populate_directory_parts(&mut self, parts: &Vec<PathPart>) -> (r: Result<
        &mut TarDirEntry,
        InvalidInput,
    >)
        ensures
            r is Ok <==> dirs_ok(old(self)@, parts_view(parts@)),
            match r {
                Ok(dir) => {
                    &&& *dir is Directory
                    &&& dir@ == subtree(
                        dirs_tree(old(self)@, parts_view(parts@)),
                        names_of(parts_view(parts@)),
                    )
                    &&& final(self)@ == graft(
                        dirs_tree(old(self)@, parts_view(parts@)),
                        names_of(parts_view(parts@)),
                        final(dir)@,
                    )
                    &&& old(self).wf() ==> dir.wf()
                    &&& old(self).wf() && final(dir).wf() ==> final(self).wf()
                },
                Err(_) => {
                    &&& final(self)@ == dirs_tree(old(self)@, parts_view(parts@))
                    &&& old(self).wf() ==> final(self).wf()
                },
            },
    {
        let ghost ps = parts_view(parts@);
        proof {
            assert(ps.skip(0) =~= ps);
        }
        match self.make_dirs(parts, 0) {
            Ok(()) => {
                proof {
                    lemma_clear_len_bound(old(self)@, Seq::<Seq<char>>::empty(), ps);
                    assert(ps.take(ps.len() as int) =~= ps);
                    assert(names_of(ps).is_prefix_of(names_of(ps)));
                    assert(self@.contains_key(names_of(ps)));
                    lemma_walk_subtree(*self, names_of(ps));
                    lemma_walk_wf(*self, names_of(ps));
                    assert(self.at(names_of(ps)) == Some(self@[names_of(ps)]));
                }
                Ok(self.descend(parts, 0))
            },
            Err(e) => Err(e),
        }
    }

    /// Makes the directories that a path names: see
    /// [`TarDirEntry::populate_directory_parts`].
    pub fn populate_directory(&mut self, path: &str) -> (r: Result<&mut TarDirEntry, InvalidInput>)
        ensures
            r is Ok <==> dirs_ok(old(self)@, path_components(path@)),
            match r {
                Ok(dir) => {
                    &&& *dir is Directory
                    &&& dir@ == subtree(
                        dirs_tree(old(self)@, path_components(path@)),
                        names_of(path_components(path@)),
                    )
                    &&& final(self)@ == graft(
                        dirs_tree(old(self)@, path_components(path@)),
                        names_of(path_components(path@)),
                        final(dir)@,
                    )
                    &&& old(self).wf() ==> dir.wf()
                    &&& old(self).wf() && final(dir).wf() ==> final(self).wf()
                },
                Err(_) => {
                    &&& final(self)@ == dirs_tree(old(self)@, path_components(path@))
                    &&& old(self).wf() ==> final(self).wf()
                },
            },
    {
        let parts = components(path);
        self.populate_directory_parts(&parts)
    }

    /// Descends through the components from index `from` as
    /// [`TarDirEntry::make_dirs`] does through all but the last, and sets
    /// the file under the last.
    fn put_file(&mut self, parts: &Vec<PathPart>, from: usize, file: TarFileContents) -> (r:
        Result<(), InvalidInput>)
        requires
            from < parts.len(),
        ensures
            ({
                let ps = parts_view(parts@).skip(from as int);
                let parent = parent_of(ps);
                let k = clear_len(old(self)@, Seq::<Seq<char>>::empty(), parent);
                &&& r is Ok <==> clear_len(old(self)@, Seq::<Seq<char>>::empty(), ps) == ps.len()
                &&& r is Ok ==> final(self)@ == with_file(
                    with_dirs(old(self)@, names_of(parent)),
                    names_of(ps),
                    file@,
                )
                &&& r is Err ==> final(self)@ == with_dirs(
                    old(self)@,
                    names_of(parent.take(k as int)),
                )
                &&& old(self).wf() ==> final(self).wf()
            }),
        decreases parts.len() - from,
    {
        let ghost e = Seq::<Seq<char>>::empty();
        let ghost ps = parts_view(parts@).skip(from as int);
        let ghost parent = parent_of(ps);
        let ghost rest = ps.drop_first();
        let ghost t0 = *self;
        let ghost fv = file@;
        proof {
            lemma_with_no_dirs(t0);
            assert(parent.take(0) =~= Seq::<PartView>::empty());
            assert(names_of(Seq::<PartView>::empty()) =~= e);
            assert(ps[0] == parts@[from as int]@);
            assert(rest =~= parts_view(parts@).skip(from as int + 1));
            assert(t0.at(e) == Some(t0.node()));
            if parent.len() > 0 {
                assert(parent[0] == ps[0]);
                assert(parent.drop_first() =~= rest.take(rest.len() - 1));
            }
        }
        let name = match &parts[from] {
            PathPart::Normal(name) => name,
            _ => {
                return Err(InvalidInput);
            },
        };
        let last = from + 1 == parts.len();
        let ghost tm = t0;
        let ghost at: int = 0;
        let r;
        match self {
            TarDirEntry::Directory(items) => {
                if last {
                    match find_child(items, name) {
                        Some(i) => {
                            proof {
                                at = i as int;
                                lemma_find_first(items@, name@, 0);
                            }
                            items[i].entry = TarDirEntry::File(Box::new(file));
                        },
                        None => {
                            let fresh = DirItem {
                                name: name.clone(),
                                entry: TarDirEntry::File(Box::new(file)),
                            };
                            proof {
                                lemma_find_first(items@, name@, 0);
                                at = items@.len() as int;
                            }
                            items.push(fresh);
                        },
                    }
                    r = Ok(());
                } else {
                    let i = match find_child(items, name) {
                        Some(i) => i,
                        None => {
                            let ghost before = items@;
                            let fresh = DirItem {
                                name: name.clone(),
                                entry: TarDirEntry::Directory(Vec::new()),
                            };
                            proof {
                                lemma_find_push(before, fresh, name@, 0);
                                lemma_find_first(before, name@, 0);
                                lemma_empty_view(fresh.entry);
                            }
                            items.push(fresh);
                            items.len() - 1
                        },
                    };
                    proof {
                        tm = TarDirEntry::Directory(*items);
                        at = i as int;
                        lemma_find_first(items@, name@, 0);
                    }
                    r = items[i].entry.put_file(parts, from + 1, file);
                }
            },
            TarDirEntry::File(_) => {
                return Err(InvalidInput);
            },
        }
        proof {
            let t1 = *self;
            let items0 = t0->Directory_0@;
            let items1 = t1->Directory_0@;
            lemma_find_first(items0, name@, 0);
            if last {
                assert(rest.len() == 0);
                assert(parent =~= Seq::<PartView>::empty());
                assert(clear_len(t0@, e.push(name@), rest) == 0);
                assert(clear_len(t0@, e, ps) == 1);
                assert(items1[at].entry is File);
                assert(items1[at].entry.wf());
                assert(names_of(ps) =~= seq![name@]);
                if find(items0, name@, 0) is Some {
                    lemma_replace_at(t0, t1, name@, at);
                } else {
                    lemma_push_at(t0, t1, items1.last());
                }
                assert forall|p: Seq<Seq<char>>| #[trigger]
                    t1.at(p) == (if p.len() > 0 && p[0] == name@ {
                        if p.len() == 1 {
                            Some(Node::File(fv))
                        } else {
                            None
                        }
                    } else {
                        t0.at(p)
                    }) by {
                    if p.len() > 1 && p[0] == name@ {
                        assert(p.drop_first().len() > 0);
                    }
                }
                lemma_set_file(t0, t1, name@, fv);
            } else {
                let c = tm->Directory_0@[at].entry;
                let c1 = items1[at].entry;
                if find(items0, name@, 0) is None {
                    lemma_push_at(t0, tm, tm->Directory_0@.last());
                }
                lemma_replace_at(tm, t1, name@, at);
                lemma_clear_len_step(t0, c, name@, ps);
                if r is Ok {
                    lemma_clear_len_bound(t0@, e, ps);
                    lemma_descend_file(t0, c, t1, c1, name@, ps, fv);
                } else {
                    lemma_descend(t0, tm, t1, name@, at, parent);
                }
            }
        }
        r
    }

    /// Sets a file at the path that the components name, making the
    /// directories above it that are missing.
    ///
    /// It succeeds where the path is made of plain names, at least one,
    /// and no file stands above its end; the file then takes the place of
    /// whatever stood at the path and below. Where it fails, the
    /// directories made before the failure stay.
    pub fn populate_file_parts(&mut self, parts: &Vec<PathPart>, file: TarFileContents) -> (r:
        Result<(), InvalidInput>)
        ensures
            final(self)@ == file_tree(old(self)@, parts_view(parts@), file@),
            r is Ok <==> file_ok(old(self)@, parts_view(parts@)),
            old(self).wf() ==> final(self).wf(),
    {
        proof {
            assert(parts_view(parts@).skip(0) =~= parts_view(parts@));
        }
        if parts.len() == 0 {
            proof {
                lemma_with_no_dirs(*self);
                let ps = parts_view(parts@);
                assert(parent_of(ps).take(0) =~= Seq::<PartView>::empty());
                assert(names_of(Seq::<PartView>::empty()) =~= Seq::<Seq<char>>::empty());
            }
            return Err(InvalidInput);
        }
        self.put_file(parts, 0, file)
    }

    /// Takes one member of an archive into the tree: a regular file is
    /// set at its path, with the directories above it; a directory is
    /// made, with those above it; any other member is passed over.
    /// `content` is the archive that the member belongs to.
    pub fn populate(&mut self, content: Rc<[u8]>, entry: &Member) -> (r: Result<(), InvalidInput>)
        ensures
            final(self)@ == member_tree(old(self)@, content@, entry@),
            r is Ok <==> member_ok(old(self)@, entry@),
            old(self).wf() ==> final(self).wf(),
    {
        match entry.kind {
            MemberKind::Regular => {
                match &entry.path {
                    Some(path) => {
                        let parts = components(path.as_str());
                        let file = TarFileContents::new(content, entry.position);
                        self.populate_file_parts(&parts, file)
                    },
                    None => Err(InvalidInput),
                }
            },
            MemberKind::Directory => {
                match &entry.path {
                    Some(path) => {
                        let parts = components(path.as_str());
                        proof {
                            assert(parts_view(parts@).skip(0) =~= parts_view(parts@));
                        }
                        self.make_dirs(&parts, 0)
                    },
                    None => Err(InvalidInput),
                }
            },
            MemberKind::Other => Ok(()),
        }
    }

    /// Takes the members of a listing of the archive `content` into the
    /// tree, in their order, and stops at the first that could not be read
    /// or cannot be taken in.
    pub fn populate_listing(&mut self, content: Rc<[u8]>, listing: &Vec<Option<Member>>) -> (r:
        Result<(), MountError>)
        ensures
            match mount_spec(old(self)@, content@, listing_view(listing@)) {
                Ok(tree) => r is Ok && final(self)@ == tree,
                Err(e) => r == Err::<(), MountError>(e),
            },
            old(self).wf() ==> final(self).wf(),
    {
        let ghost all = listing_view(listing@);
        let mut i: usize = 0;
        proof {
            assert(all.skip(0) =~= all);
        }
        while i < listing.len()
            invariant
                i <= listing.len(),
                all == listing_view(listing@),
                old(self).wf() ==> self.wf(),
                mount_spec(old(self)@, content@, all) == mount_spec(
                    self@,
                    content@,
                    all.skip(i as int),
                ),
            decreases listing.len() - i,
        {
            proof {
                assert(all.skip(i as int)[0] == all[i as int]);
                assert(all.skip(i as int).drop_first() =~= all.skip(i as int + 1));
            }
            match &listing[i] {
                Some(member) => {
                    if self.populate(content.clone(), member).is_err() {
                        return Err(MountError::InvalidInput);
                    }
                },
                None => {
                    return Err(MountError::Unreadable);
                },
            }
            i += 1;
        }
        Ok(())
    }

    /// Takes the members of an archive into the tree, in the archive's
    /// order, and stops at the first that cannot be read or taken in.
    pub fn populate_all(&mut self, content: Rc<[u8]>) -> (r: Result<(), MountError>)
        ensures
            match mount_spec(old(self)@, content@, listing_of(content@)) {
                Ok(tree) => r is Ok && final(self)@ == tree,
                Err(e) => r == Err::<(), MountError>(e),
            },
            old(self).wf() ==> final(self).wf(),
    {
        let all = listing(&content);
        self.populate_listing(content, &all)
    }

    /// Mounts an archive: takes its members into an empty tree.
    pub fn mount(content: Rc<[u8]>) -> (r: Result<TarDirEntry, MountError>)
        ensures
            match mount_spec(empty_tree(), content@, listing_of(content@)) {
                Ok(tree) => r matches Ok(root) && root@ == tree && root.wf(),
                Err(e) => r == Err::<TarDirEntry, MountError>(e),
            },
    {
        let mut root = TarDirEntry::empty_directory();
        match root.populate_all(content) {
            Ok(()) => Ok(root),
            Err(e) => Err(e),
        }
    }

    /// Finds the entry that a path split into components names. Only a
    /// path of plain names, at least one, finds anything.
    pub fn lookup_parts<'a>(&'a self, parts: &Vec<PathPart>) -> (r: Option<&'a TarDirEntry>)
        ensures
            match r {
                Some(e) => self.lookup_spec(parts_view(parts@)) == Some(*e),
                None => self.lookup_spec(parts_view(parts@)) is None,
            },
    {
        if parts.len() == 0 {
            return None;
        }
        let ghost names = names_of(parts_view(parts@));
        let mut dir: &TarDirEntry = self;
        let mut i: usize = 0;
        proof {
            assert(names.skip(0) =~= names);
        }
        while i < parts.len()
            invariant
                i <= parts.len(),
                names == names_of(parts_view(parts@)),
                forall|j: int| 0 <= j < i ==> parts_view(parts@)[j] is Normal,
                self.walk(names) == dir.walk(names.skip(i as int)),
            decreases parts.len() - i,
        {
            let name = match &parts[i] {
                PathPart::Normal(name) => name,
                _ => {
                    assert(!(parts_view(parts@)[i as int] is Normal));
                    return None;
                },
            };
            assert(parts_view(parts@)[i as int] is Normal);
            assert(names.skip(i as int)[0] == name@);
            assert(names.skip(i as int).drop_first() =~= names.skip(i as int + 1));
            let items = match dir {
                TarDirEntry::Directory(items) => items,
                TarDirEntry::File(_) => {
                    return None;
                },
            };
            match find_child(items, name) {
                Some(k) => {
                    dir = &items[k].entry;
                },
                None => {
                    return None;
                },
            }
            i += 1;
        }
        proof {
            assert(names.skip(i as int).len() == 0);
        }
        Some(dir)
    }

    /// Finds the entry that a path names.
    pub fn lookup<'a>(&'a self, path: &str) -> (r: Option<&'a TarDirEntry>)
        ensures
            match r {
                Some(e) => self.lookup_spec(path_components(path@)) == Some(*e),
                None => self.lookup_spec(path_components(path@)) is None,
            },
    {
        let parts = components(path);
        self.lookup_parts(&parts)
    }
}

/// In every tree, what stands above an entry is a directory: nothing
/// stands below a file, and no entry is without its parents.
pub proof fn law_ancestors_are_directories(
    root: TarDirEntry,
    path: Seq<Seq<char>>,
    above: Seq<Seq<char>>,
)
    requires
        root@.contains_key(path),
        above.is_prefix_of(path),
        above != path,
    ensures
        root@.contains_key(above),
        root@[above] is Directory,
    decreases above.len(),
{
    if above.len() == 0 {
        if path.len() == 0 {
            assert(path =~= above);
        }
        assert(root.at(above) == Some(root.node()));
        assert(root.child(path[0]) is Some);
    } else {
        let name = path[0];
        assert(above[0] == above.subrange(0, above.len() as int)[0]);
        assert(above[0] == path.subrange(0, above.len() as int)[0]);
        let c = root.child(name).unwrap();
        let p = path.drop_first();
        let a = above.drop_first();
        assert(a.is_prefix_of(p)) by {
            assert(above =~= path.subrange(0, above.len() as int));
            assert(a =~= p.subrange(0, a.len() as int));
        }
        assert(a != p) by {
            if a == p {
                assert(above =~= path);
            }
        }
        assert(c.at(p) == root.at(path));
        law_ancestors_are_directories(c, p, a);
        assert(c.at(a) == root.at(above));
    }
}

/// A lookup finds what the tree holds at the path's names, and finds
/// nothing for a path that is empty or has a component that is no plain
/// name.
pub proof fn law_lookup_reads_tree(root: TarDirEntry, parts: Seq<PartView>)
    ensures
        match root.lookup_spec(parts) {
            Some(entry) => {
                &&& parts.len() > 0
                &&& all_normal(parts)
                &&& root@.contains_key(names_of(parts))
                &&& root@[names_of(parts)] == entry.node()
            },
            None => parts.len() == 0 || !all_normal(parts) || !root@.contains_key(
                names_of(parts),
            ),
        },
{
}

} // verus!
