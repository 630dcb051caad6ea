//! The members of a tar archive, as the `tar` crate reads them.

use vstd::prelude::*;

verus! {

/// What kind of member an archive header announces.
#[derive(Clone, Copy, Debug, PartialEq, Eq, Structural)]
pub enum MemberKind {
    /// A regular file.
    Regular,
    /// A directory.
    Directory,
    /// Anything else: links, devices, extension records.
    Other,
}

/// One member of an archive, reduced to what the loader reads of it.
#[derive(Clone, Debug, PartialEq, Eq)]
pub struct Member {
    /// The type flag of the header.
    pub kind: MemberKind,
    /// The path in the header; absent where it is not valid UTF-8.
    pub path: Option<String>,
    /// Where in the archive the member's data begins.
    pub position: u64,
    /// The size field of the header; absent where it cannot be read.
    pub size: Option<u64>,
}

/// A member with its path as a sequence of characters.
pub struct MemberView {
    pub kind: MemberKind,
    pub path: Option<Seq<char>>,
    pub position: u64,
    pub size: Option<u64>,
}

impl View for Member {
    type V = MemberView;

    open spec fn view(&self) -> MemberView {
        MemberView {
            kind: self.kind,
            path: match self.path {
                Some(p) => Some(p@),
                None => None,
            },
            position: self.position,
            size: self.size,
        }
    }
}

/// The views of a listing: `None` stands for a member that could not be
/// read.
pub open spec fn listing_view(items: Seq<Option<Member>>) -> Seq<Option<MemberView>> {
    Seq::new(
        items.len(),
        |i: int|
            match items[i] {
                Some(m) => Some(m@),
                None => None,
            },
    )
}

/// The members that a raw walk with `tar::Archive::entries` yields for an
/// archive, in order; nothing where the archive cannot be walked.
pub uninterp spec fn tar_members(content: Seq<u8>) -> Option<Seq<Option<MemberView>>>;

/// The bytes that reading the member at an index of that walk to its end
/// yields.
pub uninterp spec fn tar_member_data(content: Seq<u8>, index: int) -> Option<Seq<u8>>;

/// The listing of an archive: its members in order, `None` for one that
/// cannot be read. An archive that cannot be walked at all counts as one
/// unreadable member. Every header is a member of its own: a record that
/// extends the header after it, with a long name or a size, is a member
/// of another kind, and what it says is not applied to that header.
pub open spec fn listing_of(content: Seq<u8>) -> Seq<Option<MemberView>> {
    match tar_members(content) {
        Some(all) => all,
        None => seq![None],
    }
}

/// Whether the data of each member begin after the data of those before
/// it.
pub open spec fn increasing(all: Seq<Option<MemberView>>) -> bool {
    forall|i: int, j: int|
        0 <= i < j < all.len() && all[i] is Some && all[j] is Some ==> (#[trigger] all[i]).unwrap().position
            < (#[trigger] all[j]).unwrap().position
}

/// The part of some data that a reader yields that passes over `skip`
/// bytes and then reads up to `len` bytes.
pub open spec fn window(data: Seq<u8>, skip: int, len: int) -> Seq<u8> {
    let from = if skip <= data.len() {
        skip
    } else {
        data.len() as int
    };
    let to = if from + len <= data.len() {
        from + len
    } else {
        data.len() as int
    };
    data.subrange(from, to)
}

/// Walks an archive with `tar::Archive::entries`, raw, so that every
/// header is a member of its own, and hands out of each member the type
/// flag, the header's path, the position of its data and the header's
/// size. Trusted: the result is what that iterator yields, in its order,
/// an unreadable member as `None`, and nothing where the walk cannot
/// begin; the data of each member begin after its header, which follows
/// the members before it.
#[verifier::external_body]
fn members(content: &[u8]) -> (all: Option<Vec<Option<Member>>>)
    ensures
        match all {
            Some(found) => tar_members(content@) == Some(listing_view(found@)) && increasing(
                listing_view(found@),
            ),
            None => tar_members(content@).is_none(),
        },
{
    let mut archive = tar::Archive::new(content);
    let entries = archive.entries().ok()?.raw(true);
    Some(entries.map(|e| e.ok().map(|e| Member {
        kind: match e.header().entry_type() {
            tar::EntryType::Regular => MemberKind::Regular,
            tar::EntryType::Directory => MemberKind::Directory,
            _ => MemberKind::Other,
        },
        path: e.header().path().ok().and_then(|p| p.to_str().map(String::from)),
        position: e.raw_file_position(),
        size: e.header().size().ok(),
    })).collect())
}

/// Lists the members of an archive: see [`listing_of`].
pub fn listing(content: &[u8]) -> (all: Vec<Option<Member>>)
    ensures
        listing_view(all@) == listing_of(content@),
        increasing(listing_view(all@)),
{
    match members(content) {
        Some(all) => all,
        None => {
            let mut all: Vec<Option<Member>> = Vec::new();
            all.push(None);
            proof {
                assert(listing_view(all@) =~= seq![None::<MemberView>]);
            }
            all
        },
    }
}

/// Reads from the member at an index of the raw walk through
/// `tar::Entry`'s reader: passes over `skip` bytes and reads up to `len`
/// bytes. Trusted: the result is that part of the bytes that the reader
/// yields to its end, and nothing where the archive has no readable
/// member at that index.
#[verifier::external_body]
pub(crate) fn member_window(content: &[u8], index: usize, skip: u64, len: usize) -> (bytes: Option<
    Vec<u8>,
>)
    ensures
        match tar_member_data(content@, index as int) {
            Some(data) => bytes matches Some(found) && found@ == window(
                data,
                skip as int,
                len as int,
            ),
            None => bytes is None,
        },
{
    let mut archive = tar::Archive::new(content);
    let mut entry = archive.entries().ok()?.raw(true).nth(index)?.ok()?;
    std::io::copy(&mut std::io::Read::take(&mut entry, skip), &mut std::io::sink()).ok()?;
    let mut bytes = Vec::new();
    std::io::Read::read_to_end(&mut std::io::Read::take(&mut entry, len as u64), &mut bytes).ok()?;
    Some(bytes)
}

} // verus!
