//! The files of the tree: reads through the archive that holds them.

use crate::archive::increasing;
use crate::archive::listing_view;
use crate::archive::member_window;
use crate::archive::window;
use crate::archive::listing;
use crate::archive::tar_member_data;
use crate::archive::listing_of;
use crate::archive::Member;
use crate::archive::MemberView;
use crate::error::Errno;
use std::rc::Rc;
use vstd::prelude::*;

verus! {

/// A file of the tree: the shared archive and the position of the
/// member's data in it.
#[derive(Clone, Debug, PartialEq)]
pub struct TarFileContents {
    content: Rc<[u8]>,
    offset: u64,
}

/// What a file is: the archive's bytes and the position of its data.
pub struct FileView {
    pub content: Seq<u8>,
    pub offset: u64,
}

impl View for TarFileContents {
    type V = FileView;

    closed spec fn view(&self) -> FileView {
        FileView { content: self.content@, offset: self.offset }
    }
}

/// The index of the member whose data begins at `offset`, among the
/// members from `from` on that come before the first unreadable one.
pub open spec fn locate(listing: Seq<Option<MemberView>>, offset: u64, from: int) -> Option<int>
    decreases listing.len() - from,
{
    if from < 0 || from >= listing.len() {
        None
    } else {
        match listing[from] {
            Some(member) => if member.position == offset {
                Some(from)
            } else {
                locate(listing, offset, from + 1)
            },
            None => None,
        }
    }
}

/// The size that a listing states for the member whose data begins at
/// `offset`.
pub open spec fn listed_size(listing: Seq<Option<MemberView>>, offset: u64) -> Result<u64, Errno> {
    match locate(listing, offset, 0) {
        Some(i) => match listing[i].unwrap().size {
            Some(size) => Ok(size),
            None => Err(Errno::Io),
        },
        None => Err(Errno::Noent),
    }
}

/// The size that the header of a file's member states.
pub open spec fn size_spec(file: FileView) -> Result<u64, Errno> {
    listed_size(listing_of(file.content), file.offset)
}

/// The bytes that a read of at most `len` bytes at `offset` yields from a
/// member with these data and this stated size: the read ends at the
/// stated size, and fails where the data end before it.
pub open spec fn read_spec(data: Seq<u8>, size: int, len: int, offset: int) -> Result<
    Seq<u8>,
    Errno,
> {
    let count = if offset >= size {
        0
    } else if len <= size - offset {
        len
    } else {
        size - offset
    };
    let skip = if offset <= data.len() {
        offset
    } else {
        data.len() as int
    };
    if skip + count <= data.len() {
        Ok(data.subrange(skip, skip + count))
    } else {
        Err(Errno::Io)
    }
}

/// The bytes that a read of at most `len` bytes at `offset` yields from a
/// file, or why it fails.
pub open spec fn pread_spec(file: FileView, len: int, offset: int) -> Result<Seq<u8>, Errno> {
    let listing = listing_of(file.content);
    match locate(listing, file.offset, 0) {
        None => Err(Errno::Noent),
        Some(i) => if offset > usize::MAX {
            Err(Errno::Inval)
        } else {
            match listing[i].unwrap().size {
                None => Err(Errno::Io),
                Some(size) => if size > usize::MAX {
                    Err(Errno::Overflow)
                } else {
                    match tar_member_data(file.content, i) {
                        None => Err(Errno::Io),
                        Some(data) => read_spec(data, size as int, len, offset),
                    }
                },
            }
        },
    }
}

/// The bytes of a file from its start to its stated size, or why they
/// cannot be had.
pub open spec fn contents_spec(file: FileView) -> Result<Seq<u8>, Errno> {
    match size_spec(file) {
        Ok(size) => if size > usize::MAX {
            Err(Errno::Overflow)
        } else {
            pread_spec(file, size as int, 0)
        },
        Err(e) => Err(e),
    }
}

/// The lengths of the buffers.
pub open spec fn lens_of(bufs: Seq<Vec<u8>>) -> Seq<int> {
    Seq::new(bufs.len(), |i: int| bufs[i]@.len() as int)
}

/// The first `n` lengths together.
pub open spec fn total_len(lens: Seq<int>, n: int) -> int
    decreases n,
{
    if n <= 0 {
        0
    } else {
        total_len(lens, n - 1) + lens[n - 1]
    }
}

/// How many bytes a vectored read at `offset` puts into the first `n` of
/// buffers of these lengths, or the first failure among them: each
/// buffer is read into where the one before it ended.
#[verifier::opaque]
pub open spec fn preadv_spec(file: FileView, lens: Seq<int>, offset: int, n: int) -> Result<
    int,
    Errno,
>
    decreases n,
{
    if n <= 0 {
        Ok(0)
    } else {
        match preadv_spec(file, lens, offset, n - 1) {
            Ok(before) => match pread_spec(file, lens[n - 1], offset + before) {
                Ok(bytes) => Ok(before + bytes.len()),
                Err(e) => Err(e),
            },
            Err(e) => Err(e),
        }
    }
}

/// The bytes that a vectored read at `offset` puts into the buffer at
/// index `i`.
pub open spec fn chunk_spec(file: FileView, lens: Seq<int>, offset: int, i: int) -> Result<
    Seq<u8>,
    Errno,
> {
    match preadv_spec(file, lens, offset, i) {
        Ok(before) => pread_spec(file, lens[i], offset + before),
        Err(e) => Err(e),
    }
}

/// The bytes a buffer holds after `bytes` were read into its front.
pub open spec fn filled(before: Seq<u8>, bytes: Seq<u8>) -> Seq<u8> {
    bytes + before.skip(bytes.len() as int)
}

impl TarFileContents {
    /// A file whose data begins at `offset` in the archive `content`.
    pub fn new(content: Rc<[u8]>, offset: u64) -> (file: Self)
        ensures
            file@ == (FileView { content: content@, offset }),
    {
        Self { content, offset }
    }

    /// Finds the member whose data begins at `offset` among the members
    /// that come before the first unreadable one.
    pub fn get_entry(listing: &Vec<Option<Member>>, offset: u64) -> (r: Result<usize, Errno>)
        ensures
            match locate(listing_view(listing@), offset, 0) {
                Some(i) => r == Ok::<usize, Errno>(i as usize) && i < listing.len(),
                None => r == Err::<usize, Errno>(Errno::Noent),
            },
    {
        let ghost all = listing_view(listing@);
        let mut i: usize = 0;
        while i < listing.len()
            invariant
                i <= listing.len(),
                all == listing_view(listing@),
                locate(all, offset, 0) == locate(all, offset, i as int),
            decreases listing.len() - i,
        {
            match &listing[i] {
                Some(member) => {
                    if member.position == offset {
                        return Ok(i);
                    }
                },
                None => {
                    return Err(Errno::Noent);
                },
            }
            i += 1;
        }
        Err(Errno::Noent)
    }

    /// The size that a listing states for the member whose data begins
    /// at `offset`.
    pub fn size_in(listing: &Vec<Option<Member>>, offset: u64) -> (r: Result<u64, Errno>)
        ensures
            r == listed_size(listing_view(listing@), offset),
    {
        let i = match Self::get_entry(listing, offset) {
            Ok(i) => i,
            Err(e) => {
                return Err(e);
            },
        };
        proof {
            lemma_locate(listing_view(listing@), offset, 0);
        }
        match &listing[i] {
            Some(member) => match member.size {
                Some(size) => Ok(size),
                None => Err(Errno::Io),
            },
            None => Err(Errno::Noent),
        }
    }

    /// The size that the header of the file's member states.
    pub fn try_size(&self) -> (r: Result<u64, Errno>)
        ensures
            r == size_spec(self@),
    {
        let all = listing(&self.content);
        Self::size_in(&all, self.offset)
    }

    /// The largest size a file can have.
    pub fn max_size(&self) -> (n: u64)
        ensures
            n == usize::MAX,
    {
        usize::MAX as u64
    }

    /// The size that the header of the file's member states, and 0 where
    /// it cannot be had.
    pub fn size(&self) -> (n: u64)
        ensures
            n == match size_spec(self@) {
                Ok(size) => size,
                Err(_) => 0,
            },
    {
        match self.try_size() {
            Ok(size) => size,
            Err(_) => 0,
        }
    }

    /// Refused: the file is read-only.
    pub fn resize(&mut self, _new_size: u64) -> (r: Result<(), Errno>)
        ensures
            r == Err::<(), Errno>(Errno::Inval),
            *final(self) == *old(self),
    {
        Err(Errno::Inval)
    }

    /// Refused: the file is read-only.
    pub fn pwrite(&mut self, _buf: &[u8], _offset: u64) -> (r: Result<usize, Errno>)
        ensures
            r == Err::<usize, Errno>(Errno::Inval),
            *final(self) == *old(self),
    {
        Err(Errno::Inval)
    }

    /// Refused: the file is read-only.
    pub fn pwritev(&mut self, _iovs: &Vec<Vec<u8>>, _offset: u64) -> (r: Result<usize, Errno>)
        ensures
            r == Err::<usize, Errno>(Errno::Inval),
            *final(self) == *old(self),
    {
        Err(Errno::Inval)
    }

    /// Reads into the front of `buf`, from data of a member whose header
    /// states `size`, the bytes from `offset` on: as many as `buf` takes
    /// and the stated size leaves. It fails where the data end before
    /// that, and `buf` is then as it was.
    pub fn read_data(data: &[u8], size: usize, buf: &mut [u8], offset: usize) -> (r: Result<
        usize,
        Errno,
    >)
        ensures
            match read_spec(data@, size as int, old(buf)@.len() as int, offset as int) {
                Ok(bytes) => r == Ok::<usize, Errno>(bytes.len() as usize) && final(buf)@
                    == filled(old(buf)@, bytes) && bytes.len() <= old(buf)@.len(),
                Err(e) => r == Err::<usize, Errno>(e) && final(buf)@ == old(buf)@,
            },
    {
        let data_remaining: usize = size.saturating_sub(offset);
        let read_count: usize = if buf.len() <= data_remaining {
            buf.len()
        } else {
            data_remaining
        };
        let skip: usize = if offset <= data.len() {
            offset
        } else {
            data.len()
        };
        if data.len() - skip < read_count {
            return Err(Errno::Io);
        }
        let ghost before = buf@;
        let ghost bytes = data@.subrange(skip as int, skip + read_count);
        let mut n: usize = 0;
        while n < read_count
            invariant
                n <= read_count <= buf@.len(),
                skip + read_count <= data@.len() <= usize::MAX,
                buf@.len() == before.len(),
                bytes == data@.subrange(skip as int, skip + read_count),
                forall|j: int| 0 <= j < n ==> buf@[j] == bytes[j],
                forall|j: int| n <= j < buf@.len() ==> buf@[j] == before[j],
            decreases read_count - n,
        {
            buf[n] = data[skip + n];
            n += 1;
        }
        proof {
            assert(buf@ =~= filled(before, bytes));
        }
        Ok(read_count)
    }

    /// Reads into the front of `buf` the file's bytes from `offset` on,
    /// as many as `buf` takes and the file has left, and returns how
    /// many. On failure `buf` is as it was.
    pub fn pread(&self, buf: &mut [u8], offset: u64) -> (r: Result<usize, Errno>)
        ensures
            match pread_spec(self@, old(buf)@.len() as int, offset as int) {
                Ok(bytes) => r == Ok::<usize, Errno>(bytes.len() as usize) && final(buf)@
                    == filled(old(buf)@, bytes) && bytes.len() <= old(buf)@.len(),
                Err(e) => r == Err::<usize, Errno>(e) && final(buf)@ == old(buf)@,
            },
    {
        let all = listing(&self.content);
        let i = match Self::get_entry(&all, self.offset) {
            Ok(i) => i,
            Err(e) => {
                return Err(e);
            },
        };
        proof {
            lemma_locate(listing_view(all@), self.offset, 0);
        }
        if offset > usize::MAX as u64 {
            return Err(Errno::Inval);
        }
        let size: u64 = match &all[i] {
            Some(member) => match member.size {
                Some(size) => size,
                None => {
                    return Err(Errno::Io);
                },
            },
            None => {
                return Err(Errno::Noent);
            },
        };
        if size > usize::MAX as u64 {
            return Err(Errno::Overflow);
        }
        let left: usize = (size as usize).saturating_sub(offset as usize);
        let count: usize = if buf.len() <= left {
            buf.len()
        } else {
            left
        };
        match member_window(&self.content, i, offset, count) {
            Some(bytes) => {
                proof {
                    lemma_read_window(
                        tar_member_data(self@.content, i as int).unwrap(),
                        size as int,
                        buf@.len() as int,
                        offset as int,
                    );
                }
                Self::read_data(bytes.as_slice(), count, buf, 0)
            },
            None => Err(Errno::Io),
        }
    }

    /// Reads the file from its start to its stated size.
    pub fn contents(&self) -> (r: Result<Vec<u8>, Errno>)
        ensures
            match contents_spec(self@) {
                Ok(bytes) => r matches Ok(data) && data@ == bytes,
                Err(e) => r == Err::<Vec<u8>, Errno>(e),
            },
    {
        let size = match self.try_size() {
            Ok(size) => size,
            Err(e) => {
                return Err(e);
            },
        };
        if size > usize::MAX as u64 {
            return Err(Errno::Overflow);
        }
        let mut data: Vec<u8> = Vec::new();
        let mut i: u64 = 0;
        while i < size
            invariant
                i <= size <= usize::MAX,
                data@.len() == i,
            decreases size - i,
        {
            data.push(0);
            i += 1;
        }
        let read = match self.pread(data.as_mut_slice(), 0) {
            Ok(read) => read,
            Err(e) => {
                return Err(e);
            },
        };
        proof {
            lemma_locate(listing_of(self@.content), self@.offset, 0);
        }
        data.truncate(read);
        Ok(data)
    }

    /// Reads into the buffer at index `i` as [`TarFileContents::pread`]
    /// does, and leaves the other buffers as they are.
    fn read_one(&self, iovs: &mut Vec<Vec<u8>>, i: usize, offset: u64) -> (r: Result<usize, Errno>)
        requires
            i < old(iovs)@.len(),
        ensures
            final(iovs)@.len() == old(iovs)@.len(),
            forall|j: int|
                0 <= j < old(iovs)@.len() && j != i ==> final(iovs)@[j] == old(iovs)@[j],
            final(iovs)@[i as int]@.len() == old(iovs)@[i as int]@.len(),
            match pread_spec(self@, old(iovs)@[i as int]@.len() as int, offset as int) {
                Ok(bytes) => {
                    &&& r == Ok::<usize, Errno>(bytes.len() as usize)
                    &&& final(iovs)@[i as int]@ == filled(old(iovs)@[i as int]@, bytes)
                    &&& bytes.len() <= old(iovs)@[i as int]@.len()
                },
                Err(e) => r == Err::<usize, Errno>(e),
            },
    {
        self.pread(iovs[i].as_mut_slice(), offset)
    }

    /// Reads into the buffers in turn, each from where the one before it
    /// ended, and returns how many bytes were read in all. Each buffer
    /// holds what [`TarFileContents::pread`] puts into it; at the first
    /// failure the read ends, and the buffers before it stay filled.
    pub fn preadv(&self, iovs: &mut Vec<Vec<u8>>, offset: u64) -> (r: Result<usize, Errno>)
        requires
            total_len(lens_of(old(iovs)@), old(iovs)@.len() as int) <= usize::MAX,
            offset + total_len(lens_of(old(iovs)@), old(iovs)@.len() as int) <= u64::MAX,
        ensures
            lens_of(final(iovs)@) == lens_of(old(iovs)@),
            match preadv_spec(self@, lens_of(old(iovs)@), offset as int, old(iovs)@.len() as int) {
                Ok(total) => {
                    &&& r == Ok::<usize, Errno>(total as usize)
                    &&& forall|i: int|
                        0 <= i < old(iovs)@.len() ==> match chunk_spec(
                            self@,
                            lens_of(old(iovs)@),
                            offset as int,
                            i,
                        ) {
                            Ok(bytes) => (#[trigger] final(iovs)@[i])@ == filled(
                                old(iovs)@[i]@,
                                bytes,
                            ),
                            Err(_) => false,
                        }
                },
                Err(e) => r == Err::<usize, Errno>(e),
            },
    {
        let ghost before = iovs@;
        let ghost lens = lens_of(iovs@);
        let count = iovs.len();
        let mut read_total: usize = 0;
        let mut i: usize = 0;
        proof {
            lemma_preadv_step(self@, lens, offset as int, 0);
        }
        while i < count
            invariant
                i <= count == before.len(),
                iovs@.len() == count,
                lens == lens_of(before),
                lens_of(iovs@) =~= lens,
                total_len(lens, count as int) <= usize::MAX,
                offset + total_len(lens, count as int) <= u64::MAX,
                preadv_spec(self@, lens, offset as int, i as int) == Ok::<int, Errno>(
                    read_total as int,
                ),
                read_total <= total_len(lens, i as int),
                forall|j: int|
                    0 <= j < i ==> match chunk_spec(self@, lens, offset as int, j) {
                        Ok(bytes) => (#[trigger] iovs@[j])@ == filled(before[j]@, bytes),
                        Err(_) => false,
                    },
                forall|j: int| i <= j < count ==> iovs@[j] == before[j],
                before == old(iovs)@,
            decreases count - i,
        {
            proof {
                lemma_total_len_grows(lens, i as int, count as int);
                lemma_total_len_grows(lens, i as int + 1, count as int);
                assert(lens[i as int] == iovs@[i as int]@.len());
                lemma_preadv_step(self@, lens, offset as int, i as int + 1);
            }
            let skip: u64 = read_total as u64;
            let ghost prior = iovs@;
            let read = match self.read_one(iovs, i, offset + skip) {
                Ok(read) => read,
                Err(e) => {
                    proof {
                        assert(lens_of(iovs@) =~= lens);
                        assert(preadv_spec(self@, lens, offset as int, i as int + 1)
                            == Err::<int, Errno>(e));
                        lemma_preadv_fails(self@, lens, offset as int, i as int + 1, count as int);
                    }
                    return Err(e);
                },
            };
            proof {
                assert(lens_of(iovs@) =~= lens);
                assert(preadv_spec(self@, lens, offset as int, i as int + 1) == Ok::<int, Errno>(
                    read_total + read,
                ));
                assert forall|j: int| 0 <= j < i + 1 implies match chunk_spec(
                    self@,
                    lens,
                    offset as int,
                    j,
                ) {
                    Ok(bytes) => (#[trigger] iovs@[j])@ == filled(before[j]@, bytes),
                    Err(_) => false,
                } by {
                    if j < i {
                        assert(iovs@[j] == prior[j]);
                    }
                }
            }
            read_total = read_total + read;
            i += 1;
        }
        Ok(read_total)
    }
}

/// A read from the part of the data that a read needs is the read from
/// the data.
proof fn lemma_read_window(data: Seq<u8>, size: int, len: int, offset: int)
    requires
        0 <= size,
        0 <= len,
        0 <= offset,
    ensures
        ({
            let left = if offset >= size {
                0
            } else {
                size - offset
            };
            let count = if len <= left {
                len
            } else {
                left
            };
            read_spec(window(data, offset, count), count, len, 0) == read_spec(
                data,
                size,
                len,
                offset,
            )
        }),
{
    let left = if offset >= size {
        0
    } else {
        size - offset
    };
    let count = if len <= left {
        len
    } else {
        left
    };
    let part = window(data, offset, count);
    if part.len() == count {
        assert(part.subrange(0, count) =~= part);
    }
}

proof fn lemma_locate(listing: Seq<Option<MemberView>>, offset: u64, from: int)
    requires
        0 <= from,
    ensures
        match locate(listing, offset, from) {
            Some(i) => from <= i < listing.len() && listing[i] is Some
                && listing[i].unwrap().position == offset,
            None => true,
        },
    decreases listing.len() - from,
{
    if from < listing.len() {
        lemma_locate(listing, offset, from + 1);
    }
}

proof fn lemma_total_len_grows(lens: Seq<int>, i: int, n: int)
    requires
        0 <= i <= n <= lens.len(),
        forall|j: int| 0 <= j < lens.len() ==> lens[j] >= 0,
    ensures
        0 <= total_len(lens, i) <= total_len(lens, n),
    decreases n,
{
    if i < n {
        lemma_total_len_grows(lens, i, n - 1);
    } else if 0 < i {
        lemma_total_len_grows(lens, i - 1, n - 1);
    }
}

proof fn lemma_preadv_step(file: FileView, lens: Seq<int>, offset: int, n: int)
    ensures
        preadv_spec(file, lens, offset, n) == (if n <= 0 {
            Ok::<int, Errno>(0)
        } else {
            match preadv_spec(file, lens, offset, n - 1) {
                Ok(before) => match pread_spec(file, lens[n - 1], offset + before) {
                    Ok(bytes) => Ok(before + bytes.len()),
                    Err(e) => Err(e),
                },
                Err(e) => Err(e),
            }
        }),
{
    reveal_with_fuel(preadv_spec, 2);
}

proof fn lemma_preadv_fails(file: FileView, lens: Seq<int>, offset: int, i: int, n: int)
    requires
        0 <= i <= n,
        preadv_spec(file, lens, offset, i) is Err,
    ensures
        preadv_spec(file, lens, offset, n) == preadv_spec(file, lens, offset, i),
    decreases n - i,
{
    if i < n {
        lemma_preadv_fails(file, lens, offset, i, n - 1);
        lemma_preadv_step(file, lens, offset, n);
    }
}

/// A file made for a member of a listing is found again as that member:
/// the data of each member begin after the data of those before it, so
/// that no other member of the listing begins where it does.
pub proof fn law_member_is_located(listing: Seq<Option<MemberView>>, i: int)
    requires
        increasing(listing),
        0 <= i < listing.len(),
        forall|j: int| 0 <= j <= i ==> listing[j] is Some,
    ensures
        locate(listing, listing[i].unwrap().position, 0) == Some(i),
        listed_size(listing, listing[i].unwrap().position) == match listing[i].unwrap().size {
            Some(size) => Ok::<u64, Errno>(size),
            None => Err::<u64, Errno>(Errno::Io),
        },
{
    lemma_located(listing, i, 0);
}

proof fn lemma_located(listing: Seq<Option<MemberView>>, i: int, from: int)
    requires
        increasing(listing),
        0 <= from <= i < listing.len(),
        forall|j: int| 0 <= j <= i ==> listing[j] is Some,
    ensures
        locate(listing, listing[i].unwrap().position, from) == Some(i),
    decreases i - from,
{
    if from < i {
        assert(listing[from].unwrap().position < listing[i].unwrap().position);
        lemma_located(listing, i, from + 1);
    }
}

/// The contents of a file are the data of its member, where the archive
/// lists the member at the file's position and its data are as long as
/// its header states.
pub proof fn law_contents_are_the_data(file: FileView, i: int, data: Seq<u8>)
    requires
        locate(listing_of(file.content), file.offset, 0) == Some(i),
        listing_of(file.content)[i].unwrap().size == Some(data.len() as u64),
        data.len() <= usize::MAX,
        tar_member_data(file.content, i) == Some(data),
    ensures
        contents_spec(file) == Ok::<Seq<u8>, Errno>(data),
        size_spec(file) == Ok::<u64, Errno>(data.len() as u64),
{
    assert(data.subrange(0, data.len() as int) =~= data);
}

/// A read at or past the stated size yields no bytes.
pub proof fn law_read_past_end(data: Seq<u8>, size: int, len: int, offset: int)
    requires
        0 <= size <= offset,
        0 <= len,
    ensures
        read_spec(data, size, len, offset) == Ok::<Seq<u8>, Errno>(Seq::empty()),
{
    let skip = if offset <= data.len() {
        offset
    } else {
        data.len() as int
    };
    assert(data.subrange(skip, skip) =~= Seq::<u8>::empty());
}

/// The bytes that reads of `len` bytes each yield one after the other,
/// from `offset` to the end of the data.
pub open spec fn read_in_turn(data: Seq<u8>, len: int, offset: int) -> Seq<u8>
    decreases data.len() - offset,
{
    if len <= 0 || offset < 0 || offset >= data.len() {
        Seq::empty()
    } else {
        let first = match read_spec(data, data.len() as int, len, offset) {
            Ok(bytes) => bytes,
            Err(_) => Seq::empty(),
        };
        if offset + len < data.len() {
            first + read_in_turn(data, len, offset + len)
        } else {
            first
        }
    }
}

/// Reads of any one length, taken in turn from the start, yield the
/// member's bytes whole, where its data are as long as its header
/// states.
pub proof fn law_reads_yield_the_file(data: Seq<u8>, len: int, offset: int)
    requires
        0 < len,
        0 <= offset <= data.len(),
    ensures
        read_in_turn(data, len, offset) == data.skip(offset),
        offset == 0 ==> read_in_turn(data, len, offset) == data,
    decreases data.len() - offset,
{
    if offset < data.len() {
        let next = if offset + len <= data.len() {
            offset + len
        } else {
            data.len() as int
        };
        if offset + len <= data.len() {
            law_reads_yield_the_file(data, len, offset + len);
        }
        assert(read_spec(data, data.len() as int, len, offset) == Ok::<Seq<u8>, Errno>(
            data.subrange(offset, next),
        ));
        assert(read_in_turn(data, len, offset) =~= data.skip(offset));
    } else {
        assert(data.skip(offset) =~= Seq::<u8>::empty());
    }
    if offset == 0 {
        assert(data.skip(0) =~= data);
    }
}

} // verus!
