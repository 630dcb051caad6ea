use std::rc::Rc;

use wasmldr::archive::{listing, Member, MemberKind};
use wasmldr::error::{Errno, InvalidInput};
use wasmldr::path::PathPart;
use wasmldr::virtfs::{MountError, TarDirEntry, TarFileContents};

const CONFIG: &[u8] = b"stdio:\n  stdin:\n    bundle: data/stdin.txt\n";
const STDIN: &[u8] = b"Hello, stdin!\n";

fn append(builder: &mut tar::Builder<Vec<u8>>, kind: tar::EntryType, name: &str, data: &[u8]) {
    let mut header = tar::Header::new_gnu();
    header.set_entry_type(kind);
    header.set_size(data.len() as u64);
    header.set_mode(0o644);
    builder.append_data(&mut header, name, data).unwrap();
}

fn archive(members: &[(tar::EntryType, &str, &[u8])]) -> Rc<[u8]> {
    let mut builder = tar::Builder::new(Vec::new());
    for (kind, name, data) in members {
        append(&mut builder, *kind, name, data);
    }
    builder.finish().unwrap();
    builder.into_inner().unwrap().into_boxed_slice().into()
}

fn fixture() -> Rc<[u8]> {
    archive(&[
        (tar::EntryType::Regular, "config.yaml", CONFIG),
        (tar::EntryType::Regular, "data/stdin.txt", STDIN),
    ])
}

fn regular(path: &str, position: u64) -> Member {
    Member { kind: MemberKind::Regular, path: Some(path.to_string()), position, size: Some(0) }
}

fn directory(path: &str) -> Member {
    Member { kind: MemberKind::Directory, path: Some(path.to_string()), position: 0, size: Some(0) }
}

fn file_at<'a>(root: &'a TarDirEntry, path: &str) -> &'a TarFileContents {
    match root.lookup(path) {
        Some(TarDirEntry::File(file)) => file,
        _ => panic!("no file at {}", path),
    }
}

#[test]
fn populate_lookup() {
    let rc = fixture();
    let content = rc.clone();
    let mut root = TarDirEntry::empty_directory();
    let mut ar = tar::Archive::new(&*content);
    for entry in ar.entries().unwrap() {
        let entry = entry.unwrap();
        let member = Member {
            kind: match entry.header().entry_type() {
                tar::EntryType::Regular => MemberKind::Regular,
                tar::EntryType::Directory => MemberKind::Directory,
                _ => MemberKind::Other,
            },
            path: entry.header().path().unwrap().to_str().map(String::from),
            position: entry.raw_file_position(),
            size: entry.header().size().ok(),
        };
        root.populate(rc.clone(), &member).unwrap();
    }
    assert_eq!(root.lookup("foo"), None);
    assert!(matches!(root.lookup("config.yaml"), Some(TarDirEntry::File(_))));
    assert!(matches!(root.lookup("data"), Some(TarDirEntry::Directory(_))));
    assert!(matches!(root.lookup("data/stdin.txt"), Some(TarDirEntry::File(_))));
}

#[test]
fn mount_finds_files_and_their_directories() {
    let root = TarDirEntry::mount(fixture()).unwrap();
    assert!(matches!(root.lookup("config.yaml"), Some(TarDirEntry::File(_))));
    assert!(matches!(root.lookup("data"), Some(TarDirEntry::Directory(_))));
    assert!(matches!(root.lookup("data/stdin.txt"), Some(TarDirEntry::File(_))));
    assert_eq!(root.lookup("data/other.txt"), None);
    assert_eq!(root.lookup("config.yaml/x"), None);
    assert_eq!(root.lookup("stdin.txt"), None);
}

#[test]
fn mount_of_no_archive_is_empty() {
    let empty: Rc<[u8]> = Vec::new().into_boxed_slice().into();
    let root = TarDirEntry::mount(empty).unwrap();
    assert_eq!(root, TarDirEntry::empty_directory());
    assert_eq!(root.lookup("config.yaml"), None);
}

#[test]
fn mount_skips_other_members() {
    let mut builder = tar::Builder::new(Vec::new());
    let mut header = tar::Header::new_gnu();
    header.set_entry_type(tar::EntryType::Symlink);
    header.set_size(0);
    builder.append_link(&mut header, "link", "config.yaml").unwrap();
    append(&mut builder, tar::EntryType::Regular, "config.yaml", CONFIG);
    builder.finish().unwrap();
    let content: Rc<[u8]> = builder.into_inner().unwrap().into_boxed_slice().into();
    let root = TarDirEntry::mount(content).unwrap();
    assert_eq!(root.lookup("link"), None);
    assert!(matches!(root.lookup("config.yaml"), Some(TarDirEntry::File(_))));
}

#[test]
fn mount_makes_directory_members() {
    let root = TarDirEntry::mount(archive(&[(tar::EntryType::Directory, "a/b", b"")])).unwrap();
    assert!(matches!(root.lookup("a"), Some(TarDirEntry::Directory(_))));
    assert!(matches!(root.lookup("a/b"), Some(TarDirEntry::Directory(_))));
    assert_eq!(root.lookup("a/b/c"), None);
}

#[test]
fn mount_refuses_a_damaged_archive() {
    let mut bytes = fixture().to_vec();
    bytes[0] ^= 0xff;
    let content: Rc<[u8]> = bytes.into_boxed_slice().into();
    assert_eq!(TarDirEntry::mount(content), Err(MountError::Unreadable));
}

#[test]
fn mount_refuses_a_parent_component() {
    let mut builder = tar::Builder::new(Vec::new());
    let mut header = tar::Header::new_gnu();
    header.set_entry_type(tar::EntryType::Regular);
    header.set_size(0);
    header.as_old_mut().name[..6].copy_from_slice(b"a/../b");
    header.set_cksum();
    builder.append(&header, &b""[..]).unwrap();
    builder.finish().unwrap();
    let content: Rc<[u8]> = builder.into_inner().unwrap().into_boxed_slice().into();
    assert_eq!(TarDirEntry::mount(content), Err(MountError::InvalidInput));
}

#[test]
fn lookup_is_case_sensitive() {
    let root = TarDirEntry::mount(fixture()).unwrap();
    assert_eq!(root.lookup("Config.yaml"), None);
    assert_eq!(root.lookup("DATA/stdin.txt"), None);
}

#[test]
fn lookup_refuses_what_is_no_plain_name() {
    let root = TarDirEntry::mount(fixture()).unwrap();
    assert_eq!(root.lookup(""), None);
    assert_eq!(root.lookup("/"), None);
    assert_eq!(root.lookup("."), None);
    assert_eq!(root.lookup(".."), None);
    assert_eq!(root.lookup("./config.yaml"), None);
    assert_eq!(root.lookup("/config.yaml"), None);
    assert_eq!(root.lookup("data/../config.yaml"), None);
    assert!(matches!(root.lookup("data/./stdin.txt"), Some(TarDirEntry::File(_))));
    assert!(matches!(root.lookup("data//stdin.txt"), Some(TarDirEntry::File(_))));
    assert!(matches!(root.lookup("data/"), Some(TarDirEntry::Directory(_))));
}

#[test]
fn lookup_parts_walks_plain_names_only() {
    let root = TarDirEntry::mount(fixture()).unwrap();
    let data = PathPart::Normal("data".to_string());
    let stdin = PathPart::Normal("stdin.txt".to_string());
    assert!(matches!(
        root.lookup_parts(&vec![data.clone(), stdin.clone()]),
        Some(TarDirEntry::File(_))
    ));
    assert_eq!(root.lookup_parts(&vec![]), None);
    assert_eq!(root.lookup_parts(&vec![PathPart::CurDir, data.clone()]), None);
    assert_eq!(root.lookup_parts(&vec![data.clone(), PathPart::ParentDir]), None);
    assert_eq!(root.lookup_parts(&vec![PathPart::RootDir, data]), None);
    assert_eq!(root.lookup_parts(&vec![stdin]), None);
}

#[test]
fn populate_directory_makes_every_level() {
    let mut root = TarDirEntry::empty_directory();
    assert_eq!(root.populate_directory("a/b/c").map(|_| ()), Ok(()));
    assert!(matches!(root.lookup("a"), Some(TarDirEntry::Directory(_))));
    assert!(matches!(root.lookup("a/b"), Some(TarDirEntry::Directory(_))));
    assert!(matches!(root.lookup("a/b/c"), Some(TarDirEntry::Directory(_))));
    let once = format!("{:?}", root);
    assert_eq!(root.populate_directory("a/b").map(|_| ()), Ok(()));
    assert_eq!(format!("{:?}", root), once);
}

#[test]
fn populate_directory_hands_out_the_directory() {
    let content = fixture();
    let mut root = TarDirEntry::empty_directory();
    let dir = root.populate_directory("a/b").unwrap();
    assert_eq!(*dir, TarDirEntry::empty_directory());
    dir.populate(content.clone(), &regular("f", 512)).unwrap();
    assert_eq!(file_at(&root, "a/b/f"), &TarFileContents::new(content.clone(), 512));
    let dir = root.populate_directory("a").unwrap();
    assert!(matches!(dir.lookup("b/f"), Some(TarDirEntry::File(_))));
    *dir = TarDirEntry::File(Box::new(TarFileContents::new(content, 1536)));
    assert!(matches!(root.lookup("a"), Some(TarDirEntry::File(_))));
    assert_eq!(root.lookup("a/b"), None);
    let whole = root.populate_directory("").unwrap();
    assert!(matches!(whole.lookup("a"), Some(TarDirEntry::File(_))));
}

#[test]
fn populate_directory_of_the_empty_path_changes_nothing() {
    let mut root = TarDirEntry::empty_directory();
    assert_eq!(root.populate_directory("").map(|_| ()), Ok(()));
    assert_eq!(root, TarDirEntry::empty_directory());
}

#[test]
fn populate_directory_stops_at_what_is_no_plain_name() {
    let mut root = TarDirEntry::empty_directory();
    assert_eq!(root.populate_directory("a/../b").map(|_| ()), Err(InvalidInput));
    assert!(matches!(root.lookup("a"), Some(TarDirEntry::Directory(_))));
    assert_eq!(root.lookup("b"), None);
    assert_eq!(root.lookup("a/b"), None);

    let mut root = TarDirEntry::empty_directory();
    assert_eq!(root.populate_directory("/a").map(|_| ()), Err(InvalidInput));
    assert_eq!(root, TarDirEntry::empty_directory());

    let mut root = TarDirEntry::empty_directory();
    assert_eq!(root.populate_directory("./a").map(|_| ()), Err(InvalidInput));
    assert_eq!(root, TarDirEntry::empty_directory());
}

#[test]
fn populate_directory_does_not_pass_through_a_file() {
    let content = fixture();
    let mut root = TarDirEntry::empty_directory();
    root.populate(content.clone(), &regular("a", 512)).unwrap();
    assert_eq!(root.populate_directory("a/b").map(|_| ()), Err(InvalidInput));
    assert!(matches!(root.lookup("a"), Some(TarDirEntry::File(_))));
}

#[test]
fn populate_directory_does_not_end_on_a_file() {
    let content = fixture();
    let mut root = TarDirEntry::empty_directory();
    root.populate(content.clone(), &regular("a", 512)).unwrap();
    root.populate(content.clone(), &regular("d/f", 1536)).unwrap();
    assert_eq!(root.populate_directory("a").map(|_| ()), Err(InvalidInput));
    assert_eq!(root.populate_directory("d/f").map(|_| ()), Err(InvalidInput));
    assert_eq!(root.populate(content.clone(), &directory("a")), Err(InvalidInput));
    assert_eq!(file_at(&root, "a"), &TarFileContents::new(content.clone(), 512));
    assert_eq!(file_at(&root, "d/f"), &TarFileContents::new(content.clone(), 1536));
    assert!(matches!(root.populate_directory("d"), Ok(TarDirEntry::Directory(_))));
    let mut file = TarDirEntry::File(Box::new(TarFileContents::new(content, 512)));
    assert_eq!(file.populate_directory("").map(|_| ()), Err(InvalidInput));
}

#[test]
fn mount_refuses_a_directory_in_the_place_of_a_file() {
    let content = archive(&[
        (tar::EntryType::Regular, "a", b"1"),
        (tar::EntryType::Directory, "a", b""),
    ]);
    assert_eq!(TarDirEntry::mount(content), Err(MountError::InvalidInput));
}

#[test]
fn populate_overwrites_a_duplicate_name() {
    let content = fixture();
    let mut root = TarDirEntry::empty_directory();
    root.populate(content.clone(), &regular("a/f", 512)).unwrap();
    root.populate(content.clone(), &regular("a/f", 1536)).unwrap();
    let expected = TarFileContents::new(content.clone(), 1536);
    assert_eq!(file_at(&root, "a/f"), &expected);
    match root.lookup("a") {
        Some(TarDirEntry::Directory(items)) => assert_eq!(items.len(), 1),
        _ => panic!("no directory"),
    }
}

#[test]
fn populate_sets_a_file_in_place_of_a_directory() {
    let content = fixture();
    let mut root = TarDirEntry::empty_directory();
    root.populate(content.clone(), &regular("a/b", 512)).unwrap();
    root.populate(content.clone(), &regular("a", 1536)).unwrap();
    assert!(matches!(root.lookup("a"), Some(TarDirEntry::File(_))));
    assert_eq!(root.lookup("a/b"), None);
}

#[test]
fn populate_refuses_a_file_below_a_file() {
    let content = fixture();
    let mut root = TarDirEntry::empty_directory();
    root.populate(content.clone(), &regular("a", 512)).unwrap();
    assert_eq!(root.populate(content.clone(), &regular("a/b", 1536)), Err(InvalidInput));
    assert!(matches!(root.lookup("a"), Some(TarDirEntry::File(_))));
}

#[test]
fn populate_refuses_paths_without_a_file_name() {
    let content = fixture();
    let mut root = TarDirEntry::empty_directory();
    assert_eq!(root.populate(content.clone(), &regular("", 512)), Err(InvalidInput));
    assert_eq!(root.populate(content.clone(), &regular("/", 512)), Err(InvalidInput));
    assert_eq!(root.populate(content.clone(), &regular("..", 512)), Err(InvalidInput));
    assert_eq!(root, TarDirEntry::empty_directory());
    assert_eq!(root.populate(content.clone(), &regular("a/..", 512)), Err(InvalidInput));
    assert!(matches!(root.lookup("a"), Some(TarDirEntry::Directory(_))));
}

#[test]
fn populate_refuses_a_path_that_is_not_utf8() {
    let content = fixture();
    let mut root = TarDirEntry::empty_directory();
    let member = Member { kind: MemberKind::Regular, path: None, position: 512, size: Some(0) };
    assert_eq!(root.populate(content.clone(), &member), Err(InvalidInput));
    let member = Member { kind: MemberKind::Directory, path: None, position: 0, size: Some(0) };
    assert_eq!(root.populate(content.clone(), &member), Err(InvalidInput));
    let member = Member { kind: MemberKind::Other, path: None, position: 0, size: None };
    assert_eq!(root.populate(content, &member), Ok(()));
    assert_eq!(root, TarDirEntry::empty_directory());
}

#[test]
fn populate_takes_directory_members() {
    let content = fixture();
    let mut root = TarDirEntry::empty_directory();
    assert_eq!(root.populate(content.clone(), &directory("x/y")), Ok(()));
    assert!(matches!(root.lookup("x/y"), Some(TarDirEntry::Directory(_))));
    assert_eq!(root.populate(content, &directory("x/../y")), Err(InvalidInput));
}

#[test]
fn populate_file_parts_wants_plain_names() {
    let content = fixture();
    let mut root = TarDirEntry::empty_directory();
    let file = TarFileContents::new(content.clone(), 512);
    assert_eq!(root.populate_file_parts(&vec![], file.clone()), Err(InvalidInput));
    assert_eq!(
        root.populate_file_parts(&vec![PathPart::Normal("a".to_string()), PathPart::CurDir], file.clone()),
        Err(InvalidInput)
    );
    assert!(matches!(root.lookup("a"), Some(TarDirEntry::Directory(_))));
    assert_eq!(
        root.populate_file_parts(
            &vec![PathPart::Normal("a".to_string()), PathPart::Normal("f".to_string())],
            file.clone()
        ),
        Ok(())
    );
    assert_eq!(file_at(&root, "a/f"), &file);
}

#[test]
fn size_is_the_size_of_the_member() {
    let root = TarDirEntry::mount(fixture()).unwrap();
    let file = file_at(&root, "data/stdin.txt");
    assert_eq!(file.try_size(), Ok(STDIN.len() as u64));
    assert_eq!(file.size(), STDIN.len() as u64);
    assert_eq!(file_at(&root, "config.yaml").size(), CONFIG.len() as u64);
    assert_eq!(file.max_size(), usize::MAX as u64);
}

#[test]
fn size_of_a_missing_member_is_zero() {
    let file = TarFileContents::new(fixture(), 7);
    assert_eq!(file.try_size(), Err(Errno::Noent));
    assert_eq!(file.size(), 0);
    let mut buf = [1u8; 4];
    assert_eq!(file.pread(&mut buf, 0), Err(Errno::Noent));
    assert_eq!(buf, [1u8; 4]);
    assert_eq!(file.contents(), Err(Errno::Noent));
}

#[test]
fn get_entry_finds_by_position() {
    let listing = vec![Some(regular("a", 512)), Some(regular("b", 1536)), None, Some(regular("c", 2560))];
    assert_eq!(TarFileContents::get_entry(&listing, 512), Ok(0));
    assert_eq!(TarFileContents::get_entry(&listing, 1536), Ok(1));
    assert_eq!(TarFileContents::get_entry(&listing, 2560), Err(Errno::Noent));
    assert_eq!(TarFileContents::get_entry(&listing, 0), Err(Errno::Noent));
    assert_eq!(TarFileContents::get_entry(&vec![], 512), Err(Errno::Noent));
}

#[test]
fn pread_reads_the_file() {
    let root = TarDirEntry::mount(fixture()).unwrap();
    let file = file_at(&root, "data/stdin.txt");
    let mut buf = [0u8; 32];
    assert_eq!(file.pread(&mut buf, 0), Ok(STDIN.len()));
    assert_eq!(&buf[..STDIN.len()], STDIN);
    assert_eq!(&buf[STDIN.len()..], &[0u8; 32][STDIN.len()..]);
}

#[test]
fn pread_reads_from_an_offset() {
    let root = TarDirEntry::mount(fixture()).unwrap();
    let file = file_at(&root, "data/stdin.txt");
    let mut buf = [b'x'; 5];
    assert_eq!(file.pread(&mut buf, 7), Ok(5));
    assert_eq!(&buf, b"stdin");
    let mut buf = [b'x'; 5];
    assert_eq!(file.pread(&mut buf, 12), Ok(2));
    assert_eq!(&buf, b"!\nxxx");
    let mut none = [0u8; 0];
    assert_eq!(file.pread(&mut none, 3), Ok(0));
}

#[test]
fn pread_past_the_end_reads_nothing() {
    let root = TarDirEntry::mount(fixture()).unwrap();
    let file = file_at(&root, "data/stdin.txt");
    let mut buf = [b'x'; 4];
    assert_eq!(file.pread(&mut buf, STDIN.len() as u64), Ok(0));
    assert_eq!(file.pread(&mut buf, STDIN.len() as u64 + 100), Ok(0));
    assert_eq!(file.pread(&mut buf, u64::MAX), Ok(0));
    assert_eq!(&buf, b"xxxx");
}

#[test]
fn pread_in_turn_yields_the_file() {
    let root = TarDirEntry::mount(fixture()).unwrap();
    let file = file_at(&root, "data/stdin.txt");
    for len in 1..=STDIN.len() + 1 {
        let mut all = Vec::new();
        let mut offset = 0u64;
        loop {
            let mut buf = vec![0u8; len];
            let n = file.pread(&mut buf, offset).unwrap();
            if n == 0 {
                break;
            }
            all.extend_from_slice(&buf[..n]);
            offset += n as u64;
        }
        assert_eq!(all, STDIN);
    }
}

#[test]
fn pread_fails_where_the_data_end_early() {
    let whole = fixture();
    let offset = tar::Archive::new(&*whole)
        .entries()
        .unwrap()
        .map(|entry| entry.unwrap())
        .find(|entry| entry.path_bytes().as_ref() == b"data/stdin.txt")
        .unwrap()
        .raw_file_position() as usize;
    let cut: Rc<[u8]> = whole[..offset + 4].to_vec().into_boxed_slice().into();
    let file = TarFileContents::new(cut, offset as u64);
    let mut buf = [0u8; 32];
    assert_eq!(file.pread(&mut buf, 0), Err(Errno::Io));
    assert_eq!(buf, [0u8; 32]);
    let mut buf = [0u8; 4];
    assert_eq!(file.pread(&mut buf, 0), Ok(4));
    assert_eq!(&buf, b"Hell");
}

#[test]
fn contents_are_the_bytes_of_the_member() {
    let root = TarDirEntry::mount(fixture()).unwrap();
    assert_eq!(file_at(&root, "data/stdin.txt").contents(), Ok(STDIN.to_vec()));
    assert_eq!(file_at(&root, "config.yaml").contents(), Ok(CONFIG.to_vec()));
}

#[test]
fn preadv_fills_the_buffers_in_turn() {
    let root = TarDirEntry::mount(fixture()).unwrap();
    let file = file_at(&root, "data/stdin.txt");
    let mut iovs = vec![vec![0u8; 5], vec![0u8; 0], vec![0u8; 2], vec![b'x'; 20]];
    assert_eq!(file.preadv(&mut iovs, 0), Ok(STDIN.len()));
    assert_eq!(iovs[0], b"Hello");
    assert_eq!(iovs[1], b"");
    assert_eq!(iovs[2], b", ");
    assert_eq!(&iovs[3][..7], b"stdin!\n");
    assert_eq!(&iovs[3][7..], &[b'x'; 13]);
    let mut iovs = vec![vec![0u8; 3], vec![0u8; 3]];
    assert_eq!(file.preadv(&mut iovs, 7), Ok(6));
    assert_eq!(iovs, vec![b"std".to_vec(), b"in!".to_vec()]);
    let mut none: Vec<Vec<u8>> = Vec::new();
    assert_eq!(file.preadv(&mut none, 0), Ok(0));
}

#[test]
fn preadv_fails_as_pread_does() {
    let file = TarFileContents::new(fixture(), 7);
    let mut iovs = vec![vec![0u8; 3]];
    assert_eq!(file.preadv(&mut iovs, 0), Err(Errno::Noent));
}

#[test]
fn writes_are_refused() {
    let mut file = TarFileContents::new(fixture(), 512);
    let before = file.clone();
    assert_eq!(file.pwrite(b"abc", 0), Err(Errno::Inval));
    assert_eq!(file.pwritev(&vec![b"abc".to_vec()], 0), Err(Errno::Inval));
    assert_eq!(file.resize(0), Err(Errno::Inval));
    assert_eq!(file, before);
}

#[test]
fn read_data_ends_at_the_stated_size() {
    let data = b"0123456789";
    let mut buf = [b'x'; 4];
    assert_eq!(TarFileContents::read_data(data, 10, &mut buf, 0), Ok(4));
    assert_eq!(&buf, b"0123");
    assert_eq!(TarFileContents::read_data(data, 10, &mut buf, 8), Ok(2));
    assert_eq!(&buf, b"8923");
    assert_eq!(TarFileContents::read_data(data, 6, &mut buf, 4), Ok(2));
    assert_eq!(&buf, b"4523");
    assert_eq!(TarFileContents::read_data(data, 10, &mut buf, 10), Ok(0));
    assert_eq!(TarFileContents::read_data(data, 10, &mut buf, usize::MAX), Ok(0));
    assert_eq!(TarFileContents::read_data(data, 0, &mut buf, 0), Ok(0));
    assert_eq!(&buf, b"4523");
}

#[test]
fn read_data_fails_where_the_data_end_before_the_size() {
    let data = b"0123";
    let mut buf = [b'x'; 8];
    assert_eq!(TarFileContents::read_data(data, 10, &mut buf, 0), Err(Errno::Io));
    assert_eq!(TarFileContents::read_data(data, 10, &mut buf, 3), Err(Errno::Io));
    assert_eq!(TarFileContents::read_data(data, 10, &mut buf, 9), Err(Errno::Io));
    assert_eq!(&buf, b"xxxxxxxx");
    let mut buf = [b'x'; 2];
    assert_eq!(TarFileContents::read_data(data, 10, &mut buf, 2), Ok(2));
    assert_eq!(&buf, b"23");
    assert_eq!(TarFileContents::read_data(data, 10, &mut buf, 3), Err(Errno::Io));
    assert_eq!(TarFileContents::read_data(data, 10, &mut buf, 10), Ok(0));
}

#[test]
fn size_in_a_listing() {
    let sized = |position, size| Some(Member {
        kind: MemberKind::Regular,
        path: Some("f".to_string()),
        position,
        size,
    });
    let listing = vec![sized(512, Some(7)), sized(1536, None), None, sized(2560, Some(9))];
    assert_eq!(TarFileContents::size_in(&listing, 512), Ok(7));
    assert_eq!(TarFileContents::size_in(&listing, 1536), Err(Errno::Io));
    assert_eq!(TarFileContents::size_in(&listing, 2560), Err(Errno::Noent));
    assert_eq!(TarFileContents::size_in(&listing, 1), Err(Errno::Noent));
}

#[test]
fn populate_listing_takes_members_in_order() {
    let content = fixture();
    let mut root = TarDirEntry::empty_directory();
    let listing = vec![Some(directory("d")), Some(regular("d/f", 512)), Some(regular("d/f", 1536))];
    assert_eq!(root.populate_listing(content.clone(), &listing), Ok(()));
    assert_eq!(file_at(&root, "d/f"), &TarFileContents::new(content.clone(), 1536));

    let mut root = TarDirEntry::empty_directory();
    let listing = vec![Some(regular("a", 512)), None, Some(regular("b", 1536))];
    assert_eq!(root.populate_listing(content.clone(), &listing), Err(MountError::Unreadable));
    assert!(matches!(root.lookup("a"), Some(TarDirEntry::File(_))));
    assert_eq!(root.lookup("b"), None);

    let mut root = TarDirEntry::empty_directory();
    let listing = vec![Some(regular("a", 512)), Some(regular("a/b", 1536)), Some(regular("c", 2560))];
    assert_eq!(root.populate_listing(content.clone(), &listing), Err(MountError::InvalidInput));
    assert_eq!(root.lookup("c"), None);
    assert_eq!(root.populate_listing(content, &vec![]), Ok(()));
}

#[test]
fn listing_of_an_archive() {
    let all = listing(&fixture());
    assert_eq!(all.len(), 2);
    let first = all[0].as_ref().unwrap();
    assert_eq!(first.kind, MemberKind::Regular);
    assert_eq!(first.path.as_deref(), Some("config.yaml"));
    assert_eq!(first.position, 512);
    assert_eq!(first.size, Some(CONFIG.len() as u64));
    let second = all[1].as_ref().unwrap();
    assert_eq!(second.path.as_deref(), Some("data/stdin.txt"));
    assert_eq!(second.position, 1536);
    assert_eq!(second.size, Some(STDIN.len() as u64));
    assert!(listing(b"").is_empty());
    let mut damaged = fixture().to_vec();
    damaged[0] ^= 0xff;
    assert_eq!(listing(&damaged), vec![None]);
}

/// An archive whose first header announces a sparse member that ends just
/// below the largest position, with more headers of it to follow.
fn overlong_sparse() -> Vec<u8> {
    let mut header = tar::Header::new_gnu();
    header.set_entry_type(tar::EntryType::GNUSparse);
    header.as_old_mut().size = [0x80, 0, 0, 0, 0xff, 0xff, 0xff, 0xff, 0xff, 0xff, 0xfc, 0x00];
    header.as_gnu_mut().unwrap().isextended = [1];
    header.set_cksum();
    let mut bytes = header.as_bytes().to_vec();
    bytes.extend_from_slice(&[0u8; 512]);
    bytes
}

#[test]
fn listing_walks_every_header_by_itself() {
    let all = listing(&overlong_sparse());
    assert_eq!(all.len(), 2);
    let first = all[0].as_ref().unwrap();
    assert_eq!(first.kind, MemberKind::Other);
    assert_eq!(first.position, 512);
    assert_eq!(all[1], None);
}

#[test]
fn mount_and_reads_of_an_overlong_sparse_member_fail() {
    let content: Rc<[u8]> = overlong_sparse().into();
    assert_eq!(TarDirEntry::mount(content.clone()), Err(MountError::Unreadable));
    let file = TarFileContents::new(content.clone(), 512);
    let mut buf = [0u8; 8];
    assert!(file.pread(&mut buf, 0).is_err());
    assert_eq!(TarFileContents::new(content, 1024).try_size(), Err(Errno::Noent));
}

#[test]
fn listing_keeps_long_name_records_as_members() {
    let mut builder = tar::Builder::new(Vec::new());
    let long = format!("{}/file", "d".repeat(120));
    let mut header = tar::Header::new_gnu();
    header.set_size(3);
    header.set_mode(0o644);
    builder.append_data(&mut header, &long, &b"abc"[..]).unwrap();
    builder.finish().unwrap();
    let all = listing(&builder.into_inner().unwrap());
    assert_eq!(all.len(), 2);
    assert_eq!(all[0].as_ref().unwrap().kind, MemberKind::Other);
    let member = all[1].as_ref().unwrap();
    assert_eq!(member.kind, MemberKind::Regular);
    assert_eq!(member.size, Some(3));
    assert_eq!(member.path.as_deref(), Some(&long[..100]));
    assert!(all[0].as_ref().unwrap().position < member.position);
}
