use wasmldr::bundle::{
    append_archive, bundle, forward, parse, paths_until_empty, take_step, Builder, Cursor, Piece,
    Source, Split, RESOURCES_SECTION,
};
use wasmldr::error::InvalidInput;

const HEADER: [u8; 8] = [0x00, 0x61, 0x73, 0x6d, 0x01, 0x00, 0x00, 0x00];

/// A module that exports a default function returning `1`.
fn return_1() -> Vec<u8> {
    let mut module = HEADER.to_vec();
    module.extend_from_slice(&[0x01, 0x05, 0x01, 0x60, 0x00, 0x01, 0x7f]);
    module.extend_from_slice(&[0x03, 0x02, 0x01, 0x00]);
    module.extend_from_slice(&[0x07, 0x04, 0x01, 0x00, 0x00, 0x00]);
    module.extend_from_slice(&[0x0a, 0x06, 0x01, 0x04, 0x00, 0x41, 0x01, 0x0b]);
    module
}

fn custom_section(name: &str, data: &[u8]) -> Vec<u8> {
    assert!(name.len() < 128 && 1 + name.len() + data.len() < 128);
    let mut section = vec![0x00, (1 + name.len() + data.len()) as u8, name.len() as u8];
    section.extend_from_slice(name.as_bytes());
    section.extend_from_slice(data);
    section
}

fn tar_of(members: &[(&str, &[u8])]) -> Vec<u8> {
    let mut builder = tar::Builder::new(Vec::new());
    for (name, data) in members {
        let mut header = tar::Header::new_gnu();
        header.set_size(data.len() as u64);
        header.set_mode(0o644);
        builder.append_data(&mut header, name, *data).unwrap();
    }
    builder.finish().unwrap();
    builder.into_inner().unwrap()
}

#[test]
fn resources_section_has_its_name() {
    assert_eq!(RESOURCES_SECTION, ".enarx.resources");
}

#[test]
fn parse_of_a_plain_module_hands_it_back() {
    let module = return_1();
    let split = parse(&module, RESOURCES_SECTION).unwrap();
    assert_eq!(split.rest, module);
    assert!(split.custom.is_empty());
}

#[test]
fn parse_of_a_bare_header_hands_it_back() {
    let split = parse(&HEADER, RESOURCES_SECTION).unwrap();
    assert_eq!(split.rest, HEADER.to_vec());
    assert!(split.custom.is_empty());
}

#[test]
fn parse_takes_out_the_named_section() {
    let mut module = return_1();
    module.extend_from_slice(&custom_section(RESOURCES_SECTION, b"abc"));
    let split = parse(&module, RESOURCES_SECTION).unwrap();
    assert_eq!(split.rest, return_1());
    assert_eq!(split.custom, vec![b"abc".to_vec()]);
}

#[test]
fn parse_forwards_other_custom_sections() {
    let mut module = HEADER.to_vec();
    module.extend_from_slice(&custom_section("name", b"xyz"));
    module.extend_from_slice(&custom_section("res", b"abc"));
    module.extend_from_slice(&[0x01, 0x05, 0x01, 0x60, 0x00, 0x01, 0x7f]);
    module.extend_from_slice(&custom_section("res", b""));
    let split = parse(&module, "res").unwrap();
    let mut rest = HEADER.to_vec();
    rest.extend_from_slice(&custom_section("name", b"xyz"));
    rest.extend_from_slice(&[0x01, 0x05, 0x01, 0x60, 0x00, 0x01, 0x7f]);
    assert_eq!(split.rest, rest);
    assert_eq!(split.custom, vec![b"abc".to_vec(), b"".to_vec()]);
    let other = parse(&module, "Res").unwrap();
    assert_eq!(other.rest, module);
    assert!(other.custom.is_empty());
}

#[test]
fn parse_enters_nested_modules() {
    let mut inner = HEADER.to_vec();
    inner.extend_from_slice(&custom_section("res", b"in"));
    let mut module = HEADER.to_vec();
    module.extend_from_slice(&[17, (2 + inner.len()) as u8, 1, inner.len() as u8]);
    module.extend_from_slice(&inner);
    module.extend_from_slice(&custom_section("res", b"out"));
    let split = parse(&module, "res").unwrap();
    assert_eq!(split.custom, vec![b"in".to_vec(), b"out".to_vec()]);
    let mut rest = HEADER.to_vec();
    rest.extend_from_slice(&[17, (2 + inner.len()) as u8, 1]);
    rest.extend_from_slice(&HEADER);
    assert_eq!(split.rest, rest);
}

#[test]
fn parse_refuses_what_is_no_module() {
    assert_eq!(parse(b"", RESOURCES_SECTION).err(), Some(InvalidInput));
    assert_eq!(parse(b"\0asm", RESOURCES_SECTION).err(), Some(InvalidInput));
    assert_eq!(parse(b"not a module", RESOURCES_SECTION).err(), Some(InvalidInput));
    let mut cut = return_1();
    cut.pop();
    assert_eq!(parse(&cut, RESOURCES_SECTION).err(), Some(InvalidInput));
    let mut long = HEADER.to_vec();
    long.extend_from_slice(&[0x00, 0x05, 0x01, b'x']);
    assert_eq!(parse(&long, RESOURCES_SECTION).err(), Some(InvalidInput));
}

#[test]
fn forward_hands_out_by_name() {
    let chunk = b"0123456789";
    let mut split = Split { custom: vec![], rest: b"ab".to_vec() };
    forward(&mut split, &Piece::Other { consumed: 4 }, chunk, "res");
    assert_eq!(split.rest, b"ab0123");
    forward(&mut split, &Piece::Custom { consumed: 3, name: "other", data: b"zz" }, chunk, "res");
    assert_eq!(split.rest, b"ab0123012");
    assert!(split.custom.is_empty());
    forward(&mut split, &Piece::Custom { consumed: 3, name: "res", data: b"zz" }, chunk, "res");
    assert_eq!(split.rest, b"ab0123012");
    assert_eq!(split.custom, vec![b"zz".to_vec()]);
    forward(&mut split, &Piece::End { consumed: 2 }, chunk, "res");
    forward(&mut split, &Piece::NeedMoreData(7), chunk, "res");
    forward(&mut split, &Piece::Other { consumed: 0 }, chunk, "res");
    assert_eq!(split.rest, b"ab0123012");
    assert_eq!(split.custom, vec![b"zz".to_vec()]);
}

#[test]
fn append_archive_frames_the_section() {
    let mut out = b"X".to_vec();
    append_archive(&mut out, ".enarx.resources", b"abc");
    let mut expected = vec![b'X', 0x00, 20, 16];
    expected.extend_from_slice(b".enarx.resources");
    expected.extend_from_slice(b"abc");
    assert_eq!(out, expected);
}

#[test]
fn append_archive_of_nothing_is_a_section() {
    let mut out = Vec::new();
    append_archive(&mut out, "", b"");
    assert_eq!(out, vec![0x00, 0x01, 0x00]);
}

#[test]
fn append_archive_writes_sizes_in_leb128() {
    let name = "r";
    let at = |len: usize| {
        let mut out = Vec::new();
        append_archive(&mut out, name, &vec![7u8; len]);
        out
    };
    assert_eq!(&at(125)[..4], &[0x00, 0x7f, 0x01, b'r']);
    assert_eq!(&at(126)[..5], &[0x00, 0x80, 0x01, 0x01, b'r']);
    assert_eq!(&at(298)[..5], &[0x00, 0xac, 0x02, 0x01, b'r']);
    assert_eq!(&at(16382)[..6], &[0x00, 0x80, 0x80, 0x01, 0x01, b'r']);
    assert_eq!(at(16382).len(), 4 + 2 + 16382);
    let long = "n".repeat(200);
    let mut out = Vec::new();
    append_archive(&mut out, &long, b"");
    assert_eq!(&out[..5], &[0x00, 0xca, 0x01, 0xc8, 0x01]);
    assert_eq!(out.len(), 5 + 200);
}

#[test]
fn append_archive_counts_the_bytes_of_the_name() {
    let mut out = Vec::new();
    append_archive(&mut out, "\u{e9}", b"d");
    assert_eq!(out, vec![0x00, 0x04, 0x02, 0xc3, 0xa9, b'd']);
}

#[test]
fn bundle_appends_to_the_module() {
    let module = return_1();
    let mut expected = module.clone();
    expected.extend_from_slice(&custom_section("res", b"tar"));
    assert_eq!(bundle(module, "res", b"tar"), expected);
}

#[test]
fn build_then_parse_yields_module_and_archive() {
    let module = return_1();
    let archive = tar_of(&[("config.yaml", b"stdio: {}\n"), ("data/stdin.txt", b"hi\n")]);
    let mut builder = Builder::new();
    builder.prefix("fixtures/bundle").path("fixtures/bundle/config.yaml").path("fixtures/bundle/data/stdin.txt");
    let bundled = builder.build(&module, &archive).unwrap();
    assert_eq!(&bundled[..module.len()], &module[..]);
    let split = parse(&bundled, RESOURCES_SECTION).unwrap();
    assert_eq!(split.rest, module);
    assert_eq!(split.custom, vec![archive]);
}

#[test]
fn build_with_a_section_name_of_its_own() {
    let module = return_1();
    let mut builder = Builder::new();
    builder.section("my.section");
    assert_eq!(builder.section_name(), "my.section");
    let bundled = builder.build(&module, b"payload").unwrap();
    let mut expected = module.clone();
    expected.extend_from_slice(&custom_section("my.section", b"payload"));
    assert_eq!(bundled, expected);
    assert!(parse(&bundled, RESOURCES_SECTION).unwrap().custom.is_empty());
    assert_eq!(parse(&bundled, "my.section").unwrap().custom, vec![b"payload".to_vec()]);
}

#[test]
fn build_twice_keeps_one_section() {
    let module = return_1();
    let archive = tar_of(&[("config.yaml", b"stdio: {}\n")]);
    let mut builder = Builder::new();
    let once = builder.build(&module, &archive).unwrap();
    let twice = builder.build(&once, &archive).unwrap();
    assert_eq!(twice, once);
    let split = parse(&twice, RESOURCES_SECTION).unwrap();
    assert_eq!(split.custom, vec![archive]);
    assert_eq!(split.rest, module);
    let other = tar_of(&[("other", b"x")]);
    let replaced = builder.build(&once, &other).unwrap();
    assert_eq!(parse(&replaced, RESOURCES_SECTION).unwrap().custom, vec![other]);
}

#[test]
fn build_refuses_a_path_outside_the_prefix() {
    let module = return_1();
    let mut builder = Builder::new();
    builder.prefix("fixtures/bundle").path("fixtures/bundle/config.yaml").path("elsewhere/stdin.txt");
    assert_eq!(builder.check_paths(), Err(InvalidInput));
    assert_eq!(builder.build(&module, b""), Err(InvalidInput));
    let mut builder = Builder::new();
    builder.prefix("fixtures/bun").path("fixtures/bundle/config.yaml");
    assert_eq!(builder.build(&module, b""), Err(InvalidInput));
    let mut builder = Builder::new();
    builder.path("fixtures/bundle/config.yaml").prefix("/fixtures");
    assert_eq!(builder.build(&module, b""), Err(InvalidInput));
}

#[test]
fn build_accepts_paths_inside_the_prefix() {
    let module = return_1();
    let mut builder = Builder::new();
    builder.path("a/b").path("a/c/d").prefix("a/");
    assert_eq!(builder.check_paths(), Ok(()));
    assert!(builder.build(&module, b"").is_ok());
    let mut builder = Builder::new();
    builder.path("a/b");
    assert_eq!(builder.check_paths(), Ok(()));
    assert_eq!(Builder::new().check_paths(), Ok(()));
}

#[test]
fn build_refuses_what_is_no_module() {
    let mut builder = Builder::new();
    assert_eq!(builder.build(b"garbage", b"tar"), Err(InvalidInput));
}

#[test]
fn sources_name_each_file_and_what_to_check() {
    let mut builder = Builder::new();
    builder.prefix("fixtures/bundle").path("fixtures/bundle/data/stdin.txt").path("other/file");
    let sources = builder.sources();
    assert_eq!(sources.len(), 2);
    assert_eq!(sources[0].path, "fixtures/bundle/data/stdin.txt");
    assert_eq!(
        sources[0].ancestors,
        vec!["fixtures/bundle/data/stdin.txt", "fixtures/bundle/data", "fixtures/bundle", "fixtures"]
    );
    assert_eq!(sources[0].name.as_deref(), Some("data/stdin.txt"));
    assert_eq!(sources[1].path, "other/file");
    assert_eq!(sources[1].ancestors, vec!["other/file", "other"]);
    assert_eq!(sources[1].name, None);
}

#[test]
fn sources_without_a_prefix_keep_their_paths() {
    let mut builder = Builder::new();
    builder.path("file").path("/abs/file").path("");
    let sources = builder.sources();
    assert_eq!(sources[0].ancestors, vec!["file"]);
    assert_eq!(sources[0].name.as_deref(), Some("file"));
    assert_eq!(sources[1].ancestors, vec!["/abs/file", "/abs", "/"]);
    assert_eq!(sources[1].name.as_deref(), Some("/abs/file"));
    assert!(sources[2].ancestors.is_empty());
    assert_eq!(sources[2].name.as_deref(), Some(""));
}

#[test]
fn only_directories_and_regular_files_are_admissible() {
    assert!(Source::admissible(true, false));
    assert!(Source::admissible(false, true));
    assert!(!Source::admissible(false, false));
}

#[test]
fn builder_defaults() {
    let builder = Builder::new();
    assert_eq!(builder.section_name(), ".enarx.resources");
    assert!(builder.sources().is_empty());
}

#[test]
fn paths_until_the_first_empty_one() {
    let all = |items: &[&str]| items.iter().map(|s| s.to_string()).collect::<Vec<String>>();
    assert_eq!(paths_until_empty(&all(&["a/b", "a", ""])), all(&["a/b", "a"]));
    assert_eq!(paths_until_empty(&all(&["a", "", "b"])), all(&["a"]));
    assert_eq!(paths_until_empty(&all(&["/a", "/"])), all(&["/a", "/"]));
    assert_eq!(paths_until_empty(&all(&[""])), all(&[]));
    assert_eq!(paths_until_empty(&all(&[])), all(&[]));
}

fn cursor(pos: usize, depth: usize, rest: &[u8]) -> Cursor {
    Cursor { pos, depth, split: Split { custom: vec![], rest: rest.to_vec() } }
}

fn stands(at: &Cursor) -> (usize, usize, Vec<u8>, Vec<Vec<u8>>) {
    (at.pos, at.depth, at.split.rest.clone(), at.split.custom.clone())
}

#[test]
fn take_step_goes_on_through_a_module() {
    let input = b"0123456789";
    let mut at = Cursor::new();
    assert_eq!(stands(&at), (0, 0, vec![], vec![]));
    assert_eq!(take_step(&mut at, &Ok(Piece::Other { consumed: 4 }), input, "res"), Ok(false));
    assert_eq!(stands(&at), (4, 0, b"0123".to_vec(), vec![]));
    let section = Piece::Custom { consumed: 3, name: "res", data: b"56" };
    assert_eq!(take_step(&mut at, &Ok(section), input, "res"), Ok(false));
    assert_eq!(stands(&at), (7, 0, b"0123".to_vec(), vec![b"56".to_vec()]));
    let section = Piece::Custom { consumed: 3, name: "other", data: b"89" };
    assert_eq!(take_step(&mut at, &Ok(section), input, "res"), Ok(false));
    assert_eq!(stands(&at), (10, 0, b"0123789".to_vec(), vec![b"56".to_vec()]));
    assert_eq!(take_step(&mut at, &Ok(Piece::End { consumed: 0 }), input, "res"), Ok(true));
    assert_eq!(at.split.rest, b"0123789");
    assert_eq!(at.split.custom, vec![b"56".to_vec()]);
}

#[test]
fn take_step_enters_and_leaves_nested_modules() {
    let input = b"0123456789";
    let mut at = cursor(2, 0, b"ab");
    let inner = wasmparser::Parser::new(0);
    let nested = Piece::Nested { consumed: 1, parser: inner };
    assert_eq!(take_step(&mut at, &Ok(nested), input, "res"), Ok(false));
    assert_eq!(stands(&at), (3, 1, b"ab".to_vec(), vec![]));
    assert_eq!(take_step(&mut at, &Ok(Piece::Other { consumed: 2 }), input, "res"), Ok(false));
    assert_eq!(stands(&at), (5, 1, b"ab34".to_vec(), vec![]));
    assert_eq!(take_step(&mut at, &Ok(Piece::End { consumed: 0 }), input, "res"), Ok(false));
    assert_eq!(stands(&at), (5, 0, b"ab34".to_vec(), vec![]));
    assert_eq!(take_step(&mut at, &Ok(Piece::End { consumed: 5 }), input, "res"), Ok(true));
    assert_eq!(at.split.rest, b"ab34");
}

#[test]
fn take_step_breaks_off_and_stands_as_it_stood() {
    let input = b"0123456789";
    let refused = |piece: Piece| {
        let mut at = cursor(6, 1, b"ab");
        let r = take_step(&mut at, &Ok(piece), input, "res");
        (r, stands(&at))
    };
    let stood = (6, 1, b"ab".to_vec(), vec![]);
    assert_eq!(refused(Piece::NeedMoreData(3)), (Err(InvalidInput), stood.clone()));
    assert_eq!(refused(Piece::Other { consumed: 0 }), (Err(InvalidInput), stood.clone()));
    assert_eq!(refused(Piece::Other { consumed: 5 }), (Err(InvalidInput), stood.clone()));
    assert_eq!(refused(Piece::End { consumed: 5 }), (Err(InvalidInput), stood.clone()));
    assert_eq!(
        refused(Piece::Custom { consumed: 0, name: "res", data: b"" }),
        (Err(InvalidInput), stood.clone())
    );
    assert_eq!(
        refused(Piece::Nested { consumed: 0, parser: wasmparser::Parser::new(0) }),
        (Err(InvalidInput), stood.clone())
    );
    assert_eq!(refused(Piece::Other { consumed: 4 }).0, Ok(false));
    assert_eq!(refused(Piece::End { consumed: 4 }).0, Ok(false));
}

#[test]
fn take_step_breaks_off_where_the_parser_refuses() {
    let error = match wasmparser::Parser::new(0).parse(b"no module", true) {
        Err(error) => error,
        Ok(_) => panic!("parsed"),
    };
    let mut at = cursor(0, 0, b"");
    assert_eq!(take_step(&mut at, &Err(error), b"no module", "res"), Err(InvalidInput));
    assert_eq!(stands(&at), (0, 0, vec![], vec![]));
}

#[test]
fn build_from_a_parse() {
    let mut builder = Builder::new();
    builder.section("res").prefix("a").path("a/b");
    let split = || Ok(Split { custom: vec![b"old".to_vec()], rest: b"module".to_vec() });
    let mut expected = b"module".to_vec();
    expected.extend_from_slice(&custom_section("res", b"tar"));
    assert_eq!(builder.build_from(split(), b"tar"), Ok(expected));
    assert_eq!(builder.build_from(Err(InvalidInput), b"tar"), Err(InvalidInput));
    builder.path("elsewhere");
    assert_eq!(builder.build_from(split(), b"tar"), Err(InvalidInput));
    assert_eq!(builder.build_from(Err(InvalidInput), b"tar"), Err(InvalidInput));
}
