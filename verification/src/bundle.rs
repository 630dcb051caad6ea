//! The resource bundle: an archive carried in a custom section of a
//! WebAssembly module.

use crate::error::InvalidInput;
use crate::leb::lemma_uleb128_len_u64;
use crate::leb::uleb128;
use crate::leb::write_unsigned;
use crate::path::ancestors;
use crate::path::path_ancestors;
use crate::path::path_strip_prefix;
use crate::path::strip_prefix;
use crate::path::texts;
use vstd::prelude::*;
use vstd::slice::slice_subrange;
use vstd::string::StringSliceAdditionalSpecFns;
use wasmparser::BinaryReaderError;
use wasmparser::Chunk;
use wasmparser::Parser;
use wasmparser::Payload;

verus! {

/// The name of the custom section that carries the resources, where no
/// other is configured.
pub const RESOURCES_SECTION: &'static str = ".enarx.resources";

/// `wasmparser::Parser`, of which nothing is seen but that it is one.
#[verifier::external_type_specification]
#[verifier::external_body]
pub struct ExParser(Parser);

/// `wasmparser::BinaryReaderError`, of which nothing is seen but that
/// it is one.
#[verifier::external_type_specification]
#[verifier::external_body]
pub struct ExBinaryReaderError(BinaryReaderError);

/// One step of the module parser, reduced to what the codec reads of it.
pub enum Piece<'a> {
    /// The parser wants more bytes than it was given.
    NeedMoreData(u64),
    /// A custom section with its name and its payload.
    Custom { consumed: usize, name: &'a str, data: &'a [u8] },
    /// The start of a nested module, with the parser for its bytes.
    Nested { consumed: usize, parser: Parser },
    /// The end of a module.
    End { consumed: usize },
    /// Any other part of a module.
    Other { consumed: usize },
}

/// A step of the module parser with its texts and bytes as sequences.
pub enum PieceView {
    NeedMoreData,
    Custom { consumed: nat, name: Seq<char>, data: Seq<u8> },
    Nested { consumed: nat },
    End { consumed: nat },
    Other { consumed: nat },
}

impl PieceView {
    /// How many bytes of the input the step consumed.
    pub open spec fn consumed(self) -> nat {
        match self {
            PieceView::NeedMoreData => 0,
            PieceView::Custom { consumed, .. } => consumed,
            PieceView::Nested { consumed } => consumed,
            PieceView::End { consumed } => consumed,
            PieceView::Other { consumed } => consumed,
        }
    }
}

impl<'a> View for Piece<'a> {
    type V = PieceView;

    open spec fn view(&self) -> PieceView {
        match self {
            Piece::NeedMoreData(_) => PieceView::NeedMoreData,
            Piece::Custom { consumed, name, data } => PieceView::Custom {
                consumed: *consumed as nat,
                name: name@,
                data: data@,
            },
            Piece::Nested { consumed, .. } => PieceView::Nested { consumed: *consumed as nat },
            Piece::End { consumed } => PieceView::End { consumed: *consumed as nat },
            Piece::Other { consumed } => PieceView::Other { consumed: *consumed as nat },
        }
    }
}

/// What a parse has handed out so far.
pub struct Split {
    /// The payloads of the custom sections of the wanted name, in order.
    pub custom: Vec<Vec<u8>>,
    /// The bytes of everything else, in order.
    pub rest: Vec<u8>,
}

/// What a parse has handed out so far, as sequences.
pub struct SplitView {
    pub custom: Seq<Seq<u8>>,
    pub rest: Seq<u8>,
}

impl View for Split {
    type V = SplitView;

    open spec fn view(&self) -> SplitView {
        SplitView {
            custom: Seq::new(self.custom@.len(), |i: int| self.custom@[i]@),
            rest: self.rest@,
        }
    }
}

/// What one step adds to what a parse hands out: the payload of a custom
/// section of the wanted name goes to the custom payloads, and its framing
/// is dropped; the bytes of any other custom section and of any other
/// part go to the rest as they stand; the markers of nested modules and
/// of a module's end add nothing.
pub open spec fn forward_spec(
    before: SplitView,
    piece: PieceView,
    chunk: Seq<u8>,
    section: Seq<char>,
) -> SplitView {
    match piece {
        PieceView::Custom { consumed, name, data } => if name == section {
            SplitView { custom: before.custom.push(data), rest: before.rest }
        } else {
            SplitView { custom: before.custom, rest: before.rest + chunk.take(consumed as int) }
        },
        PieceView::Other { consumed } => SplitView {
            custom: before.custom,
            rest: before.rest + chunk.take(consumed as int),
        },
        _ => before,
    }
}

/// Where a parse stands: how far into the input, how deep in nested
/// modules, and what it has handed out.
pub struct Progress {
    pub pos: nat,
    pub depth: nat,
    pub split: SplitView,
}

/// A parse that has not begun.
pub open spec fn start() -> Progress {
    Progress { pos: 0, depth: 0, split: SplitView { custom: Seq::empty(), rest: Seq::empty() } }
}

/// How a parse goes on after a step.
pub enum Stepped {
    /// The parse goes on from here.
    On(Progress),
    /// The outermost module has ended: this is what the parse hands out.
    Done(SplitView),
    /// The parse breaks off.
    Refused,
}

/// How a parse goes on after one more step, taken on the input from
/// where it stood. The parse breaks off where the step wants more input,
/// consumes more than there is, or consumes nothing though it does not
/// end a module. The end of a nested module leads back into the module
/// around it, and the end of the outermost module ends the parse.
pub open spec fn step_spec(
    input: Seq<u8>,
    section: Seq<char>,
    at: Progress,
    piece: PieceView,
) -> Stepped {
    let split = forward_spec(at.split, piece, input.skip(at.pos as int), section);
    let pos = at.pos + piece.consumed();
    if pos > input.len() {
        Stepped::Refused
    } else {
        match piece {
            PieceView::NeedMoreData => Stepped::Refused,
            PieceView::End { .. } => if at.depth == 0 {
                Stepped::Done(split)
            } else {
                Stepped::On(Progress { pos, depth: (at.depth - 1) as nat, split })
            },
            PieceView::Nested { consumed } => if consumed == 0 {
                Stepped::Refused
            } else {
                Stepped::On(Progress { pos, depth: at.depth + 1, split })
            },
            _ => if piece.consumed() == 0 {
                Stepped::Refused
            } else {
                Stepped::On(Progress { pos, depth: at.depth, split })
            },
        }
    }
}

/// How a parse goes on after what the parser made of one more step: it
/// breaks off where the parser refuses the input.
pub open spec fn taken_spec(
    input: Seq<u8>,
    section: Seq<char>,
    at: Progress,
    taken: Option<PieceView>,
) -> Stepped {
    match taken {
        Some(piece) => step_spec(input, section, at, piece),
        None => Stepped::Refused,
    }
}

/// Where a parse stands after some steps, none of which ends it.
pub open spec fn after_steps(
    input: Seq<u8>,
    section: Seq<char>,
    steps: Seq<PieceView>,
) -> Option<Progress>
    decreases steps.len(),
{
    if steps.len() == 0 {
        Some(start())
    } else {
        match after_steps(input, section, steps.drop_last()) {
            Some(at) => match step_spec(input, section, at, steps.last()) {
                Stepped::On(next) => Some(next),
                _ => None,
            },
            None => None,
        }
    }
}

/// What a parse hands out that takes these steps and is then told, by
/// a step that consumes `last` bytes, that the outermost module ends.
pub open spec fn replay(
    input: Seq<u8>,
    section: Seq<char>,
    steps: Seq<PieceView>,
    last: nat,
) -> Option<SplitView> {
    match after_steps(input, section, steps) {
        Some(at) => match step_spec(input, section, at, PieceView::End { consumed: last }) {
            Stepped::Done(split) => Some(split),
            _ => None,
        },
        None => None,
    }
}

/// Where a parse stands.
pub struct Cursor {
    /// How far into the input.
    pub pos: usize,
    /// How deep in nested modules.
    pub depth: usize,
    /// What the parse has handed out.
    pub split: Split,
}

impl View for Cursor {
    type V = Progress;

    open spec fn view(&self) -> Progress {
        Progress { pos: self.pos as nat, depth: self.depth as nat, split: self.split@ }
    }
}

impl Cursor {
    /// Whether the parse stands within the input, and no deeper than it
    /// has come far: each step into a nested module consumes a byte.
    pub open spec fn wf(self, input: Seq<u8>) -> bool {
        self.depth <= self.pos <= input.len()
    }

    /// A parse that has not begun.
    pub fn new() -> (at: Self)
        ensures
            at@ == start(),
            forall|input: Seq<u8>| #[trigger] at.wf(input),
    {
        let at = Cursor { pos: 0, depth: 0, split: Split { custom: Vec::new(), rest: Vec::new() } };
        proof {
            assert(at@.split.custom =~= Seq::<Seq<u8>>::empty());
        }
        at
    }
}

/// The view of what the parser made of a step.
pub open spec fn taken_view(taken: Result<Piece, BinaryReaderError>) -> Option<PieceView> {
    match taken {
        Ok(piece) => Some(piece@),
        Err(_) => None,
    }
}

/// The parser that `wasmparser::Parser::new` makes for an offset.
pub uninterp spec fn parser_new(offset: u64) -> Parser;

/// What `wasmparser::Parser::parse` makes of its next step on input that
/// is known to be complete; nothing where it refuses the input.
pub uninterp spec fn parser_yield(parser: Parser, data: Seq<u8>) -> Option<PieceView>;

/// The parser as that step leaves it.
pub uninterp spec fn parser_after(parser: Parser, data: Seq<u8>) -> Parser;

/// The parser that the step hands out for a nested module.
pub uninterp spec fn parser_inner(parser: Parser, data: Seq<u8>) -> Parser;

/// A module parser at the start of a module, by `wasmparser::Parser::new`.
/// Trusted: the parser is the one that function makes for offset 0.
#[verifier::external_body]
fn new_parser() -> (parser: Parser)
    ensures
        parser == parser_new(0),
{
    Parser::new(0)
}

/// Takes one step with `wasmparser::Parser::parse`, on input that is
/// known to be complete. Trusted: what the step yields, how it leaves the
/// parser and which parser it hands out for a nested module depend on the
/// parser and the input alone; a step consumes no more bytes than it was
/// given, and the payload of a custom section lies within the bytes that
/// the step consumed.
#[verifier::external_body]
fn next_piece<'a>(parser: &mut Parser, data: &'a [u8]) -> (r: Result<Piece<'a>, BinaryReaderError>)
    ensures
        taken_view(r) == parser_yield(*old(parser), data@),
        *final(parser) == parser_after(*old(parser), data@),
        r matches Ok(Piece::Nested { parser: inner, .. }) ==> inner == parser_inner(
            *old(parser),
            data@,
        ),
        r matches Ok(piece) ==> piece@.consumed() <= data@.len(),
        r matches Ok(Piece::Custom { consumed, data: payload, .. }) ==> payload@.len() <= consumed,
{
    Ok(match parser.parse(data, true)? {
        Chunk::NeedMoreData(hint) => Piece::NeedMoreData(hint),
        Chunk::Parsed { consumed, payload } => match payload {
            Payload::CustomSection { name, data, .. } => Piece::Custom { consumed, name, data },
            Payload::ModuleCodeSectionEntry { parser, .. } => Piece::Nested { consumed, parser },
            Payload::End => Piece::End { consumed },
            _ => Piece::Other { consumed },
        },
    })
}

/// What a parse hands out that stands at `at`, with `parser` for the
/// module it is in and `stack` for the modules around that one: each
/// step is what the parser makes of the input left, a step into a nested
/// module goes on with the parser handed out for it, and the end of a
/// nested module with the parser of the module around it. Nothing where
/// the parse breaks off.
pub open spec fn parsed_from(
    input: Seq<u8>,
    section: Seq<char>,
    at: Progress,
    parser: Parser,
    stack: Seq<Parser>,
) -> Option<SplitView>
    decreases input.len() - at.pos, at.depth,
{
    let chunk = input.skip(at.pos as int);
    let taken = parser_yield(parser, chunk);
    match taken_spec(input, section, at, taken) {
        Stepped::Refused => None,
        Stepped::Done(split) => Some(split),
        Stepped::On(next) => if at.depth != stack.len() {
            None
        } else {
            match taken {
                Some(PieceView::Nested { .. }) => parsed_from(
                    input,
                    section,
                    next,
                    parser_inner(parser, chunk),
                    stack.push(parser_after(parser, chunk)),
                ),
                Some(PieceView::End { .. }) => parsed_from(
                    input,
                    section,
                    next,
                    stack.last(),
                    stack.drop_last(),
                ),
                _ => parsed_from(input, section, next, parser_after(parser, chunk), stack),
            }
        },
    }
}

/// What the parse of a module hands out: the payloads of its custom
/// sections named `section` and the bytes of everything else. Nothing
/// where the module does not parse.
pub open spec fn parsed(input: Seq<u8>, section: Seq<char>) -> Option<SplitView> {
    parsed_from(input, section, start(), parser_new(0), Seq::empty())
}

/// Appends bytes to a vector.
fn append_bytes(out: &mut Vec<u8>, bytes: &[u8])
    ensures
        final(out)@ == old(out)@ + bytes@,
{
    let mut i: usize = 0;
    while i < bytes.len()
        invariant
            i <= bytes.len(),
            out@ == old(out)@ + bytes@.take(i as int),
        decreases bytes.len() - i,
    {
        out.push(bytes[i]);
        proof {
            assert(bytes@.take(i as int + 1) =~= bytes@.take(i as int).push(bytes@[i as int]));
        }
        i += 1;
    }
    proof {
        assert(bytes@.take(bytes@.len() as int) =~= bytes@);
    }
}

/// Whether two strings hold the same text.
fn same_text(a: &str, b: &str) -> (r: bool)
    ensures
        r == (a@ == b@),
{
    broadcast use {vstd::utf8::encode_utf8_decode_utf8, vstd::utf8::encode_utf8_valid_utf8};

    let x = a.as_bytes();
    let y = b.as_bytes();
    if x.len() != y.len() {
        return false;
    }
    let mut i: usize = 0;
    while i < x.len()
        invariant
            i <= x.len() == y.len(),
            x@ == a.spec_bytes(),
            y@ == b.spec_bytes(),
            forall|j: int| 0 <= j < i ==> x@[j] == y@[j],
        decreases x.len() - i,
    {
        if x[i] != y[i] {
            assert(a@ == b@ ==> x@ == y@);
            return false;
        }
        i += 1;
    }
    proof {
        assert(x@ =~= y@);
        assert(vstd::utf8::decode_utf8(a.spec_bytes()) == a@);
        assert(vstd::utf8::decode_utf8(b.spec_bytes()) == b@);
    }
    true
}

/// Hands out what one step of the parser yielded: see [`forward_spec`].
/// `chunk` is the input that the step was taken on.
pub fn forward(split: &mut Split, piece: &Piece, chunk: &[u8], section: &str)
    requires
        piece@.consumed() <= chunk@.len(),
    ensures
        final(split)@ == forward_spec(old(split)@, piece@, chunk@, section@),
{
    match piece {
        Piece::Custom { consumed, name, data } => {
            if same_text(name, section) {
                let mut payload: Vec<u8> = Vec::new();
                append_bytes(&mut payload, data);
                split.custom.push(payload);
                proof {
                    assert(final(split)@.custom =~= old(split)@.custom.push(data@));
                }
            } else {
                append_bytes(&mut split.rest, slice_subrange(chunk, 0, *consumed));
                proof {
                    assert(final(split)@.custom =~= old(split)@.custom);
                }
            }
        },
        Piece::Other { consumed } => {
            append_bytes(&mut split.rest, slice_subrange(chunk, 0, *consumed));
            proof {
                assert(final(split)@.custom =~= old(split)@.custom);
            }
        },
        _ => {
            proof {
                assert(final(split)@.custom =~= old(split)@.custom);
            }
        },
    }
}

/// Takes what the parser made of one more step into a parse of `input`:
/// see [`taken_spec`]. It tells whether the parse has ended, and the
/// parse then stands where it stood, with what it hands out; where the
/// parse breaks off, it stands as it stood.
pub fn take_step(
    at: &mut Cursor,
    taken: &Result<Piece, BinaryReaderError>,
    input: &[u8],
    section: &str,
) -> (r: Result<bool, InvalidInput>)
    requires
        old(at).wf(input@),
    ensures
        match taken_spec(input@, section@, old(at)@, taken_view(*taken)) {
            Stepped::On(next) => r == Ok::<bool, InvalidInput>(false) && final(at)@ == next
                && final(at).wf(input@),
            Stepped::Done(split) => r == Ok::<bool, InvalidInput>(true) && final(at)@ == (Progress {
                split,
                ..old(at)@
            }),
            Stepped::Refused => r == Err::<bool, InvalidInput>(InvalidInput) && *final(at)
                == *old(at),
        },
{
    let piece = match taken {
        Ok(piece) => piece,
        Err(_) => {
            return Err(InvalidInput);
        },
    };
    let (consumed, ends): (usize, bool) = match piece {
        Piece::NeedMoreData(_) => {
            return Err(InvalidInput);
        },
        Piece::Custom { consumed, .. } => (*consumed, false),
        Piece::Nested { consumed, .. } => (*consumed, false),
        Piece::End { consumed } => (*consumed, true),
        Piece::Other { consumed } => (*consumed, false),
    };
    if consumed > input.len() - at.pos {
        return Err(InvalidInput);
    }
    if !ends && consumed == 0 {
        return Err(InvalidInput);
    }
    let chunk = slice_subrange(input, at.pos, input.len());
    proof {
        assert(chunk@ =~= input@.skip(at.pos as int));
    }
    forward(&mut at.split, piece, chunk, section);
    match piece {
        Piece::End { .. } => {
            if at.depth == 0 {
                return Ok(true);
            }
            at.depth = at.depth - 1;
        },
        Piece::Nested { .. } => {
            at.depth = at.depth + 1;
        },
        _ => {},
    }
    at.pos = at.pos + consumed;
    Ok(false)
}

/// Splits a module into the payloads of its custom sections named
/// `section` and the bytes of everything else.
///
/// The module is parsed step by step, each step on the input that the
/// steps before it left, nested modules by the parser that the step into
/// each hands out, to the end of the outermost module, and [`take_step`]
/// takes what the parser made of each: the result is the [`replay`] of
/// the steps that the parser took. A module that does not parse is
/// refused, and so is one on which the parser takes a step that
/// [`step_spec`] breaks off at. Whatever the parser yields, the bytes
/// handed out are no more than the module has. The bytes of a step into
/// a nested module are handed out nowhere, so that the rest reproduces
/// only a module that holds no nested module.
pub fn parse(input: &[u8], section: &str) -> (r: Result<Split, InvalidInput>)
    ensures
        match parsed(input@, section@) {
            Some(split) => r matches Ok(found) && found@ == split,
            None => r is Err,
        },
        r matches Ok(split) ==> {
            &&& exists|steps: Seq<PieceView>, last: nat| #[trigger]
                replay(input@, section@, steps, last) == Some(split@)
            &&& split@.rest.len() + total_bytes(split@.custom) <= input@.len()
        },
{
    let mut at = Cursor::new();
    let mut parser = new_parser();
    let mut stack: Vec<Parser> = Vec::new();
    let ghost mut steps: Seq<PieceView> = Seq::empty();
    proof {
        assert(total_bytes(at@.split.custom) == 0);
        assert(stack@ =~= Seq::<Parser>::empty());
    }
    loop
        invariant
            at.wf(input@),
            at.depth == stack@.len(),
            at@.split.rest.len() + total_bytes(at@.split.custom) <= at.pos,
            after_steps(input@, section@, steps) == Some(at@),
            parsed(input@, section@) == parsed_from(input@, section@, at@, parser, stack@),
        decreases input@.len() - at.pos, at.depth,
    {
        let chunk = slice_subrange(input, at.pos, input.len());
        proof {
            assert(chunk@ =~= input@.skip(at.pos as int));
        }
        let taken = next_piece(&mut parser, chunk);
        let ghost before = at@;
        let ended = match take_step(&mut at, &taken, input, section) {
            Ok(ended) => ended,
            Err(e) => {
                return Err(e);
            },
        };
        proof {
            let piece = taken->Ok_0@;
            if piece is Custom {
                lemma_total_bytes_push(before.split.custom, piece->data);
            }
            if ended {
                assert(replay(input@, section@, steps, piece.consumed()) == Some(at@.split));
            } else {
                let tried = steps;
                steps = tried.push(piece);
                assert(steps.drop_last() =~= tried);
            }
        }
        if ended {
            return Ok(at.split);
        }
        match taken {
            Ok(Piece::Nested { parser: inner, .. }) => {
                stack.push(parser);
                parser = inner;
            },
            Ok(Piece::End { .. }) => {
                let ghost around = stack@;
                match stack.pop() {
                    Some(outer) => {
                        parser = outer;
                        proof {
                            assert(stack@ =~= around.drop_last());
                        }
                    },
                    None => {
                        assert(false);
                        return Err(InvalidInput);
                    },
                }
            },
            _ => {},
        }
    }
}

/// The lengths of some byte strings together.
pub open spec fn total_bytes(items: Seq<Seq<u8>>) -> nat
    decreases items.len(),
{
    if items.len() == 0 {
        0
    } else {
        total_bytes(items.drop_last()) + items.last().len()
    }
}

proof fn lemma_total_bytes_push(items: Seq<Seq<u8>>, item: Seq<u8>)
    ensures
        total_bytes(items.push(item)) == total_bytes(items) + item.len(),
{
    assert(items.push(item).drop_last() =~= items);
}

/// A custom section as it stands in a module: the section id `0`, the
/// size of what follows it, the length of the name, the name, and the
/// payload; the two numbers in unsigned LEB128.
pub open spec fn section_frame(name: Seq<u8>, data: Seq<u8>) -> Seq<u8> {
    let header = uleb128(name.len()) + name;
    seq![0u8] + uleb128(header.len() + data.len()) + header + data
}

/// Appends an archive to a module as a custom section of the given name.
pub fn append_archive(writer: &mut Vec<u8>, section: &str, archive: &[u8])
    requires
        section.spec_bytes().len() + archive@.len() + 10 <= u64::MAX,
    ensures
        final(writer)@ == old(writer)@ + section_frame(section.spec_bytes(), archive@),
{
    let mut header: Vec<u8> = Vec::new();
    let name = section.as_bytes();
    write_unsigned(&mut header, name.len() as u64);
    append_bytes(&mut header, name);
    proof {
        lemma_uleb128_len_u64(name.len() as u64);
        assert(header@ =~= uleb128(name@.len()) + name@);
    }
    let size: u64 = archive.len() as u64;
    writer.push(0);
    write_unsigned(writer, size + header.len() as u64);
    append_bytes(writer, header.as_slice());
    append_bytes(writer, archive);
    proof {
        assert(final(writer)@ =~= old(writer)@ + section_frame(section.spec_bytes(), archive@));
    }
}

/// A file to put into the archive.
pub struct Source {
    /// Where the file lies.
    pub path: String,
    /// The paths whose kind is to be checked before the file is taken:
    /// the file's own path and each directory above it.
    pub ancestors: Vec<String>,
    /// The name that the file gets in the archive; none where the path
    /// does not lie under the prefix.
    pub name: Option<String>,
}

/// The leading paths of a list, up to the first that is empty.
pub open spec fn until_empty(all: Seq<Seq<char>>) -> Seq<Seq<char>>
    decreases all.len(),
{
    if all.len() == 0 || all[0].len() == 0 {
        Seq::empty()
    } else {
        seq![all[0]] + until_empty(all.drop_first())
    }
}

impl Source {
    /// Whether the file's path, its checks and its name are those that
    /// the path and the prefix give.
    pub open spec fn plans(self, path: Seq<char>, prefix: Seq<char>) -> bool {
        &&& self.path@ == path
        &&& texts(self.ancestors@) == until_empty(path_ancestors(path))
        &&& match self.name {
            Some(name) => path_strip_prefix(path, prefix) == Some(name@),
            None => path_strip_prefix(path, prefix) is None,
        }
    }

    /// Whether a path of the kind found may stand above a file of the
    /// archive or be one: a directory or a regular file may, nothing else.
    pub fn admissible(is_dir: bool, is_file: bool) -> (ok: bool)
        ensures
            ok == (is_dir || is_file),
    {
        is_dir || is_file
    }
}

/// The leading paths of a list, up to the first that is empty.
pub fn paths_until_empty(all: &Vec<String>) -> (list: Vec<String>)
    ensures
        texts(list@) == until_empty(texts(all@)),
{
    let mut list: Vec<String> = Vec::new();
    let mut i: usize = 0;
    proof {
        assert(texts(all@).skip(0) =~= texts(all@));
        assert(texts(list@) =~= Seq::<Seq<char>>::empty());
    }
    while i < all.len()
        invariant
            i <= all.len(),
            until_empty(texts(all@)) == texts(list@) + until_empty(texts(all@).skip(i as int)),
        decreases all.len() - i,
    {
        let ghost tail = texts(all@).skip(i as int);
        proof {
            assert(tail[0] == all@[i as int]@);
            assert(tail.drop_first() =~= texts(all@).skip(i as int + 1));
        }
        if all[i].as_str().is_empty() {
            proof {
                assert(texts(list@) + Seq::<Seq<char>>::empty() =~= texts(list@));
            }
            return list;
        }
        let ghost before = texts(list@);
        list.push(all[i].clone());
        proof {
            assert(texts(list@) =~= before.push(all@[i as int]@));
            assert(before + (seq![tail[0]] + until_empty(tail.drop_first())) =~= before.push(
                tail[0],
            ) + until_empty(tail.drop_first()));
        }
        i += 1;
    }
    proof {
        assert(texts(list@) + Seq::<Seq<char>>::empty() =~= texts(list@));
    }
    list
}

/// Builds bundles: collects the files to carry, the prefix to strip from
/// their paths, and the name of the section.
pub struct Builder {
    paths: Vec<String>,
    prefix: Option<String>,
    section: Option<String>,
}

/// What a builder holds.
pub struct BuilderView {
    pub paths: Seq<Seq<char>>,
    pub prefix: Option<Seq<char>>,
    pub section: Option<Seq<char>>,
}

impl BuilderView {
    /// The prefix to strip: the empty one where none is configured.
    pub open spec fn prefix_text(self) -> Seq<char> {
        match self.prefix {
            Some(prefix) => prefix,
            None => Seq::empty(),
        }
    }

    /// The section name: the default where none is configured.
    pub open spec fn section_text(self) -> Seq<char> {
        match self.section {
            Some(section) => section,
            None => RESOURCES_SECTION@,
        }
    }

    /// Whether every path lies under the prefix.
    pub open spec fn all_under_prefix(self) -> bool {
        forall|i: int|
            0 <= i < self.paths.len() ==> path_strip_prefix(
                #[trigger] self.paths[i],
                self.prefix_text(),
            ) is Some
    }
}

impl View for Builder {
    type V = BuilderView;

    closed spec fn view(&self) -> BuilderView {
        BuilderView {
            paths: texts(self.paths@),
            prefix: match self.prefix {
                Some(p) => Some(p@),
                None => None,
            },
            section: match self.section {
                Some(s) => Some(s@),
                None => None,
            },
        }
    }
}

impl Builder {
    /// A builder with no paths, no prefix and the default section name.
    pub fn new() -> (builder: Self)
        ensures
            builder@ == (BuilderView { paths: Seq::empty(), prefix: None, section: None }),
    {
        let builder = Self { paths: Vec::new(), prefix: None, section: None };
        proof {
            assert(texts(builder.paths@) =~= Seq::<Seq<char>>::empty());
        }
        builder
    }

    /// Adds a file to carry.
    pub fn path(&mut self, path: &str) -> (ret: &mut Self)
        ensures
            ret@ == (BuilderView { paths: old(self)@.paths.push(path@), ..old(self)@ }),
            *final(self) == *final(ret),
    {
        let ghost before = texts(self.paths@);
        self.paths.push(path.to_owned());
        proof {
            assert(texts(self.paths@) =~= before.push(path@));
        }
        self
    }

    /// Sets the prefix to strip from the paths.
    pub fn prefix(&mut self, prefix: &str) -> (ret: &mut Self)
        ensures
            ret@ == (BuilderView { prefix: Some(prefix@), ..old(self)@ }),
            *final(self) == *final(ret),
    {
        self.prefix = Some(prefix.to_owned());
        self
    }

    /// Sets the name of the section.
    pub fn section(&mut self, section: &str) -> (ret: &mut Self)
        ensures
            ret@ == (BuilderView { section: Some(section@), ..old(self)@ }),
            *final(self) == *final(ret),
    {
        self.section = Some(section.to_owned());
        self
    }

    /// The prefix to strip.
    fn prefix_str(&self) -> (s: &str)
        ensures
            s@ == self@.prefix_text(),
    {
        proof {
            reveal_strlit("");
        }
        match &self.prefix {
            Some(prefix) => prefix.as_str(),
            None => {
                assert(""@ =~= Seq::<char>::empty());
                ""
            },
        }
    }

    /// The name of the section.
    pub fn section_name(&self) -> (s: &str)
        ensures
            s@ == self@.section_text(),
    {
        match &self.section {
            Some(section) => section.as_str(),
            None => RESOURCES_SECTION,
        }
    }

    /// The files to put into the archive, in the order in which they were
    /// added, each with the paths to check before it is taken and with
    /// its name in the archive.
    pub fn sources(&self) -> (list: Vec<Source>)
        ensures
            list@.len() == self@.paths.len(),
            forall|i: int|
                0 <= i < list@.len() ==> (#[trigger] list@[i]).plans(
                    self@.paths[i],
                    self@.prefix_text(),
                ),
    {
        let prefix = self.prefix_str();
        let mut list: Vec<Source> = Vec::new();
        let mut i: usize = 0;
        while i < self.paths.len()
            invariant
                i <= self.paths.len(),
                list@.len() == i,
                prefix@ == self@.prefix_text(),
                forall|j: int|
                    0 <= j < i ==> (#[trigger] list@[j]).plans(
                        self@.paths[j],
                        self@.prefix_text(),
                    ),
            decreases self.paths.len() - i,
        {
            let path = self.paths[i].as_str();
            let source = Source {
                path: self.paths[i].clone(),
                ancestors: paths_until_empty(&ancestors(path)),
                name: strip_prefix(path, prefix),
            };
            list.push(source);
            i += 1;
        }
        list
    }

    /// Whether every path lies under the prefix.
    pub fn check_paths(&self) -> (r: Result<(), InvalidInput>)
        ensures
            r is Ok <==> self@.all_under_prefix(),
    {
        let prefix = self.prefix_str();
        let mut i: usize = 0;
        while i < self.paths.len()
            invariant
                i <= self.paths.len(),
                prefix@ == self@.prefix_text(),
                forall|j: int|
                    0 <= j < i ==> path_strip_prefix(
                        #[trigger] self@.paths[j],
                        self@.prefix_text(),
                    ) is Some,
            decreases self.paths.len() - i,
        {
            if strip_prefix(self.paths[i].as_str(), prefix).is_none() {
                assert(path_strip_prefix(self@.paths[i as int], self@.prefix_text()) is None);
                return Err(InvalidInput);
            }
            i += 1;
        }
        Ok(())
    }

    /// Bundles what a parse made of a module with an archive of the
    /// configured files: the rest that the parse handed out, then the
    /// archive as a section of the configured name. It fails where a path
    /// does not lie under the prefix, and where the parse failed.
    pub fn build_from(&self, parsed: Result<Split, InvalidInput>, archive: &[u8]) -> (r: Result<
        Vec<u8>,
        InvalidInput,
    >)
        requires
            self@.section_text().len() * 4 + archive@.len() + 10 <= u64::MAX,
        ensures
            match parsed {
                Ok(split) => if self@.all_under_prefix() {
                    r matches Ok(output) && output@ == bundled(
                        split@.rest,
                        self@.section_text(),
                        archive@,
                    )
                } else {
                    r == Err::<Vec<u8>, InvalidInput>(InvalidInput)
                },
                Err(_) => r == Err::<Vec<u8>, InvalidInput>(InvalidInput),
            },
    {
        if self.check_paths().is_err() {
            return Err(InvalidInput);
        }
        match parsed {
            Ok(split) => Ok(bundle(split.rest, self.section_name(), archive)),
            Err(e) => Err(e),
        }
    }

    /// Bundles a module with an archive of the configured files: the
    /// module without its sections of the configured name, then the
    /// archive as one such section.
    ///
    /// A path that does not lie under the prefix is refused, and so is a
    /// module that does not parse: the result is what
    /// [`Builder::build_from`] makes of the parse of the module. A second
    /// build on a bundle replaces its section: what [`parse`] hands out as
    /// the rest holds no section of the configured name. Nor does it hold
    /// the bytes of a step into a nested module: the bundle reproduces
    /// only a module that holds no nested module.
    pub fn build(&mut self, input: &[u8], archive: &[u8]) -> (r: Result<Vec<u8>, InvalidInput>)
        requires
            old(self)@.section_text().len() * 4 + archive@.len() + 10 <= u64::MAX,
        ensures
            *final(self) == *old(self),
            match parsed(input@, old(self)@.section_text()) {
                Some(split) => if old(self)@.all_under_prefix() {
                    r matches Ok(output) && output@ == bundled(
                        split.rest,
                        old(self)@.section_text(),
                        archive@,
                    )
                } else {
                    r is Err
                },
                None => r is Err,
            },
            r matches Ok(output) ==> exists|steps: Seq<PieceView>, last: nat| #[trigger]
                replay(input@, old(self)@.section_text(), steps, last) matches Some(kept)
                    && output@ == bundled(kept.rest, old(self)@.section_text(), archive@),
    {
        let parsed = parse(input, self.section_name());
        let ghost found = parsed;
        let r = self.build_from(parsed, archive);
        proof {
            if r is Ok {
                let split = found->Ok_0;
                let (steps, last) = choose|steps: Seq<PieceView>, last: nat| #[trigger]
                    replay(input@, self@.section_text(), steps, last) == Some(split@);
                assert(replay(input@, old(self)@.section_text(), steps, last) matches Some(kept)
                    && r->Ok_0@ == bundled(kept.rest, old(self)@.section_text(), archive@));
            }
        }
        r
    }
}

/// A module followed by an archive as a custom section of the given name.
pub open spec fn bundled(module: Seq<u8>, section: Seq<char>, archive: Seq<u8>) -> Seq<u8> {
    module + section_frame(vstd::utf8::encode_utf8(section), archive)
}

/// Appends an archive to a module that holds no section of the given
/// name.
pub fn bundle(module: Vec<u8>, section: &str, archive: &[u8]) -> (output: Vec<u8>)
    requires
        section@.len() * 4 + archive@.len() + 10 <= u64::MAX,
    ensures
        output@ == bundled(module@, section@, archive@),
{
    let mut output = module;
    proof {
        lemma_encoded_len(section@);
    }
    append_archive(&mut output, section, archive);
    output
}

/// A text of `n` characters has at most `4 * n` bytes.
proof fn lemma_encoded_len(text: Seq<char>)
    ensures
        vstd::utf8::encode_utf8(text).len() <= 4 * text.len(),
    decreases text.len(),
{
    if text.len() > 0 {
        lemma_encoded_len(text.drop_first());
    }
}

proof fn lemma_steps_extend(
    input: Seq<u8>,
    extra: Seq<u8>,
    section: Seq<char>,
    steps: Seq<PieceView>,
)
    requires
        after_steps(input, section, steps) is Some,
    ensures
        after_steps(input + extra, section, steps) == after_steps(input, section, steps),
        after_steps(input, section, steps).unwrap().pos <= input.len(),
    decreases steps.len(),
{
    if steps.len() > 0 {
        lemma_steps_extend(input, extra, section, steps.drop_last());
        let at = after_steps(input, section, steps.drop_last()).unwrap();
        let piece = steps.last();
        let n = piece.consumed() as int;
        assert((input + extra).skip(at.pos as int).take(n) =~= input.skip(at.pos as int).take(n));
    }
}

/// A bundle parses into its module and its archive, as far as the parser
/// goes along: where it takes on the bundle the steps that it took on the
/// module alone, and then reads the appended section as the custom
/// section that it is, the parse hands out what the parse of the module
/// handed out, and the archive after it.
pub proof fn law_bundle_replays(
    module: Seq<u8>,
    section: Seq<char>,
    archive: Seq<u8>,
    steps: Seq<PieceView>,
    last: nat,
)
    requires
        replay(module, section, steps, last) is Some,
    ensures
        ({
            let kept = replay(module, section, steps, last).unwrap();
            let frame = section_frame(vstd::utf8::encode_utf8(section), archive);
            let appended = PieceView::Custom { consumed: frame.len(), name: section, data: archive };
            replay(bundled(module, section, archive), section, steps.push(appended), 0) == Some(
                SplitView { custom: kept.custom.push(archive), rest: kept.rest },
            )
        }),
{
    let frame = section_frame(vstd::utf8::encode_utf8(section), archive);
    let appended = PieceView::Custom { consumed: frame.len(), name: section, data: archive };
    lemma_steps_extend(module, frame, section, steps);
    assert(steps.push(appended).drop_last() =~= steps);
}

/// Whether no step enters a nested module and none is a section of the
/// name.
pub open spec fn plain(steps: Seq<PieceView>, section: Seq<char>) -> bool {
    forall|i: int|
        0 <= i < steps.len() ==> match #[trigger] steps[i] {
            PieceView::Nested { .. } => false,
            PieceView::Custom { name, .. } => name != section,
            _ => true,
        }
}

/// The rest reproduces a module that holds no nested module: where no
/// step enters a nested module and none is a section of the name, the
/// rest is the input as far as the steps went, which is the whole input
/// where the parse ends at its end. The bytes of a step into a nested
/// module are handed out nowhere.
pub proof fn law_rest_is_the_input(
    input: Seq<u8>,
    section: Seq<char>,
    steps: Seq<PieceView>,
    last: nat,
)
    requires
        after_steps(input, section, steps) is Some,
        plain(steps, section),
    ensures
        ({
            let at = after_steps(input, section, steps).unwrap();
            &&& at.depth == 0
            &&& at.pos <= input.len()
            &&& at.split.custom.len() == 0
            &&& at.split.rest == input.take(at.pos as int)
            &&& at.pos + last <= input.len() ==> replay(input, section, steps, last) == Some(
                at.split,
            )
            &&& at.pos == input.len() ==> at.split.rest == input
        }),
    decreases steps.len(),
{
    let at = after_steps(input, section, steps).unwrap();
    if steps.len() == 0 {
        assert(at.split.rest =~= input.take(0));
    } else {
        let tried = steps.drop_last();
        let piece = steps.last();
        assert(plain(tried, section)) by {
            assert forall|i: int| 0 <= i < tried.len() implies match #[trigger] tried[i] {
                PieceView::Nested { .. } => false,
                PieceView::Custom { name, .. } => name != section,
                _ => true,
            } by {
                assert(tried[i] == steps[i]);
            }
        }
        law_rest_is_the_input(input, section, tried, 0);
        let before = after_steps(input, section, tried).unwrap();
        let n = piece.consumed() as int;
        assert(steps[steps.len() - 1] == piece);
        assert(input.take(before.pos as int) + input.skip(before.pos as int).take(n) =~= input.take(
            before.pos + n,
        ));
    }
    if at.pos == input.len() {
        assert(input.take(input.len() as int) =~= input);
    }
}

} // verus!
