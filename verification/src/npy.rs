//! The header of NumPy files: the type of their elements and their shape.

use vstd::prelude::*;
use vstd::utf8::{decode_utf8, valid_utf8};

use crate::bytes::read_le;
use crate::error::Error;
use crate::text::{
    find_from, from_chars, parse_usize, replace_char, same_text, split, to_chars, trim,
};

verus! {

/// Supported NumPy data types.
#[derive(Clone, Copy, Debug, PartialEq, Eq, Structural)]
pub enum NpyDtype {
    F32,
    F64,
    U8,
    U16,
    U32,
    I8,
    I16,
    I32,
}

/// Parsed NPY header information.
#[derive(Debug)]
pub struct NpyHeader {
    pub dtype: NpyDtype,
    pub shape: Vec<usize>,
}

/// Why a header is not accepted.
#[derive(Debug)]
pub enum NpyHeaderError {
    /// It is answered with this error.
    Rejected(Error),
    /// The shape is closed before it is opened, and no range of the header lies
    /// between.
    ShapeClosesEarly,
}

/// Whether a result is the error that image data is invalid, with this text.
pub open spec fn is_invalid<T>(r: Result<T, NpyHeaderError>, message: Seq<char>) -> bool {
    r matches Err(NpyHeaderError::Rejected(Error::InvalidImageData(text))) && text@ == message
}

fn invalid<T>(message: &str) -> (r: Result<T, NpyHeaderError>)
    ensures
        is_invalid(r, message@),
{
    Err(NpyHeaderError::Rejected(Error::InvalidImageData(message.to_owned())))
}

// ----------------------------------------------------------------------------
// Positions
// ----------------------------------------------------------------------------

/// The first position at which `needle` stands in `s`.
pub open spec fn position(s: Seq<char>, needle: Seq<char>) -> Option<int> {
    if exists|i: int| #[trigger] crate::text::first_occurrence(s, needle, i) {
        Some(choose|i: int| #[trigger] crate::text::first_occurrence(s, needle, i))
    } else {
        None
    }
}

proof fn lemma_position(s: Seq<char>, needle: Seq<char>, i: int)
    requires
        crate::text::first_occurrence(s, needle, i),
    ensures
        position(s, needle) == Some(i),
{
    let j = choose|j: int| #[trigger] crate::text::first_occurrence(s, needle, j);
    if i < j {
        assert(!crate::text::occurs_at(s, needle, i));
    } else if j < i {
        assert(!crate::text::occurs_at(s, needle, j));
    }
}

fn find(s: &Vec<char>, needle: &str) -> (r: Option<usize>)
    ensures
        match r {
            Some(i) => position(s@, needle@) == Some(i as int) && i + needle@.len() <= s@.len(),
            None => position(s@, needle@) is None,
        },
{
    let wanted = to_chars(needle);
    let r = find_from(s, &wanted, 0);
    proof {
        assert(s@.skip(0) =~= s@);
        match r {
            Some(i) => {
                lemma_position(s@, needle@, i as int);
            },
            None => {
                assert forall|i: int| !#[trigger] crate::text::first_occurrence(
                    s@,
                    needle@,
                    i,
                ) by {
                    assert(!crate::text::occurs_at(s@, needle@, i));
                }
            },
        }
    }
    r
}

/// Where a key stands in a header: in single quotes, else in double quotes.
pub open spec fn key_position(header: Seq<char>, single: Seq<char>, double: Seq<char>) -> Option<
    int,
> {
    match position(header, single) {
        Some(i) => Some(i),
        None => position(header, double),
    }
}

fn find_key(header: &Vec<char>, single: &str, double: &str) -> (r: Option<usize>)
    ensures
        match r {
            Some(i) => key_position(header@, single@, double@) == Some(i as int) && i
                <= header@.len(),
            None => key_position(header@, single@, double@) is None,
        },
{
    match find(header, single) {
        Some(i) => Some(i),
        None => find(header, double),
    }
}

// ----------------------------------------------------------------------------
// Element type
// ----------------------------------------------------------------------------

/// The pieces of a text between quotes of either kind.
pub open spec fn quoted_pieces(text: Seq<char>) -> Seq<Seq<char>> {
    crate::text::split_spec(crate::text::replace_char_spec(text, '"', '\''), '\'')
}

/// Whether a piece names an element type: a byte order, and something behind it.
pub open spec fn is_type_text(piece: Seq<char>) -> bool {
    piece.len() >= 2 && (piece[0] == '<' || piece[0] == '>' || piece[0] == '|')
}

/// The first piece that names an element type.
pub open spec fn first_type_text(pieces: Seq<Seq<char>>) -> Option<Seq<char>>
    decreases pieces.len(),
{
    if pieces.len() == 0 {
        None
    } else if is_type_text(pieces[0]) {
        Some(pieces[0])
    } else {
        first_type_text(pieces.skip(1))
    }
}

/// The element type that a name without byte order stands for.
pub open spec fn dtype_of(name: Seq<char>) -> Option<NpyDtype> {
    if name == "f4"@ {
        Some(NpyDtype::F32)
    } else if name == "f8"@ {
        Some(NpyDtype::F64)
    } else if name == "u1"@ {
        Some(NpyDtype::U8)
    } else if name == "u2"@ {
        Some(NpyDtype::U16)
    } else if name == "u4"@ {
        Some(NpyDtype::U32)
    } else if name == "i1"@ {
        Some(NpyDtype::I8)
    } else if name == "i2"@ {
        Some(NpyDtype::I16)
    } else if name == "i4"@ {
        Some(NpyDtype::I32)
    } else {
        None
    }
}

fn dtype_named(name: &str) -> (r: Option<NpyDtype>)
    ensures
        r == dtype_of(name@),
{
    if same_text(name, "f4") {
        Some(NpyDtype::F32)
    } else if same_text(name, "f8") {
        Some(NpyDtype::F64)
    } else if same_text(name, "u1") {
        Some(NpyDtype::U8)
    } else if same_text(name, "u2") {
        Some(NpyDtype::U16)
    } else if same_text(name, "u4") {
        Some(NpyDtype::U32)
    } else if same_text(name, "i1") {
        Some(NpyDtype::I8)
    } else if same_text(name, "i2") {
        Some(NpyDtype::I16)
    } else if same_text(name, "i4") {
        Some(NpyDtype::I32)
    } else {
        None
    }
}

/// Whether the element type of a header is read as it should be.
pub open spec fn dtype_read(header: Seq<char>, r: Result<NpyDtype, NpyHeaderError>) -> bool {
    match key_position(header, "'descr'"@, "\"descr\""@) {
        None => is_invalid(r, "No 'descr' in NPY header"@),
        Some(at) => match first_type_text(quoted_pieces(header.skip(at))) {
            None => is_invalid(r, "Cannot parse dtype from NPY header"@),
            Some(text) => match dtype_of(text.skip(1)) {
                Some(dtype) => r == Ok::<NpyDtype, NpyHeaderError>(dtype),
                None => is_invalid(r, "Unsupported NPY dtype: "@ + text),
            },
        },
    }
}

/// Extract dtype string from header and convert to NpyDtype.
pub fn parse_dtype_from_header(header: &str) -> (r: Result<NpyDtype, NpyHeaderError>)
    ensures
        dtype_read(header@, r),
{
    let chars = to_chars(header);
    let at: usize = match find_key(&chars, "'descr'", "\"descr\"") {
        Some(at) => at,
        None => return invalid("No 'descr' in NPY header"),
    };
    let rest = from_chars(&chars, at, chars.len());
    assert(rest@ =~= header@.skip(at as int));
    let pieces = split(replace_char(rest.as_str(), '"', '\'').as_str(), '\'');
    let ghost all = quoted_pieces(rest@);
    let mut i: usize = 0;
    assert(all.skip(0) =~= all);
    while i < pieces.len()
        invariant
            i <= pieces@.len(),
            crate::text::texts(pieces@) == all,
            all == quoted_pieces(rest@),
            first_type_text(all) == first_type_text(all.skip(i as int)),
            rest@ == header@.skip(at as int),
            key_position(header@, "'descr'"@, "\"descr\""@) == Some(at as int),
        decreases pieces@.len() - i,
    {
        let piece = to_chars(pieces[i].as_str());
        assert(piece@ == all[i as int]);
        assert(all.skip(i as int)[0] == all[i as int]);
        assert(all.skip(i as int).skip(1) =~= all.skip(i + 1));
        if piece.len() >= 2 && (piece[0] == '<' || piece[0] == '>' || piece[0] == '|') {
            let name = from_chars(&piece, 1, piece.len());
            assert(name@ =~= piece@.skip(1));
            return match dtype_named(name.as_str()) {
                Some(dtype) => Ok(dtype),
                None => {
                    let mut message = "Unsupported NPY dtype: ".to_owned();
                    message.append(pieces[i].as_str());
                    Err(NpyHeaderError::Rejected(Error::InvalidImageData(message)))
                },
            };
        }
        i = i + 1;
    }
    assert(first_type_text(all) is None);
    invalid("Cannot parse dtype from NPY header")
}

// ----------------------------------------------------------------------------
// Shape
// ----------------------------------------------------------------------------

/// The numbers among texts, each without the whitespace around it. What is no
/// number is left out.
pub open spec fn numbers(parts: Seq<Seq<char>>) -> Seq<usize>
    decreases parts.len(),
{
    if parts.len() == 0 {
        Seq::empty()
    } else {
        match crate::text::parse_unsigned_spec(
            crate::text::trim_spec(parts.last()),
            usize::MAX as nat,
        ) {
            Some(n) => numbers(parts.drop_last()).push(n as usize),
            None => numbers(parts.drop_last()),
        }
    }
}

/// Whether the shape of a header is read as it should be.
pub open spec fn shape_read(header: Seq<char>, r: Result<Vec<usize>, NpyHeaderError>) -> bool {
    match key_position(header, "'shape'"@, "\"shape\""@) {
        None => is_invalid(r, "No 'shape' in NPY header"@),
        Some(at) => {
            let rest = header.skip(at);
            match (position(rest, "("@), position(rest, ")"@)) {
                (None, _) => is_invalid(r, "No shape tuple in NPY header"@),
                (Some(_), None) => is_invalid(r, "Unclosed shape tuple in NPY header"@),
                (Some(open), Some(close)) => if close < open {
                    r matches Err(NpyHeaderError::ShapeClosesEarly)
                } else {
                    let shape = numbers(
                        crate::text::split_spec(rest.subrange(open + 1, close), ','),
                    );
                    if shape.len() == 0 {
                        is_invalid(r, "Empty shape in NPY header"@)
                    } else {
                        r matches Ok(found) && found@ == shape
                    }
                },
            }
        },
    }
}

/// Extract shape tuple from header.
pub fn parse_shape_from_header(header: &str) -> (r: Result<Vec<usize>, NpyHeaderError>)
    ensures
        shape_read(header@, r),
{
    let chars = to_chars(header);
    let at: usize = match find_key(&chars, "'shape'", "\"shape\"") {
        Some(at) => at,
        None => return invalid("No 'shape' in NPY header"),
    };
    let rest = to_chars(from_chars(&chars, at, chars.len()).as_str());
    assert(rest@ =~= header@.skip(at as int));
    let open: usize = match find(&rest, "(") {
        Some(open) => open,
        None => return invalid("No shape tuple in NPY header"),
    };
    let close: usize = match find(&rest, ")") {
        Some(close) => close,
        None => return invalid("Unclosed shape tuple in NPY header"),
    };
    if close < open {
        return Err(NpyHeaderError::ShapeClosesEarly);
    }
    proof {
        reveal_strlit("(");
        reveal_strlit(")");
        assert("("@ =~= seq!['(']);
        assert(")"@ =~= seq![')']);
        lemma_parens_differ(rest@, open as int, close as int);
    }
    let content = from_chars(&rest, open + 1, close);
    assert(content@ =~= rest@.subrange(open + 1, close as int));
    let parts = split(content.as_str(), ',');
    let ghost all = crate::text::split_spec(content@, ',');
    let mut shape: Vec<usize> = Vec::new();
    let mut i: usize = 0;
    assert(all.take(0) =~= Seq::<Seq<char>>::empty());
    while i < parts.len()
        invariant
            i <= parts@.len(),
            crate::text::texts(parts@) == all,
            shape@ == numbers(all.take(i as int)),
        decreases parts@.len() - i,
    {
        let part = trim(parts[i].as_str());
        proof {
            assert(all[i as int] == parts@[i as int]@);
            assert(all.take(i + 1).drop_last() =~= all.take(i as int));
            assert(all.take(i + 1).last() == all[i as int]);
        }
        if let Some(n) = parse_usize(part.as_str()) {
            shape.push(n);
        }
        i = i + 1;
    }
    assert(all.take(parts@.len() as int) =~= all);
    if shape.len() == 0 {
        return invalid("Empty shape in NPY header");
    }
    Ok(shape)
}

proof fn lemma_parens_differ(rest: Seq<char>, open: int, close: int)
    requires
        position(rest, "("@) == Some(open),
        position(rest, ")"@) == Some(close),
        open <= close,
        "("@ == seq!['('],
        ")"@ == seq![')'],
    ensures
        0 <= open < close < rest.len(),
{
    let i = choose|i: int| #[trigger] crate::text::first_occurrence(rest, "("@, i);
    let j = choose|j: int| #[trigger] crate::text::first_occurrence(rest, ")"@, j);
    assert(crate::text::occurs_at(rest, "("@, open));
    assert(crate::text::occurs_at(rest, ")"@, close));
    assert(rest.subrange(open, open + 1)[0] == rest[open]);
    assert(rest.subrange(close, close + 1)[0] == rest[close]);
}

// ----------------------------------------------------------------------------
// Header
// ----------------------------------------------------------------------------

/// The text that `String::from_utf8_lossy` makes of bytes that are not UTF-8.
pub uninterp spec fn lossy_text(bytes: Seq<u8>) -> Seq<char>;

/// The text of bytes: what they encode, or a text with replacements where they
/// are not UTF-8.
pub open spec fn text_of(bytes: Seq<u8>) -> Seq<char> {
    if valid_utf8(bytes) {
        decode_utf8(bytes)
    } else {
        lossy_text(bytes)
    }
}

/// Trusted: `String::from_utf8_lossy` gives the text that valid UTF-8 encodes. Of
/// other bytes the text is named, not described.
#[verifier::external_body]
fn string_from_utf8_lossy(bytes: &[u8]) -> (s: String)
    ensures
        s@ == (if valid_utf8(bytes@) {
            decode_utf8(bytes@)
        } else {
            lossy_text(bytes@)
        }),
{
    String::from_utf8_lossy(bytes).into_owned()
}

/// The magic bytes with which a NumPy file starts.
pub open spec fn npy_magic() -> Seq<u8> {
    seq![0x93u8, 0x4e, 0x55, 0x4d, 0x50, 0x59]
}

/// Whether a file is cut off before the end of its header.
pub open spec fn is_cut_off<T>(r: Result<T, NpyHeaderError>) -> bool {
    r matches Err(NpyHeaderError::Rejected(Error::Io(text))) && text@
        == "failed to fill whole buffer"@
}

/// How many bytes hold the length of the header: two in version 1, else four.
pub open spec fn length_width(bytes: Seq<u8>) -> int {
    if bytes[6] == 1 {
        2
    } else {
        4
    }
}

/// Whether the extent of a header is found as it should be: the position at which
/// it starts, and its length.
pub open spec fn extent_read(bytes: Seq<u8>, r: Result<(usize, usize), NpyHeaderError>) -> bool {
    if bytes.len() < 6 {
        is_cut_off(r)
    } else if bytes.take(6) != npy_magic() {
        is_invalid(r, "Not a valid NPY file"@)
    } else if bytes.len() < 8 || bytes.len() < 8 + length_width(bytes) {
        is_cut_off(r)
    } else {
        let start = 8 + length_width(bytes);
        r matches Ok((at, len)) && at == start && len == crate::bytes::le_value(
            bytes.subrange(8, start),
        )
    }
}

fn cut_off<T>() -> (r: Result<T, NpyHeaderError>)
    ensures
        is_cut_off(r),
{
    Err(NpyHeaderError::Rejected(Error::Io("failed to fill whole buffer".to_owned())))
}

/// The extent of a file's header, from the first bytes of the file: where it
/// starts, and its length.
pub fn npy_header_extent(bytes: &[u8]) -> (r: Result<(usize, usize), NpyHeaderError>)
    ensures
        extent_read(bytes@, r),
{
    if bytes.len() < 6 {
        return cut_off();
    }
    let ghost first = bytes@.take(6);
    if !(bytes[0] == 0x93 && bytes[1] == 0x4e && bytes[2] == 0x55 && bytes[3] == 0x4d && bytes[4]
        == 0x50 && bytes[5] == 0x59) {
        assert(first != npy_magic()) by {
            let magic = npy_magic();
            assert(first[0] == bytes@[0] && first[1] == bytes@[1] && first[2] == bytes@[2]
                && first[3] == bytes@[3] && first[4] == bytes@[4] && first[5] == bytes@[5]);
            assert(magic[0] == 0x93 && magic[1] == 0x4e && magic[2] == 0x55 && magic[3] == 0x4d
                && magic[4] == 0x50 && magic[5] == 0x59);
        }
        return invalid("Not a valid NPY file");
    }
    assert(first =~= npy_magic());
    if bytes.len() < 8 {
        return cut_off();
    }
    let width: usize = if bytes[6] == 1 {
        2
    } else {
        4
    };
    if bytes.len() < 8 + width {
        return cut_off();
    }
    let len = read_le(bytes, 8, width);
    proof {
        crate::bytes::lemma_le_value_bound(bytes@.subrange(8, 8 + width));
        crate::bytes::lemma_byte_ranges();
    }
    Ok((8 + width, len as usize))
}

/// Whether a header is read as it should be.
pub open spec fn header_read(bytes: Seq<u8>, r: Result<NpyHeader, NpyHeaderError>) -> bool {
    if bytes.len() >= 6 && bytes.take(6) != npy_magic() {
        is_invalid(r, "Not a valid NPY file"@)
    } else if bytes.len() < 8 || bytes.len() < 8 + length_width(bytes) {
        is_cut_off(r)
    } else {
        let start = 8 + length_width(bytes);
        let len = crate::bytes::le_value(bytes.subrange(8, start));
        if bytes.len() < start + len {
            is_cut_off(r)
        } else {
            let header = text_of(bytes.subrange(start, start + len));
            exists|dtype: Result<NpyDtype, NpyHeaderError>|
                {
                    &&& #[trigger] dtype_read(header, dtype)
                    &&& match dtype {
                        Err(error) => r == Err::<NpyHeader, NpyHeaderError>(error),
                        Ok(found) => shape_follows(header, found, r),
                    }
                }
        }
    }
}

/// Whether the shape of a header is read as it should be behind its element type.
pub open spec fn shape_follows(
    header: Seq<char>,
    dtype: NpyDtype,
    r: Result<NpyHeader, NpyHeaderError>,
) -> bool {
    match r {
        Ok(found) => found.dtype == dtype && shape_read(
            header,
            Ok::<Vec<usize>, NpyHeaderError>(found.shape),
        ),
        Err(error) => shape_read(header, Err::<Vec<usize>, NpyHeaderError>(error)),
    }
}

/// Parse the NPY file header to extract dtype and shape, from a file's first
/// bytes, or all of them.
pub fn parse_npy_header(bytes: &[u8]) -> (r: Result<NpyHeader, NpyHeaderError>)
    ensures
        header_read(bytes@, r),
{
    let (start, len) = match npy_header_extent(bytes) {
        Ok(extent) => extent,
        Err(error) => return Err(error),
    };
    if bytes.len() - start < len {
        return cut_off();
    }
    let window = vstd::slice::slice_subrange(bytes, start, start + len);
    let text = string_from_utf8_lossy(window);
    let ghost header = text@;
    assert(header == text_of(bytes@.subrange(start as int, start + len)));
    let dtype_result = parse_dtype_from_header(text.as_str());
    assert(dtype_read(header, dtype_result));
    let dtype = match dtype_result {
        Ok(dtype) => dtype,
        Err(error) => return Err(error),
    };
    match parse_shape_from_header(text.as_str()) {
        Ok(shape) => Ok(NpyHeader { dtype, shape }),
        Err(error) => Err(error),
    }
}

// ----------------------------------------------------------------------------
// Laws
// ----------------------------------------------------------------------------

impl NpyDtype {
    /// The kind of number: floating point, unsigned or signed.
    pub open spec fn kind(self) -> char {
        match self {
            NpyDtype::F32 | NpyDtype::F64 => 'f',
            NpyDtype::U8 | NpyDtype::U16 | NpyDtype::U32 => 'u',
            NpyDtype::I8 | NpyDtype::I16 | NpyDtype::I32 => 'i',
        }
    }

    /// How many bytes an element takes.
    pub open spec fn width(self) -> nat {
        match self {
            NpyDtype::U8 | NpyDtype::I8 => 1,
            NpyDtype::U16 | NpyDtype::I16 => 2,
            NpyDtype::F32 | NpyDtype::U32 | NpyDtype::I32 => 4,
            NpyDtype::F64 => 8,
        }
    }
}

/// A name that is read as an element type says its kind and its width in bytes.
pub proof fn lemma_names_say_kind_and_width(name: Seq<char>)
    ensures
        dtype_of(name) matches Some(dtype) ==> name == seq![dtype.kind()] + crate::text::decimal(
            dtype.width(),
        ),
{
    lemma_type_names();
    if let Some(dtype) = dtype_of(name) {
        assert(name =~= seq![dtype.kind()] + crate::text::decimal(dtype.width()));
    }
}

/// Writing the kind and the width of an element type and reading them back gives the
/// type. So different types have different names.
pub proof fn lemma_type_names_read_back(dtype: NpyDtype)
    ensures
        dtype_of(seq![dtype.kind()] + crate::text::decimal(dtype.width())) == Some(dtype),
{
    lemma_type_names();
    let name = seq![dtype.kind()] + crate::text::decimal(dtype.width());
    assert(name =~= match dtype {
        NpyDtype::F32 => seq!['f', '4'],
        NpyDtype::F64 => seq!['f', '8'],
        NpyDtype::U8 => seq!['u', '1'],
        NpyDtype::U16 => seq!['u', '2'],
        NpyDtype::U32 => seq!['u', '4'],
        NpyDtype::I8 => seq!['i', '1'],
        NpyDtype::I16 => seq!['i', '2'],
        NpyDtype::I32 => seq!['i', '4'],
    });
    assert(name.len() == 2);
    assert(name[0] == dtype.kind());
    assert(forall|a: char, b: char, c: char, d: char| #[trigger]
        seq![a, b] == #[trigger] seq![c, d] ==> seq![a, b][0] == seq![c, d][0] && seq![a, b][1]
            == seq![c, d][1]);
}

proof fn lemma_type_names()
    ensures
        "f4"@ == seq!['f', '4'],
        "f8"@ == seq!['f', '8'],
        "u1"@ == seq!['u', '1'],
        "u2"@ == seq!['u', '2'],
        "u4"@ == seq!['u', '4'],
        "i1"@ == seq!['i', '1'],
        "i2"@ == seq!['i', '2'],
        "i4"@ == seq!['i', '4'],
        crate::text::decimal(1) == seq!['1'],
        crate::text::decimal(2) == seq!['2'],
        crate::text::decimal(4) == seq!['4'],
        crate::text::decimal(8) == seq!['8'],
{
    reveal_strlit("f4");
    reveal_strlit("f8");
    reveal_strlit("u1");
    reveal_strlit("u2");
    reveal_strlit("u4");
    reveal_strlit("i1");
    reveal_strlit("i2");
    reveal_strlit("i4");
    assert("f4"@ =~= seq!['f', '4']);
    assert("f8"@ =~= seq!['f', '8']);
    assert("u1"@ =~= seq!['u', '1']);
    assert("u2"@ =~= seq!['u', '2']);
    assert("u4"@ =~= seq!['u', '4']);
    assert("i1"@ =~= seq!['i', '1']);
    assert("i2"@ =~= seq!['i', '2']);
    assert("i4"@ =~= seq!['i', '4']);
}

/// The extent of a header is where its writer put it: behind the magic bytes, two bytes
/// of version, and its length in two bytes where the version is one, else in four.
pub proof fn lemma_header_extent_reads_back(
    major: u8,
    minor: u8,
    header: Seq<u8>,
    rest: Seq<u8>,
    r: Result<(usize, usize), NpyHeaderError>,
)
    requires
        header.len() < crate::bytes::byte_range(if major == 1 { 2 } else { 4 }),
        extent_read(written_header(major, minor, header) + rest, r),
    ensures
        ({
            let file = written_header(major, minor, header) + rest;
            &&& r matches Ok((at, len)) && len == header.len() && file.subrange(
                at as int,
                at + len,
            ) == header && file.skip(at + len) == rest
        }),
{
    let width: nat = if major == 1 {
        2
    } else {
        4
    };
    let file = written_header(major, minor, header) + rest;
    crate::bytes::lemma_le_round_trip(header.len(), width);
    assert(file.take(6) =~= npy_magic());
    assert(file[6] == major);
    assert(file.subrange(8, 8 + width as int) =~= crate::bytes::le_bytes(header.len(), width));
    assert(file.subrange(8 + width as int, 8 + width as int + header.len()) =~= header);
    assert(file.skip(8 + width as int + header.len()) =~= rest);
}

/// A header as it stands in a file.
pub open spec fn written_header(major: u8, minor: u8, header: Seq<u8>) -> Seq<u8> {
    npy_magic() + seq![major, minor] + crate::bytes::le_bytes(
        header.len(),
        if major == 1 {
            2
        } else {
            4
        },
    ) + header
}

/// The numbers of a shape are read back from their decimal forms, in order.
pub proof fn lemma_shape_numbers_read_back(shape: Seq<usize>)
    ensures
        numbers(shape.map_values(|n: usize| crate::text::decimal(n as nat))) == shape,
    decreases shape.len(),
{
    let parts = shape.map_values(|n: usize| crate::text::decimal(n as nat));
    if shape.len() > 0 {
        let front = shape.drop_last();
        let last = shape.last() as nat;
        lemma_shape_numbers_read_back(front);
        assert(parts.drop_last() =~= front.map_values(|n: usize| crate::text::decimal(n as nat)));
        crate::text::lemma_decimal_digits(last);
        crate::text::lemma_decimal_is_trimmed(last);
        crate::text::lemma_decimal_parses(last, usize::MAX as nat);
        assert(parts.last() == crate::text::decimal(last));
        assert(numbers(parts) =~= shape);
    } else {
        assert(numbers(parts) =~= shape);
    }
}

/// A text in quotes.
pub open spec fn quoted(text: Seq<char>, quote: char) -> Seq<char> {
    seq![quote] + text + seq![quote]
}

/// Whether a key stands in a header first at the end of `front`, and is found there: in
/// single quotes, or in double quotes where it is nowhere in single ones.
pub open spec fn key_stands(header: Seq<char>, front: Seq<char>, key: Seq<char>, quote: char) -> bool {
    &&& quote == '\'' || quote == '"'
    &&& crate::text::first_occurrence(header, quoted(key, quote), front.len() as int)
    &&& quote == '"' ==> forall|i: int| !#[trigger] crate::text::occurs_at(header, quoted(key, '\''), i)
}

/// Whether a header names an element type: behind its key, in quotes, the byte order,
/// the kind and the width.
pub open spec fn names_type(
    header: Seq<char>,
    front: Seq<char>,
    quote: char,
    gap: Seq<char>,
    order: char,
    dtype: NpyDtype,
    rest: Seq<char>,
) -> bool {
    &&& key_stands(header, front, "descr"@, quote)
    &&& order == '<' || order == '>' || order == '|'
    &&& gap.len() > 0 && gap[0] == ':'
    &&& !gap.contains('\'') && !gap.contains('"')
    &&& header == front + quoted("descr"@, quote) + gap + quoted(
        seq![order, dtype.kind()] + crate::text::decimal(dtype.width()),
        quote,
    ) + rest
}

/// The element type that is written into a header is read from it, whatever stands
/// around it and in whatever quotes.
pub proof fn lemma_written_type_is_read(
    header: Seq<char>,
    front: Seq<char>,
    quote: char,
    gap: Seq<char>,
    order: char,
    dtype: NpyDtype,
    rest: Seq<char>,
    r: Result<NpyDtype, NpyHeaderError>,
)
    requires
        names_type(header, front, quote, gap, order, dtype, rest),
        dtype_read(header, r),
    ensures
        r == Ok::<NpyDtype, NpyHeaderError>(dtype),
{
    reveal_strlit("descr");
    reveal_strlit("'descr'");
    reveal_strlit("\"descr\"");
    let descr = "descr"@;
    assert("'descr'"@ =~= quoted(descr, '\''));
    assert("\"descr\""@ =~= quoted(descr, '"'));
    lemma_key_position(header, front, descr, quote);
    let name = seq![order, dtype.kind()] + crate::text::decimal(dtype.width());
    let text = header.skip(front.len() as int);
    assert(text =~= quoted(descr, quote) + gap + quoted(name, quote) + rest);
    crate::text::lemma_decimal_digits(dtype.width());
    let tail = crate::text::replace_char_spec(rest, '"', '\'');
    let t3 = name + seq!['\''] + tail;
    let t2 = gap + seq!['\''] + t3;
    let t1 = descr + seq!['\''] + t2;
    let nothing = Seq::<char>::empty();
    let plain = crate::text::replace_char_spec(text, '"', '\'');
    let digits = crate::text::decimal(dtype.width());
    assert forall|i: int| 0 <= i < gap.len() implies gap[i] != '"' && gap[i] != '\'' by {
        assert(gap.contains(gap[i]));
    }
    assert forall|i: int| 0 <= i < name.len() implies name[i] != '"' && name[i] != '\'' by {
        if i >= 2 {
            assert(crate::text::is_digit(digits[i - 2]));
        }
    }
    assert(plain =~= nothing + seq!['\''] + t1);
    crate::text::lemma_split_at_separator(nothing, t1, '\'');
    crate::text::lemma_split_at_separator(descr, t2, '\'');
    crate::text::lemma_split_at_separator(gap, t3, '\'');
    crate::text::lemma_split_at_separator(name, tail, '\'');
    crate::text::lemma_split_of_piece(nothing, '\'');
    crate::text::lemma_split_of_piece(descr, '\'');
    crate::text::lemma_split_of_piece(gap, '\'');
    crate::text::lemma_split_of_piece(name, '\'');
    let pieces = quoted_pieces(text);
    assert(pieces =~= seq![nothing, descr, gap, name] + crate::text::split_spec(tail, '\''));
    reveal_with_fuel(first_type_text, 5);
    assert(pieces.skip(1)[0] == descr);
    assert(pieces.skip(1).skip(1)[0] == gap);
    assert(pieces.skip(1).skip(1).skip(1)[0] == name);
    assert(first_type_text(pieces) == Some(name));
    assert(name.skip(1) =~= seq![dtype.kind()] + digits);
    lemma_type_names_read_back(dtype);
}

proof fn lemma_key_position(header: Seq<char>, front: Seq<char>, key: Seq<char>, quote: char)
    requires
        key_stands(header, front, key, quote),
    ensures
        key_position(header, quoted(key, '\''), quoted(key, '"')) == Some(front.len() as int),
{
    lemma_position(header, quoted(key, quote), front.len() as int);
    if quote == '"' {
        assert forall|i: int| !#[trigger] crate::text::first_occurrence(
            header,
            quoted(key, '\''),
            i,
        ) by {
            assert(!crate::text::occurs_at(header, quoted(key, '\''), i));
        }
    }
}

/// Whether a header names a shape: behind its key, in parentheses, numbers with commas
/// between them and whitespace around them, and perhaps a comma behind the last.
pub open spec fn names_shape(
    header: Seq<char>,
    front: Seq<char>,
    quote: char,
    gap: Seq<char>,
    parts: Seq<Seq<char>>,
    shape: Seq<usize>,
    rest: Seq<char>,
) -> bool {
    let inside = crate::text::join_spec(parts, seq![',']);
    &&& key_stands(header, front, "shape"@, quote)
    &&& !gap.contains('(') && !gap.contains(')')
    &&& !inside.contains(')')
    &&& shape.len() > 0
    &&& spells(parts, shape)
    &&& header == front + quoted("shape"@, quote) + gap + seq!['('] + inside + seq![')'] + rest
}

/// Whether parts of a text spell numbers one by one. The part behind a last comma may be
/// blank.
pub open spec fn spells(parts: Seq<Seq<char>>, shape: Seq<usize>) -> bool {
    &&& shape.len() <= parts.len() <= shape.len() + 1
    &&& forall|i: int| 0 <= i < parts.len() ==> !(#[trigger] parts[i]).contains(',')
    &&& forall|i: int|
        0 <= i < shape.len() ==> crate::text::trim_spec(#[trigger] parts[i])
            == crate::text::decimal(shape[i] as nat)
    &&& parts.len() > shape.len() ==> crate::text::trim_spec(parts.last()).len() == 0
}

proof fn lemma_spelled_numbers(parts: Seq<Seq<char>>, shape: Seq<usize>)
    requires
        spells(parts, shape),
    ensures
        numbers(parts) == shape,
    decreases parts.len(),
{
    if parts.len() > shape.len() {
        lemma_spelled_numbers(parts.drop_last(), shape);
    } else if parts.len() > 0 {
        let n = shape.last() as nat;
        assert(crate::text::trim_spec(parts[parts.len() - 1]) == crate::text::decimal(n));
        crate::text::lemma_decimal_parses(n, usize::MAX as nat);
        assert forall|i: int| 0 <= i < shape.len() - 1 implies crate::text::trim_spec(
            #[trigger] parts.drop_last()[i],
        ) == crate::text::decimal(shape.drop_last()[i] as nat) by {
            assert(crate::text::trim_spec(parts[i]) == crate::text::decimal(shape[i] as nat));
        }
        lemma_spelled_numbers(parts.drop_last(), shape.drop_last());
        assert(numbers(parts) =~= shape);
    } else {
        assert(numbers(parts) =~= shape);
    }
}

/// The shape that is written into a header is read from it, number by number, whatever
/// stands around it and in whatever quotes.
pub proof fn lemma_written_shape_is_read(
    header: Seq<char>,
    front: Seq<char>,
    quote: char,
    gap: Seq<char>,
    parts: Seq<Seq<char>>,
    shape: Seq<usize>,
    rest: Seq<char>,
    r: Result<Vec<usize>, NpyHeaderError>,
)
    requires
        names_shape(header, front, quote, gap, parts, shape, rest),
        shape_read(header, r),
    ensures
        r matches Ok(found) && found@ == shape,
{
    reveal_strlit("shape");
    reveal_strlit("'shape'");
    reveal_strlit("\"shape\"");
    reveal_strlit("(");
    reveal_strlit(")");
    let key = "shape"@;
    assert("'shape'"@ =~= quoted(key, '\''));
    assert("\"shape\""@ =~= quoted(key, '"'));
    lemma_key_position(header, front, key, quote);
    let inside = crate::text::join_spec(parts, seq![',']);
    let text = header.skip(front.len() as int);
    let before = quoted(key, quote) + gap;
    assert(text =~= before + seq!['('] + inside + seq![')'] + rest);
    let open = before.len() as int;
    let close = open + 1 + inside.len() as int;
    assert forall|i: int| 0 <= i < gap.len() implies gap[i] != '(' && gap[i] != ')' by {
        assert(gap.contains(gap[i]));
    }
    assert forall|i: int| 0 <= i < inside.len() implies inside[i] != ')' by {
        assert(inside.contains(inside[i]));
    }
    lemma_character_position(text, "("@, open);
    lemma_character_position(text, ")"@, close);
    assert(text.subrange(open + 1, close) =~= inside);
    crate::text::lemma_split_of_join(parts, ',');
    lemma_spelled_numbers(parts, shape);
}

proof fn lemma_character_position(text: Seq<char>, needle: Seq<char>, at: int)
    requires
        needle.len() == 1,
        0 <= at < text.len(),
        text[at] == needle[0],
        forall|i: int| 0 <= i < at ==> text[i] != needle[0],
    ensures
        position(text, needle) == Some(at),
{
    assert(text.subrange(at, at + 1) =~= needle);
    assert forall|k: int| 0 <= k < at implies !#[trigger] crate::text::occurs_at(
        text,
        needle,
        k,
    ) by {
        assert(text.subrange(k, k + 1)[0] == text[k]);
    }
    lemma_position(text, needle, at);
}

/// A file whose header names an element type and a shape is read as an array of that
/// type and shape, in every version, whatever follows the header.
pub proof fn lemma_written_header_is_read(
    major: u8,
    minor: u8,
    header: Seq<char>,
    data: Seq<u8>,
    by_type: (Seq<char>, char, Seq<char>, char, Seq<char>),
    dtype: NpyDtype,
    by_shape: (Seq<char>, char, Seq<char>, Seq<Seq<char>>, Seq<char>),
    shape: Seq<usize>,
    r: Result<NpyHeader, NpyHeaderError>,
)
    requires
        names_type(header, by_type.0, by_type.1, by_type.2, by_type.3, dtype, by_type.4),
        names_shape(header, by_shape.0, by_shape.1, by_shape.2, by_shape.3, shape, by_shape.4),
        vstd::utf8::encode_utf8(header).len() < crate::bytes::byte_range(
            if major == 1 { 2 } else { 4 },
        ),
        header_read(written_header(major, minor, vstd::utf8::encode_utf8(header)) + data, r),
    ensures
        r matches Ok(found) && found.dtype == dtype && found.shape@ == shape,
{
    let bytes = vstd::utf8::encode_utf8(header);
    let width: nat = if major == 1 {
        2
    } else {
        4
    };
    let file = written_header(major, minor, bytes) + data;
    crate::bytes::lemma_le_round_trip(bytes.len(), width);
    assert(file.take(6) =~= npy_magic());
    assert(file[6] == major);
    assert(file.subrange(8, 8 + width as int) =~= crate::bytes::le_bytes(bytes.len(), width));
    assert(file.subrange(8 + width as int, 8 + width as int + bytes.len()) =~= bytes);
    vstd::utf8::encode_utf8_valid_utf8(header);
    vstd::utf8::encode_utf8_decode_utf8(header);
    assert(text_of(bytes) == header);
    let found = choose|found: Result<NpyDtype, NpyHeaderError>|
        {
            &&& #[trigger] dtype_read(header, found)
            &&& match found {
                Err(error) => r == Err::<NpyHeader, NpyHeaderError>(error),
                Ok(dtype) => shape_follows(header, dtype, r),
            }
        };
    lemma_written_type_is_read(
        header,
        by_type.0,
        by_type.1,
        by_type.2,
        by_type.3,
        dtype,
        by_type.4,
        found,
    );
    let read: Result<Vec<usize>, NpyHeaderError> = match r {
        Ok(found) => Ok(found.shape),
        Err(error) => Err(error),
    };
    lemma_written_shape_is_read(
        header,
        by_shape.0,
        by_shape.1,
        by_shape.2,
        by_shape.3,
        shape,
        by_shape.4,
        read,
    );
}

/// Every part of a file that ends before its header does is reported as cut off. What
/// starts otherwise than an array file is refused.
pub proof fn lemma_short_and_foreign_files(
    major: u8,
    minor: u8,
    header: Seq<u8>,
    n: int,
    other: Seq<u8>,
    short: Result<NpyHeader, NpyHeaderError>,
    refused: Result<NpyHeader, NpyHeaderError>,
)
    requires
        header.len() < crate::bytes::byte_range(if major == 1 { 2 } else { 4 }),
        0 <= n < written_header(major, minor, header).len(),
        header_read(written_header(major, minor, header).take(n), short),
        other.len() >= 6,
        exists|i: int| 0 <= i < 6 && #[trigger] other[i] != written_header(major, minor, header)[i],
        header_read(other, refused),
    ensures
        is_cut_off(short),
        refused is Err && !is_cut_off(refused),
{
    let width: nat = if major == 1 {
        2
    } else {
        4
    };
    let file = written_header(major, minor, header);
    let part = file.take(n);
    crate::bytes::lemma_le_round_trip(header.len(), width);
    if n >= 6 {
        assert(part.take(6) =~= npy_magic());
    }
    if n >= 8 + width {
        assert(part[6] == major);
        assert(part.subrange(8, 8 + width as int) =~= crate::bytes::le_bytes(header.len(), width));
    }
    let i = choose|i: int| 0 <= i < 6 && #[trigger] other[i] != file[i];
    assert(file[i] == npy_magic()[i]);
    assert(other.take(6)[i] == other[i]);
}

} // verus!
