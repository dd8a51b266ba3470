//! Reader for the simplified ASCII point-cloud layout.
//!
//! A file is a header, read line by line up to and including a line that
//! holds nothing but `end_header`, and then one body line per vertex. In the
//! header, a line that begins with `element vertex` declares the number of
//! vertices in its third word, and any line in which `red` occurs declares
//! that vertices carry a color. A body line holds the three coordinates in its
//! first three words; where color is declared and the line has six words or
//! more, words four to six are the color, each a number from 0 to 255. A line
//! with fewer words has no color, whatever the header declares.
//!
//! The reader decides the layout and reads every integer. It does not read
//! the coordinates: it reports where each one stands in the buffer.

use crate::text::{
    contains_word, find_line_end, find_word, lemma_line_end, line_end, matches_at, parse_unsigned,
    read_unsigned, split_words, word_at, words, Span,
};
use vstd::prelude::*;

verus! {

/// Why a buffer is not a point-cloud file, or not one that gives a cloud.
#[derive(Clone, Copy, Debug, PartialEq, Eq, Structural)]
pub enum PlyError {
    /// The buffer ends inside the header or before the last declared vertex.
    UnexpectedEof,
    /// An `element vertex` line has no third word, or one that is no
    /// unsigned number within the machine's range.
    BadVertexCount,
    /// A body line has fewer than three words.
    MissingCoordinate,
    /// A coordinate word is not a number.
    BadCoordinate,
    /// A color word is not a number from 0 to 255.
    BadColor,
}

/// What the header says: how many vertices follow, whether they are declared
/// to carry a color, and where the body starts in the buffer.
#[derive(Clone, Copy, Debug)]
pub struct Header {
    pub vertex_count: usize,
    pub has_color: bool,
    pub body_start: usize,
}

/// One body line: where its three coordinates stand, and its color if it has one.
#[derive(Clone, Copy, Debug)]
pub struct PlyRow {
    pub x: Span,
    pub y: Span,
    pub z: Span,
    pub color: Option<[u8; 3]>,
}

/// A file that was read: the header's color declaration and the body lines.
#[derive(Debug)]
pub struct PlyFile {
    pub has_color: bool,
    pub rows: Vec<PlyRow>,
}

/// A `PlyFile` with its rows as a mathematical sequence.
pub struct PlyFileView {
    pub has_color: bool,
    pub rows: Seq<PlyRow>,
}

impl View for PlyFile {
    type V = PlyFileView;

    open spec fn view(&self) -> PlyFileView {
        PlyFileView { has_color: self.has_color, rows: self.rows@ }
    }
}

impl PlyError {
    /// A sentence that says what is wrong with the file.
    pub fn message(&self) -> (text: &'static str)
        ensures
            text@ == (match self {
                PlyError::UnexpectedEof => "unexpected end of file"@,
                PlyError::BadVertexCount => "vertex count is missing or not a number"@,
                PlyError::MissingCoordinate => "vertex line has fewer than three values"@,
                PlyError::BadCoordinate => "coordinate is not a number"@,
                PlyError::BadColor => "color value is not a number from 0 to 255"@,
            }),
    {
        match self {
            PlyError::UnexpectedEof => "unexpected end of file",
            PlyError::BadVertexCount => "vertex count is missing or not a number",
            PlyError::MissingCoordinate => "vertex line has fewer than three values",
            PlyError::BadCoordinate => "coordinate is not a number",
            PlyError::BadColor => "color value is not a number from 0 to 255",
        }
    }
}

/// The bytes of `element vertex`.
pub open spec fn element_vertex() -> Seq<u8> {
    seq![
        'e' as u8,
        'l' as u8,
        'e' as u8,
        'm' as u8,
        'e' as u8,
        'n' as u8,
        't' as u8,
        ' ' as u8,
        'v' as u8,
        'e' as u8,
        'r' as u8,
        't' as u8,
        'e' as u8,
        'x' as u8,
    ]
}

/// The bytes of `red`.
pub open spec fn red() -> Seq<u8> {
    seq!['r' as u8, 'e' as u8, 'd' as u8]
}

/// The bytes of `end_header`.
pub open spec fn end_header() -> Seq<u8> {
    seq![
        'e' as u8,
        'n' as u8,
        'd' as u8,
        '_' as u8,
        'h' as u8,
        'e' as u8,
        'a' as u8,
        'd' as u8,
        'e' as u8,
        'r' as u8,
    ]
}

/// The vertex count in force after the header line `s[pos..end)`: the one the
/// line declares if it begins with `element vertex`, else `so_far`. `None`
/// where the line begins so and declares none.
pub open spec fn declared_count(s: Seq<u8>, pos: int, end: int, so_far: usize) -> Option<usize> {
    if matches_at(s, pos, end, element_vertex()) {
        let w = words(s, pos, end);
        if w.len() >= 3 {
            match parse_unsigned(w[2].of(s), usize::MAX as nat) {
                Some(n) => Some(n as usize),
                None => None,
            }
        } else {
            None
        }
    } else {
        Some(so_far)
    }
}

/// The line `s[pos..end)` is `end_header`, surrounded by whitespace at most.
pub open spec fn is_end_header(s: Seq<u8>, pos: int, end: int) -> bool {
    let w = words(s, pos, end);
    w.len() == 1 && w[0].of(s) == end_header()
}

/// What the header lines from `pos` on say, given the vertex count and the
/// color declaration gathered from the lines before.
pub open spec fn header_from(s: Seq<u8>, pos: int, count: usize, color: bool) -> Result<
    Header,
    PlyError,
>
    decreases s.len() - pos,
{
    if pos < 0 || pos >= s.len() {
        Err(PlyError::UnexpectedEof)
    } else {
        let end = line_end(s, pos);
        match declared_count(s, pos, end, count) {
            None => Err(PlyError::BadVertexCount),
            Some(n) => {
                let c = color || contains_word(s, pos, end, red());
                if is_end_header(s, pos, end) {
                    Ok(Header { vertex_count: n, has_color: c, body_start: end as usize })
                } else {
                    proof {
                        lemma_line_end(s, pos);
                    }
                    header_from(s, end, n, c)
                }
            },
        }
    }
}

/// What the header of `s` says. Without an `element vertex` line the count is 0.
pub open spec fn header_of(s: Seq<u8>) -> Result<Header, PlyError> {
    header_from(s, 0, 0, false)
}

/// The number from 0 to 255 that the word `w` writes, if it writes one.
pub open spec fn color_byte(s: Seq<u8>, w: Span) -> Option<u8> {
    match parse_unsigned(w.of(s), 255) {
        Some(v) => Some(v as u8),
        None => None,
    }
}

/// What the body line `s[pos..end)` holds.
pub open spec fn row_at(s: Seq<u8>, pos: int, end: int, has_color: bool) -> Result<
    PlyRow,
    PlyError,
> {
    let w = words(s, pos, end);
    if w.len() < 3 {
        Err(PlyError::MissingCoordinate)
    } else if has_color && w.len() >= 6 {
        match (color_byte(s, w[3]), color_byte(s, w[4]), color_byte(s, w[5])) {
            (Some(r), Some(g), Some(b)) => Ok(
                PlyRow { x: w[0], y: w[1], z: w[2], color: Some([r, g, b]) },
            ),
            _ => Err(PlyError::BadColor),
        }
    } else {
        Ok(PlyRow { x: w[0], y: w[1], z: w[2], color: None })
    }
}

/// `rows` followed by what `rest` holds, or the failure of `rest`.
pub open spec fn rows_then(rows: Seq<PlyRow>, rest: Result<Seq<PlyRow>, PlyError>) -> Result<
    Seq<PlyRow>,
    PlyError,
> {
    match rest {
        Ok(more) => Ok(rows + more),
        Err(e) => Err(e),
    }
}

/// The next `count` body lines of `s`, starting at `pos`. The first line that
/// is missing or malformed decides the failure.
pub open spec fn rows_from(s: Seq<u8>, pos: int, count: nat, has_color: bool) -> Result<
    Seq<PlyRow>,
    PlyError,
>
    decreases count,
{
    if count == 0 {
        Ok(Seq::empty())
    } else if pos < 0 || pos >= s.len() {
        Err(PlyError::UnexpectedEof)
    } else {
        let end = line_end(s, pos);
        match row_at(s, pos, end, has_color) {
            Err(e) => Err(e),
            Ok(row) => rows_then(seq![row], rows_from(s, end, (count - 1) as nat, has_color)),
        }
    }
}

/// What the buffer `s` holds as a point-cloud file.
pub open spec fn parse_spec(s: Seq<u8>) -> Result<PlyFileView, PlyError> {
    match header_of(s) {
        Err(e) => Err(e),
        Ok(h) => match rows_from(s, h.body_start as int, h.vertex_count as nat, h.has_color) {
            Err(e) => Err(e),
            Ok(rows) => Ok(PlyFileView { has_color: h.has_color, rows }),
        },
    }
}

/// Reading `count` body lines gives `count` rows or fails.
pub proof fn lemma_rows_from_len(s: Seq<u8>, pos: int, count: nat, has_color: bool)
    ensures
        rows_from(s, pos, count, has_color) matches Ok(rows) ==> rows.len() == count,
    decreases count,
{
    if count > 0 && 0 <= pos < s.len() {
        lemma_rows_from_len(s, line_end(s, pos), (count - 1) as nat, has_color);
    }
}

/// A file that is read has as many rows as its header declares vertices, and
/// the color declaration of its header.
pub proof fn lemma_parse_spec(s: Seq<u8>)
    ensures
        parse_spec(s) matches Ok(file) ==> header_of(s) matches Ok(h) && file.rows.len()
            == h.vertex_count && file.has_color == h.has_color,
{
    if let Ok(h) = header_of(s) {
        lemma_rows_from_len(s, h.body_start as int, h.vertex_count as nat, h.has_color);
    }
}

fn element_vertex_bytes() -> (r: [u8; 14])
    ensures
        r@ == element_vertex(),
{
    let r = [
        'e' as u8,
        'l' as u8,
        'e' as u8,
        'm' as u8,
        'e' as u8,
        'n' as u8,
        't' as u8,
        ' ' as u8,
        'v' as u8,
        'e' as u8,
        'r' as u8,
        't' as u8,
        'e' as u8,
        'x' as u8,
    ];
    assert(r@ =~= element_vertex());
    r
}

fn red_bytes() -> (r: [u8; 3])
    ensures
        r@ == red(),
{
    let r = ['r' as u8, 'e' as u8, 'd' as u8];
    assert(r@ =~= red());
    r
}

fn end_header_bytes() -> (r: [u8; 10])
    ensures
        r@ == end_header(),
{
    let r = [
        'e' as u8,
        'n' as u8,
        'd' as u8,
        '_' as u8,
        'h' as u8,
        'e' as u8,
        'a' as u8,
        'd' as u8,
        'e' as u8,
        'r' as u8,
    ];
    assert(r@ =~= end_header());
    r
}

/// Reads the vertex count that the header line `data[pos..end)` leaves in force.
fn read_declared_count(data: &[u8], pos: usize, end: usize, so_far: usize) -> (r: Option<usize>)
    requires
        pos <= end <= data@.len(),
    ensures
        r == declared_count(data@, pos as int, end as int, so_far),
{
    let keyword = element_vertex_bytes();
    if !word_at(data, pos, end, keyword.as_slice()) {
        return Some(so_far);
    }
    let w = split_words(data, pos, end);
    if w.len() < 3 {
        return None;
    }
    match read_unsigned(data, w[2].start, w[2].end, usize::MAX as u64) {
        Some(n) => Some(n as usize),
        None => None,
    }
}

/// Tells whether the line `data[pos..end)` closes the header.
fn read_is_end_header(data: &[u8], pos: usize, end: usize) -> (r: bool)
    requires
        pos <= end <= data@.len(),
    ensures
        r == is_end_header(data@, pos as int, end as int),
{
    let w = split_words(data, pos, end);
    if w.len() != 1 {
        return false;
    }
    let keyword = end_header_bytes();
    let first = w[0];
    let r = first.end - first.start == keyword.len() && word_at(
        data,
        first.start,
        first.end,
        keyword.as_slice(),
    );
    assert(r == (first.of(data@) == end_header())) by {
        if first.of(data@) == end_header() {
            assert(first.of(data@).len() == 10);
            assert(data@.subrange(first.start as int, first.start + 10) =~= first.of(data@));
        }
        if r {
            assert(data@.subrange(first.start as int, first.start + 10) =~= first.of(data@));
        }
    }
    r
}

/// Reads the header of `data`.
pub fn read_header(data: &[u8]) -> (r: Result<Header, PlyError>)
    ensures
        r == header_of(data@),
        r matches Ok(h) ==> h.body_start <= data@.len(),
{
    let marker = red_bytes();
    let mut pos: usize = 0;
    let mut count: usize = 0;
    let mut color: bool = false;
    while pos < data.len()
        invariant
            pos <= data@.len(),
            marker@ == red(),
            header_of(data@) == header_from(data@, pos as int, count, color),
        decreases data@.len() - pos,
    {
        let end = find_line_end(data, pos);
        match read_declared_count(data, pos, end, count) {
            None => {
                return Err(PlyError::BadVertexCount);
            },
            Some(n) => {
                count = n;
            },
        }
        if find_word(data, pos, end, marker.as_slice()) {
            color = true;
        }
        if read_is_end_header(data, pos, end) {
            return Ok(Header { vertex_count: count, has_color: color, body_start: end });
        }
        pos = end;
    }
    Err(PlyError::UnexpectedEof)
}

/// Reads the word `w` of `data` as a number from 0 to 255.
fn read_color_byte(data: &[u8], w: Span) -> (r: Option<u8>)
    requires
        w.start <= w.end <= data@.len(),
    ensures
        r == color_byte(data@, w),
{
    match read_unsigned(data, w.start, w.end, 255) {
        Some(v) => Some(v as u8),
        None => None,
    }
}

/// Reads the body line `data[pos..end)`.
pub fn read_row(data: &[u8], pos: usize, end: usize, has_color: bool) -> (r: Result<
    PlyRow,
    PlyError,
>)
    requires
        pos <= end <= data@.len(),
    ensures
        r == row_at(data@, pos as int, end as int, has_color),
        r matches Ok(row) ==> {
            &&& pos <= row.x.start < row.x.end <= end
            &&& pos <= row.y.start < row.y.end <= end
            &&& pos <= row.z.start < row.z.end <= end
        },
{
    let w = split_words(data, pos, end);
    if w.len() < 3 {
        return Err(PlyError::MissingCoordinate);
    }
    if has_color && w.len() >= 6 {
        let r = read_color_byte(data, w[3]);
        let g = read_color_byte(data, w[4]);
        let b = read_color_byte(data, w[5]);
        match (r, g, b) {
            (Some(r), Some(g), Some(b)) => Ok(
                PlyRow { x: w[0], y: w[1], z: w[2], color: Some([r, g, b]) },
            ),
            _ => Err(PlyError::BadColor),
        }
    } else {
        Ok(PlyRow { x: w[0], y: w[1], z: w[2], color: None })
    }
}

/// Reads a point-cloud file from `data`: the header, then as many body lines
/// as the header declares. What follows the last declared line is not read.
pub fn parse(data: &[u8]) -> (r: Result<PlyFile, PlyError>)
    ensures
        match parse_spec(data@) {
            Ok(file) => r matches Ok(f) && f@ == file,
            Err(e) => r matches Err(f) && f == e,
        },
        r matches Ok(f) ==> forall|i: int|
            0 <= i < f@.rows.len() ==> {
                &&& (#[trigger] f@.rows[i]).x.start < f@.rows[i].x.end <= data@.len()
                &&& f@.rows[i].y.start < f@.rows[i].y.end <= data@.len()
                &&& f@.rows[i].z.start < f@.rows[i].z.end <= data@.len()
            },
{
    let header = match read_header(data) {
        Ok(h) => h,
        Err(e) => {
            return Err(e);
        },
    };
    let mut rows: Vec<PlyRow> = Vec::new();
    let mut pos: usize = header.body_start;
    let mut done: usize = 0;
    while done < header.vertex_count
        invariant
            done <= header.vertex_count,
            pos <= data@.len(),
            rows@.len() == done,
            header_of(data@) == Ok::<Header, PlyError>(header),
            rows_from(
                data@,
                header.body_start as int,
                header.vertex_count as nat,
                header.has_color,
            ) == rows_then(
                rows@,
                rows_from(
                    data@,
                    pos as int,
                    (header.vertex_count - done) as nat,
                    header.has_color,
                ),
            ),
            forall|i: int|
                0 <= i < rows@.len() ==> {
                    &&& (#[trigger] rows@[i]).x.start < rows@[i].x.end <= data@.len()
                    &&& rows@[i].y.start < rows@[i].y.end <= data@.len()
                    &&& rows@[i].z.start < rows@[i].z.end <= data@.len()
                },
        decreases header.vertex_count - done,
    {
        if pos >= data.len() {
            return Err(PlyError::UnexpectedEof);
        }
        let end = find_line_end(data, pos);
        let row = match read_row(data, pos, end, header.has_color) {
            Ok(row) => row,
            Err(e) => {
                return Err(e);
            },
        };
        let ghost before = rows@;
        let ghost rest = rows_from(
            data@,
            end as int,
            (header.vertex_count - done - 1) as nat,
            header.has_color,
        );
        rows.push(row);
        proof {
            match rest {
                Ok(more) => {
                    assert(rows@ + more =~= before + (seq![row] + more));
                },
                Err(_) => {},
            }
        }
        pos = end;
        done += 1;
    }
    assert(rows@ + Seq::<PlyRow>::empty() =~= rows@);
    Ok(PlyFile { has_color: header.has_color, rows })
}

} // verus!
