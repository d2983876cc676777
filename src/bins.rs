use vstd::prelude::*;
use crate::cursor::{i32_at, le32, le_i32, u32_at, Cursor};
use crate::error::{ErrorKind, HiveParseError};
use crate::header::{spec_bin_header, HiveBinHeader, BASE_BLOCK_SIZE, BIN_HEADER_SIZE};
use crate::hive::{agree, lemma_cell_data_local, spec_cell_data, CellData, CellDataView};

verus! {

/// The number of bytes that a cell of this signed size occupies, size field included.
pub open spec fn extent(size: i32) -> int {
    if size < 0 {
        -size
    } else {
        size as int
    }
}

/// One allocation unit of a bin. Free cells and cells whose payload could not
/// be decoded carry no payload.
#[derive(Debug)]
pub struct HiveBinCell {
    /// Absolute file offset of the cell's size field.
    pub offset: usize,
    /// Declared size: negative when allocated, positive when free.
    pub size: i32,
    pub cell_data: Option<CellData>,
}

/// What a [`HiveBinCell`] holds.
pub struct HiveBinCellView {
    pub offset: usize,
    pub size: i32,
    pub cell_data: Option<CellDataView>,
}

impl View for HiveBinCell {
    type V = HiveBinCellView;

    open spec fn view(&self) -> HiveBinCellView {
        HiveBinCellView {
            offset: self.offset,
            size: self.size,
            cell_data: match self.cell_data {
                Some(d) => Some(d@),
                None => None,
            },
        }
    }
}

pub open spec fn cells_view(v: Seq<HiveBinCell>) -> Seq<HiveBinCellView> {
    v.map_values(|c: HiveBinCell| c@)
}

impl HiveBinCell {
    /// The decoded payload, if the cell is allocated and its payload decoded.
    pub fn cell_data(&self) -> (r: Option<&CellData>)
        ensures
            r is Some <==> self.cell_data is Some,
            r is Some ==> *r->Some_0 == self.cell_data->Some_0,
    {
        match &self.cell_data {
            Some(d) => Some(d),
            None => None,
        }
    }

    /// Whether the cell is allocated.
    pub fn is_allocated(&self) -> (r: bool)
        ensures
            r == (self.size < 0),
    {
        self.size < 0
    }
}

/// Whether a payload's name was replaced by the placeholder.
pub open spec fn name_degraded(d: CellDataView) -> bool {
    match d {
        CellDataView::NamedKey(k) => k.name_is_placeholder,
        CellDataView::ValueKey(k) => k.name_is_placeholder,
        _ => false,
    }
}

pub open spec fn soft(offset: int, kind: ErrorKind) -> HiveParseError {
    HiveParseError { offset: offset as u64, kind }
}

/// The cell whose size field is at `pos` and which occupies `ext` bytes, with
/// the errors that decoding it records. A free cell is not decoded.
pub open spec fn spec_cell(s: Seq<u8>, pos: int, ext: int) -> (HiveBinCellView, Seq<HiveParseError>) {
    let size = le_i32(s, pos);
    if size >= 0 {
        (HiveBinCellView { offset: pos as usize, size, cell_data: None }, seq![])
    } else {
        match spec_cell_data(s, pos + 4, pos + ext) {
            Ok(d) => (
                HiveBinCellView { offset: pos as usize, size, cell_data: Some(d) },
                if name_degraded(d) {
                    seq![soft(pos, ErrorKind::MalformedName)]
                } else {
                    seq![]
                },
            ),
            Err(e) => (HiveBinCellView { offset: pos as usize, size, cell_data: None }, seq![soft(pos, e)]),
        }
    }
}

/// The cells of `[pos, end)`, in order, with the errors recorded on the way.
/// Each cell is followed by the next at exactly its declared extent, whatever
/// its payload held. The walk ends where no size field fits, or at a cell whose
/// extent is under four bytes or runs past `end`.
pub open spec fn spec_walk(s: Seq<u8>, pos: int, end: int) -> (Seq<HiveBinCellView>, Seq<HiveParseError>)
    decreases end - pos,
{
    if pos < 0 || pos + 4 > end {
        (seq![], seq![])
    } else {
        let ext = extent(le_i32(s, pos));
        if ext < 4 || pos + ext > end {
            (seq![], seq![soft(pos, ErrorKind::InvalidCellSize)])
        } else {
            let c = spec_cell(s, pos, ext);
            let rest = spec_walk(s, pos + ext, end);
            (seq![c.0] + rest.0, c.1 + rest.1)
        }
    }
}

fn decode_cell(buf: &[u8], pos: usize, ext: usize) -> (r: (HiveBinCell, Option<HiveParseError>))
    requires
        pos + ext <= buf@.len(),
        ext >= 4,
        ext == extent(le_i32(buf@, pos as int)),
    ensures
        r.0@ == spec_cell(buf@, pos as int, ext as int).0,
        spec_cell(buf@, pos as int, ext as int).1 == match r.1 {
            Some(e) => seq![e],
            None => Seq::<HiveParseError>::empty(),
        },
{
    let size = i32_at(buf, pos);
    if size >= 0 {
        return (HiveBinCell { offset: pos, size, cell_data: None }, None);
    }
    let len = buf.len();
    assert(pos + ext <= len);
    let mut cur = Cursor { pos: pos + 4, end: pos + ext };
    match CellData::build(buf, &mut cur) {
        Ok(d) => {
            let degraded = match &d {
                CellData::NamedKey(k) => k.name_is_placeholder,
                CellData::ValueKey(k) => k.name_is_placeholder,
                _ => false,
            };
            let err = if degraded {
                Some(HiveParseError { offset: pos as u64, kind: ErrorKind::MalformedName })
            } else {
                None
            };
            (HiveBinCell { offset: pos, size, cell_data: Some(d) }, err)
        },
        Err(e) => (
            HiveBinCell { offset: pos, size, cell_data: None },
            Some(HiveParseError { offset: pos as u64, kind: e }),
        ),
    }
}

/// Walks the cells of `[start, end)`.
pub fn walk_cells(buf: &[u8], start: usize, end: usize) -> (r: (Vec<HiveBinCell>, Vec<HiveParseError>))
    requires
        end <= buf@.len(),
    ensures
        (cells_view(r.0@), r.1@) == spec_walk(buf@, start as int, end as int),
{
    let mut cells: Vec<HiveBinCell> = Vec::new();
    let mut errors: Vec<HiveParseError> = Vec::new();
    let mut pos = start;
    while pos <= end && end - pos >= 4
        invariant
            end <= buf@.len(),
            start <= pos,
            spec_walk(buf@, start as int, end as int) == (
                cells_view(cells@) + spec_walk(buf@, pos as int, end as int).0,
                errors@ + spec_walk(buf@, pos as int, end as int).1,
            ),
        decreases end - pos,
    {
        let size = i32_at(buf, pos);
        let ext: usize = if size < 0 {
            (-(size as i64)) as usize
        } else {
            size as usize
        };
        if ext < 4 || ext > end - pos {
            proof {
                assert(errors@.push(soft(pos as int, ErrorKind::InvalidCellSize)) =~= errors@ + seq![
                    soft(pos as int, ErrorKind::InvalidCellSize),
                ]);
                assert(cells_view(cells@) =~= cells_view(cells@) + Seq::<HiveBinCellView>::empty());
            }
            errors.push(HiveParseError { offset: pos as u64, kind: ErrorKind::InvalidCellSize });
            return (cells, errors);
        }
        let ghost old_cells = cells@;
        let ghost old_errors = errors@;
        let (cell, err) = decode_cell(buf, pos, ext);
        cells.push(cell);
        match err {
            Some(e) => errors.push(e),
            None => {},
        }
        proof {
            let c = spec_cell(buf@, pos as int, ext as int);
            let rest = spec_walk(buf@, pos + ext, end as int);
            assert(cells_view(cells@) =~= cells_view(old_cells).push(c.0));
            assert(cells_view(old_cells) + (seq![c.0] + rest.0) =~= cells_view(cells@) + rest.0);
            assert(old_errors + (c.1 + rest.1) =~= errors@ + rest.1);
        }
        pos = pos + ext;
    }
    proof {
        assert(cells_view(cells@) =~= cells_view(cells@) + Seq::<HiveBinCellView>::empty());
        assert(errors@ =~= errors@ + Seq::<HiveParseError>::empty());
    }
    (cells, errors)
}

/// A segment of allocation space: its header and the cells that fill it.
#[derive(Debug)]
pub struct HiveBin {
    pub header: HiveBinHeader,
    pub cells: Vec<HiveBinCell>,
}

/// What a [`HiveBin`] holds.
pub struct HiveBinView {
    pub header: HiveBinHeader,
    pub cells: Seq<HiveBinCellView>,
}

impl View for HiveBin {
    type V = HiveBinView;

    open spec fn view(&self) -> HiveBinView {
        HiveBinView { header: self.header, cells: cells_view(self.cells@) }
    }
}

/// The bin that occupies `[start, start + size)`: its header and cells, or, where
/// the header is not valid, no bin and the error. Either way, the errors found.
pub open spec fn spec_bin(s: Seq<u8>, start: int, size: int) -> (Option<HiveBinView>, Seq<HiveParseError>) {
    match spec_bin_header(s, start) {
        Ok(h) => {
            let w = spec_walk(s, start + BIN_HEADER_SIZE, start + size);
            (Some(HiveBinView { header: h, cells: w.0 }), w.1)
        },
        Err(e) => (None, seq![soft(start, e)]),
    }
}

/// What one bin's decode gives.
pub open spec fn bin_result_view(r: (Option<HiveBin>, Vec<HiveParseError>)) -> (Option<HiveBinView>, Seq<HiveParseError>) {
    (
        match r.0 {
            Some(b) => Some(b@),
            None => None,
        },
        r.1@,
    )
}

/// Decodes the bin that occupies `[start, start + size)`, independently of any other.
pub fn decode_bin(buf: &[u8], start: usize, size: usize) -> (r: (Option<HiveBin>, Vec<HiveParseError>))
    requires
        start + size <= buf@.len(),
    ensures
        bin_result_view(r) == spec_bin(buf@, start as int, size as int),
{
    let len = buf.len();
    assert(start + size <= len);
    match HiveBinHeader::build(buf, start) {
        Ok(header) => {
            let (cells, errors) = if size >= BIN_HEADER_SIZE {
                walk_cells(buf, start + BIN_HEADER_SIZE, start + size)
            } else {
                let cells: Vec<HiveBinCell> = Vec::new();
                let errors: Vec<HiveParseError> = Vec::new();
                proof {
                    assert(cells_view(cells@) =~= Seq::<HiveBinCellView>::empty());
                    assert(errors@ =~= Seq::<HiveParseError>::empty());
                }
                (cells, errors)
            };
            (Some(HiveBin { header, cells }), errors)
        },
        Err(e) => {
            let mut errors = Vec::new();
            errors.push(HiveParseError { offset: start as u64, kind: e });
            proof {
                assert(errors@ =~= seq![soft(start as int, e)]);
            }
            (None, errors)
        },
    }
}

pub open spec fn fatal(offset: int, kind: ErrorKind) -> HiveParseError {
    HiveParseError { offset: offset as u64, kind }
}

/// The bins from `pos` to the end of `s`, as (start, size) pairs, each sized by
/// its header's declared size; or the fatal error that stops the walk: too few
/// bytes left for a header, a size too small for a header, or a bin that runs
/// past the end of the buffer.
pub open spec fn spec_segments(s: Seq<u8>, pos: int) -> Result<Seq<(usize, usize)>, HiveParseError>
    decreases s.len() - pos,
{
    if pos < 0 || pos >= s.len() {
        Ok(seq![])
    } else if s.len() - pos < BIN_HEADER_SIZE {
        Err(fatal(pos, ErrorKind::Truncated))
    } else if le32(s, pos + 8) < BIN_HEADER_SIZE {
        Err(fatal(pos, ErrorKind::InvalidBinSize))
    } else if pos + le32(s, pos + 8) > s.len() {
        Err(fatal(pos, ErrorKind::Truncated))
    } else {
        match spec_segments(s, pos + le32(s, pos + 8)) {
            Ok(r) => Ok(seq![(pos as usize, le32(s, pos + 8) as usize)] + r),
            Err(e) => Err(e),
        }
    }
}

/// Prepends decided segments to what the rest of the walk gives.
pub open spec fn prepend_segments(
    done: Seq<(usize, usize)>,
    rest: Result<Seq<(usize, usize)>, HiveParseError>,
) -> Result<Seq<(usize, usize)>, HiveParseError> {
    match rest {
        Ok(r) => Ok(done + r),
        Err(e) => Err(e),
    }
}

/// Splits the bytes after the base block into bins, by each header's declared size.
pub fn segment_bins(buf: &[u8]) -> (r: Result<Vec<(usize, usize)>, HiveParseError>)
    ensures
        match spec_segments(buf@, BASE_BLOCK_SIZE as int) {
            Ok(v) => r is Ok && r->Ok_0@ == v,
            Err(e) => r == Err::<Vec<(usize, usize)>, HiveParseError>(e),
        },
{
    let mut segments: Vec<(usize, usize)> = Vec::new();
    let mut pos = BASE_BLOCK_SIZE;
    while pos < buf.len()
        invariant
            BASE_BLOCK_SIZE <= pos,
            spec_segments(buf@, BASE_BLOCK_SIZE as int) == prepend_segments(
                segments@,
                spec_segments(buf@, pos as int),
            ),
        decreases buf@.len() - pos,
    {
        if buf.len() - pos < BIN_HEADER_SIZE {
            return Err(HiveParseError { offset: pos as u64, kind: ErrorKind::Truncated });
        }
        let size = u32_at(buf, pos + 8) as usize;
        if size < BIN_HEADER_SIZE {
            return Err(HiveParseError { offset: pos as u64, kind: ErrorKind::InvalidBinSize });
        }
        if size > buf.len() - pos {
            return Err(HiveParseError { offset: pos as u64, kind: ErrorKind::Truncated });
        }
        let ghost old_segments = segments@;
        segments.push((pos, size));
        proof {
            let rest = spec_segments(buf@, pos + size);
            match rest {
                Ok(r) => {
                    assert(old_segments + (seq![(pos, size)] + r) =~= segments@ + r);
                },
                Err(e) => {},
            }
        }
        pos = pos + size;
    }
    proof {
        assert(segments@ =~= segments@ + Seq::<(usize, usize)>::empty());
    }
    Ok(segments)
}

/// Where each cell of a walk lies and how large it says it is.
pub open spec fn layout(w: Seq<HiveBinCellView>) -> Seq<(usize, i32)> {
    w.map_values(|c: HiveBinCellView| (c.offset, c.size))
}

/// Each cell of a walk from `pos` lies at or after `pos`, within `end`, and
/// declares the size stored at its offset.
pub proof fn lemma_walk_cells_in_range(s: Seq<u8>, pos: int, end: int)
    requires
        0 <= pos,
        end <= usize::MAX,
    ensures
        forall|i: int|
            0 <= i < spec_walk(s, pos, end).0.len() ==> {
                let c = #[trigger] spec_walk(s, pos, end).0[i];
                &&& pos <= c.offset
                &&& c.offset + extent(c.size) <= end
                &&& c.size == le_i32(s, c.offset as int)
            },
    decreases end - pos,
{
    if pos + 4 <= end {
        let ext = extent(le_i32(s, pos));
        if ext >= 4 && pos + ext <= end {
            lemma_walk_cells_in_range(s, pos + ext, end);
            let w = spec_walk(s, pos, end).0;
            let rest = spec_walk(s, pos + ext, end).0;
            assert(w =~= seq![spec_cell(s, pos, ext).0] + rest);
            assert forall|i: int| 0 < i < w.len() implies w[i] == rest[i - 1] by {}
        }
    }
}

/// The walk starts at `pos`, and each cell it yields is followed by the next
/// exactly the cell's declared extent later, whether or not its payload decoded.
pub proof fn lemma_walk_advances_by_extent(s: Seq<u8>, pos: int, end: int)
    requires
        0 <= pos,
        end <= usize::MAX,
    ensures
        spec_walk(s, pos, end).0.len() > 0 ==> spec_walk(s, pos, end).0[0].offset == pos,
        forall|i: int|
            0 <= i < spec_walk(s, pos, end).0.len() - 1 ==> #[trigger] spec_walk(s, pos, end).0[i + 1].offset
                == spec_walk(s, pos, end).0[i].offset + extent(spec_walk(s, pos, end).0[i].size),
    decreases end - pos,
{
    if pos + 4 <= end {
        let ext = extent(le_i32(s, pos));
        if ext >= 4 && pos + ext <= end {
            lemma_walk_advances_by_extent(s, pos + ext, end);
            let w = spec_walk(s, pos, end).0;
            let rest = spec_walk(s, pos + ext, end).0;
            assert(w =~= seq![spec_cell(s, pos, ext).0] + rest);
            assert forall|i: int| 0 <= i < w.len() - 1 implies #[trigger] w[i + 1].offset == w[i].offset
                + extent(w[i].size) by {
                assert(w[i + 1] == rest[i]);
                if i > 0 {
                    assert(w[i] == rest[i - 1]);
                    let k = i - 1;
                    assert(rest[k + 1].offset == rest[k].offset + extent(rest[k].size));
                } else {
                    assert(w[0].offset == pos);
                    assert(rest[0].offset == pos + ext);
                }
            }
        }
    }
}

/// A free cell is never decoded: whatever its bytes spell, it carries no payload.
pub proof fn lemma_free_cells_not_decoded(s: Seq<u8>, pos: int, end: int)
    ensures
        forall|i: int|
            0 <= i < spec_walk(s, pos, end).0.len() && #[trigger] spec_walk(s, pos, end).0[i].size >= 0
                ==> spec_walk(s, pos, end).0[i].cell_data is None,
    decreases end - pos,
{
    if pos >= 0 && pos + 4 <= end {
        let ext = extent(le_i32(s, pos));
        if ext >= 4 && pos + ext <= end {
            lemma_free_cells_not_decoded(s, pos + ext, end);
            let w = spec_walk(s, pos, end).0;
            let rest = spec_walk(s, pos + ext, end).0;
            assert(w =~= seq![spec_cell(s, pos, ext).0] + rest);
            assert forall|i: int| 0 <= i < w.len() && #[trigger] w[i].size >= 0 implies w[i].cell_data is None by {
                if i > 0 {
                    assert(w[i] == rest[i - 1]);
                }
            }
        }
    }
}

proof fn lemma_le_i32_same(s1: Seq<u8>, s2: Seq<u8>, p: int)
    requires
        0 <= p,
        p + 4 <= s1.len(),
        p + 4 <= s2.len(),
        s1[p] == s2[p],
        s1[p + 1] == s2[p + 1],
        s1[p + 2] == s2[p + 2],
        s1[p + 3] == s2[p + 3],
    ensures
        le_i32(s1, p) == le_i32(s2, p),
{
}

/// Two buffers that agree from `pos` on lay out the same cells from `pos`.
#[verifier::rlimit(100)]
proof fn lemma_walk_layout_from(s1: Seq<u8>, s2: Seq<u8>, pos: int, end: int)
    requires
        end <= s1.len(),
        end <= s2.len(),
        forall|k: int| pos <= k < end ==> s1[k] == s2[k],
    ensures
        layout(spec_walk(s1, pos, end).0) == layout(spec_walk(s2, pos, end).0),
    decreases end - pos,
{
    if pos >= 0 && pos + 4 <= end {
        lemma_le_i32_same(s1, s2, pos);
        let ext = extent(le_i32(s1, pos));
        if ext >= 4 && pos + ext <= end {
            lemma_walk_layout_from(s1, s2, pos + ext, end);
            let w1 = spec_walk(s1, pos, end).0;
            let w2 = spec_walk(s2, pos, end).0;
            assert(w1 =~= seq![spec_cell(s1, pos, ext).0] + spec_walk(s1, pos + ext, end).0);
            assert(w2 =~= seq![spec_cell(s2, pos, ext).0] + spec_walk(s2, pos + ext, end).0);
            assert(layout(w1) =~= seq![(pos as usize, le_i32(s1, pos))] + layout(spec_walk(s1, pos + ext, end).0));
            assert(layout(w2) =~= seq![(pos as usize, le_i32(s2, pos))] + layout(spec_walk(s2, pos + ext, end).0));
        }
    }
}

/// Changing the payload bytes of one cell of a walk, and nothing else, keeps
/// the offset and declared size of every cell of the walk.
#[verifier::rlimit(100)]
pub proof fn lemma_payload_change_keeps_layout(s1: Seq<u8>, s2: Seq<u8>, pos: int, end: int, j: int)
    requires
        0 <= pos,
        end <= s1.len(),
        end <= usize::MAX,
        s1.len() == s2.len(),
        0 <= j < spec_walk(s1, pos, end).0.len(),
        forall|k: int|
            0 <= k < s1.len() && !(spec_walk(s1, pos, end).0[j].offset + 4 <= k
                < spec_walk(s1, pos, end).0[j].offset + extent(spec_walk(s1, pos, end).0[j].size))
                ==> s1[k] == s2[k],
    ensures
        layout(spec_walk(s1, pos, end).0) == layout(spec_walk(s2, pos, end).0),
    decreases end - pos,
{
    let w1 = spec_walk(s1, pos, end).0;
    let c = w1[j];
    lemma_walk_cells_in_range(s1, pos, end);
    assert(pos <= c.offset);
    if pos + 4 <= end {
        lemma_le_i32_same(s1, s2, pos);
        let ext = extent(le_i32(s1, pos));
        if ext >= 4 && pos + ext <= end {
            let rest1 = spec_walk(s1, pos + ext, end).0;
            assert(w1 =~= seq![spec_cell(s1, pos, ext).0] + rest1);
            if j == 0 {
                lemma_walk_layout_from(s1, s2, pos + ext, end);
            } else {
                assert(rest1[j - 1] == w1[j]);
                lemma_payload_change_keeps_layout(s1, s2, pos + ext, end, j - 1);
            }
            let w2 = spec_walk(s2, pos, end).0;
            assert(w2 =~= seq![spec_cell(s2, pos, ext).0] + spec_walk(s2, pos + ext, end).0);
            assert(layout(w1) =~= seq![(pos as usize, le_i32(s1, pos))] + layout(rest1));
            assert(layout(w2) =~= seq![(pos as usize, le_i32(s2, pos))] + layout(spec_walk(s2, pos + ext, end).0));
        }
    }
}

/// Two buffers that agree on `[pos, end)` walk to the same cells there, with
/// the same errors.
pub proof fn lemma_walk_local(s1: Seq<u8>, s2: Seq<u8>, pos: int, end: int)
    requires
        agree(s1, s2, pos, end),
    ensures
        spec_walk(s1, pos, end) == spec_walk(s2, pos, end),
    decreases end - pos,
{
    if pos + 4 <= end {
        lemma_le_i32_same(s1, s2, pos);
        let ext = extent(le_i32(s1, pos));
        if ext >= 4 && pos + ext <= end {
            lemma_cell_data_local(s1, s2, pos + 4, pos + ext);
            assert(spec_cell(s1, pos, ext) == spec_cell(s2, pos, ext));
            lemma_walk_local(s1, s2, pos + ext, end);
        }
    }
}

/// Changing the payload bytes of one cell of a walk, and nothing else, leaves
/// every later cell of the walk as it was, payload and errors included.
#[verifier::rlimit(100)]
pub proof fn lemma_payload_change_keeps_later_cells(s1: Seq<u8>, s2: Seq<u8>, pos: int, end: int, j: int)
    requires
        0 <= pos,
        end <= s1.len(),
        end <= usize::MAX,
        s1.len() == s2.len(),
        0 <= j < spec_walk(s1, pos, end).0.len(),
        forall|k: int|
            0 <= k < s1.len() && !(spec_walk(s1, pos, end).0[j].offset + 4 <= k
                < spec_walk(s1, pos, end).0[j].offset + extent(spec_walk(s1, pos, end).0[j].size))
                ==> s1[k] == s2[k],
    ensures
        spec_walk(s1, pos, end).0.len() == spec_walk(s2, pos, end).0.len(),
        forall|i: int|
            j < i < spec_walk(s1, pos, end).0.len() ==> #[trigger] spec_walk(s1, pos, end).0[i]
                == spec_walk(s2, pos, end).0[i],
    decreases end - pos,
{
    let w1 = spec_walk(s1, pos, end).0;
    let c = w1[j];
    lemma_walk_cells_in_range(s1, pos, end);
    assert(pos <= c.offset);
    lemma_le_i32_same(s1, s2, pos);
    let ext = extent(le_i32(s1, pos));
    let rest1 = spec_walk(s1, pos + ext, end).0;
    let rest2 = spec_walk(s2, pos + ext, end).0;
    assert(w1 =~= seq![spec_cell(s1, pos, ext).0] + rest1);
    let w2 = spec_walk(s2, pos, end).0;
    assert(w2 =~= seq![spec_cell(s2, pos, ext).0] + rest2);
    if j == 0 {
        assert(c.offset == pos);
        lemma_walk_local(s1, s2, pos + ext, end);
    } else {
        assert(rest1[j - 1] == w1[j]);
        lemma_payload_change_keeps_later_cells(s1, s2, pos + ext, end, j - 1);
    }
    assert forall|i: int| j < i < w1.len() implies #[trigger] w1[i] == w2[i] by {
        assert(w1[i] == rest1[i - 1]);
        assert(w2[i] == rest2[i - 1]);
    }
}

} // verus!
