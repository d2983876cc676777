use vstd::prelude::*;
use vstd::slice::{slice_subrange, slice_to_vec};
use crate::bins::{soft, HiveBin, HiveBinView};
use crate::cursor::{le32, u32_at};
use crate::error::{ErrorKind, HiveParseError};
use crate::hive::{
    CellData, CellDataView, FastLeafElement, HashLeafElement, IndexLeafElement, IndexRootElement, NamedKey,
    NamedKeyView, SecurityKey, ValueKey, ValueKeyView,
};
use crate::index::{bins_view, body_at, cell_at, find_body, target, CellIndex};
use crate::header::BASE_BLOCK_SIZE;

verus! {

broadcast use vstd::std_specs::hash::group_hash_axioms;

/// A stored offset that means "none".
pub const NO_OFFSET: u32 = 0xFFFF_FFFF;

/// Set in a value's data size when its data is stored in the data-offset field itself.
pub const RESIDENT_DATA: u32 = 0x8000_0000;

/// The largest data size that a single data cell holds; larger data is split
/// into segments that a data block lists.
pub const BIG_DATA_THRESHOLD: u32 = 16344;

pub open spec fn dangling(rel: u32) -> HiveParseError {
    soft(target(rel) as int, ErrorKind::DanglingReference)
}

pub open spec fn cyclic(rel: u32) -> HiveParseError {
    soft(target(rel) as int, ErrorKind::CyclicReference)
}

pub open spec fn min(a: int, b: int) -> int {
    if a <= b {
        a
    } else {
        b
    }
}

/// The decoded payload of the cell that a stored offset refers to.
pub open spec fn payload_at(bins: Seq<HiveBinView>, rel: u32) -> Option<CellDataView> {
    match cell_at(bins, target(rel)) {
        Some(c) => c.cell_data,
        None => None,
    }
}

fn find_payload<'a>(bins: &'a Vec<HiveBin>, index: &CellIndex, rel: u32) -> (r: Option<&'a CellData>)
    requires
        index.indexes(bins_view(bins@)),
    ensures
        match payload_at(bins_view(bins@), rel) {
            Some(d) => r is Some && r->Some_0@ == d,
            None => r is None,
        },
{
    match index.find(bins, rel as u64 + BASE_BLOCK_SIZE as u64) {
        Some(cell) => match &cell.cell_data {
            Some(d) => Some(d),
            None => None,
        },
        None => None,
    }
}

// ---------------------------------------------------------------------------
// Value data
/// The first `n` bytes of `v`, little-endian.
pub open spec fn resident_bytes(v: u32, n: int) -> Seq<u8> {
    seq![
        (v % 0x100) as u8,
        (v / 0x100 % 0x100) as u8,
        (v / 0x1_0000 % 0x100) as u8,
        (v / 0x100_0000) as u8,
    ].take(n)
}

/// The data of a segment whose cell body is `b`: at most the threshold's number
/// of bytes; the rest of the cell is padding.
pub open spec fn segment_bytes(s: Seq<u8>, b: (int, int)) -> Seq<u8> {
    s.subrange(b.0, b.0 + min(BIG_DATA_THRESHOLD as int, b.1 - b.0))
}

/// The data of the segments listed from position `j` of the list at `list`,
/// concatenated; or the first segment offset that does not lead to an allocated cell.
pub open spec fn spec_segments_data(s: Seq<u8>, bins: Seq<HiveBinView>, list: int, j: int, n: int) -> Result<
    Seq<u8>,
    u32,
>
    decreases n - j,
{
    if j >= n {
        Ok(seq![])
    } else {
        let off = le32(s, list + 4 * j);
        match body_at(s, bins, off) {
            None => Err(off),
            Some(b) => match spec_segments_data(s, bins, list, j + 1, n) {
                Ok(r) => Ok(segment_bytes(s, b) + r),
                Err(e) => Err(e),
            },
        }
    }
}

/// A value's data: held in the offset field, in one data cell, or in the
/// segments of a data block, in list order; never longer than the declared size.
/// A data offset of "none" means there is no data, and is no error.
pub open spec fn spec_value_data(s: Seq<u8>, bins: Seq<HiveBinView>, vk: ValueKeyView) -> (Seq<u8>, Seq<HiveParseError>) {
    if vk.data_size >= RESIDENT_DATA {
        (resident_bytes(vk.data_offset, min(vk.data_size - RESIDENT_DATA, 4)), seq![])
    } else if vk.data_size == 0 || vk.data_offset == NO_OFFSET {
        (seq![], seq![])
    } else if vk.data_size > BIG_DATA_THRESHOLD {
        match payload_at(bins, vk.data_offset) {
            Some(CellDataView::DataBlock(db)) => match body_at(s, bins, db.data_block_list_offset) {
                Some(b) => if b.0 + 4 * db.number_of_segments <= b.1 {
                    match spec_segments_data(s, bins, b.0, 0, db.number_of_segments as int) {
                        Ok(d) => (d.take(min(vk.data_size as int, d.len() as int)), seq![]),
                        Err(off) => (seq![], seq![dangling(off)]),
                    }
                } else {
                    (seq![], seq![dangling(db.data_block_list_offset)])
                },
                None => (seq![], seq![dangling(db.data_block_list_offset)]),
            },
            _ => (seq![], seq![dangling(vk.data_offset)]),
        }
    } else {
        match body_at(s, bins, vk.data_offset) {
            Some(b) => (s.subrange(b.0, b.0 + min(vk.data_size as int, b.1 - b.0)), seq![]),
            None => (seq![], seq![dangling(vk.data_offset)]),
        }
    }
}

fn segments_data(buf: &[u8], bins: &Vec<HiveBin>, index: &CellIndex, list: usize, n: usize) -> (r: Result<
    Vec<u8>,
    u32,
>)
    requires
        index.indexes(bins_view(bins@)),
        list + 4 * n <= buf@.len(),
    ensures
        match spec_segments_data(buf@, bins_view(bins@), list as int, 0, n as int) {
            Ok(d) => r is Ok && r->Ok_0@ == d,
            Err(e) => r == Err::<Vec<u8>, u32>(e),
        },
{
    let ghost bv = bins_view(bins@);
    let mut data: Vec<u8> = Vec::new();
    let mut j: usize = 0;
    let len = buf.len();
    while j < n
        invariant
            len == buf@.len(),
            index.indexes(bv),
            bv == bins_view(bins@),
            list + 4 * n <= buf@.len(),
            j <= n,
            spec_segments_data(buf@, bv, list as int, 0, n as int) == match spec_segments_data(
                buf@,
                bv,
                list as int,
                j as int,
                n as int,
            ) {
                Ok(r) => Ok(data@ + r),
                Err(e) => Err(e),
            },
        decreases n - j,
    {
        let off = u32_at(buf, list + 4 * j);
        match find_body(buf, bins, index, off) {
            None => {
                return Err(off);
            },
            Some((a, b)) => {
                let ghost before = data@;
                let m = if b - a < BIG_DATA_THRESHOLD as usize {
                    b - a
                } else {
                    BIG_DATA_THRESHOLD as usize
                };
                let mut part = slice_to_vec(slice_subrange(buf, a, a + m));
                data.append(&mut part);
                proof {
                    match spec_segments_data(buf@, bv, list as int, j + 1, n as int) {
                        Ok(r) => {
                            assert(before + (segment_bytes(buf@, (a as int, b as int)) + r) =~= data@ + r);
                        },
                        Err(e) => {},
                    }
                }
            },
        }
        j = j + 1;
    }
    proof {
        assert(data@ =~= data@ + Seq::<u8>::empty());
    }
    Ok(data)
}

fn value_data(buf: &[u8], bins: &Vec<HiveBin>, index: &CellIndex, vk: &ValueKey) -> (r: (
    Vec<u8>,
    Option<HiveParseError>,
))
    requires
        index.indexes(bins_view(bins@)),
    ensures
        r.0@ == spec_value_data(buf@, bins_view(bins@), vk@).0,
        spec_value_data(buf@, bins_view(bins@), vk@).1 == match r.1 {
            Some(e) => seq![e],
            None => Seq::<HiveParseError>::empty(),
        },
{
    let data_size = vk.data_size;
    let data_offset = vk.data_offset;
    let ghost bv = bins_view(bins@);
    if data_size >= RESIDENT_DATA {
        let mut d: Vec<u8> = Vec::new();
        d.push((data_offset % 0x100) as u8);
        d.push((data_offset / 0x100 % 0x100) as u8);
        d.push((data_offset / 0x1_0000 % 0x100) as u8);
        d.push((data_offset / 0x100_0000) as u8);
        let n = data_size - RESIDENT_DATA;
        if n < 4 {
            d.truncate(n as usize);
        }
        proof {
            assert(resident_bytes(data_offset, min(n as int, 4)) =~= d@);
        }
        (d, None)
    } else if data_size == 0 || data_offset == NO_OFFSET {
        (Vec::new(), None)
    } else if data_size > BIG_DATA_THRESHOLD {
        match find_payload(bins, index, data_offset) {
            Some(CellData::DataBlock(db)) => match find_body(buf, bins, index, db.data_block_list_offset) {
                Some((a, b)) => {
                    if db.number_of_segments as usize <= (b - a) / 4 {
                        match segments_data(buf, bins, index, a, db.number_of_segments as usize) {
                            Ok(mut d) => {
                                if (data_size as usize) < d.len() {
                                    d.truncate(data_size as usize);
                                }
                                proof {
                                    let ghost full = spec_segments_data(buf@, bv, a as int, 0, db.number_of_segments as int)->Ok_0;
                                    assert(d@ =~= full.take(min(data_size as int, full.len() as int)));
                                }
                                (d, None)
                            },
                            Err(off) => (
                                Vec::new(),
                                Some(HiveParseError { offset: off as u64 + BASE_BLOCK_SIZE as u64, kind: ErrorKind::DanglingReference }),
                            ),
                        }
                    } else {
                        (
                            Vec::new(),
                            Some(
                                HiveParseError {
                                    offset: db.data_block_list_offset as u64 + BASE_BLOCK_SIZE as u64,
                                    kind: ErrorKind::DanglingReference,
                                },
                            ),
                        )
                    }
                },
                None => (
                    Vec::new(),
                    Some(
                        HiveParseError {
                            offset: db.data_block_list_offset as u64 + BASE_BLOCK_SIZE as u64,
                            kind: ErrorKind::DanglingReference,
                        },
                    ),
                ),
            },
            _ => (
                Vec::new(),
                Some(HiveParseError { offset: data_offset as u64 + BASE_BLOCK_SIZE as u64, kind: ErrorKind::DanglingReference }),
            ),
        }
    } else {
        match find_body(buf, bins, index, data_offset) {
            Some((a, b)) => {
                let n = if (data_size as usize) < b - a {
                    data_size as usize
                } else {
                    b - a
                };
                (slice_to_vec(slice_subrange(buf, a, a + n)), None)
            },
            None => (
                Vec::new(),
                Some(HiveParseError { offset: data_offset as u64 + BASE_BLOCK_SIZE as u64, kind: ErrorKind::DanglingReference }),
            ),
        }
    }
}

// ---------------------------------------------------------------------------
// Values
/// A registry value as the tree presents it.
#[derive(Debug)]
pub struct ValueEntry {
    /// Stored offset of the value's record.
    pub offset: u32,
    pub name: String,
    pub data_type: u32,
    pub data_size: u32,
    pub data: Vec<u8>,
}

/// What a [`ValueEntry`] holds.
pub struct ValueEntryView {
    pub offset: u32,
    pub name: Seq<char>,
    pub data_type: u32,
    pub data_size: u32,
    pub data: Seq<u8>,
}

impl View for ValueEntry {
    type V = ValueEntryView;

    open spec fn view(&self) -> ValueEntryView {
        ValueEntryView {
            offset: self.offset,
            name: self.name@,
            data_type: self.data_type,
            data_size: self.data_size,
            data: self.data@,
        }
    }
}

pub open spec fn values_view(v: Seq<ValueEntry>) -> Seq<ValueEntryView> {
    v.map_values(|e: ValueEntry| e@)
}

/// The value whose record a stored offset refers to, as zero or one entries.
pub open spec fn spec_value(s: Seq<u8>, bins: Seq<HiveBinView>, off: u32) -> (Seq<ValueEntryView>, Seq<HiveParseError>) {
    match payload_at(bins, off) {
        Some(CellDataView::ValueKey(vk)) => {
            let d = spec_value_data(s, bins, vk);
            (
                seq![
                    ValueEntryView {
                        offset: off,
                        name: vk.value_name_string,
                        data_type: vk.data_type,
                        data_size: vk.data_size,
                        data: d.0,
                    },
                ],
                d.1,
            )
        },
        _ => (seq![], seq![dangling(off)]),
    }
}

/// The values listed from position `j` of the offset array at `list`.
pub open spec fn spec_value_entries(s: Seq<u8>, bins: Seq<HiveBinView>, list: int, j: int, n: int) -> (
    Seq<ValueEntryView>,
    Seq<HiveParseError>,
)
    decreases n - j,
{
    if j >= n {
        (seq![], seq![])
    } else {
        let e = spec_value(s, bins, le32(s, list + 4 * j));
        let rest = spec_value_entries(s, bins, list, j + 1, n);
        (e.0 + rest.0, e.1 + rest.1)
    }
}

/// A key's values, in the order of its value list.
pub open spec fn spec_values(s: Seq<u8>, bins: Seq<HiveBinView>, nk: NamedKeyView) -> (Seq<ValueEntryView>, Seq<HiveParseError>) {
    let list = nk.key_values_list_offset;
    if nk.number_of_key_values == 0 || list == NO_OFFSET {
        (seq![], seq![])
    } else {
        match body_at(s, bins, list) {
            Some(b) => if b.0 + 4 * nk.number_of_key_values <= b.1 {
                spec_value_entries(s, bins, b.0, 0, nk.number_of_key_values as int)
            } else {
                (seq![], seq![dangling(list)])
            },
            None => (seq![], seq![dangling(list)]),
        }
    }
}

fn resolve_value(
    buf: &[u8],
    bins: &Vec<HiveBin>,
    index: &CellIndex,
    off: u32,
    values: &mut Vec<ValueEntry>,
    errors: &mut Vec<HiveParseError>,
)
    requires
        index.indexes(bins_view(bins@)),
    ensures
        values_view(final(values)@) == values_view(old(values)@) + spec_value(buf@, bins_view(bins@), off).0,
        final(errors)@ == old(errors)@ + spec_value(buf@, bins_view(bins@), off).1,
{
    let ghost bv = bins_view(bins@);
    let ghost old_values = values@;
    let ghost old_errors = errors@;
    match find_payload(bins, index, off) {
        Some(CellData::ValueKey(vk)) => {
            let (data, err) = value_data(buf, bins, index, vk);
            let ghost d = spec_value_data(buf@, bv, vk@);
            let entry = ValueEntry {
                offset: off,
                name: vk.value_name_string.clone(),
                data_type: vk.data_type,
                data_size: vk.data_size,
                data,
            };
            values.push(entry);
            match err {
                Some(e) => errors.push(e),
                None => {},
            }
            proof {
                assert(values_view(values@) =~= values_view(old_values) + spec_value(buf@, bv, off).0);
                assert(errors@ =~= old_errors + d.1);
            }
        },
        _ => {
            errors.push(HiveParseError { offset: off as u64 + BASE_BLOCK_SIZE as u64, kind: ErrorKind::DanglingReference });
            proof {
                assert(values_view(values@) =~= values_view(old_values) + Seq::<ValueEntryView>::empty());
                assert(errors@ =~= old_errors + seq![dangling(off)]);
            }
        },
    }
}

fn resolve_values(
    buf: &[u8],
    bins: &Vec<HiveBin>,
    index: &CellIndex,
    nk: &NamedKey,
    errors: &mut Vec<HiveParseError>,
) -> (r: Vec<ValueEntry>)
    requires
        index.indexes(bins_view(bins@)),
    ensures
        values_view(r@) == spec_values(buf@, bins_view(bins@), nk@).0,
        final(errors)@ == old(errors)@ + spec_values(buf@, bins_view(bins@), nk@).1,
{
    let count = nk.number_of_key_values;
    let list = nk.key_values_list_offset;
    let ghost bv = bins_view(bins@);
    let ghost old_errors = errors@;
    let mut values: Vec<ValueEntry> = Vec::new();
    if count == 0 || list == NO_OFFSET {
        proof {
            assert(values_view(values@) =~= Seq::<ValueEntryView>::empty());
            assert(errors@ =~= old_errors + Seq::<HiveParseError>::empty());
        }
        return values;
    }
    match find_body(buf, bins, index, list) {
        Some((a, b)) => {
            if (count as usize) <= (b - a) / 4 {
                let len = buf.len();
                let mut j: usize = 0;
                while j < count as usize
                    invariant
                        len == buf@.len(),
                        index.indexes(bv),
                        bv == bins_view(bins@),
                        a + 4 * count <= buf@.len(),
                        j <= count,
                        ({
                            let all = spec_value_entries(buf@, bv, a as int, 0, count as int);
                            let rest = spec_value_entries(buf@, bv, a as int, j as int, count as int);
                            &&& all.0 == values_view(values@) + rest.0
                            &&& old_errors + all.1 == errors@ + rest.1
                        }),
                    decreases count - j,
                {
                    let ghost vb = values_view(values@);
                    let ghost eb = errors@;
                    let off = u32_at(buf, a + 4 * j);
                    resolve_value(buf, bins, index, off, &mut values, errors);
                    proof {
                        let e = spec_value(buf@, bv, off);
                        let rest = spec_value_entries(buf@, bv, a as int, j + 1, count as int);
                        assert(vb + (e.0 + rest.0) =~= values_view(values@) + rest.0);
                        assert(eb + (e.1 + rest.1) =~= errors@ + rest.1);
                    }
                    j = j + 1;
                }
                proof {
                    assert(values_view(values@) =~= values_view(values@) + Seq::<ValueEntryView>::empty());
                    assert(errors@ =~= errors@ + Seq::<HiveParseError>::empty());
                }
                values
            } else {
                errors.push(HiveParseError { offset: list as u64 + BASE_BLOCK_SIZE as u64, kind: ErrorKind::DanglingReference });
                proof {
                    assert(values_view(values@) =~= Seq::<ValueEntryView>::empty());
                    assert(errors@ =~= old_errors + seq![dangling(list)]);
                }
                values
            }
        },
        None => {
            errors.push(HiveParseError { offset: list as u64 + BASE_BLOCK_SIZE as u64, kind: ErrorKind::DanglingReference });
            proof {
                assert(values_view(values@) =~= Seq::<ValueEntryView>::empty());
                assert(errors@ =~= old_errors + seq![dangling(list)]);
            }
            values
        },
    }
}

// ---------------------------------------------------------------------------
// Subkey lists
/// The key-node offsets of a leaf list, in list order.
pub open spec fn leaf_offsets(d: CellDataView) -> Option<Seq<u32>> {
    match d {
        CellDataView::IndexLeaf(e) => Some(e.map_values(|x: IndexLeafElement| x.key_node_offset)),
        CellDataView::FastLeaf(e) => Some(e.map_values(|x: FastLeafElement| x.key_node_offset)),
        CellDataView::HashLeaf(e) => Some(e.map_values(|x: HashLeafElement| x.key_node_offset)),
        _ => None,
    }
}

/// The key-node offsets that the subkey list at `list` leads to, an index root
/// contributing those of its lists in order. `path` holds the offsets on the
/// way here; one of them reached again is a cycle, which contributes nothing.
/// The path cannot hold more distinct cell offsets than there are cells
/// (`limit`); a longer one is a cycle too.
pub open spec fn spec_list(s: Seq<u8>, bins: Seq<HiveBinView>, limit: int, list: u32, path: Seq<u32>) -> (
    Seq<u32>,
    Seq<HiveParseError>,
)
    decreases limit - path.len(), 0int, 0int,
{
    if path.contains(list) {
        (seq![], seq![cyclic(list)])
    } else {
        match payload_at(bins, list) {
            Some(CellDataView::IndexRoot(e)) => if path.len() >= limit {
                (seq![], seq![cyclic(list)])
            } else {
                spec_root(s, bins, limit, e, 0, path.push(list))
            },
            Some(d) => match leaf_offsets(d) {
                Some(o) => (o, seq![]),
                None => (seq![], seq![dangling(list)]),
            },
            None => (seq![], seq![dangling(list)]),
        }
    }
}

/// The key-node offsets of the lists that an index root names from position `i`.
pub open spec fn spec_root(
    s: Seq<u8>,
    bins: Seq<HiveBinView>,
    limit: int,
    e: Seq<IndexRootElement>,
    i: int,
    path: Seq<u32>,
) -> (Seq<u32>, Seq<HiveParseError>)
    decreases limit - path.len(), 1int, e.len() - i,
{
    if i < 0 || i >= e.len() {
        (seq![], seq![])
    } else {
        let r = spec_list(s, bins, limit, e[i].subkeys_list_offset, path);
        let rest = spec_root(s, bins, limit, e, i + 1, path);
        (r.0 + rest.0, r.1 + rest.1)
    }
}

fn path_contains(path: &Vec<u32>, x: u32) -> (r: bool)
    ensures
        r == path@.contains(x),
{
    let mut i: usize = 0;
    while i < path.len()
        invariant
            i <= path@.len(),
            forall|j: int| 0 <= j < i ==> path@[j] != x,
        decreases path@.len() - i,
    {
        if path[i] == x {
            assert(path@[i as int] == x);
            return true;
        }
        i = i + 1;
    }
    false
}

fn collect_list(
    buf: &[u8],
    bins: &Vec<HiveBin>,
    index: &CellIndex,
    limit: usize,
    list: u32,
    path: &mut Vec<u32>,
    offsets: &mut Vec<u32>,
    errors: &mut Vec<HiveParseError>,
)
    requires
        index.indexes(bins_view(bins@)),
    ensures
        final(path)@ == old(path)@,
        final(offsets)@ == old(offsets)@ + spec_list(buf@, bins_view(bins@), limit as int, list, old(path)@).0,
        final(errors)@ == old(errors)@ + spec_list(buf@, bins_view(bins@), limit as int, list, old(path)@).1,
    decreases limit - old(path)@.len(), 0int, 0int,
{
    let ghost bv = bins_view(bins@);
    let ghost outer = path@;
    let ghost o0 = offsets@;
    let ghost e0 = errors@;
    if path_contains(path, list) {
        errors.push(HiveParseError { offset: list as u64 + BASE_BLOCK_SIZE as u64, kind: ErrorKind::CyclicReference });
        proof {
            assert(offsets@ =~= o0 + Seq::<u32>::empty());
            assert(errors@ =~= e0 + seq![cyclic(list)]);
        }
        return;
    }
    match find_payload(bins, index, list) {
        Some(CellData::IndexRoot(root)) => {
            if path.len() >= limit {
                errors.push(HiveParseError { offset: list as u64 + BASE_BLOCK_SIZE as u64, kind: ErrorKind::CyclicReference });
                proof {
                    assert(offsets@ =~= o0 + Seq::<u32>::empty());
                    assert(errors@ =~= e0 + seq![cyclic(list)]);
                }
                return;
            }
            path.push(list);
            let ghost inner = path@;
            let ghost e = root@;
            let mut i: usize = 0;
            while i < root.elements.len()
                invariant
                    index.indexes(bv),
                    bv == bins_view(bins@),
                    path@ == inner,
                    inner == outer.push(list),
                    outer == old(path)@,
                    outer.len() < limit,
                    e == root@,
                    i <= e.len(),
                    ({
                        let all = spec_root(buf@, bv, limit as int, e, 0, inner);
                        let rest = spec_root(buf@, bv, limit as int, e, i as int, inner);
                        &&& o0 + all.0 == offsets@ + rest.0
                        &&& e0 + all.1 == errors@ + rest.1
                    }),
                decreases e.len() - i,
            {
                let ghost ob = offsets@;
                let ghost eb = errors@;
                let sub = root.elements[i].subkeys_list_offset;
                collect_list(buf, bins, index, limit, sub, path, offsets, errors);
                proof {
                    let r = spec_list(buf@, bv, limit as int, sub, inner);
                    let rest = spec_root(buf@, bv, limit as int, e, i + 1, inner);
                    assert(ob + (r.0 + rest.0) =~= offsets@ + rest.0);
                    assert(eb + (r.1 + rest.1) =~= errors@ + rest.1);
                }
                i = i + 1;
            }
            path.pop();
            proof {
                assert(path@ =~= outer);
                assert(offsets@ =~= offsets@ + Seq::<u32>::empty());
                assert(errors@ =~= errors@ + Seq::<HiveParseError>::empty());
            }
        },
        Some(d) => {
            let ghost dv = d@;
            match d {
                CellData::IndexLeaf(l) => {
                    let mut i: usize = 0;
                    while i < l.elements.len()
                        invariant
                            i <= l.elements@.len(),
                            offsets@ == o0 + l.elements@.take(i as int).map_values(|x: IndexLeafElement| x.key_node_offset),
                        decreases l.elements@.len() - i,
                    {
                        offsets.push(l.elements[i].key_node_offset);
                        proof {
                            assert(l.elements@.take(i + 1).map_values(|x: IndexLeafElement| x.key_node_offset)
                                =~= l.elements@.take(i as int).map_values(|x: IndexLeafElement| x.key_node_offset).push(l.elements@[i as int].key_node_offset));
                        }
                        i = i + 1;
                    }
                    proof {
                        assert(l.elements@.take(i as int) =~= l.elements@);
                        assert(errors@ =~= e0 + Seq::<HiveParseError>::empty());
                    }
                },
                CellData::FastLeaf(l) => {
                    let mut i: usize = 0;
                    while i < l.elements.len()
                        invariant
                            i <= l.elements@.len(),
                            offsets@ == o0 + l.elements@.take(i as int).map_values(|x: FastLeafElement| x.key_node_offset),
                        decreases l.elements@.len() - i,
                    {
                        offsets.push(l.elements[i].key_node_offset);
                        proof {
                            assert(l.elements@.take(i + 1).map_values(|x: FastLeafElement| x.key_node_offset)
                                =~= l.elements@.take(i as int).map_values(|x: FastLeafElement| x.key_node_offset).push(l.elements@[i as int].key_node_offset));
                        }
                        i = i + 1;
                    }
                    proof {
                        assert(l.elements@.take(i as int) =~= l.elements@);
                        assert(errors@ =~= e0 + Seq::<HiveParseError>::empty());
                    }
                },
                CellData::HashLeaf(l) => {
                    let mut i: usize = 0;
                    while i < l.elements.len()
                        invariant
                            i <= l.elements@.len(),
                            offsets@ == o0 + l.elements@.take(i as int).map_values(|x: HashLeafElement| x.key_node_offset),
                        decreases l.elements@.len() - i,
                    {
                        offsets.push(l.elements[i].key_node_offset);
                        proof {
                            assert(l.elements@.take(i + 1).map_values(|x: HashLeafElement| x.key_node_offset)
                                =~= l.elements@.take(i as int).map_values(|x: HashLeafElement| x.key_node_offset).push(l.elements@[i as int].key_node_offset));
                        }
                        i = i + 1;
                    }
                    proof {
                        assert(l.elements@.take(i as int) =~= l.elements@);
                        assert(errors@ =~= e0 + Seq::<HiveParseError>::empty());
                    }
                },
                _ => {
                    errors.push(HiveParseError { offset: list as u64 + BASE_BLOCK_SIZE as u64, kind: ErrorKind::DanglingReference });
                    proof {
                        assert(offsets@ =~= o0 + Seq::<u32>::empty());
                        assert(errors@ =~= e0 + seq![dangling(list)]);
                    }
                },
            }
        },
        None => {
            errors.push(HiveParseError { offset: list as u64 + BASE_BLOCK_SIZE as u64, kind: ErrorKind::DanglingReference });
            proof {
                assert(offsets@ =~= o0 + Seq::<u32>::empty());
                assert(errors@ =~= e0 + seq![dangling(list)]);
            }
        },
    }
}

// ---------------------------------------------------------------------------
// Keys
/// A registry key as the tree presents it. Keys live in one arena; a key names
/// its children by their places in it, and its parent by the parent's offset.
#[derive(Debug)]
pub struct KeyNode {
    /// Stored offset of the key's record.
    pub offset: u32,
    /// Stored offset of the key through which this one was reached.
    pub parent: Option<u32>,
    pub name: String,
    pub security_offset: u32,
    pub class_name_offset: u32,
    pub values: Vec<ValueEntry>,
    /// Places of the subkeys in the arena, in the order their lists give.
    pub children: Vec<usize>,
}

/// What a [`KeyNode`] holds.
pub struct KeyNodeView {
    pub offset: u32,
    pub parent: Option<u32>,
    pub name: Seq<char>,
    pub security_offset: u32,
    pub class_name_offset: u32,
    pub values: Seq<ValueEntryView>,
    pub children: Seq<usize>,
}

impl View for KeyNode {
    type V = KeyNodeView;

    open spec fn view(&self) -> KeyNodeView {
        KeyNodeView {
            offset: self.offset,
            parent: self.parent,
            name: self.name@,
            security_offset: self.security_offset,
            class_name_offset: self.class_name_offset,
            values: values_view(self.values@),
            children: self.children@,
        }
    }
}

pub open spec fn nodes_view(v: Seq<KeyNode>) -> Seq<KeyNodeView> {
    v.map_values(|k: KeyNode| k@)
}

/// The subkey offsets of a key: none where it declares no subkeys or no list.
pub open spec fn spec_subkeys(s: Seq<u8>, bins: Seq<HiveBinView>, limit: int, nk: NamedKeyView, path: Seq<u32>) -> (
    Seq<u32>,
    Seq<HiveParseError>,
) {
    if nk.number_of_subkeys == 0 || nk.subkeys_list_offset == NO_OFFSET {
        (seq![], seq![])
    } else {
        spec_list(s, bins, limit, nk.subkeys_list_offset, path)
    }
}

/// Resolves the key at `off`, reached from `parent` along `path`, after the
/// keys already in `nodes`: its subtree is added after them, children before
/// parents, and its place is returned. Errors are added to `errors` in the order
/// they are met: the key's values, its subkey lists, then its subtrees.
pub open spec fn spec_key(
    s: Seq<u8>,
    bins: Seq<HiveBinView>,
    limit: int,
    off: u32,
    parent: Option<u32>,
    path: Seq<u32>,
    nodes: Seq<KeyNodeView>,
    errors: Seq<HiveParseError>,
) -> (Seq<KeyNodeView>, Seq<HiveParseError>, Option<usize>)
    decreases limit - path.len(), 0int, 0int,
{
    if path.contains(off) {
        (nodes, errors.push(cyclic(off)), None)
    } else {
        match payload_at(bins, off) {
            Some(CellDataView::NamedKey(nk)) => if path.len() >= limit {
                (nodes, errors.push(cyclic(off)), None)
            } else {
                let vals = spec_values(s, bins, nk);
                let inner = path.push(off);
                let subs = spec_subkeys(s, bins, limit, nk, inner);
                let ch = spec_children(s, bins, limit, subs.0, 0, off, inner, nodes, errors + vals.1 + subs.1);
                let node = KeyNodeView {
                    offset: off,
                    parent,
                    name: nk.key_name_string,
                    security_offset: nk.key_security_offset,
                    class_name_offset: nk.class_name_offset,
                    values: vals.0,
                    children: ch.2,
                };
                (ch.0.push(node), ch.1, Some(ch.0.len() as usize))
            },
            _ => (nodes, errors.push(dangling(off)), None),
        }
    }
}

/// Resolves the subkeys `offs` from position `i` in turn, each after the
/// subtrees of the ones before it, and gives the places of those that resolved.
pub open spec fn spec_children(
    s: Seq<u8>,
    bins: Seq<HiveBinView>,
    limit: int,
    offs: Seq<u32>,
    i: int,
    parent: u32,
    path: Seq<u32>,
    nodes: Seq<KeyNodeView>,
    errors: Seq<HiveParseError>,
) -> (Seq<KeyNodeView>, Seq<HiveParseError>, Seq<usize>)
    decreases limit - path.len(), 1int, offs.len() - i,
{
    if i < 0 || i >= offs.len() {
        (nodes, errors, seq![])
    } else {
        let k = spec_key(s, bins, limit, offs[i], Some(parent), path, nodes, errors);
        let rest = spec_children(s, bins, limit, offs, i + 1, parent, path, k.0, k.1);
        (
            rest.0,
            rest.1,
            match k.2 {
                Some(x) => seq![x] + rest.2,
                None => rest.2,
            },
        )
    }
}

pub fn resolve_key(
    buf: &[u8],
    bins: &Vec<HiveBin>,
    index: &CellIndex,
    limit: usize,
    off: u32,
    parent: Option<u32>,
    path: &mut Vec<u32>,
    nodes: &mut Vec<KeyNode>,
    errors: &mut Vec<HiveParseError>,
) -> (r: Option<usize>)
    requires
        index.indexes(bins_view(bins@)),
    ensures
        final(path)@ == old(path)@,
        (nodes_view(final(nodes)@), final(errors)@, r) == spec_key(
            buf@,
            bins_view(bins@),
            limit as int,
            off,
            parent,
            old(path)@,
            nodes_view(old(nodes)@),
            old(errors)@,
        ),
    decreases limit - old(path)@.len(), 0int, 0int,
{
    let ghost bv = bins_view(bins@);
    let ghost outer = path@;
    let ghost n0 = nodes_view(nodes@);
    let ghost e0 = errors@;
    if path_contains(path, off) {
        errors.push(HiveParseError { offset: off as u64 + BASE_BLOCK_SIZE as u64, kind: ErrorKind::CyclicReference });
        return None;
    }
    match find_payload(bins, index, off) {
        Some(CellData::NamedKey(nk)) => {
            if path.len() >= limit {
                errors.push(HiveParseError { offset: off as u64 + BASE_BLOCK_SIZE as u64, kind: ErrorKind::CyclicReference });
                return None;
            }
            let ghost nkv = nk@;
            let values = resolve_values(buf, bins, index, nk, errors);
            path.push(off);
            let ghost inner = path@;
            let mut subkeys: Vec<u32> = Vec::new();
            if nk.number_of_subkeys != 0 && nk.subkeys_list_offset != NO_OFFSET {
                let ghost eb = errors@;
                collect_list(buf, bins, index, limit, nk.subkeys_list_offset, path, &mut subkeys, errors);
                proof {
                    assert(subkeys@ =~= spec_subkeys(buf@, bv, limit as int, nkv, inner).0);
                }
            } else {
                proof {
                    assert(subkeys@ =~= spec_subkeys(buf@, bv, limit as int, nkv, inner).0);
                    assert(errors@ =~= errors@ + spec_subkeys(buf@, bv, limit as int, nkv, inner).1);
                }
            }
            let ghost n1 = nodes_view(nodes@);
            let ghost e1 = errors@;
            assert(e1 == e0 + spec_values(buf@, bv, nkv).1 + spec_subkeys(buf@, bv, limit as int, nkv, inner).1);
            let mut children: Vec<usize> = Vec::new();
            let mut i: usize = 0;
            while i < subkeys.len()
                invariant
                    index.indexes(bv),
                    bv == bins_view(bins@),
                    path@ == inner,
                    inner == outer.push(off),
                    outer == old(path)@,
                    outer.len() < limit,
                    i <= subkeys@.len(),
                    ({
                        let all = spec_children(buf@, bv, limit as int, subkeys@, 0, off, inner, n1, e1);
                        let rest = spec_children(buf@, bv, limit as int, subkeys@, i as int, off, inner, nodes_view(nodes@), errors@);
                        &&& all.0 == rest.0
                        &&& all.1 == rest.1
                        &&& all.2 == children@ + rest.2
                    }),
                decreases subkeys@.len() - i,
            {
                let ghost cb = children@;
                let r = resolve_key(buf, bins, index, limit, subkeys[i], Some(off), path, nodes, errors);
                match r {
                    Some(x) => children.push(x),
                    None => {},
                }
                proof {
                    let rest = spec_children(buf@, bv, limit as int, subkeys@, i + 1, off, inner, nodes_view(nodes@), errors@);
                    match r {
                        Some(x) => {
                            assert(cb + (seq![x] + rest.2) =~= children@ + rest.2);
                        },
                        None => {},
                    }
                }
                i = i + 1;
            }
            path.pop();
            proof {
                assert(path@ =~= outer);
                assert(children@ =~= children@ + Seq::<usize>::empty());
            }
            let place = nodes.len();
            let ghost nb = nodes@;
            nodes.push(KeyNode {
                offset: off,
                parent,
                name: nk.key_name_string.clone(),
                security_offset: nk.key_security_offset,
                class_name_offset: nk.class_name_offset,
                values,
                children,
            });
            proof {
                assert(nodes_view(nodes@) =~= nodes_view(nb).push(nodes@.last()@));
            }
            Some(place)
        },
        _ => {
            errors.push(HiveParseError { offset: off as u64 + BASE_BLOCK_SIZE as u64, kind: ErrorKind::DanglingReference });
            None
        },
    }
}

/// The security record that a key refers to, looked up by its offset when it
/// is asked for.
pub fn security_of(bins: &Vec<HiveBin>, index: &CellIndex, key: &KeyNode) -> (r: Option<SecurityKey>)
    requires
        index.indexes(bins_view(bins@)),
    ensures
        r == match payload_at(bins_view(bins@), key.security_offset) {
            Some(CellDataView::SecurityKey(k)) => Some(k),
            _ => None::<SecurityKey>,
        },
{
    match find_payload(bins, index, key.security_offset) {
        Some(CellData::SecurityKey(k)) => Some(*k),
        _ => None,
    }
}

// ---------------------------------------------------------------------------
// Laws of resolution
/// The key-node offsets of a fast leaf, in order.
pub open spec fn fast_leaf_offsets(l: Seq<FastLeafElement>) -> Seq<u32> {
    l.map_values(|x: FastLeafElement| x.key_node_offset)
}

/// An index root that names two fast leaves yields the offsets of the first
/// leaf followed by those of the second, when none of them lies on the path
/// that led to it.
pub proof fn lemma_index_root_joins_leaves(
    s: Seq<u8>,
    bins: Seq<HiveBinView>,
    limit: int,
    list: u32,
    path: Seq<u32>,
    first: u32,
    second: u32,
    a: Seq<FastLeafElement>,
    b: Seq<FastLeafElement>,
)
    requires
        payload_at(bins, list) == Some(
            CellDataView::IndexRoot(
                seq![
                    IndexRootElement { subkeys_list_offset: first },
                    IndexRootElement { subkeys_list_offset: second },
                ],
            ),
        ),
        payload_at(bins, first) == Some(CellDataView::FastLeaf(a)),
        payload_at(bins, second) == Some(CellDataView::FastLeaf(b)),
        !path.contains(list),
        !path.push(list).contains(first),
        !path.push(list).contains(second),
        path.len() < limit,
    ensures
        spec_list(s, bins, limit, list, path) == (fast_leaf_offsets(a) + fast_leaf_offsets(b), Seq::<HiveParseError>::empty()),
{
    let e = seq![
        IndexRootElement { subkeys_list_offset: first },
        IndexRootElement { subkeys_list_offset: second },
    ];
    let inner = path.push(list);
    let r0 = spec_list(s, bins, limit, first, inner);
    let r1 = spec_list(s, bins, limit, second, inner);
    assert(r0 == (fast_leaf_offsets(a), Seq::<HiveParseError>::empty()));
    assert(r1 == (fast_leaf_offsets(b), Seq::<HiveParseError>::empty()));
    assert(spec_root(s, bins, limit, e, 2, inner) == (Seq::<u32>::empty(), Seq::<HiveParseError>::empty()));
    let t1 = spec_root(s, bins, limit, e, 1, inner);
    assert(t1.0 =~= fast_leaf_offsets(b));
    assert(t1.1 =~= Seq::<HiveParseError>::empty());
    let t0 = spec_root(s, bins, limit, e, 0, inner);
    assert(t0.0 =~= fast_leaf_offsets(a) + fast_leaf_offsets(b));
    assert(t0.1 =~= Seq::<HiveParseError>::empty());
}

/// A large value whose data block lists two segments gets the first
/// segment's data followed by the second's, when its declared size covers both.
pub proof fn lemma_two_segments_concatenate(s: Seq<u8>, bins: Seq<HiveBinView>, vk: ValueKeyView, list: (int, int), x: (int, int), y: (int, int))
    requires
        BIG_DATA_THRESHOLD < vk.data_size < RESIDENT_DATA,
        vk.data_offset != NO_OFFSET,
        payload_at(bins, vk.data_offset) matches Some(CellDataView::DataBlock(db)) && db.number_of_segments == 2
            && body_at(s, bins, db.data_block_list_offset) == Some(list),
        list.0 + 8 <= list.1,
        body_at(s, bins, le32(s, list.0)) == Some(x),
        body_at(s, bins, le32(s, list.0 + 4)) == Some(y),
        vk.data_size >= segment_bytes(s, x).len() + segment_bytes(s, y).len(),
    ensures
        spec_value_data(s, bins, vk) == (segment_bytes(s, x) + segment_bytes(s, y), Seq::<HiveParseError>::empty()),
{
    let d2 = spec_segments_data(s, bins, list.0, 2, 2);
    assert(d2 == Ok::<Seq<u8>, u32>(seq![]));
    let d1 = spec_segments_data(s, bins, list.0, 1, 2);
    assert(list.0 + 4 * 1 == list.0 + 4);
    assert(d1 == Ok::<Seq<u8>, u32>(segment_bytes(s, y) + seq![]));
    let d0 = spec_segments_data(s, bins, list.0, 0, 2);
    assert(d0 == Ok::<Seq<u8>, u32>(segment_bytes(s, x) + (segment_bytes(s, y) + seq![])));
    let full = segment_bytes(s, x) + segment_bytes(s, y);
    assert(segment_bytes(s, x) + (segment_bytes(s, y) + seq![]) =~= full);
    assert(full.take(min(vk.data_size as int, full.len() as int)) =~= full);
}

/// A key whose subkey list offset is its own offset ends that branch with a
/// cycle error and no children, instead of recursing.
pub proof fn lemma_self_listed_key_has_no_children(
    s: Seq<u8>,
    bins: Seq<HiveBinView>,
    limit: int,
    off: u32,
    parent: Option<u32>,
    path: Seq<u32>,
    nodes: Seq<KeyNodeView>,
    errors: Seq<HiveParseError>,
)
    requires
        payload_at(bins, off) matches Some(CellDataView::NamedKey(nk)) && nk.subkeys_list_offset == off
            && nk.number_of_subkeys != 0,
        off != NO_OFFSET,
        !path.contains(off),
        path.len() < limit,
    ensures
        ({
            let r = spec_key(s, bins, limit, off, parent, path, nodes, errors);
            &&& r.2 == Some(nodes.len() as usize)
            &&& r.0.len() == nodes.len() + 1
            &&& r.0.last().children.len() == 0
            &&& r.1.contains(cyclic(off))
        }),
{
    let nk = payload_at(bins, off)->Some_0->NamedKey_0;
    let inner = path.push(off);
    assert(inner.contains(off)) by {
        assert(inner[inner.len() - 1] == off);
    }
    let subs = spec_subkeys(s, bins, limit, nk, inner);
    assert(subs.0 =~= Seq::<u32>::empty());
    assert(subs.1 =~= seq![cyclic(off)]);
    let vals = spec_values(s, bins, nk);
    let errs = errors + vals.1 + subs.1;
    let ch = spec_children(s, bins, limit, subs.0, 0, off, inner, nodes, errs);
    assert(ch == (nodes, errs, Seq::<usize>::empty()));
    assert(errs[errs.len() - 1] == cyclic(off));
}

} // verus!
