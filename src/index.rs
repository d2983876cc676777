use vstd::prelude::*;
use std::collections::HashMap;
use crate::bins::{extent, HiveBin, HiveBinCell, HiveBinCellView, HiveBinView};
use crate::header::BASE_BLOCK_SIZE;

verus! {

broadcast use vstd::std_specs::hash::group_hash_axioms;

/// The bins as their views.
pub open spec fn bins_view(v: Seq<HiveBin>) -> Seq<HiveBinView> {
    v.map_values(|b: HiveBin| b@)
}

/// `m` with the cells of bin `b` added, each under its absolute offset; a later
/// cell at the same offset replaces an earlier one.
pub open spec fn index_cells(
    m: Map<u64, (usize, usize)>,
    b: int,
    cells: Seq<HiveBinCellView>,
) -> Map<u64, (usize, usize)>
    decreases cells.len(),
{
    if cells.len() == 0 {
        m
    } else {
        index_cells(m, b, cells.drop_last()).insert(
            cells.last().offset as u64,
            (b as usize, (cells.len() - 1) as usize),
        )
    }
}

/// Every cell of the bins, by absolute offset, as (bin, cell) positions.
pub open spec fn index_of(bins: Seq<HiveBinView>) -> Map<u64, (usize, usize)>
    decreases bins.len(),
{
    if bins.len() == 0 {
        Map::empty()
    } else {
        index_cells(index_of(bins.drop_last()), bins.len() - 1, bins.last().cells)
    }
}

/// Whether each position in `m` names a cell of `bins` that lies at its key.
pub open spec fn positions_valid(m: Map<u64, (usize, usize)>, bins: Seq<HiveBinView>) -> bool {
    forall|k: u64|
        #![trigger m[k]]
        m.contains_key(k) ==> {
            &&& m[k].0 < bins.len()
            &&& m[k].1 < bins[m[k].0 as int].cells.len()
            &&& bins[m[k].0 as int].cells[m[k].1 as int].offset as u64 == k
        }
}

proof fn lemma_index_cells_valid(
    m: Map<u64, (usize, usize)>,
    bins: Seq<HiveBinView>,
    b: int,
    n: int,
)
    requires
        positions_valid(m, bins),
        0 <= b < bins.len(),
        b <= usize::MAX,
        0 <= n <= bins[b].cells.len(),
        bins[b].cells.len() <= usize::MAX,
    ensures
        positions_valid(index_cells(m, b, bins[b].cells.take(n)), bins),
    decreases n,
{
    let cells = bins[b].cells.take(n);
    if n > 0 {
        assert(cells.drop_last() =~= bins[b].cells.take(n - 1));
        lemma_index_cells_valid(m, bins, b, n - 1);
    }
}

proof fn lemma_index_valid(bins: Seq<HiveBinView>, n: int)
    requires
        0 <= n <= bins.len(),
        bins.len() <= usize::MAX,
        forall|b: int| 0 <= b < bins.len() ==> #[trigger] bins[b].cells.len() <= usize::MAX,
    ensures
        positions_valid(index_of(bins.take(n)), bins),
    decreases n,
{
    if n > 0 {
        let t = bins.take(n);
        assert(t.drop_last() =~= bins.take(n - 1));
        lemma_index_valid(bins, n - 1);
        assert(t.last().cells =~= bins[n - 1].cells.take(bins[n - 1].cells.len() as int));
        lemma_index_cells_valid(index_of(bins.take(n - 1)), bins, n - 1, bins[n - 1].cells.len() as int);
    }
}

/// Absolute file offset that a stored cell offset refers to.
pub open spec fn target(rel: u32) -> u64 {
    (rel + BASE_BLOCK_SIZE) as u64
}

/// The cell at absolute offset `abs`, if there is one.
pub open spec fn cell_at(bins: Seq<HiveBinView>, abs: u64) -> Option<HiveBinCellView> {
    let m = index_of(bins);
    if m.contains_key(abs) {
        Some(bins[m[abs].0 as int].cells[m[abs].1 as int])
    } else {
        None
    }
}

/// The byte range of the body (what follows the size field) of the allocated
/// cell that a stored offset refers to.
pub open spec fn body_at(s: Seq<u8>, bins: Seq<HiveBinView>, rel: u32) -> Option<(int, int)> {
    match cell_at(bins, target(rel)) {
        Some(c) => if c.size < 0 && extent(c.size) >= 4 && c.offset + extent(c.size) <= s.len() {
            Some((c.offset + 4, c.offset + extent(c.size)))
        } else {
            None
        },
        None => None,
    }
}

/// The offsets of all cells of decoded bins, for lookups by offset.
pub struct CellIndex {
    pub map: HashMap<u64, (usize, usize)>,
}

impl CellIndex {
    /// The index is exactly the one of these bins.
    pub open spec fn indexes(&self, bins: Seq<HiveBinView>) -> bool {
        &&& self.map@ == index_of(bins)
        &&& positions_valid(self.map@, bins)
    }

    /// Indexes every cell of `bins` by its absolute offset.
    pub fn build(bins: &Vec<HiveBin>) -> (r: CellIndex)
        ensures
            r.indexes(bins_view(bins@)),
    {
        let ghost bv = bins_view(bins@);
        let mut map: HashMap<u64, (usize, usize)> = HashMap::new();
        let mut b: usize = 0;
        while b < bins.len()
            invariant
                b <= bins@.len(),
                bv == bins_view(bins@),
                map@ == index_of(bv.take(b as int)),
                forall|i: int| 0 <= i < b ==> #[trigger] bv[i].cells.len() <= usize::MAX,
            decreases bins@.len() - b,
        {
            let cells = &bins[b].cells;
            let _n = cells.len();
            let ghost before = map@;
            let mut c: usize = 0;
            while c < cells.len()
                invariant
                    b < bins@.len(),
                    bv == bins_view(bins@),
                    *cells == bins@[b as int].cells,
                    c <= cells@.len(),
                    map@ == index_cells(before, b as int, bv[b as int].cells.take(c as int)),
                decreases cells@.len() - c,
            {
                map.insert(cells[c].offset as u64, (b, c));
                proof {
                    let t = bv[b as int].cells.take(c + 1);
                    assert(t.drop_last() =~= bv[b as int].cells.take(c as int));
                }
                c = c + 1;
            }
            proof {
                let t = bv.take(b + 1);
                assert(t.drop_last() =~= bv.take(b as int));
                assert(bv[b as int].cells.take(c as int) =~= bv[b as int].cells);
            }
            b = b + 1;
        }
        proof {
            assert(bv.take(b as int) =~= bv);
            lemma_index_valid(bv, bv.len() as int);
        }
        CellIndex { map }
    }

    /// The cell at absolute offset `abs`.
    pub fn find<'a>(&self, bins: &'a Vec<HiveBin>, abs: u64) -> (r: Option<&'a HiveBinCell>)
        requires
            self.indexes(bins_view(bins@)),
        ensures
            match cell_at(bins_view(bins@), abs) {
                Some(c) => r is Some && r->Some_0@ == c,
                None => r is None,
            },
    {
        match self.map.get(&abs) {
            Some(pos) => {
                let (b, c) = *pos;
                Some(&bins[b].cells[c])
            },
            None => None,
        }
    }
}

/// The body range of the allocated cell that a stored offset refers to.
pub fn find_body(buf: &[u8], bins: &Vec<HiveBin>, index: &CellIndex, rel: u32) -> (r: Option<(usize, usize)>)
    requires
        index.indexes(bins_view(bins@)),
    ensures
        match body_at(buf@, bins_view(bins@), rel) {
            Some(p) => r is Some && r->Some_0.0 == p.0 && r->Some_0.1 == p.1,
            None => r is None,
        },
{
    let abs = rel as u64 + BASE_BLOCK_SIZE as u64;
    match index.find(bins, abs) {
        Some(cell) => {
            if cell.size < 0 {
                let ext = (-(cell.size as i64)) as usize;
                if ext >= 4 && ext <= buf.len() && cell.offset <= buf.len() - ext {
                    Some((cell.offset + 4, cell.offset + ext))
                } else {
                    None
                }
            } else {
                None
            }
        },
        None => None,
    }
}

} // verus!
