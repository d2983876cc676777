use vstd::prelude::*;
use crate::bins::{
    fatal, bin_result_view, decode_bin, segment_bins, soft, spec_bin, spec_segments, HiveBin, HiveBinView,
};
use crate::cursor::le32;
use crate::error::{ErrorKind, HiveParseError};
use crate::header::{is_regf, spec_base_block, HiveBaseBlock, HiveBaseBlockView, BASE_BLOCK_SIZE};
use crate::index::{bins_view, index_of, CellIndex};
use crate::root::text_is;
use crate::tree::{nodes_view, resolve_key, spec_key, KeyNode, KeyNodeView};

verus! {

broadcast use vstd::std_specs::hash::group_hash_axioms;

/// Offset in the base block of the declared size of the hive bins.
pub const DATA_SIZE_FIELD: u64 = 40;

/// A decoded hive: its header, its bins, the key tree resolved from the root
/// cell, and every soft error met on the way.
#[derive(Debug)]
pub struct HivePrimaryFile {
    pub base_block: HiveBaseBlock,
    pub hive_bins: Vec<HiveBin>,
    /// Every resolved key; a key's subtree comes before it.
    pub keys: Vec<KeyNode>,
    /// Place of the root key in `keys`, if it resolved.
    pub root: Option<usize>,
    pub soft_errors: Vec<HiveParseError>,
}

/// What a [`HivePrimaryFile`] holds.
pub struct HivePrimaryFileView {
    pub base_block: HiveBaseBlockView,
    pub hive_bins: Seq<HiveBinView>,
    pub keys: Seq<KeyNodeView>,
    pub root: Option<usize>,
    pub soft_errors: Seq<HiveParseError>,
}

impl View for HivePrimaryFile {
    type V = HivePrimaryFileView;

    open spec fn view(&self) -> HivePrimaryFileView {
        HivePrimaryFileView {
            base_block: self.base_block@,
            hive_bins: bins_view(self.hive_bins@),
            keys: nodes_view(self.keys@),
            root: self.root,
            soft_errors: self.soft_errors@,
        }
    }
}

/// The outcome of decoding one bin.
pub type BinResult = (Option<HiveBin>, Vec<HiveParseError>);

pub open spec fn results_view(v: Seq<BinResult>) -> Seq<(Option<HiveBinView>, Seq<HiveParseError>)> {
    v.map_values(|r: BinResult| bin_result_view(r))
}

/// The bins that decoded, in order, and all the errors of the bins, in order.
pub open spec fn merge_bins(results: Seq<(Option<HiveBinView>, Seq<HiveParseError>)>) -> (
    Seq<HiveBinView>,
    Seq<HiveParseError>,
)
    decreases results.len(),
{
    if results.len() == 0 {
        (seq![], seq![])
    } else {
        let prev = merge_bins(results.drop_last());
        let last = results.last();
        (
            match last.0 {
                Some(b) => prev.0.push(b),
                None => prev.0,
            },
            prev.1 + last.1,
        )
    }
}

/// What each bin of `segments` decodes to.
pub open spec fn spec_bin_results(s: Seq<u8>, segments: Seq<(usize, usize)>) -> Seq<
    (Option<HiveBinView>, Seq<HiveParseError>),
> {
    segments.map_values(|g: (usize, usize)| spec_bin(s, g.0 as int, g.1 as int))
}

/// The warning that the bins do not fill the size that the base block declares.
/// The bins tile everything after the base block, so their sizes add up to that length.
pub open spec fn size_check(s: Seq<u8>, base: HiveBaseBlockView) -> Seq<HiveParseError> {
    if s.len() - BASE_BLOCK_SIZE != base.hive_bins_data_size {
        seq![soft(DATA_SIZE_FIELD as int, ErrorKind::SizeMismatch)]
    } else {
        seq![]
    }
}

/// The tree resolved from the root cell over decoded bins.
pub open spec fn spec_tree(s: Seq<u8>, bins: Seq<HiveBinView>, root: u32, errors: Seq<HiveParseError>) -> (
    Seq<KeyNodeView>,
    Seq<HiveParseError>,
    Option<usize>,
) {
    spec_key(s, bins, index_of(bins).len() as int, root, None, seq![], seq![], errors)
}

/// The file that a base block and the outcomes of its bins make.
pub open spec fn spec_assemble(
    s: Seq<u8>,
    base: HiveBaseBlockView,
    results: Seq<(Option<HiveBinView>, Seq<HiveParseError>)>,
) -> HivePrimaryFileView {
    let m = merge_bins(results);
    let t = spec_tree(s, m.0, base.root_cell_offset, m.1 + size_check(s, base));
    HivePrimaryFileView { base_block: base, hive_bins: m.0, keys: t.0, root: t.2, soft_errors: t.1 }
}

/// The decode of a whole hive buffer.
pub open spec fn spec_decode(s: Seq<u8>) -> Result<HivePrimaryFileView, HiveParseError> {
    match spec_base_block(s) {
        Err(e) => Err(e),
        Ok(base) => match spec_segments(s, BASE_BLOCK_SIZE as int) {
            Err(e) => Err(e),
            Ok(segments) => Ok(spec_assemble(s, base, spec_bin_results(s, segments))),
        },
    }
}

proof fn lemma_segments_fit(s: Seq<u8>, pos: int)
    requires
        spec_segments(s, pos) is Ok,
    ensures
        forall|i: int|
            0 <= i < spec_segments(s, pos)->Ok_0.len() ==> {
                let g = #[trigger] spec_segments(s, pos)->Ok_0[i];
                g.0 + g.1 <= s.len()
            },
    decreases s.len() - pos,
{
    if pos >= 0 && pos < s.len() && s.len() - pos >= 32 {
        let size = le32(s, pos + 8);
        if size >= 32 && pos + size <= s.len() {
            lemma_segments_fit(s, pos + size);
        }
    }
}

/// Decodes each bin of `segments`, in order.
pub fn decode_bins(buf: &[u8], segments: &Vec<(usize, usize)>) -> (r: Vec<BinResult>)
    requires
        forall|i: int| 0 <= i < segments@.len() ==> #[trigger] segments@[i].0 + segments@[i].1 <= buf@.len(),
    ensures
        results_view(r@) == spec_bin_results(buf@, segments@),
{
    let mut results: Vec<BinResult> = Vec::new();
    let mut i: usize = 0;
    while i < segments.len()
        invariant
            i <= segments@.len(),
            forall|k: int| 0 <= k < segments@.len() ==> #[trigger] segments@[k].0 + segments@[k].1 <= buf@.len(),
            results_view(results@) =~= spec_bin_results(buf@, segments@.take(i as int)),
        decreases segments@.len() - i,
    {
        let (start, size) = segments[i];
        let r = decode_bin(buf, start, size);
        results.push(r);
        proof {
            assert(spec_bin_results(buf@, segments@.take(i + 1)) =~= spec_bin_results(
                buf@,
                segments@.take(i as int),
            ).push(spec_bin(buf@, start as int, size as int)));
            assert(results_view(results@) =~= spec_bin_results(buf@, segments@.take(i + 1)));
        }
        i = i + 1;
    }
    proof {
        assert(segments@.take(i as int) =~= segments@);
    }
    results
}

impl HivePrimaryFile {
    /// Builds the file from its base block and the outcomes of its bins, in
    /// order: keeps the bins that decoded, indexes their cells by offset,
    /// checks the declared data size, and resolves the key tree from the root cell.
    pub fn assemble(buf: &[u8], base_block: HiveBaseBlock, results: Vec<BinResult>) -> (r: HivePrimaryFile)
        ensures
            r@ == spec_assemble(buf@, base_block@, results_view(results@)),
    {
        let ghost all = results_view(results@);
        let mut results = results;
        let mut reversed: Vec<BinResult> = Vec::new();
        while results.len() > 0
            invariant
                all.len() == results@.len() + reversed@.len(),
                forall|k: int| 0 <= k < results@.len() ==> #[trigger] bin_result_view(results@[k]) == all[k],
                forall|k: int|
                    0 <= k < reversed@.len() ==> #[trigger] bin_result_view(reversed@[k]) == all[all.len() - 1 - k],
            decreases results@.len(),
        {
            match results.pop() {
                Some(x) => reversed.push(x),
                None => {},
            }
        }
        let mut hive_bins: Vec<HiveBin> = Vec::new();
        let mut soft_errors: Vec<HiveParseError> = Vec::new();
        while reversed.len() > 0
            invariant
                all.len() >= reversed@.len(),
                forall|k: int|
                    0 <= k < reversed@.len() ==> #[trigger] bin_result_view(reversed@[k]) == all[all.len() - 1 - k],
                (bins_view(hive_bins@), soft_errors@) == merge_bins(all.take(all.len() - reversed@.len())),
            decreases reversed@.len(),
        {
            let ghost done = all.len() - reversed@.len();
            let ghost hb = bins_view(hive_bins@);
            let ghost eb = soft_errors@;
            let ghost rv = reversed@;
            match reversed.pop() {
                Some((bin, mut errors)) => {
                    let ghost ev = errors@;
                    let ghost bv = bin_result_view((bin, errors)).0;
                    proof {
                        assert(bin_result_view(rv[rv.len() - 1]) == all[done]);
                        assert(all[done] == (bv, ev));
                    }
                    match bin {
                        Some(b) => {
                            hive_bins.push(b);
                            proof {
                                assert(bins_view(hive_bins@) =~= hb.push(b@));
                            }
                        },
                        None => {
                            proof {
                                assert(bins_view(hive_bins@) =~= hb);
                            }
                        },
                    }
                    soft_errors.append(&mut errors);
                    proof {
                        let t = all.take(done + 1);
                        assert(t.drop_last() =~= all.take(done));
                        assert(t.last() == all[done]);
                    }
                },
                None => {},
            }
        }
        proof {
            assert(all.take(all.len() as int) =~= all);
        }
        let ghost merged = soft_errors@;
        let declared = base_block.hive_bins_data_size;
        if buf.len() < BASE_BLOCK_SIZE || (buf.len() - BASE_BLOCK_SIZE) as u64 != declared as u64 {
            soft_errors.push(HiveParseError { offset: DATA_SIZE_FIELD, kind: ErrorKind::SizeMismatch });
        }
        proof {
            assert(soft_errors@ =~= merged + size_check(buf@, base_block@));
        }
        let index = CellIndex::build(&hive_bins);
        let limit = index.map.len();
        let mut path: Vec<u32> = Vec::new();
        let mut keys: Vec<KeyNode> = Vec::new();
        proof {
            assert(nodes_view(keys@) =~= Seq::<KeyNodeView>::empty());
        }
        let root = resolve_key(
            buf,
            &hive_bins,
            &index,
            limit,
            base_block.root_cell_offset,
            None,
            &mut path,
            &mut keys,
            &mut soft_errors,
        );
        HivePrimaryFile { base_block, hive_bins, keys, root, soft_errors }
    }

    /// The root key, if it resolved.
    pub fn root_key(&self) -> (r: Option<&KeyNode>)
        ensures
            r is Some <==> self.root is Some && self.root->Some_0 < self.keys@.len(),
            r is Some ==> *r->Some_0 == self.keys@[self.root->Some_0 as int],
    {
        match self.root {
            Some(i) => if i < self.keys.len() {
                Some(&self.keys[i])
            } else {
                None
            },
            None => None,
        }
    }

    /// The first subkey of the key at place `key` whose name is `name`, in the
    /// order of the key's subkey lists.
    pub fn find_child(&self, key: usize, name: &str) -> (r: Option<usize>)
        requires
            key < self.keys@.len(),
        ensures
            match r {
                Some(c) => exists|i: int|
                    0 <= i < self.keys@[key as int].children@.len() && #[trigger] self.keys@[key as int].children@[i]
                        == c && c < self.keys@.len() && self.keys@[c as int].name@ == name@ && forall|j: int|
                        0 <= j < i ==> #[trigger] self.keys@[key as int].children@[j] >= self.keys@.len()
                            || self.keys@[self.keys@[key as int].children@[j] as int].name@ != name@,
                None => forall|i: int|
                    0 <= i < self.keys@[key as int].children@.len() ==> #[trigger] self.keys@[key as int].children@[i]
                        >= self.keys@.len() || self.keys@[self.keys@[key as int].children@[i] as int].name@ != name@,
            },
    {
        let children = &self.keys[key].children;
        let mut i: usize = 0;
        while i < children.len()
            invariant
                key < self.keys@.len(),
                *children == self.keys@[key as int].children,
                i <= children@.len(),
                forall|j: int|
                    0 <= j < i ==> #[trigger] children@[j] >= self.keys@.len() || self.keys@[children@[j] as int].name@
                        != name@,
            decreases children@.len() - i,
        {
            let c = children[i];
            if c < self.keys.len() && text_is(&self.keys[c].name, name) {
                assert(children@[i as int] == c);
                return Some(c);
            }
            i = i + 1;
        }
        None
    }

    /// Decodes a whole hive buffer.
    pub fn build(buf: &[u8]) -> (r: Result<HivePrimaryFile, HiveParseError>)
        ensures
            match spec_decode(buf@) {
                Ok(v) => r is Ok && r->Ok_0@ == v,
                Err(e) => r == Err::<HivePrimaryFile, HiveParseError>(e),
            },
    {
        let base_block = match HiveBaseBlock::build(buf) {
            Ok(b) => b,
            Err(e) => return Err(e),
        };
        let segments = match segment_bins(buf) {
            Ok(s) => s,
            Err(e) => return Err(e),
        };
        proof {
            lemma_segments_fit(buf@, BASE_BLOCK_SIZE as int);
        }
        let results = decode_bins(buf, &segments);
        Ok(HivePrimaryFile::assemble(buf, base_block, results))
    }
}

/// Decodes a whole hive buffer: the base block, each bin, and the key tree.
pub fn decode(buf: &[u8]) -> (r: Result<HivePrimaryFile, HiveParseError>)
    ensures
        match spec_decode(buf@) {
            Ok(v) => r is Ok && r->Ok_0@ == v,
            Err(e) => r == Err::<HivePrimaryFile, HiveParseError>(e),
        },
{
    HivePrimaryFile::build(buf)
}

/// Decoding is deterministic: the same bytes give the same file, tree and soft
/// errors, in the same order.
pub proof fn lemma_decode_deterministic(a: Seq<u8>, b: Seq<u8>)
    requires
        a == b,
    ensures
        spec_decode(a) == spec_decode(b),
{
}

proof fn lemma_prefix_segments(s: Seq<u8>, cut: int, pos: int, i: int)
    requires
        spec_segments(s, pos) is Ok,
        0 <= pos,
        s.len() <= usize::MAX,
        0 <= i < spec_segments(s, pos)->Ok_0.len(),
        spec_segments(s, pos)->Ok_0[i].0 < cut < spec_segments(s, pos)->Ok_0[i].0 + spec_segments(
            s,
            pos,
        )->Ok_0[i].1,
        cut <= s.len(),
    ensures
        spec_segments(s.take(cut), pos) == Err::<Seq<(usize, usize)>, HiveParseError>(
            fatal(spec_segments(s, pos)->Ok_0[i].0 as int, ErrorKind::Truncated),
        ),
    decreases s.len() - pos,
{
    let t = s.take(cut);
    let size = le32(s, pos + 8);
    let rest = spec_segments(s, pos + size);
    assert(spec_segments(s, pos)->Ok_0 == seq![(pos as usize, size as usize)] + rest->Ok_0);
    if s.len() - pos >= 32 && cut - pos >= 32 {
        assert(t[pos + 8] == s[pos + 8]);
        assert(t[pos + 9] == s[pos + 9]);
        assert(t[pos + 10] == s[pos + 10]);
        assert(t[pos + 11] == s[pos + 11]);
        assert(le32(t, pos + 8) == size);
    }
    if i > 0 {
        assert(spec_segments(s, pos)->Ok_0[i] == rest->Ok_0[i - 1]);
        lemma_prefix_segments(s, cut, pos + size, i - 1);
    }
}

/// Cutting a hive that decodes anywhere strictly inside one of its bins makes
/// the decode fail with a fatal truncation error at that bin.
pub proof fn lemma_cut_inside_bin_is_fatal(s: Seq<u8>, cut: int, i: int)
    requires
        spec_decode(s) is Ok,
        s.len() <= usize::MAX,
        0 <= i < spec_segments(s, BASE_BLOCK_SIZE as int)->Ok_0.len(),
        spec_segments(s, BASE_BLOCK_SIZE as int)->Ok_0[i].0 < cut < spec_segments(
            s,
            BASE_BLOCK_SIZE as int,
        )->Ok_0[i].0 + spec_segments(s, BASE_BLOCK_SIZE as int)->Ok_0[i].1,
    ensures
        spec_decode(s.take(cut)) == Err::<HivePrimaryFileView, HiveParseError>(
            fatal(spec_segments(s, BASE_BLOCK_SIZE as int)->Ok_0[i].0 as int, ErrorKind::Truncated),
        ),
{
    let t = s.take(cut);
    lemma_segments_fit(s, BASE_BLOCK_SIZE as int);
    lemma_segments_start_after(s, BASE_BLOCK_SIZE as int);
    assert(cut <= s.len());
    assert(t[0] == s[0] && t[1] == s[1] && t[2] == s[2] && t[3] == s[3]);
    assert(is_regf(t));
    lemma_prefix_segments(s, cut, BASE_BLOCK_SIZE as int, i);
}

proof fn lemma_segments_start_after(s: Seq<u8>, pos: int)
    requires
        spec_segments(s, pos) is Ok,
        s.len() <= usize::MAX,
    ensures
        forall|i: int|
            0 <= i < spec_segments(s, pos)->Ok_0.len() ==> pos <= #[trigger] spec_segments(s, pos)->Ok_0[i].0,
    decreases s.len() - pos,
{
    if pos >= 0 && pos < s.len() && s.len() - pos >= 32 {
        let size = le32(s, pos + 8);
        if size >= 32 && pos + size <= s.len() {
            lemma_segments_start_after(s, pos + size);
            let rest = spec_segments(s, pos + size)->Ok_0;
            assert forall|i: int| 0 < i < spec_segments(s, pos)->Ok_0.len() implies spec_segments(s, pos)->Ok_0[i]
                == rest[i - 1] by {}
        }
    }
}

} // verus!
