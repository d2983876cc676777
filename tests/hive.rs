use winreg_hive::bins::{decode_bin, segment_bins, walk_cells};
use winreg_hive::cursor::Cursor;
use winreg_hive::error::{ErrorKind, HiveParseError};
use winreg_hive::file::{decode, HivePrimaryFile};
use winreg_hive::header::{HiveBaseBlock, HiveBinHeader};
use winreg_hive::hive::CellData;
use winreg_hive::index::CellIndex;
use winreg_hive::tree::security_of;

const NONE: u32 = 0xFFFF_FFFF;

/// Cells of one bin, laid out in the order they are added.
struct Bin {
    cells: Vec<u8>,
}

impl Bin {
    fn new() -> Bin {
        Bin { cells: Vec::new() }
    }

    /// Offset, relative to the end of the base block, of the next cell.
    fn next(&self) -> u32 {
        32 + self.cells.len() as u32
    }

    fn push(&mut self, payload: &[u8], allocated: bool) -> u32 {
        let rel = self.next();
        let size = (4 + payload.len() + 7) / 8 * 8;
        let field: i32 = if allocated { -(size as i32) } else { size as i32 };
        self.cells.extend_from_slice(&field.to_le_bytes());
        self.cells.extend_from_slice(payload);
        self.cells.resize(self.cells.len() + size - 4 - payload.len(), 0);
        rel
    }

    fn add(&mut self, payload: &[u8]) -> u32 {
        self.push(payload, true)
    }

    fn add_free(&mut self, payload: &[u8]) -> u32 {
        self.push(payload, false)
    }

    fn bin_bytes(&self) -> Vec<u8> {
        let size = 32 + self.cells.len() as u32;
        let mut b = Vec::new();
        b.extend_from_slice(b"hbin");
        b.extend_from_slice(&0u32.to_le_bytes());
        b.extend_from_slice(&size.to_le_bytes());
        b.extend_from_slice(&[0u8; 8]);
        b.extend_from_slice(&7u64.to_le_bytes());
        b.extend_from_slice(&0u32.to_le_bytes());
        b.extend_from_slice(&self.cells);
        b
    }

    fn hive(&self, root: u32) -> Vec<u8> {
        let bin = self.bin_bytes();
        let mut h = base_block(root, bin.len() as u32);
        h.extend_from_slice(&bin);
        h
    }
}

fn base_block(root: u32, data_size: u32) -> Vec<u8> {
    let mut b = vec![0u8; 4096];
    b[0..4].copy_from_slice(b"regf");
    b[4..8].copy_from_slice(&3u32.to_le_bytes());
    b[8..12].copy_from_slice(&3u32.to_le_bytes());
    b[20..24].copy_from_slice(&1u32.to_le_bytes());
    b[24..28].copy_from_slice(&5u32.to_le_bytes());
    b[32..36].copy_from_slice(&1u32.to_le_bytes());
    b[36..40].copy_from_slice(&root.to_le_bytes());
    b[40..44].copy_from_slice(&data_size.to_le_bytes());
    b[44..48].copy_from_slice(&1u32.to_le_bytes());
    for (i, c) in "SOFTWARE".encode_utf16().enumerate() {
        b[48 + 2 * i..50 + 2 * i].copy_from_slice(&c.to_le_bytes());
    }
    b
}

fn nk(name: &[u8], subkeys: u32, subkeys_list: u32, values: u32, values_list: u32) -> Vec<u8> {
    let mut p = Vec::new();
    p.extend_from_slice(b"nk");
    p.extend_from_slice(&0x20u16.to_le_bytes());
    p.extend_from_slice(&0u64.to_le_bytes());
    p.extend_from_slice(&0u32.to_le_bytes());
    p.extend_from_slice(&NONE.to_le_bytes());
    p.extend_from_slice(&subkeys.to_le_bytes());
    p.extend_from_slice(&0u32.to_le_bytes());
    p.extend_from_slice(&subkeys_list.to_le_bytes());
    p.extend_from_slice(&NONE.to_le_bytes());
    p.extend_from_slice(&values.to_le_bytes());
    p.extend_from_slice(&values_list.to_le_bytes());
    p.extend_from_slice(&NONE.to_le_bytes());
    p.extend_from_slice(&NONE.to_le_bytes());
    for _ in 0..5 {
        p.extend_from_slice(&0u32.to_le_bytes());
    }
    p.extend_from_slice(&(name.len() as u16).to_le_bytes());
    p.extend_from_slice(&0u16.to_le_bytes());
    p.extend_from_slice(name);
    p
}

fn vk(name: &[u8], data_size: u32, data_offset: u32, data_type: u32) -> Vec<u8> {
    let mut p = Vec::new();
    p.extend_from_slice(b"vk");
    p.extend_from_slice(&(name.len() as u16).to_le_bytes());
    p.extend_from_slice(&data_size.to_le_bytes());
    p.extend_from_slice(&data_offset.to_le_bytes());
    p.extend_from_slice(&data_type.to_le_bytes());
    p.extend_from_slice(&1u16.to_le_bytes());
    p.extend_from_slice(&0u16.to_le_bytes());
    p.extend_from_slice(name);
    p
}

fn offsets(list: &[u32]) -> Vec<u8> {
    list.iter().flat_map(|o| o.to_le_bytes()).collect()
}

fn lf(keys: &[u32]) -> Vec<u8> {
    let mut p = Vec::new();
    p.extend_from_slice(b"lf");
    p.extend_from_slice(&(keys.len() as u16).to_le_bytes());
    for k in keys {
        p.extend_from_slice(&k.to_le_bytes());
        p.extend_from_slice(b"abcd");
    }
    p
}

fn ri(lists: &[u32]) -> Vec<u8> {
    let mut p = Vec::new();
    p.extend_from_slice(b"ri");
    p.extend_from_slice(&(lists.len() as u16).to_le_bytes());
    for l in lists {
        p.extend_from_slice(&l.to_le_bytes());
    }
    p
}

fn db(segments: u16, list: u32) -> Vec<u8> {
    let mut p = Vec::new();
    p.extend_from_slice(b"db");
    p.extend_from_slice(&segments.to_le_bytes());
    p.extend_from_slice(&list.to_le_bytes());
    p.extend_from_slice(&0u32.to_le_bytes());
    p
}

/// One key named `ROOT` with one string value `hello`; gives the hive and the root offset.
fn minimal_hive() -> (Vec<u8>, u32) {
    let mut bin = Bin::new();
    let data = bin.add(b"hello");
    let value = bin.add(&vk(b"greeting", 5, data, 1));
    let list = bin.add(&offsets(&[value]));
    let root = bin.add(&nk(b"ROOT", 0, NONE, 1, list));
    (bin.hive(root), root)
}

fn decoded(bytes: &[u8]) -> HivePrimaryFile {
    decode(bytes).expect("hive decodes")
}

fn child_names(file: &HivePrimaryFile, key: usize) -> Vec<String> {
    file.keys[key].children.iter().map(|c| file.keys[*c].name.clone()).collect()
}

fn kinds(errors: &[HiveParseError]) -> Vec<ErrorKind> {
    errors.iter().map(|e| e.kind).collect()
}

#[test]
fn round_trip_minimal_hive() {
    let (bytes, _) = minimal_hive();
    let file = decoded(&bytes);
    assert_eq!(file.keys.len(), 1);
    let root = file.root.expect("root resolves");
    let key = &file.keys[root];
    assert_eq!(key.name, "ROOT");
    assert_eq!(key.parent, None);
    assert!(key.children.is_empty());
    assert_eq!(key.values.len(), 1);
    assert_eq!(key.values[0].name, "greeting");
    assert_eq!(key.values[0].data_type, 1);
    assert_eq!(key.values[0].data, b"hello".to_vec());
    assert_eq!(file.hive_bins.len(), 1);
    assert_eq!(file.hive_bins[0].cells.len(), 4);
}

#[test]
fn raw_cells_are_reported_as_unknown() {
    let (bytes, _) = minimal_hive();
    let file = decoded(&bytes);
    assert_eq!(kinds(&file.soft_errors), vec![ErrorKind::UnknownCellType, ErrorKind::UnknownCellType]);
    assert_eq!(file.soft_errors[0].offset, 4096 + 32);
}

#[test]
fn index_root_joins_fast_leaves_in_order() {
    let mut bin = Bin::new();
    let a = bin.add(&nk(b"A", 0, NONE, 0, NONE));
    let b = bin.add(&nk(b"B", 0, NONE, 0, NONE));
    let c = bin.add(&nk(b"C", 0, NONE, 0, NONE));
    let first = bin.add(&lf(&[a, b]));
    let second = bin.add(&lf(&[c]));
    let list = bin.add(&ri(&[first, second]));
    let root = bin.add(&nk(b"ROOT", 3, list, 0, NONE));
    let file = decoded(&bin.hive(root));
    let r = file.root.unwrap();
    assert_eq!(child_names(&file, r), vec!["A", "B", "C"]);
    assert!(file.soft_errors.is_empty());
    let children = &file.keys[r].children;
    assert_eq!(file.keys[children[0]].offset, a);
    assert_eq!(file.keys[children[2]].offset, c);
    assert_eq!(file.keys[children[1]].parent, Some(root));
}

#[test]
fn big_value_concatenates_segments_in_order() {
    let mut bin = Bin::new();
    let first = bin.add(&vec![b'a'; 16344]);
    let second = bin.add(&vec![b'b'; 100]);
    let segments = bin.add(&offsets(&[first, second]));
    let block = bin.add(&db(2, segments));
    let value = bin.add(&vk(b"big", 16444, block, 3));
    let list = bin.add(&offsets(&[value]));
    let root = bin.add(&nk(b"ROOT", 0, NONE, 1, list));
    let file = decoded(&bin.hive(root));
    let data = &file.keys[file.root.unwrap()].values[0].data;
    let mut expected = vec![b'a'; 16344];
    expected.extend_from_slice(&vec![b'b'; 100]);
    assert_eq!(data.len(), 16444);
    assert_eq!(*data, expected);
}

#[test]
fn self_listed_subkeys_are_a_cycle() {
    let mut bin = Bin::new();
    let root = bin.next();
    assert_eq!(bin.add(&nk(b"LOOP", 1, root, 0, NONE)), root);
    let file = decoded(&bin.hive(root));
    assert_eq!(file.keys.len(), 1);
    assert!(file.keys[0].children.is_empty());
    assert_eq!(
        file.soft_errors,
        vec![HiveParseError { offset: 4096 + root as u64, kind: ErrorKind::CyclicReference }]
    );
}

#[test]
fn index_root_listing_itself_is_a_cycle() {
    let mut bin = Bin::new();
    let list = bin.next();
    assert_eq!(bin.add(&ri(&[list])), list);
    let root = bin.add(&nk(b"ROOT", 1, list, 0, NONE));
    let file = decoded(&bin.hive(root));
    assert!(file.keys[file.root.unwrap()].children.is_empty());
    assert_eq!(kinds(&file.soft_errors), vec![ErrorKind::CyclicReference]);
}

#[test]
fn cut_inside_bin_is_fatal() {
    let (bytes, _) = minimal_hive();
    for cut in [4097, 4096 + 10, 4096 + 40, bytes.len() - 1] {
        let r = decode(&bytes[..cut]);
        assert_eq!(r.err(), Some(HiveParseError { offset: 4096, kind: ErrorKind::Truncated }));
    }
}

#[test]
fn free_cell_spelling_a_signature_is_not_decoded() {
    let mut bin = Bin::new();
    let stale = bin.add_free(&nk(b"STALE", 0, NONE, 0, NONE));
    let list = bin.add(&lf(&[stale]));
    let root = bin.add(&nk(b"ROOT", 1, list, 0, NONE));
    let file = decoded(&bin.hive(root));
    let cell = &file.hive_bins[0].cells[0];
    assert!(!cell.is_allocated());
    assert!(cell.cell_data().is_none());
    assert_eq!(file.keys.len(), 1);
    assert_eq!(
        file.soft_errors,
        vec![HiveParseError { offset: 4096 + stale as u64, kind: ErrorKind::DanglingReference }]
    );
}

#[test]
fn corrupt_payload_keeps_cell_offsets() {
    let (mut bytes, _) = minimal_hive();
    let before: Vec<(usize, i32)> =
        decoded(&bytes).hive_bins[0].cells.iter().map(|c| (c.offset, c.size)).collect();
    let value_cell = before[1].0;
    for b in &mut bytes[value_cell + 4..value_cell + 12] {
        *b = 0xEE;
    }
    let after = decoded(&bytes);
    let offsets: Vec<(usize, i32)> = after.hive_bins[0].cells.iter().map(|c| (c.offset, c.size)).collect();
    assert_eq!(offsets, before);
    assert_eq!(offsets[1].0, offsets[0].0 + 16);
    assert!(after.hive_bins[0].cells[1].cell_data().is_none());
    assert!(after.hive_bins[0].cells[3].cell_data().is_some());
}

#[test]
fn decode_is_deterministic() {
    let (bytes, _) = minimal_hive();
    let a = format!("{:?}", decode(&bytes));
    let b = format!("{:?}", decode(&bytes));
    assert_eq!(a, b);
}

#[test]
fn short_buffer_is_fatal() {
    let r = decode(&[0u8; 100]);
    assert_eq!(r.err(), Some(HiveParseError { offset: 0, kind: ErrorKind::UnexpectedEnd }));
}

#[test]
fn wrong_base_signature_is_fatal() {
    let (mut bytes, _) = minimal_hive();
    bytes[0] = b'x';
    assert_eq!(decode(&bytes).err(), Some(HiveParseError { offset: 0, kind: ErrorKind::InvalidSignature }));
}

#[test]
fn signatures_ignore_case() {
    let (mut bytes, _) = minimal_hive();
    bytes[0..4].copy_from_slice(b"REGF");
    assert!(decode(&bytes).is_ok());
}

#[test]
fn bin_size_below_header_is_fatal() {
    let (mut bytes, _) = minimal_hive();
    bytes[4096 + 8..4096 + 12].copy_from_slice(&8u32.to_le_bytes());
    assert_eq!(decode(&bytes).err(), Some(HiveParseError { offset: 4096, kind: ErrorKind::InvalidBinSize }));
}

#[test]
fn bad_bin_signature_skips_only_that_bin() {
    let (bytes, root) = minimal_hive();
    let mut other = Bin::new();
    other.add(&nk(b"LOST", 0, NONE, 0, NONE));
    let mut second = other.bin_bytes();
    second[0] = b'x';
    let mut all = bytes.clone();
    all.extend_from_slice(&second);
    let declared = (all.len() - 4096) as u32;
    all[40..44].copy_from_slice(&declared.to_le_bytes());
    let file = decoded(&all);
    assert_eq!(file.hive_bins.len(), 1);
    assert_eq!(file.keys[file.root.unwrap()].offset, root);
    assert!(file
        .soft_errors
        .contains(&HiveParseError { offset: bytes.len() as u64, kind: ErrorKind::InvalidSignature }));
}

#[test]
fn declared_size_mismatch_is_a_warning() {
    let (mut bytes, _) = minimal_hive();
    bytes[40..44].copy_from_slice(&1u32.to_le_bytes());
    let file = decoded(&bytes);
    assert!(file.soft_errors.contains(&HiveParseError { offset: 40, kind: ErrorKind::SizeMismatch }));
    assert!(file.root.is_some());
}

#[test]
fn dangling_root_leaves_an_empty_tree() {
    let (bytes, _) = minimal_hive();
    let mut b = bytes.clone();
    b[36..40].copy_from_slice(&1000u32.to_le_bytes());
    let file = decoded(&b);
    assert!(file.root.is_none());
    assert!(file.keys.is_empty());
    assert!(file.soft_errors.contains(&HiveParseError { offset: 5096, kind: ErrorKind::DanglingReference }));
}

#[test]
fn unknown_cell_and_short_payload_are_soft() {
    let mut bin = Bin::new();
    bin.add(b"zzzz");
    let short = bin.add(b"nk\x01\x00");
    let root = bin.add(&nk(b"ROOT", 0, NONE, 0, NONE));
    let file = decoded(&bin.hive(root));
    assert_eq!(kinds(&file.soft_errors), vec![ErrorKind::UnknownCellType, ErrorKind::UnexpectedEnd]);
    assert_eq!(file.soft_errors[1].offset, 4096 + short as u64);
    assert_eq!(file.keys[file.root.unwrap()].name, "ROOT");
}

#[test]
fn cell_past_bin_end_stops_the_walk() {
    let mut bin = Bin::new();
    bin.add(&nk(b"ROOT", 0, NONE, 0, NONE));
    let mut bytes = bin.bin_bytes();
    bytes[32..36].copy_from_slice(&(-4000i32).to_le_bytes());
    let (cells, errors) = walk_cells(&bytes, 32, bytes.len());
    assert!(cells.is_empty());
    assert_eq!(errors, vec![HiveParseError { offset: 32, kind: ErrorKind::InvalidCellSize }]);
}

#[test]
fn zero_sized_cell_stops_the_walk() {
    let bytes = vec![0u8; 16];
    let (cells, errors) = walk_cells(&bytes, 0, 16);
    assert!(cells.is_empty());
    assert_eq!(errors[0].kind, ErrorKind::InvalidCellSize);
}

#[test]
fn malformed_value_name_gets_placeholder() {
    let mut bin = Bin::new();
    let value = bin.add(&vk(&[0xFF, 0xFE], 0x8000_0004, u32::from_le_bytes(*b"abcd"), 3));
    let list = bin.add(&offsets(&[value]));
    let root = bin.add(&nk(b"ROOT", 0, NONE, 1, list));
    let file = decoded(&bin.hive(root));
    let v = &file.keys[file.root.unwrap()].values[0];
    assert_eq!(v.name, "ERROR");
    assert_eq!(v.data, b"abcd".to_vec());
    assert!(file
        .soft_errors
        .contains(&HiveParseError { offset: 4096 + value as u64, kind: ErrorKind::MalformedName }));
}

#[test]
fn value_name_running_past_cell_gets_placeholder() {
    let mut bin = Bin::new();
    let mut payload = vk(b"", 0x8000_0002, 0x4241, 3);
    payload[2..4].copy_from_slice(&200u16.to_le_bytes());
    let value = bin.add(&payload);
    let list = bin.add(&offsets(&[value]));
    let root = bin.add(&nk(b"ROOT", 0, NONE, 1, list));
    let file = decoded(&bin.hive(root));
    let v = &file.keys[file.root.unwrap()].values[0];
    assert_eq!(v.name, "ERROR");
    assert_eq!(v.data, b"AB".to_vec());
}

#[test]
fn utf8_key_names_are_decoded() {
    let mut bin = Bin::new();
    let root = bin.add(&nk("Schlüssel".as_bytes(), 0, NONE, 0, NONE));
    let file = decoded(&bin.hive(root));
    assert_eq!(file.keys[0].name, "Schlüssel");
    match file.hive_bins[0].cells[0].cell_data() {
        Some(CellData::NamedKey(k)) => assert_eq!(k.key_name(), "Schlüssel"),
        _ => panic!("named key expected"),
    }
}

#[test]
fn value_data_is_cut_to_declared_size() {
    let mut bin = Bin::new();
    let data = bin.add(b"hello world");
    let value = bin.add(&vk(b"v", 5, data, 1));
    let list = bin.add(&offsets(&[value]));
    let root = bin.add(&nk(b"ROOT", 0, NONE, 1, list));
    let file = decoded(&bin.hive(root));
    assert_eq!(file.keys[0].values[0].data, b"hello".to_vec());
}

#[test]
fn missing_data_cell_is_dangling() {
    let mut bin = Bin::new();
    let value = bin.add(&vk(b"v", 5, 5000, 1));
    let list = bin.add(&offsets(&[value]));
    let root = bin.add(&nk(b"ROOT", 0, NONE, 1, list));
    let file = decoded(&bin.hive(root));
    assert!(file.keys[0].values[0].data.is_empty());
    assert!(file.soft_errors.contains(&HiveParseError { offset: 9096, kind: ErrorKind::DanglingReference }));
}

#[test]
fn base_block_fields_and_file_name() {
    let (bytes, root) = minimal_hive();
    let base = HiveBaseBlock::build(&bytes).unwrap();
    assert_eq!(base.root_cell_offset, root);
    assert_eq!(base.major_version, 1);
    assert_eq!(base.minor_version, 5);
    let name = base.file_name().expect("valid UTF-16");
    assert!(name.starts_with("SOFTWARE"));
    assert_eq!(name.chars().count(), 32);
}

#[test]
fn unpaired_surrogate_file_name_is_rejected() {
    let (mut bytes, _) = minimal_hive();
    bytes[48..50].copy_from_slice(&0xDC00u16.to_le_bytes());
    let base = HiveBaseBlock::build(&bytes).unwrap();
    assert_eq!(base.file_name(), None);
}

#[test]
fn bin_header_fields() {
    let (bytes, _) = minimal_hive();
    let h = HiveBinHeader::build(&bytes, 4096).unwrap();
    assert_eq!(h.offset(), 0);
    assert_eq!(h.size() as usize, bytes.len() - 4096);
    assert_eq!(h.timestamp, 7);
    assert_eq!(HiveBinHeader::build(&bytes, 0), Err(ErrorKind::InvalidSignature));
}

#[test]
fn segments_and_bins_decode_independently() {
    let (bytes, _) = minimal_hive();
    let segments = segment_bins(&bytes).unwrap();
    assert_eq!(segments, vec![(4096, bytes.len() - 4096)]);
    let (bin, errors) = decode_bin(&bytes, segments[0].0, segments[0].1);
    assert_eq!(bin.unwrap().cells.len(), 4);
    assert_eq!(errors.len(), 2);
}

#[test]
fn value_at_threshold_uses_one_data_cell() {
    let mut bin = Bin::new();
    let data = bin.add(&vec![b'z'; 16344]);
    let value = bin.add(&vk(b"edge", 16344, data, 3));
    let list = bin.add(&offsets(&[value]));
    let root = bin.add(&nk(b"ROOT", 0, NONE, 1, list));
    let file = decoded(&bin.hive(root));
    assert_eq!(file.keys[0].values[0].data, vec![b'z'; 16344]);
}

#[test]
fn data_block_behind_missing_list_is_dangling() {
    let mut bin = Bin::new();
    let block = bin.add(&db(2, 7000));
    let value = bin.add(&vk(b"big", 20000, block, 3));
    let list = bin.add(&offsets(&[value]));
    let root = bin.add(&nk(b"ROOT", 0, NONE, 1, list));
    let file = decoded(&bin.hive(root));
    assert!(file.keys[0].values[0].data.is_empty());
    assert!(file.soft_errors.contains(&HiveParseError { offset: 11096, kind: ErrorKind::DanglingReference }));
}

#[test]
fn child_lookup_by_name() {
    let mut bin = Bin::new();
    let a = bin.add(&nk(b"Alpha", 0, NONE, 0, NONE));
    let b = bin.add(&nk(b"Beta", 0, NONE, 0, NONE));
    let list = bin.add(&lf(&[a, b]));
    let root = bin.add(&nk(b"ROOT", 2, list, 0, NONE));
    let file = decoded(&bin.hive(root));
    let r = file.root.unwrap();
    assert_eq!(file.root_key().unwrap().name, "ROOT");
    let beta = file.find_child(r, "Beta").unwrap();
    assert_eq!(file.keys[beta].offset, b);
    assert_eq!(file.find_child(r, "Gamma"), None);
}

#[test]
fn cursor_reads_stop_at_the_end() {
    let buf = [1u8, 2, 3, 4, 5, 6];
    let mut cur = Cursor { pos: 0, end: 6 };
    assert_eq!(cur.read_u16(&buf), Ok(0x0201));
    assert_eq!(cur.read_u32(&buf), Ok(0x0605_0403));
    assert_eq!(cur.read_u8(&buf), Err(ErrorKind::UnexpectedEnd));
    assert_eq!(cur.pos, 6);
    let mut cur = Cursor { pos: 2, end: 6 };
    assert_eq!(cur.read_bytes(&buf, 3), Ok(vec![3, 4, 5]));
    assert_eq!(cur.read_i32(&buf), Err(ErrorKind::UnexpectedEnd));
    let mut cur = Cursor { pos: 0, end: 4 };
    assert_eq!(cur.read_i32(&[0xFE, 0xFF, 0xFF, 0xFF]), Ok(-2));
}

#[test]
fn security_record_is_looked_up_by_offset() {
    let mut bin = Bin::new();
    let mut sk = Vec::new();
    sk.extend_from_slice(b"sk");
    sk.extend_from_slice(&0u16.to_le_bytes());
    sk.extend_from_slice(&32u32.to_le_bytes());
    sk.extend_from_slice(&32u32.to_le_bytes());
    sk.extend_from_slice(&5u32.to_le_bytes());
    sk.extend_from_slice(&4u32.to_le_bytes());
    sk.extend_from_slice(&[1, 2, 3, 4]);
    let security = bin.add(&sk);
    let mut key = nk(b"ROOT", 0, NONE, 0, NONE);
    key[44..48].copy_from_slice(&security.to_le_bytes());
    let root = bin.add(&key);
    let file = decoded(&bin.hive(root));
    let index = CellIndex::build(&file.hive_bins);
    let record = security_of(&file.hive_bins, &index, file.root_key().unwrap()).unwrap();
    assert_eq!(record.reference_count, 5);
    assert_eq!(record.nt_security_descriptor_size, 4);
    assert_eq!(record.previous_security_key_offset, security);
}

#[test]
fn key_name_running_past_cell_gets_placeholder() {
    let mut bin = Bin::new();
    let mut payload = nk(b"", 0, NONE, 0, NONE);
    payload[72..74].copy_from_slice(&300u16.to_le_bytes());
    let root = bin.add(&payload);
    let file = decoded(&bin.hive(root));
    assert_eq!(file.keys[0].name, "ERROR");
    assert_eq!(
        file.soft_errors,
        vec![HiveParseError { offset: 4096 + root as u64, kind: ErrorKind::MalformedName }]
    );
}

#[test]
fn decoders_consume_exactly_their_span() {
    use_cursor_spans();
}

fn use_cursor_spans() {
    let buf = [2u8, 0, 0x20, 0, 0, 0, 0x40, 0, 0, 0, 0xAA];
    let mut cur = Cursor { pos: 0, end: buf.len() };
    let leaf = winreg_hive::hive::IndexLeaf::build(&buf, &mut cur).unwrap();
    assert_eq!(leaf.number_of_elements(), 2);
    assert_eq!(leaf.elements[1].key_node_offset, 0x40);
    assert_eq!(cur.pos, 10);
    let sig = *b"zz..";
    let mut cur = Cursor { pos: 0, end: 4 };
    assert_eq!(CellData::build(&sig, &mut cur).err(), Some(ErrorKind::UnknownCellType));
    assert_eq!(cur.pos, 2);
}

#[test]
fn absent_data_offset_is_no_error() {
    let mut bin = Bin::new();
    let value = bin.add(&vk(b"empty", 12, NONE, 3));
    let list = bin.add(&offsets(&[value]));
    let root = bin.add(&nk(b"ROOT", 0, NONE, 1, list));
    let file = decoded(&bin.hive(root));
    assert!(file.keys[0].values[0].data.is_empty());
    assert_eq!(kinds(&file.soft_errors), vec![ErrorKind::UnknownCellType]);
}
