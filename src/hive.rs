use vstd::prelude::*;
use vstd::utf8::{decode_utf8, valid_utf8};
use vstd::slice::{slice_subrange, slice_to_vec};
use crate::cursor::{le16, le32, le64, u16_at, u32_at, u64_at, Cursor};
use crate::error::ErrorKind;

verus! {

/// Size of the fixed part of a named-key record that follows its signature.
pub const NAMED_KEY_FIXED: usize = 74;

/// Size of the fixed part of a value-key record that follows its signature.
pub const VALUE_KEY_FIXED: usize = 18;

/// Size of the fixed part of a security-key record that follows its signature.
pub const SECURITY_KEY_FIXED: usize = 18;

/// Size of a data-block record that follows its signature.
pub const DATA_BLOCK_FIXED: usize = 10;

/// ASCII lower case of one byte; other bytes are kept.
pub open spec fn lower(b: u8) -> u8 {
    if 0x41 <= b <= 0x5A {
        (b + 0x20) as u8
    } else {
        b
    }
}

/// ASCII lower case of one byte; other bytes are kept.
pub fn ascii_lower(b: u8) -> (r: u8)
    ensures
        r == lower(b),
{
    if 0x41 <= b && b <= 0x5A {
        b + 0x20
    } else {
        b
    }
}

/// The name stored in a key or value record, with a flag that is set when a
/// placeholder stands for it because the bytes are not UTF-8.
pub open spec fn name_text(b: Seq<u8>) -> (Seq<char>, bool) {
    if valid_utf8(b) {
        (decode_utf8(b), false)
    } else {
        (placeholder_name(), true)
    }
}

/// The text that stands for a name that cannot be read.
pub open spec fn placeholder_name() -> Seq<char> {
    seq!['E', 'R', 'R', 'O', 'R']
}

/// Relies on `String::from_utf8`: it succeeds exactly when the bytes are UTF-8,
/// and then holds the characters that they encode.
#[verifier::external_body]
fn utf8_string(bytes: Vec<u8>) -> (r: Option<String>)
    ensures
        r is Some <==> valid_utf8(bytes@),
        r is Some ==> r->Some_0@ == decode_utf8(bytes@),
{
    String::from_utf8(bytes).ok()
}

/// The placeholder name, flagged as such.
pub fn placeholder() -> (r: (String, bool))
    ensures
        r.0@ == placeholder_name(),
        r.1,
{
    let s = String::from_str("ERROR");
    proof {
        reveal_strlit("ERROR");
        assert(s@ =~= placeholder_name());
    }
    (s, true)
}

/// Turns the bytes of a name into its text, or the placeholder.
pub fn read_name(bytes: Vec<u8>) -> (r: (String, bool))
    ensures
        (r.0@, r.1) == name_text(bytes@),
{
    match utf8_string(bytes) {
        Some(s) => (s, false),
        None => placeholder(),
    }
}

// ---------------------------------------------------------------------------
// Subkey lists
/// One element of an index leaf.
#[derive(Debug, Clone, Copy, PartialEq, Eq, Structural)]
pub struct IndexLeafElement {
    pub key_node_offset: u32,
}

/// One element of a fast leaf.
#[derive(Debug, Clone, Copy, PartialEq, Eq, Structural)]
pub struct FastLeafElement {
    pub key_node_offset: u32,
    /// The first four bytes of the key's name, little-endian.
    pub name_hint: u32,
}

/// One element of a hash leaf.
#[derive(Debug, Clone, Copy, PartialEq, Eq, Structural)]
pub struct HashLeafElement {
    pub key_node_offset: u32,
    pub name_hash: u32,
}

/// One element of an index root.
#[derive(Debug, Clone, Copy, PartialEq, Eq, Structural)]
pub struct IndexRootElement {
    pub subkeys_list_offset: u32,
}

/// A list of key-node offsets (`li`).
#[derive(Debug)]
pub struct IndexLeaf {
    pub elements: Vec<IndexLeafElement>,
}

/// A list of key-node offsets with the first characters of each name (`lf`).
#[derive(Debug)]
pub struct FastLeaf {
    pub elements: Vec<FastLeafElement>,
}

/// A list of key-node offsets with a hash of each name (`lh`).
#[derive(Debug)]
pub struct HashLeaf {
    pub elements: Vec<HashLeafElement>,
}

/// A list of offsets of further subkey lists (`ri`).
#[derive(Debug)]
pub struct IndexRoot {
    pub elements: Vec<IndexRootElement>,
}

impl View for IndexLeaf {
    type V = Seq<IndexLeafElement>;

    open spec fn view(&self) -> Seq<IndexLeafElement> {
        self.elements@
    }
}

impl View for FastLeaf {
    type V = Seq<FastLeafElement>;

    open spec fn view(&self) -> Seq<FastLeafElement> {
        self.elements@
    }
}

impl View for HashLeaf {
    type V = Seq<HashLeafElement>;

    open spec fn view(&self) -> Seq<HashLeafElement> {
        self.elements@
    }
}

impl View for IndexRoot {
    type V = Seq<IndexRootElement>;

    open spec fn view(&self) -> Seq<IndexRootElement> {
        self.elements@
    }
}

/// Bytes that a list at `p` with elements of `width` bytes occupies.
pub open spec fn list_span(s: Seq<u8>, p: int, width: int) -> int {
    2 + width * le16(s, p)
}

/// The element count of a list at `p`, when its elements of `width` bytes all fit before `end`.
pub open spec fn list_count(s: Seq<u8>, p: int, end: int, width: int) -> Option<int> {
    if p + 2 > end {
        None
    } else if p + 2 + width * le16(s, p) > end {
        None
    } else {
        Some(le16(s, p) as int)
    }
}

/// Element `j` of the list whose count is at `p`.
pub open spec fn index_leaf_element(s: Seq<u8>, p: int, j: int) -> IndexLeafElement {
    IndexLeafElement { key_node_offset: le32(s, p + 2 + 4 * j) }
}

pub open spec fn spec_index_leaf(s: Seq<u8>, p: int, end: int) -> Option<Seq<IndexLeafElement>> {
    match list_count(s, p, end, 4) {
        None => None,
        Some(n) => Some(Seq::new(n as nat, |j: int| index_leaf_element(s, p, j))),
    }
}

/// Element `j` of the list whose count is at `p`.
pub open spec fn fast_leaf_element(s: Seq<u8>, p: int, j: int) -> FastLeafElement {
    FastLeafElement { key_node_offset: le32(s, p + 2 + 8 * j), name_hint: le32(s, p + 6 + 8 * j) }
}

pub open spec fn spec_fast_leaf(s: Seq<u8>, p: int, end: int) -> Option<Seq<FastLeafElement>> {
    match list_count(s, p, end, 8) {
        None => None,
        Some(n) => Some(Seq::new(n as nat, |j: int| fast_leaf_element(s, p, j))),
    }
}

/// Element `j` of the list whose count is at `p`.
pub open spec fn hash_leaf_element(s: Seq<u8>, p: int, j: int) -> HashLeafElement {
    HashLeafElement { key_node_offset: le32(s, p + 2 + 8 * j), name_hash: le32(s, p + 6 + 8 * j) }
}

pub open spec fn spec_hash_leaf(s: Seq<u8>, p: int, end: int) -> Option<Seq<HashLeafElement>> {
    match list_count(s, p, end, 8) {
        None => None,
        Some(n) => Some(Seq::new(n as nat, |j: int| hash_leaf_element(s, p, j))),
    }
}

/// Element `j` of the list whose count is at `p`.
pub open spec fn index_root_element(s: Seq<u8>, p: int, j: int) -> IndexRootElement {
    IndexRootElement { subkeys_list_offset: le32(s, p + 2 + 4 * j) }
}

pub open spec fn spec_index_root(s: Seq<u8>, p: int, end: int) -> Option<Seq<IndexRootElement>> {
    match list_count(s, p, end, 4) {
        None => None,
        Some(n) => Some(Seq::new(n as nat, |j: int| index_root_element(s, p, j))),
    }
}


impl IndexLeaf {
    /// Number of elements in the list.
    pub fn number_of_elements(&self) -> (r: usize)
        ensures
            r == self@.len(),
    {
        self.elements.len()
    }

    /// Decodes the list that follows the signature at the cursor.
    pub fn build(buf: &[u8], cur: &mut Cursor) -> (r: Result<IndexLeaf, ErrorKind>)
        requires
            old(cur).wf(buf@),
        ensures
            final(cur).wf(buf@),
            final(cur).end == old(cur).end,
            match spec_index_leaf(buf@, old(cur).pos as int, old(cur).end as int) {
                None => r == Err::<IndexLeaf, ErrorKind>(ErrorKind::UnexpectedEnd),
                Some(e) => r is Ok && r->Ok_0@ == e
                    && final(cur).pos == old(cur).pos + list_span(buf@, old(cur).pos as int, 4),
            },
    {
        let ghost p = cur.pos as int;
        let n = match cur.read_u16(buf) {
            Ok(v) => v,
            Err(e) => return Err(e),
        };
        if (n as usize) > cur.remaining() / 4 {
            return Err(ErrorKind::UnexpectedEnd);
        }
        let mut elements: Vec<IndexLeafElement> = Vec::new();
        let mut i: u16 = 0;
        while i < n
            invariant
                cur.wf(buf@),
                cur.end == old(cur).end,
                n == le16(buf@, p),
                p + 2 + 4 * n <= cur.end,
                cur.pos == p + 2 + 4 * i,
                i <= n,
                elements@.len() == i,
                forall|j: int| 0 <= j < i ==> #[trigger] elements@[j] == index_leaf_element(buf@, p, j),
            decreases n - i,
        {
            let key_node_offset = match cur.read_u32(buf) {
                Ok(v) => v,
                Err(e) => return Err(e),
            };
            elements.push(IndexLeafElement { key_node_offset });
            i = i + 1;
        }
        proof {
            assert(elements@ =~= Seq::new(n as nat, |j: int| index_leaf_element(buf@, p, j)));
        }
        Ok(IndexLeaf { elements })
    }
}

impl FastLeaf {
    /// Number of elements in the list.
    pub fn number_of_elements(&self) -> (r: usize)
        ensures
            r == self@.len(),
    {
        self.elements.len()
    }

    /// Decodes the list that follows the signature at the cursor.
    pub fn build(buf: &[u8], cur: &mut Cursor) -> (r: Result<FastLeaf, ErrorKind>)
        requires
            old(cur).wf(buf@),
        ensures
            final(cur).wf(buf@),
            final(cur).end == old(cur).end,
            match spec_fast_leaf(buf@, old(cur).pos as int, old(cur).end as int) {
                None => r == Err::<FastLeaf, ErrorKind>(ErrorKind::UnexpectedEnd),
                Some(e) => r is Ok && r->Ok_0@ == e
                    && final(cur).pos == old(cur).pos + list_span(buf@, old(cur).pos as int, 8),
            },
    {
        let ghost p = cur.pos as int;
        let n = match cur.read_u16(buf) {
            Ok(v) => v,
            Err(e) => return Err(e),
        };
        if (n as usize) > cur.remaining() / 8 {
            return Err(ErrorKind::UnexpectedEnd);
        }
        let mut elements: Vec<FastLeafElement> = Vec::new();
        let mut i: u16 = 0;
        while i < n
            invariant
                cur.wf(buf@),
                cur.end == old(cur).end,
                n == le16(buf@, p),
                p + 2 + 8 * n <= cur.end,
                cur.pos == p + 2 + 8 * i,
                i <= n,
                elements@.len() == i,
                forall|j: int| 0 <= j < i ==> #[trigger] elements@[j] == fast_leaf_element(buf@, p, j),
            decreases n - i,
        {
            let key_node_offset = match cur.read_u32(buf) {
                Ok(v) => v,
                Err(e) => return Err(e),
            };
            let name_hint = match cur.read_u32(buf) {
                Ok(v) => v,
                Err(e) => return Err(e),
            };
            elements.push(FastLeafElement { key_node_offset, name_hint });
            i = i + 1;
        }
        proof {
            assert(elements@ =~= Seq::new(n as nat, |j: int| fast_leaf_element(buf@, p, j)));
        }
        Ok(FastLeaf { elements })
    }
}

impl HashLeaf {
    /// Number of elements in the list.
    pub fn number_of_elements(&self) -> (r: usize)
        ensures
            r == self@.len(),
    {
        self.elements.len()
    }

    /// Decodes the list that follows the signature at the cursor.
    pub fn build(buf: &[u8], cur: &mut Cursor) -> (r: Result<HashLeaf, ErrorKind>)
        requires
            old(cur).wf(buf@),
        ensures
            final(cur).wf(buf@),
            final(cur).end == old(cur).end,
            match spec_hash_leaf(buf@, old(cur).pos as int, old(cur).end as int) {
                None => r == Err::<HashLeaf, ErrorKind>(ErrorKind::UnexpectedEnd),
                Some(e) => r is Ok && r->Ok_0@ == e
                    && final(cur).pos == old(cur).pos + list_span(buf@, old(cur).pos as int, 8),
            },
    {
        let ghost p = cur.pos as int;
        let n = match cur.read_u16(buf) {
            Ok(v) => v,
            Err(e) => return Err(e),
        };
        if (n as usize) > cur.remaining() / 8 {
            return Err(ErrorKind::UnexpectedEnd);
        }
        let mut elements: Vec<HashLeafElement> = Vec::new();
        let mut i: u16 = 0;
        while i < n
            invariant
                cur.wf(buf@),
                cur.end == old(cur).end,
                n == le16(buf@, p),
                p + 2 + 8 * n <= cur.end,
                cur.pos == p + 2 + 8 * i,
                i <= n,
                elements@.len() == i,
                forall|j: int| 0 <= j < i ==> #[trigger] elements@[j] == hash_leaf_element(buf@, p, j),
            decreases n - i,
        {
            let key_node_offset = match cur.read_u32(buf) {
                Ok(v) => v,
                Err(e) => return Err(e),
            };
            let name_hash = match cur.read_u32(buf) {
                Ok(v) => v,
                Err(e) => return Err(e),
            };
            elements.push(HashLeafElement { key_node_offset, name_hash });
            i = i + 1;
        }
        proof {
            assert(elements@ =~= Seq::new(n as nat, |j: int| hash_leaf_element(buf@, p, j)));
        }
        Ok(HashLeaf { elements })
    }
}

impl IndexRoot {
    /// Number of elements in the list.
    pub fn number_of_elements(&self) -> (r: usize)
        ensures
            r == self@.len(),
    {
        self.elements.len()
    }

    /// Decodes the list that follows the signature at the cursor.
    pub fn build(buf: &[u8], cur: &mut Cursor) -> (r: Result<IndexRoot, ErrorKind>)
        requires
            old(cur).wf(buf@),
        ensures
            final(cur).wf(buf@),
            final(cur).end == old(cur).end,
            match spec_index_root(buf@, old(cur).pos as int, old(cur).end as int) {
                None => r == Err::<IndexRoot, ErrorKind>(ErrorKind::UnexpectedEnd),
                Some(e) => r is Ok && r->Ok_0@ == e
                    && final(cur).pos == old(cur).pos + list_span(buf@, old(cur).pos as int, 4),
            },
    {
        let ghost p = cur.pos as int;
        let n = match cur.read_u16(buf) {
            Ok(v) => v,
            Err(e) => return Err(e),
        };
        if (n as usize) > cur.remaining() / 4 {
            return Err(ErrorKind::UnexpectedEnd);
        }
        let mut elements: Vec<IndexRootElement> = Vec::new();
        let mut i: u16 = 0;
        while i < n
            invariant
                cur.wf(buf@),
                cur.end == old(cur).end,
                n == le16(buf@, p),
                p + 2 + 4 * n <= cur.end,
                cur.pos == p + 2 + 4 * i,
                i <= n,
                elements@.len() == i,
                forall|j: int| 0 <= j < i ==> #[trigger] elements@[j] == index_root_element(buf@, p, j),
            decreases n - i,
        {
            let subkeys_list_offset = match cur.read_u32(buf) {
                Ok(v) => v,
                Err(e) => return Err(e),
            };
            elements.push(IndexRootElement { subkeys_list_offset });
            i = i + 1;
        }
        proof {
            assert(elements@ =~= Seq::new(n as nat, |j: int| index_root_element(buf@, p, j)));
        }
        Ok(IndexRoot { elements })
    }
}

// ---------------------------------------------------------------------------
// Key, value, security and data-block records

/// A registry key's record (`nk`).
#[derive(Debug)]
pub struct NamedKey {
    pub flags: u16,
    pub last_written_timestamp: u64,
    pub access_bits: u32,
    pub parent_key_offset: u32,
    pub number_of_subkeys: u32,
    pub number_of_volatile_subkeys: u32,
    pub subkeys_list_offset: u32,
    pub volatile_subkeys_list_offset: u32,
    pub number_of_key_values: u32,
    pub key_values_list_offset: u32,
    pub key_security_offset: u32,
    pub class_name_offset: u32,
    pub largest_subkey_name_length: u32,
    pub largest_subkey_class_name_length: u32,
    pub largest_value_name_length: u32,
    pub largest_value_data_size: u32,
    pub work_var: u32,
    pub key_name_length: u16,
    pub class_name_length: u16,
    pub key_name_string: String,
    /// Set when the stored name is not UTF-8 and a placeholder stands for it.
    pub name_is_placeholder: bool,
}

/// What a [`NamedKey`] holds, with its name as characters.
pub struct NamedKeyView {
    pub flags: u16,
    pub last_written_timestamp: u64,
    pub access_bits: u32,
    pub parent_key_offset: u32,
    pub number_of_subkeys: u32,
    pub number_of_volatile_subkeys: u32,
    pub subkeys_list_offset: u32,
    pub volatile_subkeys_list_offset: u32,
    pub number_of_key_values: u32,
    pub key_values_list_offset: u32,
    pub key_security_offset: u32,
    pub class_name_offset: u32,
    pub largest_subkey_name_length: u32,
    pub largest_subkey_class_name_length: u32,
    pub largest_value_name_length: u32,
    pub largest_value_data_size: u32,
    pub work_var: u32,
    pub key_name_length: u16,
    pub class_name_length: u16,
    pub key_name_string: Seq<char>,
    pub name_is_placeholder: bool,
}

impl View for NamedKey {
    type V = NamedKeyView;

    open spec fn view(&self) -> NamedKeyView {
        NamedKeyView {
            flags: self.flags,
            last_written_timestamp: self.last_written_timestamp,
            access_bits: self.access_bits,
            parent_key_offset: self.parent_key_offset,
            number_of_subkeys: self.number_of_subkeys,
            number_of_volatile_subkeys: self.number_of_volatile_subkeys,
            subkeys_list_offset: self.subkeys_list_offset,
            volatile_subkeys_list_offset: self.volatile_subkeys_list_offset,
            number_of_key_values: self.number_of_key_values,
            key_values_list_offset: self.key_values_list_offset,
            key_security_offset: self.key_security_offset,
            class_name_offset: self.class_name_offset,
            largest_subkey_name_length: self.largest_subkey_name_length,
            largest_subkey_class_name_length: self.largest_subkey_class_name_length,
            largest_value_name_length: self.largest_value_name_length,
            largest_value_data_size: self.largest_value_data_size,
            work_var: self.work_var,
            key_name_length: self.key_name_length,
            class_name_length: self.class_name_length,
            key_name_string: self.key_name_string@,
            name_is_placeholder: self.name_is_placeholder,
        }
    }
}

/// The named key whose fields follow a signature at `p`, when its fixed part
/// fits before `end`; a name that does not fit gives the placeholder.
pub open spec fn spec_named_key(s: Seq<u8>, p: int, end: int) -> Option<NamedKeyView> {
    if p + NAMED_KEY_FIXED > end {
        None
    } else {
        let name = if p + NAMED_KEY_FIXED + le16(s, p + 70) <= end {
            name_text(s.subrange(p + NAMED_KEY_FIXED, p + NAMED_KEY_FIXED + le16(s, p + 70)))
        } else {
            (placeholder_name(), true)
        };
        Some(
            NamedKeyView {
                flags: le16(s, p + 0),
                last_written_timestamp: le64(s, p + 2),
                access_bits: le32(s, p + 10),
                parent_key_offset: le32(s, p + 14),
                number_of_subkeys: le32(s, p + 18),
                number_of_volatile_subkeys: le32(s, p + 22),
                subkeys_list_offset: le32(s, p + 26),
                volatile_subkeys_list_offset: le32(s, p + 30),
                number_of_key_values: le32(s, p + 34),
                key_values_list_offset: le32(s, p + 38),
                key_security_offset: le32(s, p + 42),
                class_name_offset: le32(s, p + 46),
                largest_subkey_name_length: le32(s, p + 50),
                largest_subkey_class_name_length: le32(s, p + 54),
                largest_value_name_length: le32(s, p + 58),
                largest_value_data_size: le32(s, p + 62),
                work_var: le32(s, p + 66),
                key_name_length: le16(s, p + 70),
                class_name_length: le16(s, p + 72),
                key_name_string: name.0,
                name_is_placeholder: name.1,
            },
        )
    }
}

impl NamedKey {
    /// Decodes the named key that follows the signature at the cursor.
    pub fn build(buf: &[u8], cur: &mut Cursor) -> (r: Result<NamedKey, ErrorKind>)
        requires
            old(cur).wf(buf@),
        ensures
            final(cur).wf(buf@),
            final(cur).end == old(cur).end,
            match spec_named_key(buf@, old(cur).pos as int, old(cur).end as int) {
                None => r == Err::<NamedKey, ErrorKind>(ErrorKind::UnexpectedEnd),
                Some(k) => r is Ok && r->Ok_0@ == k
                    && final(cur).pos == old(cur).pos + named_key_span(buf@, old(cur).pos as int, old(cur).end as int),
            },
    {
        let p = cur.pos;
        if cur.remaining() < NAMED_KEY_FIXED {
            return Err(ErrorKind::UnexpectedEnd);
        }
        let key_name_length = u16_at(buf, p + 70);
        let start = p + NAMED_KEY_FIXED;
        let (key_name_string, name_is_placeholder) = if cur.remaining() - NAMED_KEY_FIXED
            >= key_name_length as usize {
            cur.pos = start + key_name_length as usize;
            read_name(slice_to_vec(slice_subrange(buf, start, start + key_name_length as usize)))
        } else {
            cur.pos = start;
            placeholder()
        };
        Ok(NamedKey {
            flags: u16_at(buf, p + 0),
            last_written_timestamp: u64_at(buf, p + 2),
            access_bits: u32_at(buf, p + 10),
            parent_key_offset: u32_at(buf, p + 14),
            number_of_subkeys: u32_at(buf, p + 18),
            number_of_volatile_subkeys: u32_at(buf, p + 22),
            subkeys_list_offset: u32_at(buf, p + 26),
            volatile_subkeys_list_offset: u32_at(buf, p + 30),
            number_of_key_values: u32_at(buf, p + 34),
            key_values_list_offset: u32_at(buf, p + 38),
            key_security_offset: u32_at(buf, p + 42),
            class_name_offset: u32_at(buf, p + 46),
            largest_subkey_name_length: u32_at(buf, p + 50),
            largest_subkey_class_name_length: u32_at(buf, p + 54),
            largest_value_name_length: u32_at(buf, p + 58),
            largest_value_data_size: u32_at(buf, p + 62),
            work_var: u32_at(buf, p + 66),
            class_name_length: u16_at(buf, p + 72),
            key_name_length,
            key_name_string,
            name_is_placeholder,
        })
    }

    /// The key's name.
    pub fn key_name(&self) -> (r: &str)
        ensures
            r@ == self.key_name_string@,
    {
        self.key_name_string.as_str()
    }
}

/// Bytes that a named key at `p` occupies: its fixed part, and its name where
/// that fits before `end`.
pub open spec fn named_key_span(s: Seq<u8>, p: int, end: int) -> int {
    if p + NAMED_KEY_FIXED + le16(s, p + 70) <= end {
        NAMED_KEY_FIXED + le16(s, p + 70)
    } else {
        NAMED_KEY_FIXED as int
    }
}

/// A registry value's record (`vk`).
#[derive(Debug)]
pub struct ValueKey {
    pub name_length: u16,
    pub data_size: u32,
    pub data_offset: u32,
    pub data_type: u32,
    pub flags: u16,
    pub spare: u16,
    pub value_name_string: String,
    /// Set when the stored name runs past the cell or is not UTF-8, and a
    /// placeholder stands for it.
    pub name_is_placeholder: bool,
}

/// What a [`ValueKey`] holds, with its name as characters.
pub struct ValueKeyView {
    pub name_length: u16,
    pub data_size: u32,
    pub data_offset: u32,
    pub data_type: u32,
    pub flags: u16,
    pub spare: u16,
    pub value_name_string: Seq<char>,
    pub name_is_placeholder: bool,
}

impl View for ValueKey {
    type V = ValueKeyView;

    open spec fn view(&self) -> ValueKeyView {
        ValueKeyView {
            name_length: self.name_length,
            data_size: self.data_size,
            data_offset: self.data_offset,
            data_type: self.data_type,
            flags: self.flags,
            spare: self.spare,
            value_name_string: self.value_name_string@,
            name_is_placeholder: self.name_is_placeholder,
        }
    }
}

/// The value key whose fields follow a signature at `p`, when its fixed part
/// fits before `end`; a name that does not fit gives the placeholder.
pub open spec fn spec_value_key(s: Seq<u8>, p: int, end: int) -> Option<ValueKeyView> {
    if p + VALUE_KEY_FIXED > end {
        None
    } else {
        let name = if p + VALUE_KEY_FIXED + le16(s, p) <= end {
            name_text(s.subrange(p + VALUE_KEY_FIXED, p + VALUE_KEY_FIXED + le16(s, p)))
        } else {
            (placeholder_name(), true)
        };
        Some(
            ValueKeyView {
                name_length: le16(s, p + 0),
                data_size: le32(s, p + 2),
                data_offset: le32(s, p + 6),
                data_type: le32(s, p + 10),
                flags: le16(s, p + 14),
                spare: le16(s, p + 16),
                value_name_string: name.0,
                name_is_placeholder: name.1,
            },
        )
    }
}

impl ValueKey {
    /// Decodes the value key that follows the signature at the cursor.
    pub fn build(buf: &[u8], cur: &mut Cursor) -> (r: Result<ValueKey, ErrorKind>)
        requires
            old(cur).wf(buf@),
        ensures
            final(cur).wf(buf@),
            final(cur).end == old(cur).end,
            match spec_value_key(buf@, old(cur).pos as int, old(cur).end as int) {
                None => r == Err::<ValueKey, ErrorKind>(ErrorKind::UnexpectedEnd),
                Some(k) => r is Ok && r->Ok_0@ == k
                    && final(cur).pos == old(cur).pos + value_key_span(buf@, old(cur).pos as int, old(cur).end as int),
            },
    {
        let p = cur.pos;
        if cur.remaining() < VALUE_KEY_FIXED {
            return Err(ErrorKind::UnexpectedEnd);
        }
        let name_length = u16_at(buf, p);
        let start = p + VALUE_KEY_FIXED;
        let (value_name_string, name_is_placeholder) = if cur.remaining() - VALUE_KEY_FIXED
            >= name_length as usize {
            cur.pos = start + name_length as usize;
            read_name(slice_to_vec(slice_subrange(buf, start, start + name_length as usize)))
        } else {
            cur.pos = start;
            placeholder()
        };
        Ok(ValueKey {
            data_size: u32_at(buf, p + 2),
            data_offset: u32_at(buf, p + 6),
            data_type: u32_at(buf, p + 10),
            flags: u16_at(buf, p + 14),
            spare: u16_at(buf, p + 16),
            name_length,
            value_name_string,
            name_is_placeholder,
        })
    }
}

/// Bytes that a value key at `p` occupies: its fixed part, and its name where
/// that fits before `end`.
pub open spec fn value_key_span(s: Seq<u8>, p: int, end: int) -> int {
    if p + VALUE_KEY_FIXED + le16(s, p) <= end {
        VALUE_KEY_FIXED + le16(s, p)
    } else {
        VALUE_KEY_FIXED as int
    }
}

/// A shared security descriptor record (`sk`); the descriptor itself is not kept.
#[derive(Debug, Clone, Copy, PartialEq, Eq, Structural)]
pub struct SecurityKey {
    pub previous_security_key_offset: u32,
    pub next_security_key_offset: u32,
    pub reference_count: u32,
    pub nt_security_descriptor_size: u32,
}

/// The security key whose fields follow a signature at `p`, when it and its
/// descriptor fit before `end`.
pub open spec fn spec_security_key(s: Seq<u8>, p: int, end: int) -> Option<SecurityKey> {
    if p + SECURITY_KEY_FIXED > end {
        None
    } else if p + SECURITY_KEY_FIXED + le32(s, p + 14) > end {
        None
    } else {
        Some(
            SecurityKey {
                previous_security_key_offset: le32(s, p + 2),
                next_security_key_offset: le32(s, p + 6),
                reference_count: le32(s, p + 10),
                nt_security_descriptor_size: le32(s, p + 14),
            },
        )
    }
}

impl SecurityKey {
    /// Decodes the security key that follows the signature at the cursor.
    pub fn build(buf: &[u8], cur: &mut Cursor) -> (r: Result<SecurityKey, ErrorKind>)
        requires
            old(cur).wf(buf@),
        ensures
            final(cur).wf(buf@),
            final(cur).end == old(cur).end,
            match spec_security_key(buf@, old(cur).pos as int, old(cur).end as int) {
                None => r == Err::<SecurityKey, ErrorKind>(ErrorKind::UnexpectedEnd),
                Some(k) => r == Ok::<SecurityKey, ErrorKind>(k)
                    && final(cur).pos == old(cur).pos + security_key_span(buf@, old(cur).pos as int),
            },
    {
        let p = cur.pos;
        if cur.remaining() < SECURITY_KEY_FIXED {
            return Err(ErrorKind::UnexpectedEnd);
        }
        let nt_security_descriptor_size = u32_at(buf, p + 14);
        if cur.remaining() - SECURITY_KEY_FIXED < nt_security_descriptor_size as usize {
            return Err(ErrorKind::UnexpectedEnd);
        }
        cur.pos = p + SECURITY_KEY_FIXED + nt_security_descriptor_size as usize;
        Ok(SecurityKey {
            previous_security_key_offset: u32_at(buf, p + 2),
            next_security_key_offset: u32_at(buf, p + 6),
            reference_count: u32_at(buf, p + 10),
            nt_security_descriptor_size,
        })
    }
}

/// Bytes that a security key at `p` occupies: its fixed part and its descriptor.
pub open spec fn security_key_span(s: Seq<u8>, p: int) -> int {
    SECURITY_KEY_FIXED + le32(s, p + 14)
}

/// A record that lists the segments of a large value's data (`db`).
#[derive(Debug, Clone, Copy, PartialEq, Eq, Structural)]
pub struct DataBlock {
    pub number_of_segments: u16,
    pub data_block_list_offset: u32,
}

/// The data block whose fields follow a signature at `p`, when it fits before `end`.
pub open spec fn spec_data_block(s: Seq<u8>, p: int, end: int) -> Option<DataBlock> {
    if p + DATA_BLOCK_FIXED > end {
        None
    } else {
        Some(DataBlock { number_of_segments: le16(s, p), data_block_list_offset: le32(s, p + 2) })
    }
}

impl DataBlock {
    /// Decodes the data block that follows the signature at the cursor.
    pub fn build(buf: &[u8], cur: &mut Cursor) -> (r: Result<DataBlock, ErrorKind>)
        requires
            old(cur).wf(buf@),
        ensures
            final(cur).wf(buf@),
            final(cur).end == old(cur).end,
            match spec_data_block(buf@, old(cur).pos as int, old(cur).end as int) {
                None => r == Err::<DataBlock, ErrorKind>(ErrorKind::UnexpectedEnd),
                Some(k) => r == Ok::<DataBlock, ErrorKind>(k)
                    && final(cur).pos == old(cur).pos + DATA_BLOCK_FIXED,
            },
    {
        let p = cur.pos;
        if cur.remaining() < DATA_BLOCK_FIXED {
            return Err(ErrorKind::UnexpectedEnd);
        }
        cur.pos = p + DATA_BLOCK_FIXED;
        Ok(DataBlock { number_of_segments: u16_at(buf, p), data_block_list_offset: u32_at(buf, p + 2) })
    }
}

// ---------------------------------------------------------------------------
// Cell payloads

/// The decoded payload of an allocated cell, chosen by its two-byte signature.
#[derive(Debug)]
pub enum CellData {
    IndexLeaf(IndexLeaf),
    FastLeaf(FastLeaf),
    HashLeaf(HashLeaf),
    IndexRoot(IndexRoot),
    NamedKey(NamedKey),
    ValueKey(ValueKey),
    SecurityKey(SecurityKey),
    DataBlock(DataBlock),
}

/// What a [`CellData`] holds.
pub enum CellDataView {
    IndexLeaf(Seq<IndexLeafElement>),
    FastLeaf(Seq<FastLeafElement>),
    HashLeaf(Seq<HashLeafElement>),
    IndexRoot(Seq<IndexRootElement>),
    NamedKey(NamedKeyView),
    ValueKey(ValueKeyView),
    SecurityKey(SecurityKey),
    DataBlock(DataBlock),
}

impl View for CellData {
    type V = CellDataView;

    open spec fn view(&self) -> CellDataView {
        match self {
            CellData::IndexLeaf(x) => CellDataView::IndexLeaf(x@),
            CellData::FastLeaf(x) => CellDataView::FastLeaf(x@),
            CellData::HashLeaf(x) => CellDataView::HashLeaf(x@),
            CellData::IndexRoot(x) => CellDataView::IndexRoot(x@),
            CellData::NamedKey(x) => CellDataView::NamedKey(x@),
            CellData::ValueKey(x) => CellDataView::ValueKey(x@),
            CellData::SecurityKey(x) => CellDataView::SecurityKey(*x),
            CellData::DataBlock(x) => CellDataView::DataBlock(*x),
        }
    }
}

/// Turns a missing record into the error that a short cell gives.
pub open spec fn or_short<T>(o: Option<T>) -> Result<T, ErrorKind> {
    match o {
        Some(x) => Ok(x),
        None => Err(ErrorKind::UnexpectedEnd),
    }
}

/// The payload whose signature is at `p`, decoded within `[p, end)`. Signatures
/// compare without regard to ASCII case.
pub open spec fn spec_cell_data(s: Seq<u8>, p: int, end: int) -> Result<CellDataView, ErrorKind> {
    if p + 2 > end {
        Err(ErrorKind::UnexpectedEnd)
    } else {
        let a = lower(s[p]);
        let b = lower(s[p + 1]);
        let q = p + 2;
        if a == 0x6C && b == 0x69 {
            match or_short(spec_index_leaf(s, q, end)) {
                Ok(x) => Ok(CellDataView::IndexLeaf(x)),
                Err(e) => Err(e),
            }
        } else if a == 0x6C && b == 0x66 {
            match or_short(spec_fast_leaf(s, q, end)) {
                Ok(x) => Ok(CellDataView::FastLeaf(x)),
                Err(e) => Err(e),
            }
        } else if a == 0x6C && b == 0x68 {
            match or_short(spec_hash_leaf(s, q, end)) {
                Ok(x) => Ok(CellDataView::HashLeaf(x)),
                Err(e) => Err(e),
            }
        } else if a == 0x72 && b == 0x69 {
            match or_short(spec_index_root(s, q, end)) {
                Ok(x) => Ok(CellDataView::IndexRoot(x)),
                Err(e) => Err(e),
            }
        } else if a == 0x6E && b == 0x6B {
            match or_short(spec_named_key(s, q, end)) {
                Ok(x) => Ok(CellDataView::NamedKey(x)),
                Err(e) => Err(e),
            }
        } else if a == 0x76 && b == 0x6B {
            match or_short(spec_value_key(s, q, end)) {
                Ok(x) => Ok(CellDataView::ValueKey(x)),
                Err(e) => Err(e),
            }
        } else if a == 0x73 && b == 0x6B {
            match or_short(spec_security_key(s, q, end)) {
                Ok(x) => Ok(CellDataView::SecurityKey(x)),
                Err(e) => Err(e),
            }
        } else if a == 0x64 && b == 0x62 {
            match or_short(spec_data_block(s, q, end)) {
                Ok(x) => Ok(CellDataView::DataBlock(x)),
                Err(e) => Err(e),
            }
        } else {
            Err(ErrorKind::UnknownCellType)
        }
    }
}

/// Bytes that the record after the signature at `p` occupies, by its signature.
pub open spec fn cell_data_span(s: Seq<u8>, p: int, end: int) -> int {
    let a = lower(s[p]);
    let b = lower(s[p + 1]);
    let q = p + 2;
    if a == 0x6C && (b == 0x69) {
        list_span(s, q, 4)
    } else if a == 0x6C && (b == 0x66 || b == 0x68) {
        list_span(s, q, 8)
    } else if a == 0x72 && b == 0x69 {
        list_span(s, q, 4)
    } else if a == 0x6E && b == 0x6B {
        named_key_span(s, q, end)
    } else if a == 0x76 && b == 0x6B {
        value_key_span(s, q, end)
    } else if a == 0x73 && b == 0x6B {
        security_key_span(s, q)
    } else if a == 0x64 && b == 0x62 {
        DATA_BLOCK_FIXED as int
    } else {
        0
    }
}

impl CellData {
    /// Reads a signature at the cursor and decodes the record that it names.
    pub fn build(buf: &[u8], cur: &mut Cursor) -> (r: Result<CellData, ErrorKind>)
        requires
            old(cur).wf(buf@),
        ensures
            final(cur).wf(buf@),
            final(cur).end == old(cur).end,
            r == Err::<CellData, ErrorKind>(ErrorKind::UnknownCellType) ==> final(cur).pos == old(cur).pos + 2,
            match spec_cell_data(buf@, old(cur).pos as int, old(cur).end as int) {
                Ok(v) => r is Ok && r->Ok_0@ == v
                    && final(cur).pos == old(cur).pos + 2 + cell_data_span(buf@, old(cur).pos as int, old(cur).end as int),
                Err(e) => r == Err::<CellData, ErrorKind>(e),
            },
    {
        if cur.remaining() < 2 {
            return Err(ErrorKind::UnexpectedEnd);
        }
        let a = ascii_lower(buf[cur.pos]);
        let b = ascii_lower(buf[cur.pos + 1]);
        cur.pos = cur.pos + 2;
        if a == 0x6C && b == 0x69 {
            match IndexLeaf::build(buf, cur) {
                Ok(x) => Ok(CellData::IndexLeaf(x)),
                Err(e) => Err(e),
            }
        } else if a == 0x6C && b == 0x66 {
            match FastLeaf::build(buf, cur) {
                Ok(x) => Ok(CellData::FastLeaf(x)),
                Err(e) => Err(e),
            }
        } else if a == 0x6C && b == 0x68 {
            match HashLeaf::build(buf, cur) {
                Ok(x) => Ok(CellData::HashLeaf(x)),
                Err(e) => Err(e),
            }
        } else if a == 0x72 && b == 0x69 {
            match IndexRoot::build(buf, cur) {
                Ok(x) => Ok(CellData::IndexRoot(x)),
                Err(e) => Err(e),
            }
        } else if a == 0x6E && b == 0x6B {
            match NamedKey::build(buf, cur) {
                Ok(x) => Ok(CellData::NamedKey(x)),
                Err(e) => Err(e),
            }
        } else if a == 0x76 && b == 0x6B {
            match ValueKey::build(buf, cur) {
                Ok(x) => Ok(CellData::ValueKey(x)),
                Err(e) => Err(e),
            }
        } else if a == 0x73 && b == 0x6B {
            match SecurityKey::build(buf, cur) {
                Ok(x) => Ok(CellData::SecurityKey(x)),
                Err(e) => Err(e),
            }
        } else if a == 0x64 && b == 0x62 {
            match DataBlock::build(buf, cur) {
                Ok(x) => Ok(CellData::DataBlock(x)),
                Err(e) => Err(e),
            }
        } else {
            Err(ErrorKind::UnknownCellType)
        }
    }
}

// ---------------------------------------------------------------------------
// A record depends on its own bytes only
/// Whether two buffers hold the same bytes in `[p, end)`.
pub open spec fn agree(s1: Seq<u8>, s2: Seq<u8>, p: int, end: int) -> bool {
    &&& 0 <= p
    &&& end <= s1.len()
    &&& end <= s2.len()
    &&& forall|k: int| p <= k < end ==> #[trigger] s1[k] == s2[k]
}

proof fn lemma_le_agree(s1: Seq<u8>, s2: Seq<u8>, p: int, end: int, x: int)
    requires
        agree(s1, s2, p, end),
        p <= x,
    ensures
        x + 2 <= end ==> le16(s1, x) == le16(s2, x),
        x + 4 <= end ==> le32(s1, x) == le32(s2, x),
        x + 8 <= end ==> le64(s1, x) == le64(s2, x),
{
    if x + 2 <= end {
        assert(s1[x] == s2[x] && s1[x + 1] == s2[x + 1]);
    }
    if x + 4 <= end {
        assert(s1[x + 2] == s2[x + 2] && s1[x + 3] == s2[x + 3]);
    }
    if x + 8 <= end {
        assert(s1[x + 4] == s2[x + 4] && s1[x + 5] == s2[x + 5]);
        assert(s1[x + 6] == s2[x + 6] && s1[x + 7] == s2[x + 7]);
        assert(le32(s1, x + 4) == le32(s2, x + 4));
    }
}

proof fn lemma_range_agree(s1: Seq<u8>, s2: Seq<u8>, p: int, end: int, a: int, b: int)
    requires
        agree(s1, s2, p, end),
        p <= a <= b <= end,
    ensures
        s1.subrange(a, b) == s2.subrange(a, b),
{
    assert(s1.subrange(a, b) =~= s2.subrange(a, b));
}

/// The payload decoded in `[p, end)` depends on the bytes there only.
pub proof fn lemma_cell_data_local(s1: Seq<u8>, s2: Seq<u8>, p: int, end: int)
    requires
        agree(s1, s2, p, end),
    ensures
        spec_cell_data(s1, p, end) == spec_cell_data(s2, p, end),
{
    if p + 2 <= end {
        assert(s1[p] == s2[p] && s1[p + 1] == s2[p + 1]);
        let q = p + 2;
        lemma_le_agree(s1, s2, p, end, q);
        if q + 2 <= end {
            let n = le16(s1, q) as int;
            if q + 2 + 4 * n <= end {
                assert forall|j: int| 0 <= j < n implies index_leaf_element(s1, q, j) == index_leaf_element(s2, q, j)
                    && index_root_element(s1, q, j) == index_root_element(s2, q, j) by {
                    lemma_le_agree(s1, s2, p, end, q + 2 + 4 * j);
                }
                assert(Seq::new(n as nat, |j: int| index_leaf_element(s1, q, j)) =~= Seq::new(n as nat, |j: int| index_leaf_element(s2, q, j)));
                assert(Seq::new(n as nat, |j: int| index_root_element(s1, q, j)) =~= Seq::new(n as nat, |j: int| index_root_element(s2, q, j)));
            }
            if q + 2 + 8 * n <= end {
                assert forall|j: int| 0 <= j < n implies fast_leaf_element(s1, q, j) == fast_leaf_element(s2, q, j)
                    && hash_leaf_element(s1, q, j) == hash_leaf_element(s2, q, j) by {
                    lemma_le_agree(s1, s2, p, end, q + 2 + 8 * j);
                    lemma_le_agree(s1, s2, p, end, q + 6 + 8 * j);
                }
                assert(Seq::new(n as nat, |j: int| fast_leaf_element(s1, q, j)) =~= Seq::new(n as nat, |j: int| fast_leaf_element(s2, q, j)));
                assert(Seq::new(n as nat, |j: int| hash_leaf_element(s1, q, j)) =~= Seq::new(n as nat, |j: int| hash_leaf_element(s2, q, j)));
            }
        }
        if q + NAMED_KEY_FIXED <= end {
            lemma_le_agree(s1, s2, p, end, q + 0);
            lemma_le_agree(s1, s2, p, end, q + 2);
            lemma_le_agree(s1, s2, p, end, q + 10);
            lemma_le_agree(s1, s2, p, end, q + 14);
            lemma_le_agree(s1, s2, p, end, q + 18);
            lemma_le_agree(s1, s2, p, end, q + 22);
            lemma_le_agree(s1, s2, p, end, q + 26);
            lemma_le_agree(s1, s2, p, end, q + 30);
            lemma_le_agree(s1, s2, p, end, q + 34);
            lemma_le_agree(s1, s2, p, end, q + 38);
            lemma_le_agree(s1, s2, p, end, q + 42);
            lemma_le_agree(s1, s2, p, end, q + 46);
            lemma_le_agree(s1, s2, p, end, q + 50);
            lemma_le_agree(s1, s2, p, end, q + 54);
            lemma_le_agree(s1, s2, p, end, q + 58);
            lemma_le_agree(s1, s2, p, end, q + 62);
            lemma_le_agree(s1, s2, p, end, q + 66);
            lemma_le_agree(s1, s2, p, end, q + 70);
            lemma_le_agree(s1, s2, p, end, q + 72);
            let n = le16(s1, q + 70) as int;
            if q + NAMED_KEY_FIXED + n <= end {
                lemma_range_agree(s1, s2, p, end, q + NAMED_KEY_FIXED, q + NAMED_KEY_FIXED + n);
            }
        }
        if q + VALUE_KEY_FIXED <= end {
            lemma_le_agree(s1, s2, p, end, q + 2);
            lemma_le_agree(s1, s2, p, end, q + 6);
            lemma_le_agree(s1, s2, p, end, q + 10);
            lemma_le_agree(s1, s2, p, end, q + 14);
            lemma_le_agree(s1, s2, p, end, q + 16);
            let n = le16(s1, q) as int;
            if q + VALUE_KEY_FIXED + n <= end {
                lemma_range_agree(s1, s2, p, end, q + VALUE_KEY_FIXED, q + VALUE_KEY_FIXED + n);
            }
        }
        if q + DATA_BLOCK_FIXED <= end {
            lemma_le_agree(s1, s2, p, end, q + 2);
        }
    }
}

} // verus!
