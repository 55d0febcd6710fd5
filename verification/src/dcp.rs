use vstd::prelude::*;

verus! {

/// Divisions of a 3-D table along hue, saturation and value.
#[derive(Debug, Clone, Copy, PartialEq, Eq, Structural)]
pub struct LutDims {
    pub hue: u32,
    pub sat: u32,
    pub val: u32,
}

/// What the development pipeline reads of a DCP camera profile: which of its
/// tables are present, their sizes and their divisions. The coefficients
/// themselves stay with the caller.
#[derive(Debug, Clone, Copy, PartialEq, Eq, Structural)]
pub struct DcpLayout {
    /// Light source of the first calibration, if recorded.
    pub illuminant1: Option<u16>,
    /// Light source of the second calibration, if recorded.
    pub illuminant2: Option<u16>,
    /// Number of coefficients of ColorMatrix1, if present.
    pub color_matrix1_len: Option<usize>,
    /// Number of coefficients of ColorMatrix2, if present.
    pub color_matrix2_len: Option<usize>,
    /// Number of coefficients of ForwardMatrix1, if present.
    pub forward_matrix1_len: Option<usize>,
    /// Number of coefficients of ForwardMatrix2, if present.
    pub forward_matrix2_len: Option<usize>,
    /// Hue, saturation and value divisions of the look table, if present.
    pub look_table_dims: Option<LutDims>,
    /// Number of values of the look table data, if present.
    pub look_table_len: Option<usize>,
    /// Hue, saturation and value divisions of the hue/saturation maps, if present.
    pub map_dims: Option<LutDims>,
    /// Number of values of the first hue/saturation map, if present.
    pub hue_sat_map1_len: Option<usize>,
    /// Number of values of the second hue/saturation map, if present.
    pub hue_sat_map2_len: Option<usize>,
    /// Number of values (interleaved x, y) of the profile tone curve, if present.
    pub tone_curve_len: Option<usize>,
}

impl DcpLayout {
    /// The layout of a profile that holds nothing.
    pub fn empty() -> (r: DcpLayout)
        ensures
            r.illuminant1 is None,
            r.illuminant2 is None,
            r.color_matrix1_len is None,
            r.color_matrix2_len is None,
            r.forward_matrix1_len is None,
            r.forward_matrix2_len is None,
            r.look_table_dims is None,
            r.look_table_len is None,
            r.map_dims is None,
            r.hue_sat_map1_len is None,
            r.hue_sat_map2_len is None,
            r.tone_curve_len is None,
    {
        DcpLayout {
            illuminant1: None,
            illuminant2: None,
            color_matrix1_len: None,
            color_matrix2_len: None,
            forward_matrix1_len: None,
            forward_matrix2_len: None,
            look_table_dims: None,
            look_table_len: None,
            map_dims: None,
            hue_sat_map1_len: None,
            hue_sat_map2_len: None,
            tone_curve_len: None,
        }
    }
}

/// TIFF tags of a DCP profile.
pub const TAG_CALIBRATION_ILLUMINANT_1: u16 = 50778;
pub const TAG_CALIBRATION_ILLUMINANT_2: u16 = 50779;
pub const TAG_COLOR_MATRIX_1: u16 = 50721;
pub const TAG_COLOR_MATRIX_2: u16 = 50722;
pub const TAG_FORWARD_MATRIX_1: u16 = 50964;
pub const TAG_FORWARD_MATRIX_2: u16 = 50965;
pub const TAG_PROFILE_HUE_SAT_MAP_DIMS: u16 = 50937;
pub const TAG_PROFILE_HUE_SAT_MAP_DATA_1: u16 = 50938;
pub const TAG_PROFILE_HUE_SAT_MAP_DATA_2: u16 = 50939;
pub const TAG_PROFILE_TONE_CURVE: u16 = 50940;
pub const TAG_PROFILE_LOOK_TABLE_DIMS: u16 = 50981;
pub const TAG_PROFILE_LOOK_TABLE_DATA: u16 = 50982;

/// First two bytes of a little-endian file (`II`).
pub const ORDER_LITTLE: u8 = 0x49;
/// First two bytes of a big-endian file (`MM`).
pub const ORDER_BIG: u8 = 0x4D;
/// Identifier of a TIFF file.
pub const TIFF_MAGIC: u16 = 42;
/// Identifier of a DCP profile (`RC` in the file's byte order).
pub const DCP_MAGIC: u16 = 0x4352;
/// Size of one directory entry.
pub const ENTRY_LEN: usize = 12;

/// The 16-bit value stored at `pos` in the given byte order.
pub open spec fn u16_at(b: Seq<u8>, pos: int, little: bool) -> nat {
    if little {
        b[pos] as nat + b[pos + 1] as nat * 256
    } else {
        b[pos] as nat * 256 + b[pos + 1] as nat
    }
}

/// The 32-bit value stored at `pos` in the given byte order.
pub open spec fn u32_at(b: Seq<u8>, pos: int, little: bool) -> nat {
    if little {
        u16_at(b, pos, true) + u16_at(b, pos + 2, true) * 65536
    } else {
        u16_at(b, pos, false) * 65536 + u16_at(b, pos + 2, false)
    }
}

/// Reads the 16-bit value at `pos` in the given byte order.
pub fn read_u16(b: &[u8], pos: usize, little: bool) -> (r: u16)
    requires
        pos + 2 <= b@.len(),
    ensures
        r == u16_at(b@, pos as int, little),
{
    let x = b[pos] as u16;
    let y = b[pos + 1] as u16;
    if little {
        x + y * 256
    } else {
        x * 256 + y
    }
}

/// Reads the 32-bit value at `pos` in the given byte order.
pub fn read_u32(b: &[u8], pos: usize, little: bool) -> (r: u32)
    requires
        pos + 4 <= b@.len(),
    ensures
        r == u32_at(b@, pos as int, little),
{
    let _len = b.len();
    let x = read_u16(b, pos, little) as u32;
    let y = read_u16(b, pos + 2, little) as u32;
    if little {
        x + y * 65536
    } else {
        x * 65536 + y
    }
}

/// Byte order named by the first two bytes: `true` for little endian.
pub open spec fn byte_order(b: Seq<u8>) -> Option<bool> {
    if b.len() >= 2 && b[0] == ORDER_LITTLE && b[1] == ORDER_LITTLE {
        Some(true)
    } else if b.len() >= 2 && b[0] == ORDER_BIG && b[1] == ORDER_BIG {
        Some(false)
    } else {
        None
    }
}

/// Byte order and position of the first directory, when the header names a
/// byte order, carries the TIFF or DCP identifier, and points at a directory
/// whose entry count and entries lie inside the file.
pub open spec fn directory_start(b: Seq<u8>) -> Option<(bool, nat)> {
    if b.len() < 8 {
        None
    } else {
        match byte_order(b) {
            None => None,
            Some(little) => {
                let magic = u16_at(b, 2, little);
                let off = u32_at(b, 4, little);
                if magic != TIFF_MAGIC && magic != DCP_MAGIC {
                    None
                } else if off + 2 > b.len() {
                    None
                } else if off + 2 + ENTRY_LEN * u16_at(b, off as int, little) > b.len() {
                    None
                } else {
                    Some((little, off))
                }
            },
        }
    }
}

/// Bytes per value of a TIFF field type; 0 for a type this reader does not know.
pub open spec fn type_size(t: u16) -> nat {
    if t == 1 || t == 2 || t == 6 || t == 7 {
        1
    } else if t == 3 || t == 8 {
        2
    } else if t == 4 || t == 9 || t == 11 {
        4
    } else if t == 5 || t == 10 || t == 12 {
        8
    } else {
        0
    }
}

/// One readable entry of the first directory: its tag, field type, value
/// count and the position of its first value in the file.
#[derive(Debug, Clone, Copy, PartialEq, Eq, Structural)]
pub struct DcpEntry {
    pub tag: u16,
    pub field_type: u16,
    pub count: u32,
    pub value_pos: usize,
}

/// Bytes per value of a field type (see `type_size`).
pub fn value_size(t: u16) -> (r: usize)
    ensures
        r == type_size(t),
{
    if t == 1 || t == 2 || t == 6 || t == 7 {
        1
    } else if t == 3 || t == 8 {
        2
    } else if t == 4 || t == 9 || t == 11 {
        4
    } else if t == 5 || t == 10 || t == 12 {
        8
    } else {
        0
    }
}

/// The values of an entry lie inside a file of `len` bytes.
pub open spec fn entry_in_file(e: DcpEntry, len: nat) -> bool {
    &&& type_size(e.field_type) > 0
    &&& e.value_pos + type_size(e.field_type) * e.count <= len
}

/// Entry `i` of the directory at `off`: values of at most four bytes are
/// stored in the entry itself, longer ones at the offset it holds. `None` when
/// the field type is unknown or the values do not lie inside the file.
pub open spec fn entry_spec(b: Seq<u8>, little: bool, off: nat, i: nat) -> Option<DcpEntry> {
    let p = off + 2 + ENTRY_LEN * i;
    let tag = u16_at(b, p, little);
    let t = u16_at(b, p + 2, little);
    let c = u32_at(b, p + 4, little);
    let size = type_size(t as u16) * c;
    if type_size(t as u16) == 0 {
        None
    } else if size <= 4 {
        Some(DcpEntry { tag: tag as u16, field_type: t as u16, count: c as u32, value_pos: (p + 8) as usize })
    } else if u32_at(b, p + 8, little) + size <= b.len() {
        Some(
            DcpEntry {
                tag: tag as u16,
                field_type: t as u16,
                count: c as u32,
                value_pos: u32_at(b, p + 8, little) as usize,
            },
        )
    } else {
        None
    }
}

/// The readable entries among the first `k` of the directory, in file order.
pub open spec fn entries_upto(b: Seq<u8>, little: bool, off: nat, k: nat) -> Seq<DcpEntry>
    decreases k,
{
    if k == 0 {
        seq![]
    } else {
        let prev = entries_upto(b, little, off, (k - 1) as nat);
        match entry_spec(b, little, off, (k - 1) as nat) {
            Some(e) => prev.push(e),
            None => prev,
        }
    }
}

/// The first directory of a TIFF or DCP file: byte order and readable entries.
pub open spec fn dcp_file_spec(b: Seq<u8>) -> Option<(bool, Seq<DcpEntry>)> {
    match directory_start(b) {
        Some((little, off)) => Some((little, entries_upto(b, little, off, u16_at(b, off as int, little)))),
        None => None,
    }
}

/// The first directory of a profile file.
pub struct DcpFile {
    pub little_endian: bool,
    pub entries: Vec<DcpEntry>,
}

/// Why a byte string is not a readable profile.
#[derive(Debug, Clone, Copy, PartialEq, Eq, Structural)]
pub enum DcpLoadError {
    /// No TIFF or DCP header, or no first directory inside the file.
    NotTiff,
}

fn read_entry(b: &[u8], little: bool, off: usize, i: usize, n: usize) -> (r: Option<DcpEntry>)
    requires
        i < n,
        off + 2 + ENTRY_LEN * n <= b@.len(),
    ensures
        r == entry_spec(b@, little, off as nat, i as nat),
        r matches Some(e) ==> entry_in_file(e, b@.len()),
{
    let _len = b.len();
    proof {
        assert(off + 2 + ENTRY_LEN * i + ENTRY_LEN <= off + 2 + ENTRY_LEN * n);
    }
    let p = off + 2 + 12 * i;
    let tag = read_u16(b, p, little);
    let t = read_u16(b, p + 2, little);
    let c = read_u32(b, p + 4, little);
    let ts: u64 = if t == 1 || t == 2 || t == 6 || t == 7 {
        1
    } else if t == 3 || t == 8 {
        2
    } else if t == 4 || t == 9 || t == 11 {
        4
    } else if t == 5 || t == 10 || t == 12 {
        8
    } else {
        0
    };
    if ts == 0 {
        return None;
    }
    let size: u64 = ts * (c as u64);
    if size <= 4 {
        Some(DcpEntry { tag, field_type: t, count: c, value_pos: p + 8 })
    } else {
        let o = read_u32(b, p + 8, little);
        if (o as u64) + size <= b.len() as u64 {
            Some(DcpEntry { tag, field_type: t, count: c, value_pos: o as usize })
        } else {
            None
        }
    }
}

/// Reads the header and the first directory of a TIFF or DCP file.
pub fn parse_dcp(bytes: &[u8]) -> (r: Result<DcpFile, DcpLoadError>)
    ensures
        r is Ok <==> dcp_file_spec(bytes@) is Some,
        r matches Ok(f) ==> dcp_file_spec(bytes@) == Some((f.little_endian, f.entries@)),
        r matches Ok(f) ==> forall|i: int| 0 <= i < f.entries@.len() ==> entry_in_file(#[trigger] f.entries@[i], bytes@.len()),
{
    if bytes.len() < 8 {
        return Err(DcpLoadError::NotTiff);
    }
    let little = if bytes[0] == ORDER_LITTLE && bytes[1] == ORDER_LITTLE {
        true
    } else if bytes[0] == ORDER_BIG && bytes[1] == ORDER_BIG {
        false
    } else {
        return Err(DcpLoadError::NotTiff);
    };
    let magic = read_u16(bytes, 2, little);
    if magic != TIFF_MAGIC && magic != DCP_MAGIC {
        return Err(DcpLoadError::NotTiff);
    }
    let off = read_u32(bytes, 4, little) as usize;
    if off > bytes.len() || bytes.len() - off < 2 {
        return Err(DcpLoadError::NotTiff);
    }
    let n = read_u16(bytes, off, little) as usize;
    if bytes.len() - off - 2 < 12 * n {
        return Err(DcpLoadError::NotTiff);
    }
    let mut entries: Vec<DcpEntry> = Vec::new();
    let mut i: usize = 0;
    while i < n
        invariant
            i <= n,
            off + 2 + ENTRY_LEN * n <= bytes@.len(),
            entries@ == entries_upto(bytes@, little, off as nat, i as nat),
            forall|j: int| 0 <= j < entries@.len() ==> entry_in_file(#[trigger] entries@[j], bytes@.len()),
        decreases n - i,
    {
        match read_entry(bytes, little, off, i, n) {
            Some(e) => entries.push(e),
            None => {},
        }
        i = i + 1;
    }
    Ok(DcpFile { little_endian: little, entries })
}

/// Where value `k` of entry `e` starts, when the field type is known and the
/// value lies wholly inside a file of `len` bytes.
pub fn value_position(e: &DcpEntry, k: usize, len: usize) -> (r: Option<usize>)
    ensures
        r == (if type_size(e.field_type) > 0 && e.value_pos + type_size(e.field_type) * (k + 1) <= len {
            Some((e.value_pos + type_size(e.field_type) * k) as usize)
        } else {
            None::<usize>
        }),
{
    let ts = value_size(e.field_type);
    if ts == 0 {
        return None;
    }
    let k1 = match k.checked_add(1) {
        Some(v) => v,
        None => return None,
    };
    let m = match ts.checked_mul(k1) {
        Some(v) => v,
        None => return None,
    };
    let end = match e.value_pos.checked_add(m) {
        Some(v) => v,
        None => return None,
    };
    if end <= len {
        proof {
            assert(ts * k <= ts * k1) by (nonlinear_arith)
                requires
                    ts >= 1,
                    k1 == k + 1,
            ;
        }
        Some(e.value_pos + ts * k)
    } else {
        None
    }
}

/// The first entry with tag `tag`, if any.
pub open spec fn first_entry(es: Seq<DcpEntry>, tag: u16) -> Option<DcpEntry>
    decreases es.len(),
{
    if es.len() == 0 {
        None
    } else if es[0].tag == tag {
        Some(es[0])
    } else {
        first_entry(es.drop_first(), tag)
    }
}

impl DcpFile {
    /// The first entry of the directory with tag `tag`.
    pub fn find_entry(&self, tag: u16) -> (r: Option<DcpEntry>)
        ensures
            r == first_entry(self.entries@, tag),
            forall|i: int| #[trigger] first_tagged(self.entries@, tag, i) ==> r == Some(self.entries@[i]),
            r is None <==> forall|j: int| 0 <= j < self.entries@.len() ==> self.entries@[j].tag != tag,
    {
        proof {
            assert forall|i: int| #[trigger] first_tagged(self.entries@, tag, i) implies first_entry(
                self.entries@,
                tag,
            ) == Some(self.entries@[i]) by {
                lemma_first_entry_at(self.entries@, tag, i);
            }
            if tag_absent(self.entries@, tag) {
                lemma_first_entry_absent(self.entries@, tag);
            } else {
                let k = choose|k: int| 0 <= k < self.entries@.len() && self.entries@[k].tag == tag;
                lemma_first_entry_member(self.entries@, tag);
                lemma_first_entry_some(self.entries@, tag, k);
            }
        }
        let mut i: usize = 0;
        proof {
            assert(self.entries@.skip(0) =~= self.entries@);
        }
        while i < self.entries.len()
            invariant
                i <= self.entries@.len(),
                first_entry(self.entries@, tag) == first_entry(self.entries@.skip(i as int), tag),
                forall|k: int| #[trigger] first_tagged(self.entries@, tag, k) ==> first_entry(
                    self.entries@,
                    tag,
                ) == Some(self.entries@[k]),
            decreases self.entries@.len() - i,
        {
            proof {
                assert(self.entries@.skip(i as int).drop_first() =~= self.entries@.skip(i + 1));
            }
            if self.entries[i].tag == tag {
                return Some(self.entries[i]);
            }
            i = i + 1;
        }
        proof {
            assert(self.entries@.skip(i as int).len() == 0);
        }
        None
    }
}

/// Field types whose values are numbers.
pub open spec fn numeric_type(t: u16) -> bool {
    t == 1 || t == 3 || t == 4 || t == 5 || t == 6 || t == 8 || t == 9 || t == 10 || t == 11 || t == 12
}

/// Field types whose values are unsigned integers (BYTE, SHORT, LONG).
pub open spec fn unsigned_type(t: u16) -> bool {
    t == 1 || t == 3 || t == 4
}

/// Value `k` of an entry of unsigned integer type.
pub open spec fn unsigned_value(b: Seq<u8>, little: bool, e: DcpEntry, k: int) -> nat {
    if e.field_type == 1 {
        b[e.value_pos + k] as nat
    } else if e.field_type == 3 {
        u16_at(b, e.value_pos + 2 * k, little)
    } else {
        u32_at(b, e.value_pos + 4 * k, little)
    }
}

/// Number of numeric values of an entry.
pub open spec fn numeric_len(e: Option<DcpEntry>) -> Option<usize> {
    match e {
        Some(x) => if numeric_type(x.field_type) {
            Some(x.count as usize)
        } else {
            None
        },
        None => None,
    }
}

/// Table divisions from an entry of three unsigned integers (hue, saturation, value).
pub open spec fn dims_of(b: Seq<u8>, little: bool, e: Option<DcpEntry>) -> Option<LutDims> {
    match e {
        Some(x) => if unsigned_type(x.field_type) && x.count == 3 {
            Some(
                LutDims {
                    hue: unsigned_value(b, little, x, 0) as u32,
                    sat: unsigned_value(b, little, x, 1) as u32,
                    val: unsigned_value(b, little, x, 2) as u32,
                },
            )
        } else {
            None
        },
        None => None,
    }
}

/// A light-source code from an entry of one unsigned integer that fits 16 bits.
pub open spec fn illuminant_of(b: Seq<u8>, little: bool, e: Option<DcpEntry>) -> Option<u16> {
    match e {
        Some(x) => if unsigned_type(x.field_type) && x.count == 1 && unsigned_value(b, little, x, 0) <= u16::MAX {
            Some(unsigned_value(b, little, x, 0) as u16)
        } else {
            None
        },
        None => None,
    }
}

/// The layout of a profile whose first directory holds `es`.
pub open spec fn layout_of(b: Seq<u8>, little: bool, es: Seq<DcpEntry>) -> DcpLayout {
    DcpLayout {
        illuminant1: illuminant_of(b, little, first_entry(es, TAG_CALIBRATION_ILLUMINANT_1)),
        illuminant2: illuminant_of(b, little, first_entry(es, TAG_CALIBRATION_ILLUMINANT_2)),
        color_matrix1_len: numeric_len(first_entry(es, TAG_COLOR_MATRIX_1)),
        color_matrix2_len: numeric_len(first_entry(es, TAG_COLOR_MATRIX_2)),
        forward_matrix1_len: numeric_len(first_entry(es, TAG_FORWARD_MATRIX_1)),
        forward_matrix2_len: numeric_len(first_entry(es, TAG_FORWARD_MATRIX_2)),
        look_table_dims: dims_of(b, little, first_entry(es, TAG_PROFILE_LOOK_TABLE_DIMS)),
        look_table_len: numeric_len(first_entry(es, TAG_PROFILE_LOOK_TABLE_DATA)),
        map_dims: dims_of(b, little, first_entry(es, TAG_PROFILE_HUE_SAT_MAP_DIMS)),
        hue_sat_map1_len: numeric_len(first_entry(es, TAG_PROFILE_HUE_SAT_MAP_DATA_1)),
        hue_sat_map2_len: numeric_len(first_entry(es, TAG_PROFILE_HUE_SAT_MAP_DATA_2)),
        tone_curve_len: numeric_len(first_entry(es, TAG_PROFILE_TONE_CURVE)),
    }
}

/// Entry `i` of `es` is the first one with tag `tag`.
pub open spec fn first_tagged(es: Seq<DcpEntry>, tag: u16, i: int) -> bool {
    &&& 0 <= i < es.len()
    &&& es[i].tag == tag
    &&& forall|j: int| 0 <= j < i ==> es[j].tag != tag
}

/// No entry of `es` has tag `tag`.
pub open spec fn tag_absent(es: Seq<DcpEntry>, tag: u16) -> bool {
    forall|j: int| 0 <= j < es.len() ==> es[j].tag != tag
}

proof fn lemma_first_entry_at(es: Seq<DcpEntry>, tag: u16, i: int)
    requires
        first_tagged(es, tag, i),
    ensures
        first_entry(es, tag) == Some(es[i]),
    decreases i,
{
    if i > 0 {
        assert(es[0].tag != tag);
        let rest = es.drop_first();
        assert forall|j: int| 0 <= j < i - 1 implies rest[j].tag != tag by {
            assert(rest[j] == es[j + 1]);
        }
        lemma_first_entry_at(rest, tag, i - 1);
    }
}

proof fn lemma_first_entry_some(es: Seq<DcpEntry>, tag: u16, k: int)
    requires
        0 <= k < es.len(),
        es[k].tag == tag,
    ensures
        first_entry(es, tag) is Some,
    decreases k,
{
    if k > 0 && es[0].tag != tag {
        assert(es.drop_first()[k - 1] == es[k]);
        lemma_first_entry_some(es.drop_first(), tag, k - 1);
    }
}

proof fn lemma_first_entry_absent(es: Seq<DcpEntry>, tag: u16)
    requires
        tag_absent(es, tag),
    ensures
        first_entry(es, tag) is None,
    decreases es.len(),
{
    if es.len() > 0 {
        assert(es[0].tag != tag);
        let rest = es.drop_first();
        assert forall|j: int| 0 <= j < rest.len() implies rest[j].tag != tag by {
            assert(rest[j] == es[j + 1]);
        }
        lemma_first_entry_absent(rest, tag);
    }
}

/// Each field of a layout comes from the first directory entry with that
/// field's own tag, and from nothing else: a count is that entry's value count
/// when its type is numeric, table divisions are its three unsigned values, a
/// light source its single unsigned value when that fits 16 bits; a field
/// whose tag no entry has is absent.
pub proof fn lemma_layout_fields(b: Seq<u8>, little: bool, es: Seq<DcpEntry>)
    ensures
        forall|i: int|
            #[trigger] first_tagged(es, TAG_COLOR_MATRIX_1, i) ==> layout_of(b, little, es).color_matrix1_len == (if numeric_type(es[i].field_type) {
            Some(es[i].count as usize)
        } else {
            None
        }),
        tag_absent(es, TAG_COLOR_MATRIX_1) ==> layout_of(b, little, es).color_matrix1_len is None,
        forall|i: int|
            #[trigger] first_tagged(es, TAG_COLOR_MATRIX_2, i) ==> layout_of(b, little, es).color_matrix2_len == (if numeric_type(es[i].field_type) {
            Some(es[i].count as usize)
        } else {
            None
        }),
        tag_absent(es, TAG_COLOR_MATRIX_2) ==> layout_of(b, little, es).color_matrix2_len is None,
        forall|i: int|
            #[trigger] first_tagged(es, TAG_FORWARD_MATRIX_1, i) ==> layout_of(b, little, es).forward_matrix1_len == (if numeric_type(es[i].field_type) {
            Some(es[i].count as usize)
        } else {
            None
        }),
        tag_absent(es, TAG_FORWARD_MATRIX_1) ==> layout_of(b, little, es).forward_matrix1_len is None,
        forall|i: int|
            #[trigger] first_tagged(es, TAG_FORWARD_MATRIX_2, i) ==> layout_of(b, little, es).forward_matrix2_len == (if numeric_type(es[i].field_type) {
            Some(es[i].count as usize)
        } else {
            None
        }),
        tag_absent(es, TAG_FORWARD_MATRIX_2) ==> layout_of(b, little, es).forward_matrix2_len is None,
        forall|i: int|
            #[trigger] first_tagged(es, TAG_PROFILE_LOOK_TABLE_DATA, i) ==> layout_of(b, little, es).look_table_len == (if numeric_type(es[i].field_type) {
            Some(es[i].count as usize)
        } else {
            None
        }),
        tag_absent(es, TAG_PROFILE_LOOK_TABLE_DATA) ==> layout_of(b, little, es).look_table_len is None,
        forall|i: int|
            #[trigger] first_tagged(es, TAG_PROFILE_HUE_SAT_MAP_DATA_1, i) ==> layout_of(b, little, es).hue_sat_map1_len == (if numeric_type(es[i].field_type) {
            Some(es[i].count as usize)
        } else {
            None
        }),
        tag_absent(es, TAG_PROFILE_HUE_SAT_MAP_DATA_1) ==> layout_of(b, little, es).hue_sat_map1_len is None,
        forall|i: int|
            #[trigger] first_tagged(es, TAG_PROFILE_HUE_SAT_MAP_DATA_2, i) ==> layout_of(b, little, es).hue_sat_map2_len == (if numeric_type(es[i].field_type) {
            Some(es[i].count as usize)
        } else {
            None
        }),
        tag_absent(es, TAG_PROFILE_HUE_SAT_MAP_DATA_2) ==> layout_of(b, little, es).hue_sat_map2_len is None,
        forall|i: int|
            #[trigger] first_tagged(es, TAG_PROFILE_TONE_CURVE, i) ==> layout_of(b, little, es).tone_curve_len == (if numeric_type(es[i].field_type) {
            Some(es[i].count as usize)
        } else {
            None
        }),
        tag_absent(es, TAG_PROFILE_TONE_CURVE) ==> layout_of(b, little, es).tone_curve_len is None,
        forall|i: int|
            #[trigger] first_tagged(es, TAG_PROFILE_LOOK_TABLE_DIMS, i) ==> layout_of(b, little, es).look_table_dims == (if unsigned_type(es[i].field_type) && es[i].count == 3 {
            Some(
                LutDims {
                    hue: unsigned_value(b, little, es[i], 0) as u32,
                    sat: unsigned_value(b, little, es[i], 1) as u32,
                    val: unsigned_value(b, little, es[i], 2) as u32,
                },
            )
        } else {
            None
        }),
        tag_absent(es, TAG_PROFILE_LOOK_TABLE_DIMS) ==> layout_of(b, little, es).look_table_dims is None,
        forall|i: int|
            #[trigger] first_tagged(es, TAG_PROFILE_HUE_SAT_MAP_DIMS, i) ==> layout_of(b, little, es).map_dims == (if unsigned_type(es[i].field_type) && es[i].count == 3 {
            Some(
                LutDims {
                    hue: unsigned_value(b, little, es[i], 0) as u32,
                    sat: unsigned_value(b, little, es[i], 1) as u32,
                    val: unsigned_value(b, little, es[i], 2) as u32,
                },
            )
        } else {
            None
        }),
        tag_absent(es, TAG_PROFILE_HUE_SAT_MAP_DIMS) ==> layout_of(b, little, es).map_dims is None,
        forall|i: int|
            #[trigger] first_tagged(es, TAG_CALIBRATION_ILLUMINANT_1, i) ==> layout_of(b, little, es).illuminant1 == (if unsigned_type(es[i].field_type) && es[i].count == 1 && unsigned_value(
            b,
            little,
            es[i],
            0,
        ) <= u16::MAX {
            Some(unsigned_value(b, little, es[i], 0) as u16)
        } else {
            None
        }),
        tag_absent(es, TAG_CALIBRATION_ILLUMINANT_1) ==> layout_of(b, little, es).illuminant1 is None,
        forall|i: int|
            #[trigger] first_tagged(es, TAG_CALIBRATION_ILLUMINANT_2, i) ==> layout_of(b, little, es).illuminant2 == (if unsigned_type(es[i].field_type) && es[i].count == 1 && unsigned_value(
            b,
            little,
            es[i],
            0,
        ) <= u16::MAX {
            Some(unsigned_value(b, little, es[i], 0) as u16)
        } else {
            None
        }),
        tag_absent(es, TAG_CALIBRATION_ILLUMINANT_2) ==> layout_of(b, little, es).illuminant2 is None,
{
    assert forall|i: int| #[trigger] first_tagged(es, TAG_COLOR_MATRIX_1, i) implies layout_of(b, little, es).color_matrix1_len
        == (if numeric_type(es[i].field_type) {
            Some(es[i].count as usize)
        } else {
            None
        }) by {
        lemma_first_entry_at(es, TAG_COLOR_MATRIX_1, i);
    }
    if tag_absent(es, TAG_COLOR_MATRIX_1) {
        lemma_first_entry_absent(es, TAG_COLOR_MATRIX_1);
    }
    assert forall|i: int| #[trigger] first_tagged(es, TAG_COLOR_MATRIX_2, i) implies layout_of(b, little, es).color_matrix2_len
        == (if numeric_type(es[i].field_type) {
            Some(es[i].count as usize)
        } else {
            None
        }) by {
        lemma_first_entry_at(es, TAG_COLOR_MATRIX_2, i);
    }
    if tag_absent(es, TAG_COLOR_MATRIX_2) {
        lemma_first_entry_absent(es, TAG_COLOR_MATRIX_2);
    }
    assert forall|i: int| #[trigger] first_tagged(es, TAG_FORWARD_MATRIX_1, i) implies layout_of(b, little, es).forward_matrix1_len
        == (if numeric_type(es[i].field_type) {
            Some(es[i].count as usize)
        } else {
            None
        }) by {
        lemma_first_entry_at(es, TAG_FORWARD_MATRIX_1, i);
    }
    if tag_absent(es, TAG_FORWARD_MATRIX_1) {
        lemma_first_entry_absent(es, TAG_FORWARD_MATRIX_1);
    }
    assert forall|i: int| #[trigger] first_tagged(es, TAG_FORWARD_MATRIX_2, i) implies layout_of(b, little, es).forward_matrix2_len
        == (if numeric_type(es[i].field_type) {
            Some(es[i].count as usize)
        } else {
            None
        }) by {
        lemma_first_entry_at(es, TAG_FORWARD_MATRIX_2, i);
    }
    if tag_absent(es, TAG_FORWARD_MATRIX_2) {
        lemma_first_entry_absent(es, TAG_FORWARD_MATRIX_2);
    }
    assert forall|i: int| #[trigger] first_tagged(es, TAG_PROFILE_LOOK_TABLE_DATA, i) implies layout_of(b, little, es).look_table_len
        == (if numeric_type(es[i].field_type) {
            Some(es[i].count as usize)
        } else {
            None
        }) by {
        lemma_first_entry_at(es, TAG_PROFILE_LOOK_TABLE_DATA, i);
    }
    if tag_absent(es, TAG_PROFILE_LOOK_TABLE_DATA) {
        lemma_first_entry_absent(es, TAG_PROFILE_LOOK_TABLE_DATA);
    }
    assert forall|i: int| #[trigger] first_tagged(es, TAG_PROFILE_HUE_SAT_MAP_DATA_1, i) implies layout_of(b, little, es).hue_sat_map1_len
        == (if numeric_type(es[i].field_type) {
            Some(es[i].count as usize)
        } else {
            None
        }) by {
        lemma_first_entry_at(es, TAG_PROFILE_HUE_SAT_MAP_DATA_1, i);
    }
    if tag_absent(es, TAG_PROFILE_HUE_SAT_MAP_DATA_1) {
        lemma_first_entry_absent(es, TAG_PROFILE_HUE_SAT_MAP_DATA_1);
    }
    assert forall|i: int| #[trigger] first_tagged(es, TAG_PROFILE_HUE_SAT_MAP_DATA_2, i) implies layout_of(b, little, es).hue_sat_map2_len
        == (if numeric_type(es[i].field_type) {
            Some(es[i].count as usize)
        } else {
            None
        }) by {
        lemma_first_entry_at(es, TAG_PROFILE_HUE_SAT_MAP_DATA_2, i);
    }
    if tag_absent(es, TAG_PROFILE_HUE_SAT_MAP_DATA_2) {
        lemma_first_entry_absent(es, TAG_PROFILE_HUE_SAT_MAP_DATA_2);
    }
    assert forall|i: int| #[trigger] first_tagged(es, TAG_PROFILE_TONE_CURVE, i) implies layout_of(b, little, es).tone_curve_len
        == (if numeric_type(es[i].field_type) {
            Some(es[i].count as usize)
        } else {
            None
        }) by {
        lemma_first_entry_at(es, TAG_PROFILE_TONE_CURVE, i);
    }
    if tag_absent(es, TAG_PROFILE_TONE_CURVE) {
        lemma_first_entry_absent(es, TAG_PROFILE_TONE_CURVE);
    }
    assert forall|i: int| #[trigger] first_tagged(es, TAG_PROFILE_LOOK_TABLE_DIMS, i) implies layout_of(b, little, es).look_table_dims
        == (if unsigned_type(es[i].field_type) && es[i].count == 3 {
            Some(
                LutDims {
                    hue: unsigned_value(b, little, es[i], 0) as u32,
                    sat: unsigned_value(b, little, es[i], 1) as u32,
                    val: unsigned_value(b, little, es[i], 2) as u32,
                },
            )
        } else {
            None
        }) by {
        lemma_first_entry_at(es, TAG_PROFILE_LOOK_TABLE_DIMS, i);
    }
    if tag_absent(es, TAG_PROFILE_LOOK_TABLE_DIMS) {
        lemma_first_entry_absent(es, TAG_PROFILE_LOOK_TABLE_DIMS);
    }
    assert forall|i: int| #[trigger] first_tagged(es, TAG_PROFILE_HUE_SAT_MAP_DIMS, i) implies layout_of(b, little, es).map_dims
        == (if unsigned_type(es[i].field_type) && es[i].count == 3 {
            Some(
                LutDims {
                    hue: unsigned_value(b, little, es[i], 0) as u32,
                    sat: unsigned_value(b, little, es[i], 1) as u32,
                    val: unsigned_value(b, little, es[i], 2) as u32,
                },
            )
        } else {
            None
        }) by {
        lemma_first_entry_at(es, TAG_PROFILE_HUE_SAT_MAP_DIMS, i);
    }
    if tag_absent(es, TAG_PROFILE_HUE_SAT_MAP_DIMS) {
        lemma_first_entry_absent(es, TAG_PROFILE_HUE_SAT_MAP_DIMS);
    }
    assert forall|i: int| #[trigger] first_tagged(es, TAG_CALIBRATION_ILLUMINANT_1, i) implies layout_of(b, little, es).illuminant1
        == (if unsigned_type(es[i].field_type) && es[i].count == 1 && unsigned_value(
            b,
            little,
            es[i],
            0,
        ) <= u16::MAX {
            Some(unsigned_value(b, little, es[i], 0) as u16)
        } else {
            None
        }) by {
        lemma_first_entry_at(es, TAG_CALIBRATION_ILLUMINANT_1, i);
    }
    if tag_absent(es, TAG_CALIBRATION_ILLUMINANT_1) {
        lemma_first_entry_absent(es, TAG_CALIBRATION_ILLUMINANT_1);
    }
    assert forall|i: int| #[trigger] first_tagged(es, TAG_CALIBRATION_ILLUMINANT_2, i) implies layout_of(b, little, es).illuminant2
        == (if unsigned_type(es[i].field_type) && es[i].count == 1 && unsigned_value(
            b,
            little,
            es[i],
            0,
        ) <= u16::MAX {
            Some(unsigned_value(b, little, es[i], 0) as u16)
        } else {
            None
        }) by {
        lemma_first_entry_at(es, TAG_CALIBRATION_ILLUMINANT_2, i);
    }
    if tag_absent(es, TAG_CALIBRATION_ILLUMINANT_2) {
        lemma_first_entry_absent(es, TAG_CALIBRATION_ILLUMINANT_2);
    }
}

fn read_unsigned(b: &[u8], little: bool, e: DcpEntry, k: usize) -> (r: u32)
    requires
        unsigned_type(e.field_type),
        entry_in_file(e, b@.len()),
        k < e.count,
    ensures
        r == unsigned_value(b@, little, e, k as int),
{
    let _len = b.len();
    proof {
        assert(e.value_pos + type_size(e.field_type) * k + type_size(e.field_type) <= b@.len()) by (nonlinear_arith)
            requires
                e.value_pos + type_size(e.field_type) * e.count <= b@.len(),
                k < e.count,
        ;
    }
    if e.field_type == 1 {
        b[e.value_pos + k] as u32
    } else if e.field_type == 3 {
        read_u16(b, e.value_pos + 2 * k, little) as u32
    } else {
        read_u32(b, e.value_pos + 4 * k, little)
    }
}

fn entry_len(e: Option<DcpEntry>) -> (r: Option<usize>)
    ensures
        r == numeric_len(e),
{
    match e {
        Some(x) => {
            let t = x.field_type;
            if t == 1 || t == 3 || t == 4 || t == 5 || t == 6 || t == 8 || t == 9 || t == 10 || t == 11 || t == 12 {
                Some(x.count as usize)
            } else {
                None
            }
        },
        None => None,
    }
}

fn entry_dims(b: &[u8], little: bool, e: Option<DcpEntry>) -> (r: Option<LutDims>)
    requires
        e matches Some(x) ==> entry_in_file(x, b@.len()),
    ensures
        r == dims_of(b@, little, e),
{
    match e {
        Some(x) => if (x.field_type == 1 || x.field_type == 3 || x.field_type == 4) && x.count == 3 {
            Some(
                LutDims {
                    hue: read_unsigned(b, little, x, 0),
                    sat: read_unsigned(b, little, x, 1),
                    val: read_unsigned(b, little, x, 2),
                },
            )
        } else {
            None
        },
        None => None,
    }
}

fn entry_illuminant(b: &[u8], little: bool, e: Option<DcpEntry>) -> (r: Option<u16>)
    requires
        e matches Some(x) ==> entry_in_file(x, b@.len()),
    ensures
        r == illuminant_of(b@, little, e),
{
    match e {
        Some(x) => if (x.field_type == 1 || x.field_type == 3 || x.field_type == 4) && x.count == 1 {
            let v = read_unsigned(b, little, x, 0);
            if v <= u16::MAX as u32 {
                Some(v as u16)
            } else {
                None
            }
        } else {
            None
        },
        None => None,
    }
}

proof fn lemma_first_entry_member(es: Seq<DcpEntry>, tag: u16)
    ensures
        first_entry(es, tag) matches Some(e) ==> es.contains(e),
    decreases es.len(),
{
    if es.len() > 0 && es[0].tag != tag {
        lemma_first_entry_member(es.drop_first(), tag);
        if first_entry(es, tag) is Some {
            let e = first_entry(es, tag)->0;
            let j = choose|j: int| 0 <= j < es.drop_first().len() && es.drop_first()[j] == e;
            assert(es[j + 1] == e);
        }
    } else if es.len() > 0 {
        assert(es[0] == es[0]);
    }
}

impl DcpFile {
    /// The entry with tag `tag`, whose values lie inside the file.
    fn entry_in(&self, bytes: &[u8], tag: u16) -> (r: Option<DcpEntry>)
        requires
            forall|i: int| 0 <= i < self.entries@.len() ==> entry_in_file(#[trigger] self.entries@[i], bytes@.len()),
        ensures
            r == first_entry(self.entries@, tag),
            r matches Some(x) ==> entry_in_file(x, bytes@.len()),
    {
        let r = self.find_entry(tag);
        proof {
            lemma_first_entry_member(self.entries@, tag);
        }
        r
    }
}

/// What the pipeline needs of a profile whose first directory was read from
/// `bytes`: each tag's presence, value count and, for the table divisions and
/// light sources, values.
pub fn dcp_layout(bytes: &[u8], file: &DcpFile) -> (r: DcpLayout)
    requires
        dcp_file_spec(bytes@) == Some((file.little_endian, file.entries@)),
        forall|i: int| 0 <= i < file.entries@.len() ==> entry_in_file(#[trigger] file.entries@[i], bytes@.len()),
    ensures
        r == layout_of(bytes@, file.little_endian, file.entries@),
{
    let l = file.little_endian;
    DcpLayout {
        illuminant1: entry_illuminant(bytes, l, file.entry_in(bytes, TAG_CALIBRATION_ILLUMINANT_1)),
        illuminant2: entry_illuminant(bytes, l, file.entry_in(bytes, TAG_CALIBRATION_ILLUMINANT_2)),
        color_matrix1_len: entry_len(file.entry_in(bytes, TAG_COLOR_MATRIX_1)),
        color_matrix2_len: entry_len(file.entry_in(bytes, TAG_COLOR_MATRIX_2)),
        forward_matrix1_len: entry_len(file.entry_in(bytes, TAG_FORWARD_MATRIX_1)),
        forward_matrix2_len: entry_len(file.entry_in(bytes, TAG_FORWARD_MATRIX_2)),
        look_table_dims: entry_dims(bytes, l, file.entry_in(bytes, TAG_PROFILE_LOOK_TABLE_DIMS)),
        look_table_len: entry_len(file.entry_in(bytes, TAG_PROFILE_LOOK_TABLE_DATA)),
        map_dims: entry_dims(bytes, l, file.entry_in(bytes, TAG_PROFILE_HUE_SAT_MAP_DIMS)),
        hue_sat_map1_len: entry_len(file.entry_in(bytes, TAG_PROFILE_HUE_SAT_MAP_DATA_1)),
        hue_sat_map2_len: entry_len(file.entry_in(bytes, TAG_PROFILE_HUE_SAT_MAP_DATA_2)),
        tone_curve_len: entry_len(file.entry_in(bytes, TAG_PROFILE_TONE_CURVE)),
    }
}

/// Reads what the pipeline needs of a DCP profile from the file's bytes:
/// refused when the bytes hold no TIFF or DCP header with a first directory
/// inside the file, else the layout of that directory.
pub fn dcp_layout_from_bytes(bytes: &[u8]) -> (r: Result<DcpLayout, DcpLoadError>)
    ensures
        r == (match dcp_file_spec(bytes@) {
            Some((little, es)) => Ok::<DcpLayout, DcpLoadError>(layout_of(bytes@, little, es)),
            None => Err::<DcpLayout, DcpLoadError>(DcpLoadError::NotTiff),
        }),
{
    match parse_dcp(bytes) {
        Ok(file) => Ok(dcp_layout(bytes, &file)),
        Err(e) => Err(e),
    }
}

} // verus!
