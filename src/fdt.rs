//! The flattened device tree: header checks, locating the memory node's
//! `reg` property, and masking the memory size a guest is told about.
use vstd::prelude::*;

verus! {

pub const FDT_MAGIC: u32 = 0xd00d_feed;
/// Bytes in the header.
pub const HEADER_SIZE: u64 = 40;
/// The format version this reader understands.
pub const FDT_VERSION: u32 = 17;
/// A tree must be smaller than this before its offsets are trusted.
pub const MAX_TOTAL_SIZE: u32 = 0x1_0000;

pub const FDT_BEGIN_NODE: u32 = 1;
pub const FDT_END_NODE: u32 = 2;
pub const FDT_PROP: u32 = 3;
pub const FDT_NOP: u32 = 4;

/// Bytes of a memory `reg` property with two address and two size cells.
pub const REG_LEN: u32 = 16;

/// Why a device tree is refused.
#[derive(Clone, Copy, Debug, PartialEq, Eq, Structural)]
pub enum FdtError {
    /// The blob is shorter than its header or than the size it declares.
    Truncated,
    BadMagic,
    UnsupportedVersion,
    /// The declared total size is not below the safety ceiling.
    TooLarge,
    /// The structure or strings block lies outside the tree, over the
    /// header, or over the other block.
    BadLayout,
    /// No memory node with a two-cell `reg` property.
    NoMemoryNode,
}

/// The header fields this reader relies on.
#[derive(Clone, Copy, Debug, PartialEq, Eq, Structural)]
pub struct FdtHeader {
    pub magic: u32,
    pub total_size: u32,
    pub off_dt_struct: u32,
    pub off_dt_strings: u32,
    pub version: u32,
    pub last_comp_version: u32,
    pub size_dt_strings: u32,
    pub size_dt_struct: u32,
}

/// The big-endian 32-bit word at byte `i`.
pub open spec fn be32(b: Seq<u8>, i: int) -> u32 {
    (b[i] as int * 0x100_0000 + b[i + 1] as int * 0x1_0000 + b[i + 2] as int * 0x100 + b[i + 3] as int) as u32
}

/// The big-endian 64-bit word at byte `i`.
pub open spec fn be64(b: Seq<u8>, i: int) -> u64 {
    (b[i] as u64) << 56 | (b[i + 1] as u64) << 48 | (b[i + 2] as u64) << 40 | (b[i + 3] as u64) << 32
        | (b[i + 4] as u64) << 24 | (b[i + 5] as u64) << 16 | (b[i + 6] as u64) << 8 | (b[i + 7] as u64)
}

/// The eight bytes of `x`, most significant first.
pub open spec fn be64_bytes(x: u64) -> Seq<u8> {
    seq![
        (x >> 56) as u8,
        (x >> 48) as u8,
        (x >> 40) as u8,
        (x >> 32) as u8,
        (x >> 24) as u8,
        (x >> 16) as u8,
        (x >> 8) as u8,
        x as u8,
    ]
}

/// `b` with the eight bytes at `i` replaced by `x`, big-endian.
pub open spec fn write_be64(b: Seq<u8>, i: int, x: u64) -> Seq<u8> {
    b.subrange(0, i) + be64_bytes(x) + b.subrange(i + 8, b.len() as int)
}

/// The header as the first 40 bytes of `b` state it.
pub open spec fn header_of(b: Seq<u8>) -> FdtHeader {
    FdtHeader {
        magic: be32(b, 0),
        total_size: be32(b, 4),
        off_dt_struct: be32(b, 8),
        off_dt_strings: be32(b, 12),
        version: be32(b, 20),
        last_comp_version: be32(b, 24),
        size_dt_strings: be32(b, 32),
        size_dt_struct: be32(b, 36),
    }
}

impl FdtHeader {
    pub open spec fn struct_end(self) -> int {
        self.off_dt_struct + self.size_dt_struct
    }

    pub open spec fn strings_end(self) -> int {
        self.off_dt_strings + self.size_dt_strings
    }

    /// Both blocks lie inside the tree, after the header, and apart.
    pub open spec fn layout_ok(self) -> bool {
        &&& HEADER_SIZE <= self.off_dt_struct
        &&& self.struct_end() <= self.total_size
        &&& HEADER_SIZE <= self.off_dt_strings
        &&& self.strings_end() <= self.total_size
        &&& (self.struct_end() <= self.off_dt_strings || self.strings_end() <= self.off_dt_struct)
    }
}

/// The header of `b` if the tree may be read, else why not.
pub open spec fn check_spec(b: Seq<u8>) -> Result<FdtHeader, FdtError> {
    let h = header_of(b);
    if b.len() < HEADER_SIZE {
        Err(FdtError::Truncated)
    } else if h.magic != FDT_MAGIC {
        Err(FdtError::BadMagic)
    } else if h.version < FDT_VERSION || h.last_comp_version > FDT_VERSION {
        Err(FdtError::UnsupportedVersion)
    } else if h.total_size >= MAX_TOTAL_SIZE {
        Err(FdtError::TooLarge)
    } else if h.total_size > b.len() {
        Err(FdtError::Truncated)
    } else if !h.layout_ok() {
        Err(FdtError::BadLayout)
    } else {
        Ok(h)
    }
}

/// Reads the big-endian word at byte `i`.
pub fn read_be32(b: &Vec<u8>, i: usize) -> (r: u32)
    requires
        i + 4 <= b@.len(),
    ensures
        r == be32(b@, i as int),
{
    let _len: usize = b.len();
    (b[i] as u32) * 0x100_0000 + (b[i + 1] as u32) * 0x1_0000 + (b[i + 2] as u32) * 0x100 + (b[i + 3] as u32)
}

/// Checks the header of the tree in `b`: magic number, a version this
/// reader understands, a total size below the ceiling and inside `b`, and
/// blocks that lie where they may.
pub fn check_header(b: &Vec<u8>) -> (r: Result<FdtHeader, FdtError>)
    ensures
        r == check_spec(b@),
{
    if b.len() < HEADER_SIZE as usize {
        return Err(FdtError::Truncated);
    }
    let h = FdtHeader {
        magic: read_be32(b, 0),
        total_size: read_be32(b, 4),
        off_dt_struct: read_be32(b, 8),
        off_dt_strings: read_be32(b, 12),
        version: read_be32(b, 20),
        last_comp_version: read_be32(b, 24),
        size_dt_strings: read_be32(b, 32),
        size_dt_struct: read_be32(b, 36),
    };
    if h.magic != FDT_MAGIC {
        Err(FdtError::BadMagic)
    } else if h.version < FDT_VERSION || h.last_comp_version > FDT_VERSION {
        Err(FdtError::UnsupportedVersion)
    } else if h.total_size >= MAX_TOTAL_SIZE {
        Err(FdtError::TooLarge)
    } else if h.total_size as usize > b.len() {
        Err(FdtError::Truncated)
    } else {
        let se: u64 = h.off_dt_struct as u64 + h.size_dt_struct as u64;
        let te: u64 = h.off_dt_strings as u64 + h.size_dt_strings as u64;
        let total: u64 = h.total_size as u64;
        if HEADER_SIZE <= h.off_dt_struct as u64 && se <= total && HEADER_SIZE <= h.off_dt_strings as u64 && te <= total
            && (se <= h.off_dt_strings as u64 || te <= h.off_dt_struct as u64) {
            Ok(h)
        } else {
            Err(FdtError::BadLayout)
        }
    }
}

/// `x` rounded up to a multiple of four.
pub open spec fn align4(x: int) -> int {
    x + (4 - x % 4) % 4
}

/// Index of the first zero byte in `[i, end)`.
pub open spec fn nul_from(b: Seq<u8>, i: int, end: int) -> Option<int>
    decreases end - i,
{
    if i >= end {
        None
    } else if b[i] == 0 {
        Some(i)
    } else {
        nul_from(b, i + 1, end)
    }
}

/// The bytes of `pat` stand at `i`, before `end`.
pub open spec fn bytes_at(b: Seq<u8>, i: int, end: int, pat: Seq<u8>) -> bool {
    &&& i + pat.len() <= end
    &&& forall|k: int| 0 <= k < pat.len() ==> #[trigger] b[i + k] == pat[k]
}

/// A pattern for a node or property name: no zero byte but possibly the
/// last, so a zero at its end asks for the whole name rather than a prefix.
pub open spec fn name_pattern(pat: Seq<u8>) -> bool {
    forall|k: int| 0 <= k < pat.len() - 1 ==> #[trigger] pat[k] != 0
}

/// Walks the structure block from the token at `pos` (before `end`), at
/// nesting `depth`, `in_node` telling whether the current node is a child
/// of the root whose name starts with `node`. Gives the offset of the value
/// of the first property of such a node named `prop` and at least `min_len`
/// bytes long; none if the walk ends, or meets a token it cannot read,
/// first. Property names are looked up in the strings block `[ss, se)`.
pub open spec fn find_prop(
    b: Seq<u8>,
    ss: int,
    se: int,
    node: Seq<u8>,
    prop: Seq<u8>,
    min_len: int,
    pos: int,
    end: int,
    depth: int,
    in_node: bool,
) -> Option<int>
    decreases end - pos,
{
    if pos < 0 || pos + 4 > end {
        None
    } else {
        let t = be32(b, pos);
        if t == FDT_BEGIN_NODE {
            match nul_from(b, pos + 4, end) {
                None => None,
                Some(n) => if pos < align4(n + 1) <= end {
                    find_prop(b, ss, se, node, prop, min_len, align4(n + 1), end, depth + 1,
                        depth == 1 && bytes_at(b, pos + 4, end, node))
                } else {
                    None
                },
            }
        } else if t == FDT_END_NODE {
            if depth == 0 {
                None
            } else {
                find_prop(b, ss, se, node, prop, min_len, pos + 4, end, depth - 1, false)
            }
        } else if t == FDT_PROP {
            if pos + 12 > end {
                None
            } else {
                let len = be32(b, pos + 4);
                let name = ss + be32(b, pos + 8);
                if pos + 12 + len > end {
                    None
                } else if in_node && len >= min_len && bytes_at(b, name, se, prop) {
                    Some(pos + 12)
                } else if pos < align4(pos + 12 + len) <= end {
                    find_prop(b, ss, se, node, prop, min_len, align4(pos + 12 + len), end, depth, in_node)
                } else {
                    None
                }
            }
        } else if t == FDT_NOP {
            find_prop(b, ss, se, node, prop, min_len, pos + 4, end, depth, in_node)
        } else {
            None
        }
    }
}

/// The first property named `prop`, at least `min_len` bytes long, of a
/// child of the root whose name starts with `node`, in the tree `b` whose
/// header is `h`: the offset of its value.
pub open spec fn prop_spec(b: Seq<u8>, h: FdtHeader, node: Seq<u8>, prop: Seq<u8>, min_len: int) -> Option<int> {
    find_prop(b, h.off_dt_strings as int, h.strings_end(), node, prop, min_len, h.off_dt_struct as int, h.struct_end(), 0, false)
}

/// `memory`: the name prefix of memory nodes.
pub open spec fn memory_node() -> Seq<u8> {
    seq![0x6du8, 0x65, 0x6d, 0x6f, 0x72, 0x79]
}

/// `reg`, with its terminating zero.
pub open spec fn reg_prop() -> Seq<u8> {
    seq![0x72u8, 0x65, 0x67, 0]
}

/// `chosen`, with its terminating zero: the whole node name.
pub open spec fn chosen_node() -> Seq<u8> {
    seq![0x63u8, 0x68, 0x6f, 0x73, 0x65, 0x6e, 0]
}

/// `linux,initrd-` followed by `tail`.
pub open spec fn initrd_prop(tail: Seq<u8>) -> Seq<u8> {
    seq![0x6cu8, 0x69, 0x6e, 0x75, 0x78, 0x2c, 0x69, 0x6e, 0x69, 0x74, 0x72, 0x64, 0x2d] + tail
}

/// `linux,initrd-start`, with its terminating zero.
pub open spec fn initrd_start_prop() -> Seq<u8> {
    initrd_prop(seq![0x73u8, 0x74, 0x61, 0x72, 0x74, 0])
}

/// `linux,initrd-end`, with its terminating zero.
pub open spec fn initrd_end_prop() -> Seq<u8> {
    initrd_prop(seq![0x65u8, 0x6e, 0x64, 0])
}

/// The address held by the property whose value is at `v`: one cell, or two
/// where the value is at least eight bytes long.
pub open spec fn cell_spec(b: Seq<u8>, v: int) -> u64 {
    if be32(b, v - 8) >= 8 {
        be64(b, v)
    } else {
        be32(b, v) as u64
    }
}

/// Start and end of the initrd that the tree's `/chosen` node names; none
/// where it names no initrd.
pub open spec fn initrd_spec(b: Seq<u8>) -> Result<Option<(u64, u64)>, FdtError> {
    match check_spec(b) {
        Err(e) => Err(e),
        Ok(h) => match (prop_spec(b, h, chosen_node(), initrd_start_prop(), 4), prop_spec(b, h, chosen_node(), initrd_end_prop(), 4)) {
            (Some(x), Some(y)) => Ok(Some((cell_spec(b, x), cell_spec(b, y)))),
            _ => Ok(None),
        },
    }
}

/// Offset of the value of the memory node's `reg` property in the tree `b`
/// whose header is `h`.
pub open spec fn memory_reg_spec(b: Seq<u8>, h: FdtHeader) -> Option<int> {
    prop_spec(b, h, memory_node(), reg_prop(), REG_LEN as int)
}

fn nul_index(b: &Vec<u8>, start: u64, end: u64) -> (r: Option<u64>)
    requires
        end <= b@.len(),
    ensures
        r matches Some(n) ==> nul_from(b@, start as int, end as int) == Some(n as int),
        r is None ==> nul_from(b@, start as int, end as int) is None,
        r matches Some(n) ==> start <= n < end && b@[n as int] == 0,
        r matches Some(n) ==> forall|k: int| start <= k < n ==> b@[k] != 0,
{
    let blen: usize = b.len();
    assert(end <= blen);
    let mut i: u64 = start;
    while i < end
        invariant
            start <= i,
            end <= b@.len(),
            b@.len() <= usize::MAX,
            nul_from(b@, start as int, end as int) == nul_from(b@, i as int, end as int),
            forall|k: int| start <= k < i ==> b@[k] != 0,
        decreases end - i,
    {
        assert(nul_from(b@, i as int, end as int) == if b@[i as int] == 0 {
            Some(i as int)
        } else {
            nul_from(b@, i + 1, end as int)
        });
        if b[i as usize] == 0 {
            return Some(i);
        }
        i = i + 1;
    }
    None
}

fn align_up4(x: u64) -> (r: u64)
    requires
        x <= 0xffff_ffff_ffff,
    ensures
        r == align4(x as int),
        x <= r <= x + 3,
{
    x + (4 - x % 4) % 4
}

/// Tells whether the bytes of `pat` stand at `i`, before `end`.
fn bytes_match(b: &Vec<u8>, i: u64, end: u64, pat: &Vec<u8>) -> (r: bool)
    requires
        end <= b@.len(),
    ensures
        r == bytes_at(b@, i as int, end as int, pat@),
{
    let _len: usize = b.len();
    if i > end || (pat.len() as u64) > end - i {
        return false;
    }
    let mut k: usize = 0;
    while k < pat.len()
        invariant
            i + pat@.len() <= end,
            end <= b@.len(),
            b@.len() <= usize::MAX,
            k <= pat@.len(),
            forall|j: int| 0 <= j < k ==> #[trigger] b@[i + j] == pat@[j],
        decreases pat@.len() - k,
    {
        if b[i as usize + k] != pat[k] {
            assert(b@[i + k] != pat@[k as int]);
            return false;
        }
        k = k + 1;
    }
    true
}

/// Finds the first property named `prop`, at least `min_len` bytes long,
/// of a child of the root whose name starts with `node`, in the tree `b`
/// whose header `h` has been checked; gives the offset of its value.
pub fn find_property(b: &Vec<u8>, h: FdtHeader, node: &Vec<u8>, prop: &Vec<u8>, min_len: u32) -> (r: Option<u64>)
    requires
        check_spec(b@) == Ok::<FdtHeader, FdtError>(h),
    ensures
        r matches Some(v) ==> prop_spec(b@, h, node@, prop@, min_len as int) == Some(v as int),
        r is None ==> prop_spec(b@, h, node@, prop@, min_len as int) is None,
        r matches Some(v) ==> h.off_dt_struct + 12 <= v && v + min_len <= h.struct_end(),
        r matches Some(v) ==> v + be32(b@, v - 8) <= h.struct_end(),
{
    let blen: usize = b.len();
    assert(h.total_size <= blen);
    let ss: u64 = h.off_dt_strings as u64;
    let se: u64 = ss + h.size_dt_strings as u64;
    let end: u64 = h.off_dt_struct as u64 + h.size_dt_struct as u64;
    let mut pos: u64 = h.off_dt_struct as u64;
    let mut depth: u64 = 0;
    let mut in_node: bool = false;
    while pos + 4 <= end
        invariant
            end == h.struct_end(),
            se == h.strings_end(),
            ss == h.off_dt_strings,
            end <= b@.len(),
            se <= b@.len(),
            b@.len() <= usize::MAX,
            end < 0x1_0000,
            pos <= end + 3,
            depth <= pos,
            h.off_dt_struct <= pos,
            prop_spec(b@, h, node@, prop@, min_len as int) == find_prop(b@, ss as int, se as int, node@, prop@,
                min_len as int, pos as int, end as int, depth as int, in_node),
        decreases end + 4 - pos,
    {
        let t = read_be32(b, pos as usize);
        if t == FDT_BEGIN_NODE {
            match nul_index(b, pos + 4, end) {
                None => return None,
                Some(n) => {
                    let named = depth == 1 && bytes_match(b, pos + 4, end, node);
                    pos = align_up4(n + 1);
                    depth = depth + 1;
                    in_node = named;
                },
            }
        } else if t == FDT_END_NODE {
            if depth == 0 {
                return None;
            }
            pos = pos + 4;
            depth = depth - 1;
            in_node = false;
        } else if t == FDT_PROP {
            if pos + 12 > end {
                return None;
            }
            let len = read_be32(b, pos as usize + 4) as u64;
            let name: u64 = ss + read_be32(b, pos as usize + 8) as u64;
            if pos + 12 + len > end {
                return None;
            }
            if in_node && len >= min_len as u64 && bytes_match(b, name, se, prop) {
                return Some(pos + 12);
            }
            pos = align_up4(pos + 12 + len);
        } else if t == FDT_NOP {
            pos = pos + 4;
        } else {
            return None;
        }
    }
    None
}

fn memory_node_name() -> (r: Vec<u8>)
    ensures
        r@ == memory_node(),
{
    let r = vec![0x6du8, 0x65, 0x6d, 0x6f, 0x72, 0x79];
    assert(r@ =~= memory_node());
    r
}

fn reg_prop_name() -> (r: Vec<u8>)
    ensures
        r@ == reg_prop(),
{
    let r = vec![0x72u8, 0x65, 0x67, 0];
    assert(r@ =~= reg_prop());
    r
}

fn chosen_node_name() -> (r: Vec<u8>)
    ensures
        r@ == chosen_node(),
{
    let r = vec![0x63u8, 0x68, 0x6f, 0x73, 0x65, 0x6e, 0];
    assert(r@ =~= chosen_node());
    r
}

fn initrd_start_name() -> (r: Vec<u8>)
    ensures
        r@ == initrd_start_prop(),
{
    let r = vec![0x6cu8, 0x69, 0x6e, 0x75, 0x78, 0x2c, 0x69, 0x6e, 0x69, 0x74, 0x72, 0x64, 0x2d, 0x73, 0x74, 0x61, 0x72, 0x74, 0];
    assert(r@ =~= initrd_start_prop());
    r
}

fn initrd_end_name() -> (r: Vec<u8>)
    ensures
        r@ == initrd_end_prop(),
{
    let r = vec![0x6cu8, 0x69, 0x6e, 0x75, 0x78, 0x2c, 0x69, 0x6e, 0x69, 0x74, 0x72, 0x64, 0x2d, 0x65, 0x6e, 0x64, 0];
    assert(r@ =~= initrd_end_prop());
    r
}

/// Reads the address held by the property whose value, at least four bytes
/// long, is at `v`.
fn read_cell(b: &Vec<u8>, v: u64) -> (r: u64)
    requires
        8 <= v,
        v + 4 <= b@.len(),
        v + be32(b@, v - 8) <= b@.len(),
    ensures
        r == cell_spec(b@, v as int),
{
    let _len: usize = b.len();
    if read_be32(b, v as usize - 8) >= 8 {
        read_be64(b, v as usize)
    } else {
        read_be32(b, v as usize) as u64
    }
}

/// Reads the start and end of the initrd that the tree `b` names in its
/// `/chosen` node, if it names one.
pub fn initrd_range(b: &Vec<u8>) -> (r: Result<Option<(u64, u64)>, FdtError>)
    ensures
        r == initrd_spec(b@),
{
    let h = match check_header(b) {
        Ok(h) => h,
        Err(e) => return Err(e),
    };
    let chosen = chosen_node_name();
    let start = find_property(b, h, &chosen, &initrd_start_name(), 4);
    let end = find_property(b, h, &chosen, &initrd_end_name(), 4);
    match (start, end) {
        (Some(x), Some(y)) => Ok(Some((read_cell(b, x), read_cell(b, y)))),
        _ => Ok(None),
    }
}

/// Finds the value of the memory node's `reg` property in the tree `b`
/// whose header `h` has been checked.
pub fn memory_reg(b: &Vec<u8>, h: FdtHeader) -> (r: Option<u64>)
    requires
        check_spec(b@) == Ok::<FdtHeader, FdtError>(h),
    ensures
        r matches Some(v) ==> memory_reg_spec(b@, h) == Some(v as int),
        r is None ==> memory_reg_spec(b@, h) is None,
        r matches Some(v) ==> h.off_dt_struct + 12 <= v && v + REG_LEN <= h.struct_end(),
{
    find_property(b, h, &memory_node_name(), &reg_prop_name(), REG_LEN)
}

/// The tree `b` with its memory size cut down to at most `extent`, or why
/// the tree cannot be masked.
pub open spec fn mask_spec(b: Seq<u8>, extent: u64) -> Result<Seq<u8>, FdtError> {
    match check_spec(b) {
        Err(e) => Err(e),
        Ok(h) => match memory_reg_spec(b, h) {
            None => Err(FdtError::NoMemoryNode),
            Some(v) => {
                let size = be64(b, v + 8);
                Ok(write_be64(b, v + 8, if size <= extent { size } else { extent }))
            },
        },
    }
}

/// Base and size of the memory the tree `b` declares.
pub open spec fn memory_spec(b: Seq<u8>) -> Result<(u64, u64), FdtError> {
    match check_spec(b) {
        Err(e) => Err(e),
        Ok(h) => match memory_reg_spec(b, h) {
            None => Err(FdtError::NoMemoryNode),
            Some(v) => Ok((be64(b, v), be64(b, v + 8))),
        },
    }
}

/// Reads the big-endian 64-bit word at byte `i`.
pub fn read_be64(b: &Vec<u8>, i: usize) -> (r: u64)
    requires
        i + 8 <= b@.len(),
    ensures
        r == be64(b@, i as int),
{
    let _len: usize = b.len();
    (b[i] as u64) << 56 | (b[i + 1] as u64) << 48 | (b[i + 2] as u64) << 40 | (b[i + 3] as u64) << 32
        | (b[i + 4] as u64) << 24 | (b[i + 5] as u64) << 16 | (b[i + 6] as u64) << 8 | (b[i + 7] as u64)
}

/// Writes `x` big-endian into the eight bytes at `i`.
pub fn write_be64_at(b: &mut Vec<u8>, i: usize, x: u64)
    requires
        i + 8 <= old(b)@.len(),
    ensures
        final(b)@ == write_be64(old(b)@, i as int, x),
{
    let _len: usize = b.len();
    b.set(i, (x >> 56) as u8);
    b.set(i + 1, (x >> 48) as u8);
    b.set(i + 2, (x >> 40) as u8);
    b.set(i + 3, (x >> 32) as u8);
    b.set(i + 4, (x >> 24) as u8);
    b.set(i + 5, (x >> 16) as u8);
    b.set(i + 6, (x >> 8) as u8);
    b.set(i + 7, x as u8);
    assert(b@ =~= write_be64(old(b)@, i as int, x));
}

/// Reads the base and size of the memory the tree `b` declares.
pub fn memory_region(b: &Vec<u8>) -> (r: Result<(u64, u64), FdtError>)
    ensures
        r == memory_spec(b@),
{
    let h = match check_header(b) {
        Ok(h) => h,
        Err(e) => return Err(e),
    };
    match memory_reg(b, h) {
        None => Err(FdtError::NoMemoryNode),
        Some(v) => Ok((read_be64(b, v as usize), read_be64(b, v as usize + 8))),
    }
}

/// Cuts the memory size the tree in `b` declares down to at most `extent`,
/// so that a guest never learns of memory beyond its own. Leaves `b` as it
/// was where the tree is refused.
pub fn mask_memory(b: &mut Vec<u8>, extent: u64) -> (r: Result<(), FdtError>)
    ensures
        match mask_spec(old(b)@, extent) {
            Ok(m) => r is Ok && final(b)@ == m,
            Err(e) => r == Err::<(), FdtError>(e) && final(b)@ == old(b)@,
        },
{
    let h = match check_header(b) {
        Ok(h) => h,
        Err(e) => return Err(e),
    };
    match memory_reg(b, h) {
        None => Err(FdtError::NoMemoryNode),
        Some(v) => {
            let at: usize = v as usize + 8;
            let size = read_be64(b, at);
            let masked = if size <= extent { size } else { extent };
            write_be64_at(b, at, masked);
            Ok(())
        },
    }
}

proof fn lemma_be64_bytes(x: u64)
    ensures
        be64(be64_bytes(x), 0) == x,
{
    let s = be64_bytes(x);
    assert(((x >> 56) as u8 as u64) << 56 | ((x >> 48) as u8 as u64) << 48 | ((x >> 40) as u8 as u64) << 40
        | ((x >> 32) as u8 as u64) << 32 | ((x >> 24) as u8 as u64) << 24 | ((x >> 16) as u8 as u64) << 16
        | ((x >> 8) as u8 as u64) << 8 | (x as u8 as u64) == x) by (bit_vector);
}

proof fn lemma_write_be64(b: Seq<u8>, i: int, x: u64)
    requires
        0 <= i,
        i + 8 <= b.len(),
    ensures
        write_be64(b, i, x).len() == b.len(),
        be64(write_be64(b, i, x), i) == x,
        forall|j: int| 0 <= j < b.len() && !(i <= j < i + 8) ==> #[trigger] write_be64(b, i, x)[j] == b[j],
{
    let w = write_be64(b, i, x);
    let s = be64_bytes(x);
    lemma_be64_bytes(x);
    assert forall|k: int| 0 <= k < 8 implies w[i + k] == s[k] by {}
    assert(be64(w, i) == be64(s, 0));
}

/// `b1` and `b2` hold the same bytes in `[lo, hi)`.
pub open spec fn agree(b1: Seq<u8>, b2: Seq<u8>, lo: int, hi: int) -> bool {
    forall|i: int| lo <= i < hi ==> b1[i] == b2[i]
}

proof fn lemma_nul_frame(b1: Seq<u8>, b2: Seq<u8>, i: int, end: int, lim: int)
    requires
        agree(b1, b2, i, lim),
        end <= lim || (nul_from(b1, i, end) matches Some(n) && n < lim),
    ensures
        nul_from(b1, i, end) == nul_from(b2, i, end),
        nul_from(b1, i, end) matches Some(n) ==> i <= n < end && b1[n] == 0 && forall|k: int| i <= k < n ==> b1[k] != 0,
    decreases end - i,
{
    if i < end && b1[i] != 0 {
        lemma_nul_frame(b1, b2, i + 1, end, lim);
    }
}

/// A found value starts after its property's header and lies, with at
/// least `min_len` bytes, inside the walked block.
proof fn lemma_find_prop_bounds(
    b: Seq<u8>,
    ss: int,
    se: int,
    node: Seq<u8>,
    prop: Seq<u8>,
    min_len: int,
    pos: int,
    end: int,
    depth: int,
    in_node: bool,
)
    ensures
        find_prop(b, ss, se, node, prop, min_len, pos, end, depth, in_node) matches Some(v) ==> pos + 12 <= v
            && v + min_len <= end && v + be32(b, v - 8) <= end,
    decreases end - pos,
{
    if 0 <= pos && pos + 4 <= end {
        let t = be32(b, pos);
        if t == FDT_BEGIN_NODE {
            if let Some(n) = nul_from(b, pos + 4, end) {
                if pos < align4(n + 1) <= end {
                    lemma_find_prop_bounds(b, ss, se, node, prop, min_len, align4(n + 1), end, depth + 1,
                        depth == 1 && bytes_at(b, pos + 4, end, node));
                }
            }
        } else if t == FDT_END_NODE {
            if depth != 0 {
                lemma_find_prop_bounds(b, ss, se, node, prop, min_len, pos + 4, end, depth - 1, false);
            }
        } else if t == FDT_PROP {
            if pos + 12 <= end {
                let len = be32(b, pos + 4);
                if pos < align4(pos + 12 + len) <= end {
                    lemma_find_prop_bounds(b, ss, se, node, prop, min_len, align4(pos + 12 + len), end, depth, in_node);
                }
            }
        } else if t == FDT_NOP {
            lemma_find_prop_bounds(b, ss, se, node, prop, min_len, pos + 4, end, depth, in_node);
        }
    }
}

/// The walk reads only the bytes before what it finds (before the end of
/// the block if it finds nothing) and the strings block: another blob that
/// agrees there walks the same.
proof fn lemma_find_prop_frame(
    b1: Seq<u8>,
    b2: Seq<u8>,
    ss: int,
    se: int,
    node: Seq<u8>,
    prop: Seq<u8>,
    min_len: int,
    pos: int,
    end: int,
    depth: int,
    in_node: bool,
    lim: int,
)
    requires
        0 <= pos,
        0 <= ss,
        name_pattern(node),
        agree(b1, b2, pos, lim),
        agree(b1, b2, ss, se),
        find_prop(b1, ss, se, node, prop, min_len, pos, end, depth, in_node) matches Some(v) ==> v <= lim,
        find_prop(b1, ss, se, node, prop, min_len, pos, end, depth, in_node) is None ==> end <= lim,
    ensures
        find_prop(b1, ss, se, node, prop, min_len, pos, end, depth, in_node) == find_prop(b2, ss, se, node, prop,
            min_len, pos, end, depth, in_node),
    decreases end - pos,
{
    lemma_find_prop_bounds(b1, ss, se, node, prop, min_len, pos, end, depth, in_node);
    if pos + 4 <= end {
        assert(be32(b1, pos) == be32(b2, pos));
        let t = be32(b1, pos);
        if t == FDT_BEGIN_NODE {
            let r1 = find_prop(b1, ss, se, node, prop, min_len, pos, end, depth, in_node);
            if nul_from(b1, pos + 4, end) is None {
                lemma_nul_frame(b1, b2, pos + 4, end, end);
            } else {
                let n = nul_from(b1, pos + 4, end)->0;
                let named = bytes_at(b1, pos + 4, end, node);
                if r1 is None {
                    lemma_nul_frame(b1, b2, pos + 4, end, end);
                } else {
                    lemma_find_prop_bounds(b1, ss, se, node, prop, min_len, align4(n + 1), end, depth + 1,
                        depth == 1 && named);
                    lemma_nul_frame(b1, b2, pos + 4, end, lim);
                }
                assert(named == bytes_at(b2, pos + 4, end, node)) by {
                    if pos + 4 + node.len() <= n + 1 {
                        assert forall|k: int| 0 <= k < node.len() implies #[trigger] b1[pos + 4 + k] == b2[pos + 4 + k] by {}
                    } else if pos + 4 + node.len() <= end {
                        let k0 = n - (pos + 4);
                        assert(node[k0] != 0);
                        assert(b1[pos + 4 + k0] == 0);
                        assert(b2[pos + 4 + k0] == 0);
                    }
                }
                if pos < align4(n + 1) <= end {
                    lemma_find_prop_frame(b1, b2, ss, se, node, prop, min_len, align4(n + 1), end, depth + 1,
                        depth == 1 && named, lim);
                }
            }
        } else if t == FDT_END_NODE {
            if depth != 0 {
                lemma_find_prop_frame(b1, b2, ss, se, node, prop, min_len, pos + 4, end, depth - 1, false, lim);
            }
        } else if t == FDT_PROP {
            if pos + 12 <= end {
                assert(be32(b1, pos + 4) == be32(b2, pos + 4));
                assert(be32(b1, pos + 8) == be32(b2, pos + 8));
                let len = be32(b1, pos + 4);
                let name = ss + be32(b1, pos + 8);
                assert(bytes_at(b1, name, se, prop) == bytes_at(b2, name, se, prop)) by {
                    if name + prop.len() <= se {
                        assert forall|k: int| 0 <= k < prop.len() implies #[trigger] b1[name + k] == b2[name + k] by {}
                    }
                }
                let found = in_node && len >= min_len && bytes_at(b1, name, se, prop);
                if !found && pos + 12 + len <= end && pos < align4(pos + 12 + len) <= end {
                    lemma_find_prop_frame(b1, b2, ss, se, node, prop, min_len, align4(pos + 12 + len), end, depth,
                        in_node, lim);
                }
            }
        } else if t == FDT_NOP {
            lemma_find_prop_frame(b1, b2, ss, se, node, prop, min_len, pos + 4, end, depth, in_node, lim);
        }
    }
}

/// What masking leaves where: the header, and everything but the eight size
/// bytes, are unchanged, and the memory node is found where it was.
proof fn lemma_mask_frame(b: Seq<u8>, extent: u64)
    requires
        mask_spec(b, extent) is Ok,
    ensures
        ({
            let h = check_spec(b)->Ok_0;
            let v = memory_reg_spec(b, h)->0;
            let b1 = mask_spec(b, extent)->Ok_0;
            &&& h.off_dt_struct + 12 <= v && v + REG_LEN <= h.struct_end()
            &&& b1.len() == b.len()
            &&& forall|j: int| 0 <= j < b.len() && !(v + 8 <= j < v + 16) ==> #[trigger] b1[j] == b[j]
            &&& check_spec(b1) == check_spec(b)
            &&& memory_reg_spec(b1, h) == Some(v)
            &&& be64(b1, v + 8) == (if be64(b, v + 8) <= extent { be64(b, v + 8) } else { extent })
        }),
{
    let h = check_spec(b)->Ok_0;
    let v = memory_reg_spec(b, h)->0;
    let size = be64(b, v + 8);
    let m = if size <= extent { size } else { extent };
    let b1 = write_be64(b, v + 8, m);
    let ss = h.off_dt_strings as int;
    let se = h.strings_end();
    lemma_find_prop_bounds(b, ss, se, memory_node(), reg_prop(), REG_LEN as int, h.off_dt_struct as int, h.struct_end(), 0, false);
    lemma_write_be64(b, v + 8, m);
    assert(agree(b, b1, 0, 40));
    assert(header_of(b1) == header_of(b));
    assert(agree(b, b1, h.off_dt_struct as int, v));
    assert(agree(b, b1, ss, se));
    assert(name_pattern(memory_node()));
    lemma_find_prop_frame(b, b1, ss, se, memory_node(), reg_prop(), REG_LEN as int, h.off_dt_struct as int, h.struct_end(), 0, false, v);
}

/// Masking a tree's memory size to an extent twice gives what masking it
/// once gives.
pub proof fn lemma_mask_idempotent(b: Seq<u8>, extent: u64)
    ensures
        mask_spec(b, extent) matches Ok(b1) ==> mask_spec(b1, extent) == mask_spec(b, extent),
{
    if mask_spec(b, extent) is Ok {
        lemma_mask_frame(b, extent);
        let h = check_spec(b)->Ok_0;
        let v = memory_reg_spec(b, h)->0;
        let b1 = mask_spec(b, extent)->Ok_0;
        let m = be64(b1, v + 8);
        assert(write_be64(b1, v + 8, m) =~= b1) by {
            lemma_write_be64(b1, v + 8, m);
            assert forall|j: int| 0 <= j < b1.len() implies #[trigger] write_be64(b1, v + 8, m)[j] == b1[j] by {
                if v + 8 <= j < v + 16 {
                    assert(b1 == write_be64(b, v + 8, m));
                }
            }
        }
    }
}

/// Masking a tree to an extent smaller than the memory size it declares
/// makes the declared size that extent, keeps the declared base, and
/// changes no other byte.
pub proof fn lemma_mask_reduces(b: Seq<u8>, extent: u64)
    requires
        memory_spec(b) matches Ok(mem) && extent < mem.1,
    ensures
        mask_spec(b, extent) matches Ok(b1) && memory_spec(b1) == Ok::<(u64, u64), FdtError>((memory_spec(b)->Ok_0.0, extent)),
        mask_spec(b, extent) matches Ok(b1) && b1.len() == b.len(),
        ({
            let v = memory_reg_spec(b, check_spec(b)->Ok_0)->0;
            forall|j: int| 0 <= j < b.len() && !(v + 8 <= j < v + 16) ==> #[trigger] (mask_spec(b, extent)->Ok_0)[j] == b[j]
        }),
{
    lemma_mask_frame(b, extent);
    let h = check_spec(b)->Ok_0;
    let v = memory_reg_spec(b, h)->0;
    let b1 = mask_spec(b, extent)->Ok_0;
    assert(be64(b1, v) == be64(b, v));
}

/// The tree's size field bounds what the reader looks at: a copy of the
/// first `total_size` bytes, wherever it is placed, passes the same checks
/// and yields the same memory region and initrd range as the tree it was
/// copied from.
pub proof fn lemma_copy_reparses(b: Seq<u8>)
    requires
        check_spec(b) is Ok,
    ensures
        check_spec(b.subrange(0, check_spec(b)->Ok_0.total_size as int)) == check_spec(b),
        memory_spec(b.subrange(0, check_spec(b)->Ok_0.total_size as int)) == memory_spec(b),
        initrd_spec(b.subrange(0, check_spec(b)->Ok_0.total_size as int)) == initrd_spec(b),
{
    let h = check_spec(b)->Ok_0;
    let c = b.subrange(0, h.total_size as int);
    let ss = h.off_dt_strings as int;
    let se = h.strings_end();
    assert(header_of(c) == header_of(b));
    assert(agree(b, c, h.off_dt_struct as int, h.struct_end()));
    assert(agree(b, c, ss, se));
    assert(name_pattern(memory_node()));
    lemma_find_prop_bounds(b, ss, se, memory_node(), reg_prop(), REG_LEN as int, h.off_dt_struct as int, h.struct_end(), 0, false);
    lemma_find_prop_frame(b, c, ss, se, memory_node(), reg_prop(), REG_LEN as int, h.off_dt_struct as int, h.struct_end(), 0, false, h.struct_end());
    if memory_reg_spec(b, h) is Some {
        let v = memory_reg_spec(b, h)->0;
        assert(be64(c, v) == be64(b, v));
        assert(be64(c, v + 8) == be64(b, v + 8));
    }
    lemma_copy_same_prop(b, c, h, initrd_start_prop());
    lemma_copy_same_prop(b, c, h, initrd_end_prop());
}

proof fn lemma_copy_same_prop(b: Seq<u8>, c: Seq<u8>, h: FdtHeader, prop: Seq<u8>)
    requires
        check_spec(b) == Ok::<FdtHeader, FdtError>(h),
        c == b.subrange(0, h.total_size as int),
    ensures
        prop_spec(c, h, chosen_node(), prop, 4) == prop_spec(b, h, chosen_node(), prop, 4),
        prop_spec(b, h, chosen_node(), prop, 4) matches Some(v) ==> cell_spec(c, v) == cell_spec(b, v),
{
    let ss = h.off_dt_strings as int;
    let se = h.strings_end();
    let node = chosen_node();
    assert(name_pattern(node));
    assert(agree(b, c, h.off_dt_struct as int, h.struct_end()));
    assert(agree(b, c, ss, se));
    lemma_find_prop_bounds(b, ss, se, node, prop, 4, h.off_dt_struct as int, h.struct_end(), 0, false);
    lemma_find_prop_frame(b, c, ss, se, node, prop, 4, h.off_dt_struct as int, h.struct_end(), 0, false, h.struct_end());
    if prop_spec(b, h, node, prop, 4) is Some {
        let v = prop_spec(b, h, node, prop, 4)->0;
        assert(be32(c, v - 8) == be32(b, v - 8));
        assert(be32(c, v) == be32(b, v));
        if be32(b, v - 8) >= 8 {
            assert(be64(c, v) == be64(b, v));
        }
    }
}

} // verus!
