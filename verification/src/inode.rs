//! Inode records: decoding, the mode word, and the block map that turns a
//! file byte offset into a fragment of the device (or a hole).
use vstd::prelude::*;
use crate::bytes::le16;
use crate::bytes::le32;
use crate::bytes::le64;
use crate::bytes::read_u16;
use crate::bytes::read_u32;
use crate::bytes::read_u64;
use crate::fs::FileSystem;
use crate::sblock::SuperBlock;
use vstd::arithmetic::power2::pow2;
use vstd::arithmetic::power2::lemma_pow2_pos;
use vstd::arithmetic::power2::lemma_pow2_strictly_increases;
use vstd::arithmetic::power2::lemma2_to64;
use vstd::arithmetic::power::pow;
use vstd::arithmetic::power::lemma_pow_positive;
use vstd::arithmetic::div_mod::lemma_mod_division_less_than_divisor;
use vstd::arithmetic::div_mod::lemma_div_nonincreasing;
use vstd::arithmetic::div_mod::lemma_div_pos_is_pos;
use vstd::arithmetic::div_mod::lemma_fundamental_div_mod;
use vstd::arithmetic::div_mod::lemma_fundamental_div_mod_converse;
use vstd::bits::lemma_u64_shl_is_mul;
use vstd::slice::slice_subrange;

verus! {

/// Number of direct block addresses in the inode.
pub const NDADDR: usize = 12;

/// Number of indirect block addresses in the inode.
///
/// Each entry represents one more level of indirection: the first is
/// singly-indirect, the second doubly-indirect, the third triply-indirect.
pub const NIADDR: usize = 3;

/// The storage-resident form of an inode, decoded field by field from its
/// 128-byte on-disk record.
#[derive(Debug)]
pub struct DInode {
    pub smode: u16,  // mode and type of file
    pub nlink: u16,  // number of links to file
    pub suid: u16,  // short form of the owner's user id
    pub sgid: u16,  // short form of the owner's group id
    pub lsize: u64,  // number of bytes in file
    pub atime: u32,  // time last accessed
    pub mtime: u32,  // time last modified
    pub ctime: u32,  // last time inode changed
    pub dblocks: [u32; 12],  // direct block addresses
    pub iblocks: [u32; 3],  // indirect block addresses
    pub flags: u32,  // status flags
    pub blocks: u32,  // number of 512-byte blocks actually used
    pub gen: u32,  // generation number
    pub shadow: u32,  // shadow inode
    pub uid: u32,  // long form of the owner's user id
    pub gid: u32,  // long form of the owner's group id
    pub oeftflag: u32,  // extended attribute directory inode, 0 = none
}

/// The mathematical image of a decoded inode.
pub ghost struct InodeView {
    pub smode: u16,
    pub nlink: u16,
    pub suid: u16,
    pub sgid: u16,
    pub lsize: u64,
    pub atime: u32,
    pub mtime: u32,
    pub ctime: u32,
    pub dblocks: Seq<u32>,
    pub iblocks: Seq<u32>,
    pub flags: u32,
    pub blocks: u32,
    pub gen: u32,
    pub shadow: u32,
    pub uid: u32,
    pub gid: u32,
    pub oeftflag: u32,
}

impl View for DInode {
    type V = InodeView;

    open spec fn view(&self) -> InodeView {
        InodeView {
            smode: self.smode,
            nlink: self.nlink,
            suid: self.suid,
            sgid: self.sgid,
            lsize: self.lsize,
            atime: self.atime,
            mtime: self.mtime,
            ctime: self.ctime,
            dblocks: self.dblocks@,
            iblocks: self.iblocks@,
            flags: self.flags,
            blocks: self.blocks,
            gen: self.gen,
            shadow: self.shadow,
            uid: self.uid,
            gid: self.gid,
            oeftflag: self.oeftflag,
        }
    }
}

/// The inode record stored at byte offset `base` of the device image.
pub open spec fn spec_dinode(disk: Seq<u8>, base: int) -> InodeView {
    InodeView {
        smode: le16(disk, base),
        nlink: le16(disk, base + 2),
        suid: le16(disk, base + 4),
        sgid: le16(disk, base + 6),
        lsize: le64(disk, base + 8),
        atime: le32(disk, base + 16),
        mtime: le32(disk, base + 24),
        ctime: le32(disk, base + 32),
        dblocks: Seq::new(12, |i: int| le32(disk, base + 40 + 4 * i)),
        iblocks: Seq::new(3, |i: int| le32(disk, base + 88 + 4 * i)),
        flags: le32(disk, base + 100),
        blocks: le32(disk, base + 104),
        gen: le32(disk, base + 108),
        shadow: le32(disk, base + 112),
        uid: le32(disk, base + 116),
        gid: le32(disk, base + 120),
        oeftflag: le32(disk, base + 124),
    }
}

/// An inode number that can be decoded from the image: it lies within the
/// inode tables and its whole record lies within the image.
pub open spec fn spec_inode_ok(disk: Seq<u8>, sb: SuperBlock, ino: u32) -> bool {
    &&& ino < sb.spec_ncg() * sb.spec_ipg()
    &&& sb.spec_inode_offset(ino) + 128 <= disk.len()
}

/// The tagged file type held in the upper four bits of the mode word.
#[derive(Clone, Copy, Debug, Eq, Ord, PartialEq, PartialOrd, Structural)]
pub enum FileType {
    Unused,
    Fifo,
    Char,
    Dir,
    Block,
    Regular,
    SymLink,
    ShadowInode,
    Sock,
    AttrDir,
}

/// The file type encoded by a raw 4-bit type field.
pub open spec fn spec_file_type(raw: u8) -> FileType {
    if raw == 0o01 {
        FileType::Fifo
    } else if raw == 0o02 {
        FileType::Char
    } else if raw == 0o04 {
        FileType::Dir
    } else if raw == 0o06 {
        FileType::Block
    } else if raw == 0o10 {
        FileType::Regular
    } else if raw == 0o12 {
        FileType::SymLink
    } else if raw == 0o13 {
        FileType::ShadowInode
    } else if raw == 0o14 {
        FileType::Sock
    } else if raw == 0o16 {
        FileType::AttrDir
    } else {
        FileType::Unused
    }
}

/// The raw 4-bit field encoding a file type; `spec_file_type` inverts it.
pub open spec fn spec_file_type_raw(t: FileType) -> u8 {
    match t {
        FileType::Unused => 0o00,
        FileType::Fifo => 0o01,
        FileType::Char => 0o02,
        FileType::Dir => 0o04,
        FileType::Block => 0o06,
        FileType::Regular => 0o10,
        FileType::SymLink => 0o12,
        FileType::ShadowInode => 0o13,
        FileType::Sock => 0o14,
        FileType::AttrDir => 0o16,
    }
}

/// The file-type encode/decode pair is symmetric: decoding the raw field a
/// type encodes to gives the type back.
pub proof fn lemma_file_type_round_trip(t: FileType)
    ensures
        spec_file_type(spec_file_type_raw(t)) == t,
{
}

impl FileType {
    /// Decodes a raw 4-bit type field.
    pub fn from_raw(raw: u8) -> (r: FileType)
        ensures
            r == spec_file_type(raw),
    {
        match raw {
            0o01 => FileType::Fifo,
            0o02 => FileType::Char,
            0o04 => FileType::Dir,
            0o06 => FileType::Block,
            0o10 => FileType::Regular,
            0o12 => FileType::SymLink,
            0o13 => FileType::ShadowInode,
            0o14 => FileType::Sock,
            0o16 => FileType::AttrDir,
            _ => FileType::Unused,
        }
    }

    /// Encodes this file type back into its raw 4-bit field.
    pub fn into_raw(self) -> (r: u8)
        ensures
            r == spec_file_type_raw(self),
    {
        match self {
            FileType::Unused => 0o00,
            FileType::Fifo => 0o01,
            FileType::Char => 0o02,
            FileType::Dir => 0o04,
            FileType::Block => 0o06,
            FileType::Regular => 0o10,
            FileType::SymLink => 0o12,
            FileType::ShadowInode => 0o13,
            FileType::Sock => 0o14,
            FileType::AttrDir => 0o16,
        }
    }
}

/// Whether bit `k` of the mode word `m` is set.
pub open spec fn spec_mode_bit(m: u16, k: u16) -> bool {
    (m >> k) & 1 == 1
}

/// The file type held in bits 12 to 15 of the mode word `m`.
pub open spec fn spec_mode_type(m: u16) -> FileType {
    spec_file_type(((m >> 12u16) & 0xf) as u8)
}

/// The mode word of an inode: a Unix permission triad, the setuid, setgid
/// and sticky bits, and a 4-bit file-type field.
#[derive(Clone, Copy)]
pub struct Mode(pub u16);

impl Mode {
    /// Other: execute.
    pub fn ox(self) -> (r: bool)
        ensures
            r == spec_mode_bit(self.0, 0),
    {
        (self.0 >> 0u16) & 1 == 1
    }

    /// Other: write.
    pub fn ow(self) -> (r: bool)
        ensures
            r == spec_mode_bit(self.0, 1),
    {
        (self.0 >> 1u16) & 1 == 1
    }

    /// Other: read.
    pub fn or(self) -> (r: bool)
        ensures
            r == spec_mode_bit(self.0, 2),
    {
        (self.0 >> 2u16) & 1 == 1
    }

    /// Group: execute.
    pub fn gx(self) -> (r: bool)
        ensures
            r == spec_mode_bit(self.0, 3),
    {
        (self.0 >> 3u16) & 1 == 1
    }

    /// Group: write.
    pub fn gw(self) -> (r: bool)
        ensures
            r == spec_mode_bit(self.0, 4),
    {
        (self.0 >> 4u16) & 1 == 1
    }

    /// Group: read.
    pub fn gr(self) -> (r: bool)
        ensures
            r == spec_mode_bit(self.0, 5),
    {
        (self.0 >> 5u16) & 1 == 1
    }

    /// User: execute.
    pub fn ux(self) -> (r: bool)
        ensures
            r == spec_mode_bit(self.0, 6),
    {
        (self.0 >> 6u16) & 1 == 1
    }

    /// User: write.
    pub fn uw(self) -> (r: bool)
        ensures
            r == spec_mode_bit(self.0, 7),
    {
        (self.0 >> 7u16) & 1 == 1
    }

    /// User: read.
    pub fn ur(self) -> (r: bool)
        ensures
            r == spec_mode_bit(self.0, 8),
    {
        (self.0 >> 8u16) & 1 == 1
    }

    /// The sticky bit.
    pub fn sticky(self) -> (r: bool)
        ensures
            r == spec_mode_bit(self.0, 9),
    {
        (self.0 >> 9u16) & 1 == 1
    }

    /// The set-group-id bit.
    pub fn sgid(self) -> (r: bool)
        ensures
            r == spec_mode_bit(self.0, 10),
    {
        (self.0 >> 10u16) & 1 == 1
    }

    /// The set-user-id bit.
    pub fn suid(self) -> (r: bool)
        ensures
            r == spec_mode_bit(self.0, 11),
    {
        (self.0 >> 11u16) & 1 == 1
    }

    /// The tagged file type from the 4-bit type field.
    pub fn typ(self) -> (r: FileType)
        ensures
            r == spec_mode_type(self.0),
    {
        FileType::from_raw(((self.0 >> 12u16) & 0xf) as u8)
    }
}

/// Result of mapping a file byte offset to storage.
#[derive(Clone, Copy, Debug)]
pub enum Block<'a> {
    /// An unallocated, logically zero-filled region.
    Hole,
    /// One fragment-sized slice of the device image.
    Sd(&'a [u8]),
}

/// The byte offset of the fragment-sized slice holding fragment `fragno` of
/// the block at fragment address `db`: `None` when the slice falls outside
/// the image, else `Some(Some(start))`.
pub open spec fn spec_frag_slice(disk: Seq<u8>, sb: SuperBlock, db: u32, fragno: int) -> Option<
    Option<int>,
> {
    let start = (db + fragno) * sb.fsize;
    if start + sb.fsize <= disk.len() {
        Some(Some(start))
    } else {
        None
    }
}

/// One walk down the indirect-block chain, starting from block address `nb`
/// with `steps` dereferences left and `span` logical blocks spanned by the
/// chain below `nb`. Returns the data block address reached, `Some(None)`
/// for a hole (a zero block address anywhere along the chain), or `None`
/// when an indirect block falls outside the image.
pub open spec fn spec_walk(
    disk: Seq<u8>,
    sb: SuperBlock,
    nb: u32,
    lbn: int,
    span: int,
    steps: nat,
) -> Option<Option<u32>>
    decreases steps,
{
    if steps == 0 {
        Some(Some(nb))
    } else {
        let dblockno = (nb as int) * (pow2(sb.fsbtodb as nat) as int);
        if dblockno == 0 {
            Some(None)
        } else {
            let span2 = span / (sb.nindir as int);
            let dboff = (lbn / span2) % (sb.nindir as int);
            let dbaddr = dblockno * (crate::DEV_BLOCK_SIZE as int) + dboff * 4;
            if dbaddr + 4 > disk.len() {
                None
            } else {
                let next = le32(disk, dbaddr);
                if next == 0 {
                    Some(None)
                } else {
                    spec_walk(disk, sb, next, lbn, span2, (steps - 1) as nat)
                }
            }
        }
    }
}

/// The walk of `spec_walk`, resolved down to the byte offset of the
/// fragment-sized slice it reaches.
pub open spec fn spec_walk_slice(
    disk: Seq<u8>,
    sb: SuperBlock,
    nb: u32,
    lbn: int,
    span: int,
    steps: nat,
    fragno: int,
) -> Option<Option<int>> {
    match spec_walk(disk, sb, nb, lbn, span, steps) {
        None => None,
        Some(opt) => match opt {
            None => Some(None),
            Some(db) => spec_frag_slice(disk, sb, db, fragno),
        },
    }
}

/// The block map: where logical block `lbn`, fragment `fragno` of the file
/// described by `di` lives. `Some(Some(start))` is a fragment-sized slice of
/// the image at byte offset `start`; `Some(None)` is a hole; `None` is an
/// offset the format cannot map (beyond triple indirection, or through a
/// region outside the image).
pub open spec fn spec_bmap(
    disk: Seq<u8>,
    sb: SuperBlock,
    di: InodeView,
    lbn: int,
    fragno: int,
) -> Option<Option<int>> {
    let n = sb.nindir as int;
    if lbn < 12 {
        let db = di.dblocks[lbn];
        if db == 0 {
            Some(None)
        } else {
            spec_frag_slice(disk, sb, db, fragno)
        }
    } else {
        let l = lbn - 12;
        if l < n {
            spec_walk_slice(disk, sb, di.iblocks[0], l, n, 1, fragno)
        } else if l - n < n * n {
            spec_walk_slice(disk, sb, di.iblocks[1], l - n, n * n, 2, fragno)
        } else if l - n - n * n < n * n * n {
            spec_walk_slice(disk, sb, di.iblocks[2], l - n - n * n, n * n * n, 3, fragno)
        } else {
            None
        }
    }
}

/// The block map at a byte position: `spec_bmap` applied to the position's
/// logical block number and in-block fragment index.
pub open spec fn spec_bmap_at(disk: Seq<u8>, sb: SuperBlock, di: InodeView, pos: int) -> Option<
    Option<int>,
> {
    spec_bmap(
        disk,
        sb,
        di,
        pos / sb.bsize as int,
        (pos % sb.bsize as int) / sb.fsize as int,
    )
}

/// The byte stored at file position `pos`: zero over a hole, the image byte
/// over a mapped fragment, `None` where the position cannot be mapped.
pub open spec fn file_byte(disk: Seq<u8>, sb: SuperBlock, di: InodeView, pos: int) -> Option<u8> {
    match spec_bmap_at(disk, sb, di, pos) {
        None => None,
        Some(opt) => match opt {
            None => Some(0u8),
            Some(start) => Some(disk[start + pos % sb.fsize as int]),
        },
    }
}

/// Direct-mapped blocks: a nonzero entry of the direct block table maps to
/// the fragment-sized slice it addresses; a zero entry is a hole.
pub proof fn lemma_bmap_direct(
    disk: Seq<u8>,
    sb: SuperBlock,
    di: InodeView,
    lbn: int,
    fragno: int,
)
    requires
        sb.wf(),
        0 <= lbn < 12,
    ensures
        di.dblocks[lbn] == 0 ==> spec_bmap(disk, sb, di, lbn, fragno) == Some(None::<int>),
        di.dblocks[lbn] != 0 ==> spec_bmap(disk, sb, di, lbn, fragno) == spec_frag_slice(
            disk,
            sb,
            di.dblocks[lbn],
            fragno,
        ),
{
}

/// Singly-indirect holes: within the singly-indirect range, when the
/// indirect block is mapped but the entry it holds for `lbn` is zero, the
/// block map resolves to a hole, not an error.
pub proof fn lemma_bmap_indirect_hole(
    disk: Seq<u8>,
    sb: SuperBlock,
    di: InodeView,
    lbn: int,
    fragno: int,
)
    requires
        sb.wf(),
        12 <= lbn < 12 + sb.nindir,
        di.iblocks[0] != 0,
        ({
            let dblockno = (di.iblocks[0] as int) * (pow2(sb.fsbtodb as nat) as int);
            let dbaddr = dblockno * (crate::DEV_BLOCK_SIZE as int) + ((lbn - 12) % (
                sb.nindir as int
            )) * 4;
            &&& dbaddr + 4 <= disk.len()
            &&& le32(disk, dbaddr) == 0
        }),
    ensures
        spec_bmap(disk, sb, di, lbn, fragno) == Some(None::<int>),
{
    let n = sb.nindir as int;
    let l = lbn - 12;
    lemma_pow2_pos(sb.fsbtodb as nat);
    let dblockno = (di.iblocks[0] as int) * (pow2(sb.fsbtodb as nat) as int);
    assert(dblockno != 0) by (nonlinear_arith)
        requires
            di.iblocks[0] as int >= 1,
            pow2(sb.fsbtodb as nat) as int >= 1,
            dblockno == (di.iblocks[0] as int) * (pow2(sb.fsbtodb as nat) as int),
    ;
    // With one dereference left, the chain spans `nindir` blocks each, so
    // the entry index is `lbn - 12` itself.
    assert(n / n == 1) by {
        vstd::arithmetic::div_mod::lemma_div_by_self(n);
    }
    assert(l / 1 == l) by {
        vstd::arithmetic::div_mod::lemma_div_basics_1(l);
    }
    assert(l % n == l / 1 % n);
    assert(spec_walk(disk, sb, di.iblocks[0], l, n, 1) == Some(None::<u32>));
}

/// The number of bytes a read of `buflen` bytes at offset `off` of a file of
/// `size` bytes delivers: nothing at or past the end of the file, and never
/// more than the file holds past `off`.
pub open spec fn spec_read_len(off: u64, size: u64, buflen: nat) -> int {
    if off >= size {
        0
    } else if buflen <= size - off {
        buflen as int
    } else {
        size - off
    }
}

/// Positions in one fragment (equal quotients by the fragment size) map to
/// the same block-map result: the logical block number and the in-block
/// fragment index are both constant across the fragment.
pub proof fn lemma_bmap_same_fragment(
    disk: Seq<u8>,
    sb: SuperBlock,
    di: InodeView,
    p1: int,
    p2: int,
)
    requires
        sb.wf(),
        0 <= p1,
        0 <= p2,
        p1 / sb.fsize as int == p2 / sb.fsize as int,
    ensures
        spec_bmap_at(disk, sb, di, p1) == spec_bmap_at(disk, sb, di, p2),
{
    let f = sb.fsize as int;
    let b = sb.bsize as int;
    let fr = pow2(sb.fragshift as nat) as int;
    lemma_pow2_pos(sb.fshift as nat);
    lemma_pow2_pos(sb.bshift as nat);
    lemma_pow2_pos(sb.fragshift as nat);
    assert(b == f * fr) by {
        vstd::arithmetic::power2::lemma_pow2_adds(sb.fshift as nat, sb.fragshift as nat);
    }
    lemma_frag_coords(p1, f, fr);
    lemma_frag_coords(p2, f, fr);
}

/// The block number `p / (f * fr)` and fragment index `(p % (f * fr)) / f`
/// of a byte position `p` depend on `p` only through `p / f`.
proof fn lemma_frag_coords(p: int, f: int, fr: int)
    requires
        0 <= p,
        0 < f,
        0 < fr,
    ensures
        p / (f * fr) == (p / f) / fr,
        (p % (f * fr)) / f == (p / f) % fr,
{
    vstd::arithmetic::div_mod::lemma_div_denominator(p, f, fr);
    vstd::arithmetic::div_mod::lemma_breakdown(p, f, fr);
    // p % (f * fr) == f * ((p / f) % fr) + p % f; divide both sides by f.
    let a = (p / f) % fr;
    let r = p % f;
    lemma_mod_division_less_than_divisor(p, f);
    vstd::arithmetic::div_mod::lemma_hoist_over_denominator(r, a, f as nat);
    vstd::arithmetic::div_mod::lemma_basic_div(r, f);
    assert(a * f == f * a) by {
        vstd::arithmetic::mul::lemma_mul_is_commutative(a, f);
    }
}

/// Fills `buf[start .. start + m]` with zero bytes, leaving the rest alone.
fn fill_zero(buf: &mut Vec<u8>, start: usize, m: usize)
    requires
        start + m <= old(buf)@.len(),
    ensures
        final (buf)@.len() == old(buf)@.len(),
        forall|i: int|
            0 <= i < old(buf)@.len() ==> final (buf)@[i] == (if start <= i < start + m {
                0u8
            } else {
                old(buf)@[i]
            }),
{
    let total = buf.len();
    let mut j: usize = 0;
    while j < m
        invariant
            total == buf@.len(),
            start + m <= buf@.len(),
            buf@.len() == old(buf)@.len(),
            j <= m,
            forall|i: int|
                0 <= i < buf@.len() ==> buf@[i] == (if start <= i < start + j {
                    0u8
                } else {
                    old(buf)@[i]
                }),
        decreases m - j,
    {
        buf.set(start + j, 0);
        j = j + 1;
    }
}

/// Copies `src[src_start .. src_start + m]` into `buf[start .. start + m]`,
/// leaving the rest of `buf` alone.
fn copy_slice_range(buf: &mut Vec<u8>, start: usize, src: &[u8], src_start: usize, m: usize)
    requires
        start + m <= old(buf)@.len(),
        src_start + m <= src@.len(),
    ensures
        final (buf)@.len() == old(buf)@.len(),
        forall|i: int|
            0 <= i < old(buf)@.len() ==> final (buf)@[i] == (if start <= i < start + m {
                src@[src_start + (i - start)]
            } else {
                old(buf)@[i]
            }),
{
    let total = buf.len();
    let srclen = src.len();
    let mut j: usize = 0;
    while j < m
        invariant
            total == buf@.len(),
            srclen == src@.len(),
            start + m <= buf@.len(),
            src_start + m <= src@.len(),
            buf@.len() == old(buf)@.len(),
            j <= m,
            forall|i: int|
                0 <= i < buf@.len() ==> buf@[i] == (if start <= i < start + j {
                    src@[src_start + (i - start)]
                } else {
                    old(buf)@[i]
                }),
        decreases m - j,
    {
        let v = src[src_start + j];
        buf.set(start + j, v);
        j = j + 1;
    }
}

/// An in-memory representation of an inode, bound to the filesystem view it
/// was decoded from.
#[derive(Debug)]
pub struct Inode<'a> {
    pub dinode: DInode,
    pub fs: &'a FileSystem<'a>,
}

impl<'a> Inode<'a> {
    /// A decoded inode over a usable filesystem view.
    pub open spec fn wf(self) -> bool {
        self.fs.wf()
    }

    /// Decodes the given inode of the filesystem. Fails exactly when the
    /// inode number lies outside the filesystem's inode tables or its record
    /// lies outside the image.
    pub fn new(fs: &'a FileSystem<'a>, ino: u32) -> (r: Result<Inode<'a>, ()>)
        requires
            fs.wf(),
        ensures
            match r {
                Ok(inode) => {
                    &&& inode.fs == fs
                    &&& inode.wf()
                    &&& spec_inode_ok(fs.sd@, fs.sb, ino)
                    &&& inode.dinode@ == spec_dinode(fs.sd@, fs.sb.spec_inode_offset(ino))
                },
                Err(e) => !spec_inode_ok(fs.sd@, fs.sb, ino),
            },
    {
        proof {
            assert(fs.sb.ncg as int * fs.sb.ipg as int <= 0xffff_ffff * 0xffff_ffff)
                by (nonlinear_arith)
                requires
                    0 <= fs.sb.ncg <= 0xffff_ffff,
                    0 <= fs.sb.ipg <= 0xffff_ffff,
            ;
        }
        if !((ino as u64) < (fs.sb.ncg as u64) * (fs.sb.ipg as u64)) {
            return Err(());
        }
        let inoff = fs.sb.inode_offset(ino);
        if fs.sd.len() < 128 || inoff > (fs.sd.len() - 128) as u64 {
            return Err(());
        }
        let base = inoff as usize;
        let dinode = DInode {
            smode: read_u16(fs.sd, base),
            nlink: read_u16(fs.sd, base + 2),
            suid: read_u16(fs.sd, base + 4),
            sgid: read_u16(fs.sd, base + 6),
            lsize: read_u64(fs.sd, base + 8),
            atime: read_u32(fs.sd, base + 16),
            mtime: read_u32(fs.sd, base + 24),
            ctime: read_u32(fs.sd, base + 32),
            dblocks: [
                read_u32(fs.sd, base + 40),
                read_u32(fs.sd, base + 44),
                read_u32(fs.sd, base + 48),
                read_u32(fs.sd, base + 52),
                read_u32(fs.sd, base + 56),
                read_u32(fs.sd, base + 60),
                read_u32(fs.sd, base + 64),
                read_u32(fs.sd, base + 68),
                read_u32(fs.sd, base + 72),
                read_u32(fs.sd, base + 76),
                read_u32(fs.sd, base + 80),
                read_u32(fs.sd, base + 84),
            ],
            iblocks: [
                read_u32(fs.sd, base + 88),
                read_u32(fs.sd, base + 92),
                read_u32(fs.sd, base + 96),
            ],
            flags: read_u32(fs.sd, base + 100),
            blocks: read_u32(fs.sd, base + 104),
            gen: read_u32(fs.sd, base + 108),
            shadow: read_u32(fs.sd, base + 112),
            uid: read_u32(fs.sd, base + 116),
            gid: read_u32(fs.sd, base + 120),
            oeftflag: read_u32(fs.sd, base + 124),
        };
        proof {
            assert(dinode@.dblocks =~= spec_dinode(fs.sd@, base as int).dblocks);
            assert(dinode@.iblocks =~= spec_dinode(fs.sd@, base as int).iblocks);
        }
        Ok(Inode { dinode, fs })
    }

    /// Returns the size in bytes of the file that this inode refers to.
    pub fn size(&self) -> (r: usize)
        requires
            self.dinode@.lsize <= usize::MAX,
        ensures
            r == self.dinode@.lsize,
    {
        self.dinode.lsize as usize
    }

    /// Returns the number of links to the file.
    pub fn nlink(&self) -> (r: u16)
        ensures
            r == self.dinode@.nlink,
    {
        self.dinode.nlink
    }

    /// Returns the owner's user id.
    pub fn uid(&self) -> (r: u32)
        ensures
            r == self.dinode@.uid,
    {
        self.dinode.uid
    }

    /// Returns the owner's group id.
    pub fn gid(&self) -> (r: u32)
        ensures
            r == self.dinode@.gid,
    {
        self.dinode.gid
    }

    /// Returns the decoded mode word.
    pub fn mode(&self) -> (r: Mode)
        ensures
            r.0 == self.dinode@.smode,
    {
        Mode(self.dinode.smode)
    }

    /// Returns the fragment-sized slice holding fragment `fragno` of the
    /// block at fragment address `sdbn`, or fails when it falls outside the
    /// image.
    fn frag_slice(&self, sdbn: u32, fragno: usize) -> (r: Result<Block<'a>, ()>)
        requires
            self.wf(),
            fragno <= 8192,
        ensures
            match r {
                Ok(b) => b matches Block::Sd(bs) && spec_frag_slice(
                    self.fs.sd@,
                    self.fs.sb,
                    sdbn,
                    fragno as int,
                ) matches Some(Some(start)) && 0 <= start && start + self.fs.sb.fsize
                    <= self.fs.sd@.len() && bs@ == self.fs.sd@.subrange(
                    start,
                    start + self.fs.sb.fsize,
                ) && bs@.len() == self.fs.sb.fsize,
                Err(e) => spec_frag_slice(self.fs.sd@, self.fs.sb, sdbn, fragno as int) is None,
            },
    {
        let fs = self.fs;
        let fragsize = fs.fragsize();
        proof {
            lemma2_to64();
            if fs.sb.fshift < 13 {
                lemma_pow2_strictly_increases(fs.sb.fshift as nat, 13);
            }
            assert((sdbn + fragno) * fs.sb.fsize <= (0xffff_ffffu32 + 8192) * 8192)
                by (nonlinear_arith)
                requires
                    0 <= sdbn + fragno <= 0xffff_ffffu32 + 8192,
                    0 <= fs.sb.fsize <= 8192,
            ;
        }
        let start = (sdbn as u64 + fragno as u64) * (fragsize as u64);
        if start > u64::MAX - fragsize as u64 || start + fragsize as u64 > fs.sd.len() as u64 {
            return Err(());
        }
        let s = start as usize;
        Ok(Block::Sd(slice_subrange(fs.sd, s, s + fragsize)))
    }

    /// Maps a byte offset in the file into a fragment-sized block of the
    /// storage device, or a hole. Fails exactly when the offset cannot be
    /// mapped: its logical block lies beyond what triple indirection spans,
    /// or the mapping walks outside the image.
    pub fn bmap(&self, off: u64) -> (r: Result<Block<'a>, ()>)
        requires
            self.wf(),
        ensures
            ({
                let m = spec_bmap_at(self.fs.sd@, self.fs.sb, self.dinode@, off as int);
                match r {
                    Ok(b) => match b {
                        Block::Hole => m == Some(None::<int>),
                        Block::Sd(bs) => m matches Some(Some(start)) && 0 <= start && start
                            + self.fs.sb.fsize <= self.fs.sd@.len() && bs@
                            == self.fs.sd@.subrange(start, start + self.fs.sb.fsize) && bs@.len()
                            == self.fs.sb.fsize,
                    },
                    Err(e) => m is None,
                }
            }),
    {
        let ghost disk = self.fs.sd@;
        let ghost sb = self.fs.sb;
        let ghost di = self.dinode@;
        let fs = self.fs;
        let lbn64 = fs.sb.lblkno(off);
        let fragno = fs.logical_block_fragno(off);
        proof {
            lemma_pow2_pos(sb.fshift as nat);
            lemma_pow2_pos(sb.bshift as nat);
            lemma2_to64();
            if sb.bshift < 13 {
                lemma_pow2_strictly_increases(sb.bshift as nat, 13);
            }
            lemma_mod_division_less_than_divisor(off as int, sb.bsize as int);
            lemma_div_nonincreasing(off as int % sb.bsize as int, sb.fsize as int);
            lemma_div_pos_is_pos(off as int % sb.bsize as int, sb.fsize as int);
            lemma_div_pos_is_pos(off as int, sb.bsize as int);
        }
        assert(fragno <= 8192);
        if lbn64 < 12 {
            let sdbn = self.dinode.dblocks[lbn64 as usize];
            if sdbn == 0 {
                return Ok(Block::Hole);
            }
            return self.frag_slice(sdbn, fragno);
        }
        let n = fs.sb.nindir as u64;
        proof {
            assert(n * n <= 2048 * 2048) by (nonlinear_arith)
                requires
                    0 <= n <= 2048,
            ;
            assert(n * n * n <= 2048 * 2048 * 2048) by (nonlinear_arith)
                requires
                    0 <= n <= 2048,
            ;
        }
        let l0 = lbn64 - 12;
        let (nb0, lbn, span0, steps): (u32, u64, u64, usize) = if l0 < n {
            (self.dinode.iblocks[0], l0, n, 1)
        } else if l0 - n < n * n {
            (self.dinode.iblocks[1], l0 - n, n * n, 2)
        } else if l0 - n - n * n < n * n * n {
            (self.dinode.iblocks[2], l0 - n - n * n, n * n * n, 3)
        } else {
            // Beyond what three levels of indirection can span.
            return Err(());
        };
        let mut span: u64 = span0;
        proof {
            vstd::arithmetic::power::lemma_pow1(n as int);
            vstd::arithmetic::power::lemma_pow_adds(n as int, 1, 1);
            vstd::arithmetic::power::lemma_pow_adds(n as int, 2, 1);
            vstd::arithmetic::power::lemma_pow_adds(n as int, 1, 2);
        }
        let ghost target = spec_walk(disk, sb, nb0, lbn as int, span as int, steps as nat);
        assert(spec_bmap_at(disk, sb, di, off as int) == spec_walk_slice(
            disk,
            sb,
            nb0,
            lbn as int,
            span as int,
            steps as nat,
            fragno as int,
        ));
        let mut nb: u32 = nb0;
        let mut step: usize = 0;
        while step < steps
            invariant
                self.wf(),
                fs == self.fs,
                disk == self.fs.sd@,
                sb == self.fs.sb,
                di == self.dinode@,
                n == sb.nindir as u64,
                1 <= n <= 2048,
                1 <= steps <= 3,
                step <= steps,
                0 <= fragno <= 8192,
                span as int == pow(n as int, (steps - step) as nat),
                span <= 2048 * 2048 * 2048,
                target == spec_walk(disk, sb, nb, lbn as int, span as int, (steps - step) as nat),
                spec_bmap_at(disk, sb, di, off as int) == (match target {
                    None => None,
                    Some(opt) => match opt {
                        None => Some(None),
                        Some(db) => spec_frag_slice(disk, sb, db, fragno as int),
                    },
                }),
            decreases steps - step,
        {
            let ghost k = (steps - step) as nat;
            let ghost span_pre = span as int;
            let ghost nb_pre = nb;
            proof {
                lemma_pow_positive(n as int, (k - 1) as nat);
                vstd::arithmetic::power::lemma_pow1(n as int);
                vstd::arithmetic::power::lemma_pow_adds(n as int, 1, (k - 1) as nat);
                lemma2_to64();
                if sb.fsbtodb < 16 {
                    lemma_pow2_strictly_increases(sb.fsbtodb as nat, 16);
                }
                assert((nb as int) * (pow2(sb.fsbtodb as nat) as int) <= 0xffff_ffff * 0x1_0000)
                    by (nonlinear_arith)
                    requires
                        0 <= nb <= 0xffff_ffff,
                        0 < pow2(sb.fsbtodb as nat) <= 0x1_0000,
                ;
                lemma_u64_shl_is_mul(nb as u64, sb.fsbtodb as u64);
            }
            let dblockno = (nb as u64) << (fs.sb.fsbtodb as u64);
            assert(dblockno as int == (nb_pre as int) * (pow2(sb.fsbtodb as nat) as int));
            if dblockno == 0 {
                assert(spec_walk(disk, sb, nb_pre, lbn as int, span_pre, k) == Some(
                    None::<u32>,
                ));
                return Ok(Block::Hole);
            }
            proof {
                assert(span as int / n as int == pow(n as int, (k - 1) as nat))
                    by (nonlinear_arith)
                    requires
                        1 <= n,
                        span as int == n as int * pow(n as int, (k - 1) as nat),
                        0 <= pow(n as int, (k - 1) as nat),
                ;
            }
            span = span / n;
            assert(1 <= span as int == span_pre / n as int);
            let dboff = (lbn / span) % n;
            proof {
                lemma_mod_division_less_than_divisor((lbn / span) as int, n as int);
                lemma_div_pos_is_pos(lbn as int, span as int);
            }
            assert(dboff < n);
            let dbaddr = dblockno * (crate::DEV_BLOCK_SIZE as u64) + dboff * 4;
            if dbaddr + 4 > fs.sd.len() as u64 {
                assert(spec_walk(disk, sb, nb_pre, lbn as int, span_pre, k) is None);
                return Err(());
            }
            nb = read_u32(fs.sd, dbaddr as usize);
            assert(nb == le32(disk, dbaddr as int));
            if nb == 0 {
                assert(spec_walk(disk, sb, nb_pre, lbn as int, span_pre, k) == Some(
                    None::<u32>,
                ));
                return Ok(Block::Hole);
            }
            assert(spec_walk(disk, sb, nb_pre, lbn as int, span_pre, k) == spec_walk(
                disk,
                sb,
                nb,
                lbn as int,
                span as int,
                (k - 1) as nat,
            ));
            step = step + 1;
        }
        assert(target == Some(Some(nb)));
        self.frag_slice(nb, fragno)
    }

    /// Reads from the file at byte offset `off` into `buf`. The count read
    /// is clamped to what the file holds past `off`; at or past the end of
    /// the file it is zero, which is not an error. Bytes of `buf` beyond the
    /// count read keep their old values. Fails exactly when `off` exceeds
    /// the maximum representable offset, or some fragment the read covers
    /// cannot be mapped.
    #[verifier::rlimit(50)]
    pub fn read(&self, off: u64, buf: &mut Vec<u8>) -> (r: Result<usize, ()>)
        requires
            self.wf(),
        ensures
            ({
                let disk = self.fs.sd@;
                let sb = self.fs.sb;
                let di = self.dinode@;
                let n = spec_read_len(off, di.lsize, old(buf)@.len());
                match r {
                    Ok(nr) => {
                        &&& off <= crate::MAX_OFFSET
                        &&& nr == n
                        &&& final (buf)@.len() == old(buf)@.len()
                        &&& forall|p: int|
                            off <= p < off + n ==> #[trigger] file_byte(disk, sb, di, p) == Some(
                                final (buf)@[p - off],
                            )
                        &&& forall|i: int| n <= i < old(buf)@.len() ==> final (buf)@[i] == old(
                            buf,
                        )@[i]
                    },
                    Err(e) => off > crate::MAX_OFFSET || exists|p: int|
                        off <= p < off + n && #[trigger] file_byte(disk, sb, di, p) is None,
                }
            }),
    {
        let ghost disk = self.fs.sd@;
        let ghost sb = self.fs.sb;
        let ghost di = self.dinode@;
        let ghost buf0 = buf@;
        if off > crate::MAX_OFFSET {
            return Err(());
        }
        let size = self.dinode.lsize;
        if off >= size {
            return Ok(0);
        }
        let remaining = size - off;
        let n: usize = if (buf.len() as u64) <= remaining {
            buf.len()
        } else {
            remaining as usize
        };
        let fragsize = self.fs.fragsize();
        proof {
            lemma_pow2_pos(sb.fshift as nat);
            lemma2_to64();
            if sb.fshift < 13 {
                lemma_pow2_strictly_increases(sb.fshift as nat, 13);
            }
        }
        let mut nread: usize = 0;
        while nread < n
            invariant
                self.wf(),
                disk == self.fs.sd@,
                sb == self.fs.sb,
                di == self.dinode@,
                buf0 == old(buf)@,
                size == di.lsize,
                fragsize == sb.fsize,
                1 <= fragsize <= 8192,
                off <= crate::MAX_OFFSET,
                off + n <= size,
                n <= buf@.len(),
                nread <= n,
                buf@.len() == buf0.len(),
                n == spec_read_len(off, size, buf0.len()),
                forall|p: int|
                    off <= p < off + nread ==> #[trigger] file_byte(disk, sb, di, p) == Some(
                        buf@[p - off],
                    ),
                forall|i: int| nread <= i < buf@.len() ==> buf@[i] == buf0[i],
            decreases n - nread,
        {
            let cur: u64 = off + nread as u64;
            let frag_off: usize = (cur % (fragsize as u64)) as usize;
            proof {
                lemma_mod_division_less_than_divisor(cur as int, fragsize as int);
            }
            let m: usize = if n - nread <= fragsize - frag_off {
                n - nread
            } else {
                fragsize - frag_off
            };
            let ghost curi = cur as int;
            match self.bmap(cur) {
                Err(_) => {
                    assert(file_byte(disk, sb, di, curi) is None);
                    return Err(());
                },
                Ok(Block::Hole) => {
                    fill_zero(buf, nread, m);
                    assert forall|p: int|
                        curi <= p < curi + m implies #[trigger] file_byte(disk, sb, di, p) == Some(
                        buf@[p - off],
                    ) by {
                        lemma_fundamental_div_mod(curi, fragsize as int);
                        vstd::arithmetic::mul::lemma_mul_is_commutative(
                            curi / (fragsize as int),
                            fragsize as int,
                        );
                        lemma_fundamental_div_mod_converse(
                            p,
                            fragsize as int,
                            curi / (fragsize as int),
                            frag_off + (p - curi),
                        );
                        lemma_bmap_same_fragment(disk, sb, di, curi, p);
                    }
                },
                Ok(Block::Sd(bs)) => {
                    let ghost start = spec_bmap_at(disk, sb, di, curi)->0->0;
                    assert(bs@ == disk.subrange(start, start + sb.fsize));
                    copy_slice_range(buf, nread, bs, frag_off, m);
                    assert forall|p: int|
                        curi <= p < curi + m implies #[trigger] file_byte(disk, sb, di, p) == Some(
                        buf@[p - off],
                    ) by {
                        lemma_fundamental_div_mod(curi, fragsize as int);
                        vstd::arithmetic::mul::lemma_mul_is_commutative(
                            curi / (fragsize as int),
                            fragsize as int,
                        );
                        lemma_fundamental_div_mod_converse(
                            p,
                            fragsize as int,
                            curi / (fragsize as int),
                            frag_off + (p - curi),
                        );
                        lemma_bmap_same_fragment(disk, sb, di, curi, p);
                        assert(p % (fragsize as int) == frag_off + (p - curi));
                        assert(spec_bmap_at(disk, sb, di, p) == Some(Some(start)));
                        assert(file_byte(disk, sb, di, p) == Some(
                            disk[start + frag_off + (p - curi)],
                        ));
                        assert(buf@[p - off] == bs@[frag_off + (p - curi)]);
                        assert(disk.subrange(start, start + sb.fsize)[frag_off + (p - curi)]
                            == disk[start + frag_off + (p - curi)]);
                        assert(bs@[frag_off + (p - curi)] == disk[start + frag_off + (p - curi)]);
                    }
                },
            }
            nread = nread + m;
        }
        Ok(n)
    }
}

} // verus!
