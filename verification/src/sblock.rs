//! The superblock: decoding, structural validation, and the geometry
//! calculator that turns inode numbers and byte offsets into cylinder-group,
//! fragment and inode-table addresses.
use vstd::prelude::*;
use vstd::arithmetic::power2::*;
use vstd::arithmetic::div_mod::*;
use vstd::arithmetic::mul::*;
use vstd::bits::*;
use crate::bytes::le32;
use crate::bytes::read_u32;
use crate::MAGIC;
use crate::SUPER_BLOCK_OFFSET;
use crate::SUPER_BLOCK_SIZE;

verus! {

/// Size of one on-disk inode record, in bytes.
pub const DINODE_SIZE: u64 = 128;

/// Per-cylinder group information summary.
#[derive(Clone, Copy, Debug)]
pub struct CylGroupSummary {
    pub ndir: u32,  // number of directories
    pub nbfree: u32,  // number of free blocks
    pub nifree: u32,  // number of free inodes
    pub nffree: u32,  // number of free fragments
}

/// A cylinder group header.
#[derive(Clone, Copy, Debug)]
pub struct CylGroup {
    pub link: u32,  // not used
    pub magic: u32,  // cylinder group magic number
    pub mtime: u32,  // last modification time
    pub cgx: u32,  // index of this cylinder group
    pub ncyl: i16,  // number of cylinders in this group
    pub niblk: i16,  // number of inode blocks in this group
    pub ndblk: u32,  // number of data blocks in this group
    pub cs: CylGroupSummary,  // cylinder summary information
    pub rotor: u32,  // position of last used block
    pub frotor: u32,  // position of last used fragment
    pub irotor: u32,  // position of last used inode
}

/// Valid states in the `clean` member of the superblock.
#[derive(Clone, Copy, Debug, PartialEq, Eq, Structural)]
pub enum State {
    Active,
    Clean,
    Stable,
    Fix,
    Log,
    Suspend,
    Bad,
}

/// Supported flags in the superblock, decoded from its `flags` bit mask.
#[derive(Clone, Copy, Debug, PartialEq, Eq, Structural)]
pub struct Flags {
    pub large_files: bool,
}

/// Superblock.
///
/// Most disk addresses are in fragments. Only the fields that the decoding
/// engine reads are kept; each is decoded from its fixed byte offset in the
/// on-disk record.
#[derive(Clone, Copy, Debug)]
pub struct SuperBlock {
    pub iblkno: u32,  // offset of inode blocks in cylinder group, in fragments
    pub dblkno: u32,  // offset of first data block after cylinder group
    pub cgoffset: u32,  // offset of cylinder group in cylinder
    pub cgmask: u32,  // used to calc mod ntrack
    pub ncg: u32,  // number of cylinder groups in the filesystem
    pub bsize: u32,  // size of "basic" blocks, in bytes
    pub fsize: u32,  // size of "fragment" blocks, in bytes
    pub bshift: u32,  // lg(bsize)
    pub fshift: u32,  // lg(fsize)
    pub fragshift: u32,  // block to fragment shift
    pub fsbtodb: u32,  // fragment to device block shift constant
    pub nindir: u32,  // number of block addresses per indirect block
    pub inopb: u32,  // number of inodes per block
    pub ipg: u32,  // inodes per cylinder group
    pub fpg: u32,  // fragments per cylinder group
    pub clean: u8,  // filesystem state flag
    pub flags: u8,  // bit mask of flags
    pub magic: u32,  // magic number
}

impl SuperBlock {
    /// Structural validity: the magic number matches and the stored geometry
    /// constants are internally consistent and small enough that every
    /// address computation below fits in its machine integer.
    pub open spec fn wf(self) -> bool {
        &&& self.magic == MAGIC
        &&& 1 <= self.ncg
        &&& 1 <= self.ipg
        &&& 1 <= self.inopb
        &&& self.fshift <= self.bshift <= 13
        &&& self.bshift - self.fshift <= 3
        &&& self.fragshift == self.bshift - self.fshift
        &&& self.fsize == pow2(self.fshift as nat)
        &&& self.bsize == pow2(self.bshift as nat)
        &&& 1 <= self.nindir <= 2048
        &&& self.fsbtodb <= 16
        &&& (self.fpg + self.cgoffset) * self.ncg + self.iblkno + self.dblkno + self.ipg * 8
            <= u32::MAX
    }

    /// The number of cylinder groups.
    pub open spec fn spec_ncg(self) -> u32 {
        self.ncg
    }

    /// Inodes per cylinder group.
    pub open spec fn spec_ipg(self) -> u32 {
        self.ipg
    }

    /// Fragment size in bytes.
    pub open spec fn spec_fsize(self) -> u32 {
        self.fsize
    }

    /// Block size in bytes.
    pub open spec fn spec_bsize(self) -> u32 {
        self.bsize
    }

    /// Block addresses per indirect block.
    pub open spec fn spec_nindir(self) -> u32 {
        self.nindir
    }

    /// Fragment address of the base of a cylinder group.
    pub open spec fn spec_cgbase(self, cylgrp: u32) -> int {
        self.fpg * cylgrp
    }

    /// Fragment address of the start of a cylinder group: the base plus the
    /// historical skew term.
    pub open spec fn spec_cgstart(self, cylgrp: u32) -> int {
        self.spec_cgbase(cylgrp) + self.cgoffset * (cylgrp & !self.cgmask)
    }

    /// Fragment address of the start of a cylinder group's inode region.
    pub open spec fn spec_cgimin(self, cylgrp: u32) -> int {
        self.spec_cgstart(cylgrp) + self.iblkno
    }

    /// Fragment address of the start of a cylinder group's data region.
    pub open spec fn spec_cgdmin(self, cylgrp: u32) -> int {
        self.spec_cgstart(cylgrp) + self.dblkno
    }

    /// Block count converted to a fragment count.
    pub open spec fn spec_blkstofrags(self, blks: u32) -> int {
        blks * pow2(self.fragshift as nat)
    }

    /// Cylinder group number holding an inode.
    pub open spec fn spec_itog(self, ino: u32) -> u32 {
        (ino / self.ipg) as u32
    }

    /// Fragment address of the inode-table block holding an inode.
    pub open spec fn spec_itod(self, ino: u32) -> int {
        self.spec_cgimin(self.spec_itog(ino)) + self.spec_blkstofrags(
            (((ino % self.ipg) / self.inopb)) as u32,
        )
    }

    /// Index of an inode within its inode-table block.
    pub open spec fn spec_itoo(self, ino: u32) -> int {
        (ino % self.inopb) as int
    }

    /// Exact byte offset of an on-disk inode record, from the start of the
    /// device.
    pub open spec fn spec_inode_offset(self, ino: u32) -> int {
        self.spec_itod(ino) * self.fsize + self.spec_itoo(ino) * DINODE_SIZE
    }

    /// Logical block number covering a file byte offset.
    pub open spec fn spec_lblkno(self, off: u64) -> int {
        off as int / self.bsize as int
    }

    /// Fragment index, within its block, of a file byte offset.
    pub open spec fn spec_fragno(self, off: u64) -> int {
        (off as int % self.bsize as int) / self.fsize as int
    }

    /// Device-block address of a fragment address.
    pub open spec fn spec_fsbtodb(self, fbno: int) -> int {
        fbno * pow2(self.fsbtodb as nat)
    }
}

/// All the group-address arithmetic for one cylinder group stays within
/// `u32`, with room for the inode-table offset on top.
pub proof fn lemma_cg_arith_bound(sb: SuperBlock, cylgrp: u32)
    requires
        sb.wf(),
        cylgrp < sb.ncg,
    ensures
        0 <= sb.spec_cgbase(cylgrp),
        sb.spec_cgbase(cylgrp) <= sb.spec_cgstart(cylgrp),
        sb.spec_cgstart(cylgrp) + sb.iblkno + sb.dblkno + sb.ipg * 8 <= u32::MAX,
        cylgrp & !sb.cgmask <= cylgrp,
{
    let masked = cylgrp & !sb.cgmask;
    let mask = sb.cgmask;
    assert(cylgrp & !mask <= cylgrp) by (bit_vector);
    let f = sb.fpg as int;
    let c = sb.cgoffset as int;
    let n = sb.ncg as int;
    let g = cylgrp as int;
    let m = masked as int;
    assert(f * g + c * m <= (f + c) * n) by (nonlinear_arith)
        requires
            0 <= f,
            0 <= c,
            0 <= m <= g,
            g < n,
    ;
}

impl SuperBlock {
    /// Decoded image of the fixed-size superblock record that starts at byte
    /// offset `SUPER_BLOCK_OFFSET` of the device.
    pub open spec fn spec_decode(disk: Seq<u8>) -> SuperBlock {
        SuperBlock {
            iblkno: le32(disk, SUPER_BLOCK_OFFSET + 16),
            dblkno: le32(disk, SUPER_BLOCK_OFFSET + 20),
            cgoffset: le32(disk, SUPER_BLOCK_OFFSET + 24),
            cgmask: le32(disk, SUPER_BLOCK_OFFSET + 28),
            ncg: le32(disk, SUPER_BLOCK_OFFSET + 44),
            bsize: le32(disk, SUPER_BLOCK_OFFSET + 48),
            fsize: le32(disk, SUPER_BLOCK_OFFSET + 52),
            bshift: le32(disk, SUPER_BLOCK_OFFSET + 80),
            fshift: le32(disk, SUPER_BLOCK_OFFSET + 84),
            fragshift: le32(disk, SUPER_BLOCK_OFFSET + 96),
            fsbtodb: le32(disk, SUPER_BLOCK_OFFSET + 100),
            nindir: le32(disk, SUPER_BLOCK_OFFSET + 116),
            inopb: le32(disk, SUPER_BLOCK_OFFSET + 120),
            ipg: le32(disk, SUPER_BLOCK_OFFSET + 184),
            fpg: le32(disk, SUPER_BLOCK_OFFSET + 188),
            clean: disk[SUPER_BLOCK_OFFSET + 209],
            flags: disk[SUPER_BLOCK_OFFSET + 211],
            magic: le32(disk, SUPER_BLOCK_OFFSET + 1372),
        }
    }

    /// Returns the superblock, as read from the given "disk", after
    /// validating it. Fails exactly when the buffer cannot hold the
    /// superblock record or the record is not structurally valid (in
    /// particular, when the magic number does not match).
    pub fn read(disk: &[u8]) -> (r: Result<SuperBlock, ()>)
        ensures
            match r {
                Ok(sb) => {
                    &&& SUPER_BLOCK_OFFSET + SUPER_BLOCK_SIZE <= disk@.len()
                    &&& sb == Self::spec_decode(disk@)
                    &&& sb.wf()
                },
                Err(e) => SUPER_BLOCK_OFFSET + SUPER_BLOCK_SIZE > disk@.len() || !Self::spec_decode(
                    disk@,
                ).wf(),
            },
    {
        if disk.len() < SUPER_BLOCK_OFFSET + SUPER_BLOCK_SIZE {
            return Err(());
        }
        let sb = SuperBlock {
            iblkno: read_u32(disk, SUPER_BLOCK_OFFSET + 16),
            dblkno: read_u32(disk, SUPER_BLOCK_OFFSET + 20),
            cgoffset: read_u32(disk, SUPER_BLOCK_OFFSET + 24),
            cgmask: read_u32(disk, SUPER_BLOCK_OFFSET + 28),
            ncg: read_u32(disk, SUPER_BLOCK_OFFSET + 44),
            bsize: read_u32(disk, SUPER_BLOCK_OFFSET + 48),
            fsize: read_u32(disk, SUPER_BLOCK_OFFSET + 52),
            bshift: read_u32(disk, SUPER_BLOCK_OFFSET + 80),
            fshift: read_u32(disk, SUPER_BLOCK_OFFSET + 84),
            fragshift: read_u32(disk, SUPER_BLOCK_OFFSET + 96),
            fsbtodb: read_u32(disk, SUPER_BLOCK_OFFSET + 100),
            nindir: read_u32(disk, SUPER_BLOCK_OFFSET + 116),
            inopb: read_u32(disk, SUPER_BLOCK_OFFSET + 120),
            ipg: read_u32(disk, SUPER_BLOCK_OFFSET + 184),
            fpg: read_u32(disk, SUPER_BLOCK_OFFSET + 188),
            clean: disk[SUPER_BLOCK_OFFSET + 209],
            flags: disk[SUPER_BLOCK_OFFSET + 211],
            magic: read_u32(disk, SUPER_BLOCK_OFFSET + 1372),
        };
        if sb.check_wf() {
            Ok(sb)
        } else {
            Err(())
        }
    }

    /// Runtime check of the structural validity predicate `wf`.
    fn check_wf(&self) -> (r: bool)
        ensures
            r == self.wf(),
    {
        proof {
            lemma2_to64();
        }
        if !(self.magic == MAGIC && 1 <= self.ncg && 1 <= self.ipg && 1 <= self.inopb
            && self.fshift <= self.bshift && self.bshift <= 13 && self.bshift - self.fshift <= 3
            && self.fragshift == self.bshift - self.fshift && 1 <= self.nindir && self.nindir
            <= 2048 && self.fsbtodb <= 16) {
            return false;
        }
        proof {
            lemma_shl1_u32_pow2(self.fshift);
            lemma_shl1_u32_pow2(self.bshift);
        }
        if !(self.fsize == 1u32 << self.fshift && self.bsize == 1u32 << self.bshift) {
            return false;
        }
        proof {
            assert((self.fpg as int + self.cgoffset as int) * (self.ncg as int)
                <= 0x2_0000_0000 * 0x1_0000_0000) by (nonlinear_arith)
                requires
                    0 <= self.fpg as int + self.cgoffset as int <= 0x2_0000_0000,
                    0 <= self.ncg as int <= 0x1_0000_0000,
            ;
        }
        let bound: u128 = (self.fpg as u128 + self.cgoffset as u128) * (self.ncg as u128)
            + self.iblkno as u128 + self.dblkno as u128 + self.ipg as u128 * 8;
        bound <= u32::MAX as u128
    }
}

/// `1u32 << s` is the `s`-th power of two, for the shifts a valid superblock
/// can hold.
proof fn lemma_shl1_u32_pow2(s: u32)
    requires
        s <= 16,
    ensures
        (1u32 << s) == pow2(s as nat),
        pow2(s as nat) <= 0x10000,
{
    lemma2_to64();
    if s < 16 {
        lemma_pow2_strictly_increases(s as nat, 16);
    }
    lemma_u32_shl_is_mul(1u32, s);
}

impl SuperBlock {
    /// Returns the fragment address of the given cylinder group, as an
    /// offset from the beginning of the underlying device.
    pub fn cgbase(&self, cylgrp: u32) -> (r: u32)
        requires
            self.wf(),
            cylgrp < self.spec_ncg(),
        ensures
            r == self.spec_cgbase(cylgrp),
    {
        proof {
            lemma_cg_arith_bound(*self, cylgrp);
        }
        self.fpg * cylgrp
    }

    /// Returns the fragment address of the start of the given cylinder
    /// group, as an offset from the beginning of the underlying device.
    /// The start address differs from the base address in that the start
    /// is offset by a multiple, derived from the group number, from the
    /// base address: the physical placement of each cylinder group's copy of
    /// the superblock was deliberately skewed so that the copies were not
    /// all on the same cylinder or platter.
    pub fn cgstart(&self, cylgrp: u32) -> (r: u32)
        requires
            self.wf(),
            cylgrp < self.spec_ncg(),
        ensures
            r == self.spec_cgstart(cylgrp),
    {
        proof {
            lemma_cg_arith_bound(*self, cylgrp);
        }
        self.cgbase(cylgrp) + self.cgoffset * (cylgrp & !self.cgmask)
    }

    /// Returns the start of the inode region for the given cylinder group,
    /// as a fragment address.
    pub fn cgimin(&self, cylgrp: u32) -> (r: u32)
        requires
            self.wf(),
            cylgrp < self.spec_ncg(),
        ensures
            r == self.spec_cgimin(cylgrp),
    {
        proof {
            lemma_cg_arith_bound(*self, cylgrp);
        }
        self.cgstart(cylgrp) + self.iblkno
    }

    /// Returns the start of the data region for the given cylinder group,
    /// as a fragment address.
    pub fn cgdmin(&self, cylgrp: u32) -> (r: u32)
        requires
            self.wf(),
            cylgrp < self.spec_ncg(),
        ensures
            r == self.spec_cgdmin(cylgrp),
    {
        proof {
            lemma_cg_arith_bound(*self, cylgrp);
        }
        self.cgstart(cylgrp) + self.dblkno
    }

    /// Converts a count of blocks to a count of fragments.
    pub fn blkstofrags(&self, blks: u32) -> (r: u32)
        requires
            self.wf(),
            self.spec_blkstofrags(blks) <= u32::MAX,
        ensures
            r == self.spec_blkstofrags(blks),
    {
        proof {
            lemma_u32_shl_is_mul(blks, self.fragshift);
        }
        blks << self.fragshift
    }

    /// Returns the cylinder group number for the given inode number.
    pub fn itog(&self, ino: u32) -> (r: u32)
        requires
            self.wf(),
        ensures
            r == self.spec_itog(ino),
    {
        ino / self.ipg
    }

    /// Inode number to fragment address of its inode-table block.
    pub fn itod(&self, ino: u32) -> (r: u32)
        requires
            self.wf(),
            ino < self.spec_ncg() * self.spec_ipg(),
        ensures
            r == self.spec_itod(ino),
    {
        proof {
            lemma_mul_is_commutative(self.ncg as int, self.ipg as int);
            lemma_multiply_divide_lt(ino as int, self.ipg as int, self.ncg as int);
            lemma_cg_arith_bound(*self, self.spec_itog(ino));
            lemma_itable_block_bound(*self, ino);
        }
        self.cgimin(self.itog(ino)) + self.blkstofrags((ino % self.ipg) / self.inopb)
    }

    /// Offset of an inode within its inode-table block.
    pub fn itoo(&self, ino: u32) -> (r: u32)
        requires
            self.wf(),
        ensures
            r == self.spec_itoo(ino),
    {
        ino % self.inopb
    }

    /// The number of inodes per fragment.
    pub fn inopf(&self) -> (r: u32)
        requires
            self.wf(),
        ensures
            r == self.inopb as int / pow2(self.fragshift as nat) as int,
    {
        proof {
            lemma_u32_shr_is_div(self.inopb, self.fragshift);
        }
        self.inopb >> self.fragshift
    }

    /// Returns the byte offset of the given inode's on-disk record,
    /// relative to the start of the storage area.
    pub fn inode_offset(&self, ino: u32) -> (r: u64)
        requires
            self.wf(),
            ino < self.spec_ncg() * self.spec_ipg(),
        ensures
            r == self.spec_inode_offset(ino),
            r <= 0x4000_0000_0000u64,
    {
        proof {
            lemma2_to64();
            if self.fshift < 13 {
                lemma_pow2_strictly_increases(self.fshift as nat, 13);
            }
            lemma_mul_is_commutative(self.ncg as int, self.ipg as int);
            lemma_multiply_divide_lt(ino as int, self.ipg as int, self.ncg as int);
            lemma_cg_arith_bound(*self, self.spec_itog(ino));
            lemma_itable_block_bound(*self, ino);
            assert(self.spec_itod(ino) * self.fsize <= 0xffff_ffffu32 * 8192) by (nonlinear_arith)
                requires
                    0 <= self.spec_itod(ino) <= 0xffff_ffffu32,
                    0 <= self.fsize <= 8192,
            ;
            assert(self.spec_itoo(ino) * DINODE_SIZE <= 0xffff_ffffu32 * 128) by (nonlinear_arith)
                requires
                    0 <= self.spec_itoo(ino) <= 0xffff_ffffu32,
            ;
        }
        let ibase = (self.itod(ino) as u64) * (self.fsize as u64);
        let ioff = (self.itoo(ino) as u64) * DINODE_SIZE;
        ibase + ioff
    }

    /// Returns the logical block number in the file for the given byte
    /// offset.
    pub fn lblkno(&self, off: u64) -> (r: u64)
        requires
            self.wf(),
        ensures
            r == self.spec_lblkno(off),
    {
        proof {
            lemma_u64_shr_is_div(off, self.bshift as u64);
        }
        off >> (self.bshift as u64)
    }

    /// Returns the device block address of a fragment address.
    pub fn fsbtodb(&self, fbno: usize) -> (r: usize)
        requires
            self.wf(),
            self.spec_fsbtodb(fbno as int) <= usize::MAX,
        ensures
            r == self.spec_fsbtodb(fbno as int),
    {
        proof {
            lemma_usize_shl_is_mul(fbno, self.fsbtodb as usize);
        }
        fbno << (self.fsbtodb as usize)
    }

    /// Returns the "clean" state of the filesystem.
    pub fn state(&self) -> (r: Result<State, ()>)
        ensures
            match r {
                Ok(s) => match s {
                    State::Active => self.clean == 0x00,
                    State::Clean => self.clean == 0x01,
                    State::Stable => self.clean == 0x02,
                    State::Fix => self.clean == 0xfc,
                    State::Log => self.clean == 0xfd,
                    State::Suspend => self.clean == 0xfe,
                    State::Bad => self.clean == 0xff,
                },
                Err(e) => !(self.clean == 0x00 || self.clean == 0x01 || self.clean == 0x02
                    || self.clean == 0xfc || self.clean == 0xfd || self.clean == 0xfe
                    || self.clean == 0xff),
            },
    {
        match self.clean {
            0x00 => Ok(State::Active),
            0x01 => Ok(State::Clean),
            0x02 => Ok(State::Stable),
            0xfc => Ok(State::Fix),
            0xfd => Ok(State::Log),
            0xfe => Ok(State::Suspend),
            0xff => Ok(State::Bad),
            _ => Err(()),
        }
    }

    /// Returns the flags of the filesystem, keeping only the known bits.
    pub fn flags(&self) -> (r: Flags)
        ensures
            r.large_files == (self.flags & 1 == 1),
    {
        Flags { large_files: self.flags & 1 == 1 }
    }
}

/// Within one inode-table block, `spec_inode_offset` is injective: two
/// distinct inode numbers that share a cylinder group and an inode-table
/// block never map to the same byte offset.
pub proof fn lemma_inode_offset_injective(sb: SuperBlock, ino1: u32, ino2: u32)
    requires
        sb.wf(),
        ino1 != ino2,
        sb.spec_itog(ino1) == sb.spec_itog(ino2),
        sb.spec_itod(ino1) == sb.spec_itod(ino2),
    ensures
        sb.spec_inode_offset(ino1) != sb.spec_inode_offset(ino2),
{
    let m = sb.inopb as int;
    let p = sb.ipg as int;
    let pw = pow2(sb.fragshift as nat) as int;
    lemma_pow2_pos(sb.fragshift as nat);
    let r1 = ino1 as int % p;
    let r2 = ino2 as int % p;
    let b1 = r1 / m;
    let b2 = r2 / m;
    lemma_mod_division_less_than_divisor(ino1 as int, p);
    lemma_mod_division_less_than_divisor(ino2 as int, p);
    // Equal inode-table addresses in one group force equal block indices.
    assert(b1 * pw == b2 * pw);
    assert(b1 == b2) by (nonlinear_arith)
        requires
            b1 * pw == b2 * pw,
            0 < pw,
    ;
    // Distinct inodes of one group differ in their in-group index.
    lemma_fundamental_div_mod(ino1 as int, p);
    lemma_fundamental_div_mod(ino2 as int, p);
    assert(r1 != r2);
    // Equal block indices keep the in-group indices within one block span.
    lemma_fundamental_div_mod(r1, m);
    lemma_fundamental_div_mod(r2, m);
    lemma_mod_division_less_than_divisor(r1, m);
    lemma_mod_division_less_than_divisor(r2, m);
    let s1 = r1 % m;
    let s2 = r2 % m;
    assert(r1 - r2 == s1 - s2);
    if sb.spec_inode_offset(ino1) == sb.spec_inode_offset(ino2) {
        // Offsets share the `itod * fsize` term, so the in-block offsets,
        // and with them the residues mod `inopb`, would have to agree ...
        assert(sb.spec_itoo(ino1) == sb.spec_itoo(ino2));
        let q1 = ino1 as int / m;
        let q2 = ino2 as int / m;
        lemma_fundamental_div_mod(ino1 as int, m);
        lemma_fundamental_div_mod(ino2 as int, m);
        lemma_mul_is_distributive_sub(m, q1, q2);
        // ... which makes the inode numbers differ by a nonzero multiple of
        // `inopb`, though they differ by less than `inopb`.
        assert(ino1 - ino2 == (q1 - q2) * m) by {
            lemma_mul_is_commutative(m, q1);
            lemma_mul_is_commutative(m, q2);
            lemma_mul_is_commutative(m, q1 - q2);
        }
        assert(ino1 - ino2 == r1 - r2);
        if q1 != q2 {
            assert((q1 - q2) * m >= m || (q1 - q2) * m <= -m) by (nonlinear_arith)
                requires
                    q1 != q2,
                    0 < m,
            ;
        }
        assert(false);
    }
}

/// The inode-table block offset added by `spec_itod` is at most `ipg * 8`
/// fragments.
proof fn lemma_itable_block_bound(sb: SuperBlock, ino: u32)
    requires
        sb.wf(),
    ensures
        0 <= sb.spec_blkstofrags((((ino % sb.ipg) / sb.inopb)) as u32) <= sb.ipg * 8,
{
    let q = ((ino % sb.ipg) / sb.inopb) as u32;
    assert(ino % sb.ipg < sb.ipg) by {
        lemma_mod_division_less_than_divisor(ino as int, sb.ipg as int);
    }
    assert((ino % sb.ipg) / sb.inopb <= ino % sb.ipg) by {
        lemma_div_nonincreasing((ino % sb.ipg) as int, sb.inopb as int);
    }
    assert(0 < pow2(sb.fragshift as nat) <= 8) by {
        lemma_pow2_pos(sb.fragshift as nat);
        lemma2_to64();
        if sb.fragshift < 3 {
            lemma_pow2_strictly_increases(sb.fragshift as nat, 3);
        }
    }
    assert(q * pow2(sb.fragshift as nat) <= sb.ipg * 8) by (nonlinear_arith)
        requires
            0 <= q < sb.ipg,
            0 < pow2(sb.fragshift as nat) <= 8,
    ;
    assert(0 <= q * pow2(sb.fragshift as nat)) by (nonlinear_arith)
        requires
            0 <= q,
            0 < pow2(sb.fragshift as nat),
    ;
}

} // verus!
