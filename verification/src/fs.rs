//! The filesystem view: an immutable device image bound to its decoded
//! superblock, plus path resolution.
use vstd::prelude::*;
use crate::sblock::SuperBlock;
use crate::inode::Inode;
use crate::inode::spec_dinode;
use crate::inode::spec_inode_ok;
use crate::inode::spec_mode_type;
use crate::inode::FileType;
use crate::dir::Directory;
use crate::dir::spec_lookup;

verus! {

/// A filesystem view: borrows the raw device image for its whole lifetime
/// and owns the decoded superblock.
#[derive(Debug)]
pub struct FileSystem<'a> {
    pub sd: &'a [u8],
    pub sb: SuperBlock,
}

impl<'a> FileSystem<'a> {
    /// A usable view: its superblock was validated.
    pub open spec fn wf(self) -> bool {
        self.sb.wf()
    }

    /// Builds the filesystem view over a device image. Fails exactly when
    /// the superblock cannot be decoded from the image.
    pub fn new(sd: &'a [u8]) -> (r: Result<FileSystem<'a>, ()>)
        ensures
            match r {
                Ok(fs) => {
                    &&& fs.sd@ == sd@
                    &&& fs.sb == SuperBlock::spec_decode(sd@)
                    &&& fs.wf()
                },
                Err(e) => crate::SUPER_BLOCK_OFFSET + crate::SUPER_BLOCK_SIZE > sd@.len()
                    || !SuperBlock::spec_decode(sd@).wf(),
            },
    {
        let sb = SuperBlock::read(sd)?;
        Ok(FileSystem { sd, sb })
    }

    /// Returns the root inode of the filesystem. Fails exactly when the root
    /// inode cannot be decoded from the image.
    pub fn root_inode(&self) -> (r: Result<Inode<'_>, ()>)
        requires
            self.wf(),
        ensures
            match r {
                Ok(inode) => {
                    &&& inode.fs == self
                    &&& spec_inode_ok(self.sd@, self.sb, crate::ROOT_INODE)
                    &&& inode.dinode@ == spec_dinode(
                        self.sd@,
                        self.sb.spec_inode_offset(crate::ROOT_INODE),
                    )
                },
                Err(e) => !spec_inode_ok(self.sd@, self.sb, crate::ROOT_INODE),
            },
    {
        Inode::new(self, crate::ROOT_INODE)
    }

    /// Decodes the given inode. Fails exactly when the inode number lies
    /// outside the filesystem's inode tables or its record lies outside the
    /// image.
    pub fn inode(&self, ino: u32) -> (r: Result<Inode<'_>, ()>)
        requires
            self.wf(),
        ensures
            match r {
                Ok(inode) => {
                    &&& inode.fs == self
                    &&& spec_inode_ok(self.sd@, self.sb, ino)
                    &&& inode.dinode@ == spec_dinode(self.sd@, self.sb.spec_inode_offset(ino))
                },
                Err(e) => !spec_inode_ok(self.sd@, self.sb, ino),
            },
    {
        Inode::new(self, ino)
    }

    /// Returns the decoded superblock.
    pub fn superblock(&self) -> (r: &SuperBlock)
        ensures
            r == self.sb,
    {
        &self.sb
    }

    /// Returns the fragment size, in bytes.
    pub fn fragsize(&self) -> (r: usize)
        ensures
            r == self.sb.fsize,
    {
        self.sb.fsize as usize
    }

    /// Returns the device block address of a fragment address.
    pub fn frags_to_sdblock(&self, fbno: usize) -> (r: usize)
        requires
            self.wf(),
            self.sb.spec_fsbtodb(fbno as int) <= usize::MAX,
        ensures
            r == self.sb.spec_fsbtodb(fbno as int),
    {
        self.sb.fsbtodb(fbno)
    }

    /// Returns the logical file block number for the given byte offset.
    pub fn logical_blockno(&self, offset: u64) -> (r: usize)
        requires
            self.wf(),
            self.sb.spec_lblkno(offset) <= usize::MAX,
        ensures
            r == self.sb.spec_lblkno(offset),
    {
        self.sb.lblkno(offset) as usize
    }

    /// Returns the number of inodes per fragment.
    pub fn inodes_per_frag(&self) -> (r: usize)
        requires
            self.wf(),
        ensures
            r == self.sb.inopb as int / vstd::arithmetic::power2::pow2(
                self.sb.fragshift as nat,
            ) as int,
    {
        self.sb.inopf() as usize
    }

    /// Returns the cylinder groups of the filesystem, as a range starting
    /// at zero.
    pub fn cylgroups(&self) -> (r: core::ops::Range<u32>)
        ensures
            r.start == 0,
            r.end == self.sb.ncg,
    {
        0..self.sb.ncg
    }

    /// Returns the byte offset of the start of the data block region for the
    /// given cylinder group.
    pub fn cylgroup_data_offset(&self, cylgrp: u32) -> (r: usize)
        requires
            self.wf(),
            cylgrp < self.sb.spec_ncg(),
            self.sb.spec_cgdmin(cylgrp) * self.sb.spec_fsize() <= usize::MAX,
        ensures
            r == self.sb.spec_cgdmin(cylgrp) * self.sb.spec_fsize(),
    {
        let d = self.sb.cgdmin(cylgrp) as usize;
        let f = self.fragsize();
        proof {
            vstd::arithmetic::mul::lemma_mul_nonnegative(d as int, f as int);
        }
        d * f
    }

    /// Returns the number of block addresses spanned by one indirect block.
    pub fn indir_span_per_block(&self) -> (r: usize)
        ensures
            r == self.sb.nindir,
    {
        self.sb.nindir as usize
    }

    /// Returns the fragment index within its block of a file byte offset.
    pub fn logical_block_fragno(&self, offset: u64) -> (r: usize)
        requires
            self.wf(),
        ensures
            r == self.sb.spec_fragno(offset),
    {
        proof {
            vstd::arithmetic::power2::lemma_pow2_pos(self.sb.bshift as nat);
            vstd::arithmetic::power2::lemma_pow2_pos(self.sb.fshift as nat);
            vstd::arithmetic::div_mod::lemma_mod_division_less_than_divisor(
                offset as int,
                self.sb.bsize as int,
            );
            vstd::arithmetic::div_mod::lemma_div_nonincreasing(
                (offset as int % self.sb.bsize as int),
                self.sb.fsize as int,
            );
            vstd::arithmetic::div_mod::lemma_div_pos_is_pos(
                (offset as int % self.sb.bsize as int),
                self.sb.fsize as int,
            );
        }
        ((offset % (self.sb.bsize as u64)) as usize) / (self.sb.fsize as usize)
    }

    /// Returns the block size of the filesystem, in bytes.
    pub fn blocksize(&self) -> (r: usize)
        ensures
            r == self.sb.bsize,
    {
        self.sb.bsize as usize
    }
}

/// The path component separator.
pub const SEPARATOR: u8 = 47;

/// Length of the path component starting at index `i`: the number of bytes
/// before the next separator or the end of the path.
pub open spec fn spec_component_len(path: Seq<u8>, i: int) -> nat
    decreases path.len() - i when i <= path.len()
{
    if 0 <= i < path.len() && path[i] != SEPARATOR {
        1 + spec_component_len(path, i + 1)
    } else {
        0
    }
}

/// How much of the path remains to resolve from index `i`.
pub open spec fn spec_path_measure(path: Seq<u8>, i: int) -> int {
    if i <= path.len() {
        path.len() - i
    } else {
        0
    }
}

/// Path resolution from index `i` of `path`, at the inode numbered `ino`:
/// separators are skipped; each component is looked up in the directory at
/// the current inode, which must decode and be a directory; an exhausted
/// path resolves to the current inode number. `None` when a component has no
/// matching entry, an intermediate inode is not a directory, or an inode
/// record cannot be decoded.
pub open spec fn spec_namei(disk: Seq<u8>, sb: SuperBlock, path: Seq<u8>, i: int, ino: u32) -> Option<
    u32,
>
    decreases spec_path_measure(path, i),
{
    if i < 0 || i >= path.len() {
        Some(ino)
    } else if path[i] == SEPARATOR {
        spec_namei(disk, sb, path, i + 1, ino)
    } else {
        let j = i + spec_component_len(path, i);
        if !spec_inode_ok(disk, sb, ino) {
            None
        } else {
            let di = spec_dinode(disk, sb.spec_inode_offset(ino));
            if spec_mode_type(di.smode) != FileType::Dir {
                None
            } else {
                match spec_lookup(disk, sb, di, path.subrange(i, j), 0) {
                    None => None,
                    Some(child) => spec_namei(disk, sb, path, j, child),
                }
            }
        }
    }
}

/// A path of separators alone — the bare `/`, repeated separators, or the
/// empty path — resolves to the inode resolution starts from: from the
/// root, the root itself.
pub proof fn lemma_namei_separators_only(
    disk: Seq<u8>,
    sb: SuperBlock,
    path: Seq<u8>,
    i: int,
    ino: u32,
)
    requires
        forall|k: int| 0 <= k < path.len() ==> path[k] == SEPARATOR,
        0 <= i,
    ensures
        spec_namei(disk, sb, path, i, ino) == Some(ino),
    decreases spec_path_measure(path, i),
{
    if i < path.len() {
        lemma_namei_separators_only(disk, sb, path, i + 1, ino);
    }
}

/// A final path component resolves by one directory lookup: when the rest of
/// the path is one separator-free component, resolution at `ino` succeeds
/// exactly on the inode number that looking the component up in the
/// directory at `ino` returns — provided `ino` decodes and is a directory,
/// and fails otherwise.
pub proof fn lemma_namei_final_component(
    disk: Seq<u8>,
    sb: SuperBlock,
    path: Seq<u8>,
    i: int,
    ino: u32,
)
    requires
        0 <= i < path.len(),
        forall|k: int| i <= k < path.len() ==> path[k] != SEPARATOR,
    ensures
        spec_namei(disk, sb, path, i, ino) == (if spec_inode_ok(disk, sb, ino) && spec_mode_type(
            spec_dinode(disk, sb.spec_inode_offset(ino)).smode,
        ) == FileType::Dir {
            spec_lookup(
                disk,
                sb,
                spec_dinode(disk, sb.spec_inode_offset(ino)),
                path.subrange(i, path.len() as int),
                0,
            )
        } else {
            None
        }),
{
    lemma_component_len_at(path, i, path.len() as int);
    let j = i + spec_component_len(path, i);
    assert(j == path.len());
    if spec_inode_ok(disk, sb, ino) {
        let di = spec_dinode(disk, sb.spec_inode_offset(ino));
        if spec_mode_type(di.smode) == FileType::Dir {
            match spec_lookup(disk, sb, di, path.subrange(i, path.len() as int), 0) {
                None => {},
                Some(child) => {
                    assert(spec_namei(disk, sb, path, j, child) == Some(child));
                },
            }
        }
    }
}

/// `spec_component_len` counts exactly the bytes up to the next separator.
proof fn lemma_component_len_at(path: Seq<u8>, i: int, j: int)
    requires
        0 <= i <= j <= path.len(),
        forall|k: int| i <= k < j ==> path[k] != SEPARATOR,
        j == path.len() || path[j] == SEPARATOR,
    ensures
        spec_component_len(path, i) == j - i,
    decreases j - i,
{
    if i < j {
        lemma_component_len_at(path, i + 1, j);
    }
}

impl<'a> FileSystem<'a> {
    /// Resolves a slash-separated path, starting from the root inode, to the
    /// inode it names; an empty path (or one of separators alone) resolves
    /// to the root. Fails exactly when resolution fails — an intermediate
    /// component is not a directory, a component has no matching entry, an
    /// inode record cannot be decoded — or the resolved inode cannot be
    /// decoded.
    pub fn namei(&self, path: &[u8]) -> (r: Result<Inode<'_>, ()>)
        requires
            self.wf(),
        ensures
            ({
                let res = spec_namei(self.sd@, self.sb, path@, 0, crate::ROOT_INODE);
                match r {
                    Ok(inode) => res matches Some(ino) && spec_inode_ok(self.sd@, self.sb, ino)
                        && inode.fs == self && inode.dinode@ == spec_dinode(
                        self.sd@,
                        self.sb.spec_inode_offset(ino),
                    ),
                    Err(e) => res is None || (res matches Some(ino) && !spec_inode_ok(
                        self.sd@,
                        self.sb,
                        ino,
                    )),
                }
            }),
    {
        let ghost disk = self.sd@;
        let ghost sb = self.sb;
        let mut cur: u32 = crate::ROOT_INODE;
        let mut i: usize = 0;
        let plen = path.len();
        while i < plen
            invariant
                self.wf(),
                disk == self.sd@,
                sb == self.sb,
                plen == path@.len(),
                i <= plen,
                spec_namei(disk, sb, path@, 0, crate::ROOT_INODE) == spec_namei(
                    disk,
                    sb,
                    path@,
                    i as int,
                    cur,
                ),
            decreases plen - i,
        {
            if path[i] == SEPARATOR {
                i = i + 1;
                continue ;
            }
            let mut j = i;
            while j < plen && path[j] != SEPARATOR
                invariant
                    plen == path@.len(),
                    i <= j <= plen,
                    forall|k: int| i <= k < j ==> path@[k] != SEPARATOR,
                decreases plen - j,
            {
                j = j + 1;
            }
            proof {
                lemma_component_len_at(path@, i as int, j as int);
            }
            let inode = match self.inode(cur) {
                Ok(x) => x,
                Err(_) => {
                    return Err(());
                },
            };
            if !(inode.mode().typ() == FileType::Dir) {
                return Err(());
            }
            let dir = Directory::new(inode);
            let comp = vstd::slice::slice_subrange(path, i, j);
            match dir.lookup(comp) {
                None => {
                    return Err(());
                },
                Some(child) => {
                    cur = child;
                    i = j;
                },
            }
        }
        self.inode(cur)
    }
}

} // verus!
