//! Directories: the variable-length entry records of a directory file, their
//! iteration, and name lookup.
use vstd::prelude::*;
use crate::bytes::le16;
use crate::bytes::le32;
use crate::bytes::read_u16;
use crate::bytes::read_u32;
use crate::inode::file_byte;
use crate::inode::spec_mode_type;
use crate::inode::spec_read_len;
use crate::inode::FileType;
use crate::inode::Inode;
use crate::inode::InodeView;
use crate::sblock::SuperBlock;
use crate::MAX_OFFSET;
use vstd::slice::slice_subrange;

verus! {

/// The maximum length of a name.
pub const MAX_NAME_LEN: usize = 255;

/// Length of a directory record's fixed prefix (before the name).
pub const PREFIX_LEN: usize = 8;

/// A directory: an inode whose mode carries the directory file type.
pub struct Directory<'a> {
    pub inode: Inode<'a>,
}

/// The decoded directory record that iteration yields at byte position `pos`
/// of the directory's content, if any: its inode number, record length, name
/// length and name bytes. Iteration ends (`None`) on a truncated or
/// unreadable prefix, a zero record length, inconsistent length fields, an
/// oversized name, or a truncated or unreadable name.
pub open spec fn spec_next_entry(disk: Seq<u8>, sb: SuperBlock, di: InodeView, pos: int) -> Option<
    (u32, u16, u16, Seq<u8>),
> {
    if pos > MAX_OFFSET {
        None
    } else if pos + 8 > di.lsize {
        None
    } else if exists|p: int| pos <= p < pos + 8 && file_byte(disk, sb, di, p) is None {
        None
    } else {
        let pre = Seq::new(8, |i: int| file_byte(disk, sb, di, pos + i)->0);
        let ino = le32(pre, 0);
        let reclen = le16(pre, 4);
        let namelen = le16(pre, 6);
        if reclen == 0 {
            None
        } else if reclen < 8 + namelen || namelen > 255 {
            None
        } else if pos + 8 > MAX_OFFSET {
            None
        } else if di.lsize - (pos + 8) < namelen {
            None
        } else if exists|p: int|
            pos + 8 <= p < pos + 8 + namelen && file_byte(disk, sb, di, p) is None {
            None
        } else {
            Some(
                (
                    ino,
                    reclen,
                    namelen,
                    Seq::new(namelen as nat, |i: int| file_byte(disk, sb, di, pos + 8 + i)->0),
                ),
            )
        }
    }
}

/// How far iteration at byte position `pos` can still go in a directory of
/// `size` content bytes; every record read advances `pos` by at least eight
/// bytes, and nothing is read once fewer than eight bytes remain.
pub open spec fn spec_iter_measure(size: u64, pos: int) -> int {
    if pos <= size + 8 {
        size + 8 - pos
    } else {
        0
    }
}

/// The inode number of the first entry, in iteration order from byte
/// position `pos`, whose logical name is `name`; `None` when iteration ends
/// without one.
pub open spec fn spec_lookup(
    disk: Seq<u8>,
    sb: SuperBlock,
    di: InodeView,
    name: Seq<u8>,
    pos: int,
) -> Option<u32>
    decreases spec_iter_measure(di.lsize, pos),
{
    match spec_next_entry(disk, sb, di, pos) {
        None => None,
        Some(e) => if spec_trunc_name(e.3) == name {
            Some(e.0)
        } else {
            spec_lookup(disk, sb, di, name, pos + e.1)
        },
    }
}

/// Index of the first zero byte of `s`, or `s.len()` when none occurs.
pub open spec fn spec_first_nul(s: Seq<u8>) -> int
    decreases s.len(),
{
    if s.len() == 0 {
        0
    } else if s[0] == 0 {
        0
    } else {
        1 + spec_first_nul(s.skip(1))
    }
}

/// The logical name encoded by a record's name bytes: everything before the
/// first zero byte.
pub open spec fn spec_trunc_name(s: Seq<u8>) -> Seq<u8> {
    s.take(spec_first_nul(s))
}

/// `spec_first_nul` is the position of the first zero byte.
pub proof fn lemma_first_nul_at(s: Seq<u8>, k: int)
    requires
        0 <= k <= s.len(),
        forall|j: int| 0 <= j < k ==> s[j] != 0,
        k == s.len() || s[k] == 0,
    ensures
        spec_first_nul(s) == k,
    decreases k,
{
    if s.len() == 0 {
    } else if s[0] == 0 {
        assert(k == 0);
    } else {
        assert(k != 0);
        let t = s.skip(1);
        assert(forall|j: int| 0 <= j < k - 1 ==> t[j] == s[j + 1] && t[j] != 0);
        if k == s.len() {
            lemma_first_nul_at(t, k - 1);
        } else {
            assert(t[k - 1] == s[k]);
            lemma_first_nul_at(t, k - 1);
        }
    }
}

/// The size a directory record needs for a name of `namelen` bytes: the
/// 8-byte prefix, the name, its terminating zero byte, padded to the next
/// 4-byte boundary.
pub open spec fn spec_dirsiz(namelen: u16) -> int {
    8 + 4 * ((namelen + 4) / 4)
}

/// Iteration stops at a record whose stored record length is zero, whatever
/// else the content holds: the prefix may be readable, but a zero record
/// length ends the sequence at once.
pub proof fn lemma_iter_stops_on_zero_reclen(
    disk: Seq<u8>,
    sb: SuperBlock,
    di: InodeView,
    pos: int,
)
    requires
        file_byte(disk, sb, di, pos + 4) == Some(0u8),
        file_byte(disk, sb, di, pos + 5) == Some(0u8),
    ensures
        spec_next_entry(disk, sb, di, pos) is None,
{
}

/// Iteration over a directory whose content is exactly one well-formed
/// record followed by zero bytes yields exactly that record's entry, and
/// then terminates: after the record it finds either too few bytes for a
/// prefix, or a zero record length.
pub proof fn lemma_iter_single_record(
    disk: Seq<u8>,
    sb: SuperBlock,
    di: InodeView,
    content: Seq<u8>,
)
    requires
        content.len() == di.lsize,
        di.lsize <= MAX_OFFSET,
        forall|p: int| 0 <= p < content.len() ==> file_byte(disk, sb, di, p) == Some(content[p]),
        content.len() >= 8,
        // a well-formed record at position zero ...
        le16(content, 4) != 0,
        8 + le16(content, 6) <= le16(content, 4),
        le16(content, 6) <= 255,
        8 + le16(content, 6) <= content.len(),
        // ... followed by zero bytes up to the end of the content
        forall|p: int| le16(content, 4) <= p < content.len() ==> content[p] == 0,
    ensures
        spec_next_entry(disk, sb, di, 0) == Some(
            (
                le32(content, 0),
                le16(content, 4),
                le16(content, 6),
                content.subrange(8, 8 + le16(content, 6)),
            ),
        ),
        spec_next_entry(disk, sb, di, le16(content, 4) as int) is None,
{
    let reclen = le16(content, 4);
    let namelen = le16(content, 6);
    assert((1u64 << 39u64) == 0x80_0000_0000u64) by (bit_vector);
    let pre = Seq::new(8, |i: int| file_byte(disk, sb, di, 0 + i)->0);
    assert(pre =~= content.subrange(0, 8));
    assert(le32(pre, 0) == le32(content, 0));
    assert(le16(pre, 4) == reclen);
    assert(le16(pre, 6) == namelen);
    assert(Seq::new(namelen as nat, |i: int| file_byte(disk, sb, di, 0 + 8 + i)->0)
        =~= content.subrange(8, 8 + namelen));
    if reclen + 8 <= content.len() {
        assert(file_byte(disk, sb, di, reclen + 4) == Some(content[reclen + 4]));
        assert(content[reclen + 4] == 0);
        assert(content[reclen + 5] == 0);
        lemma_iter_stops_on_zero_reclen(disk, sb, di, reclen as int);
    }
}

/// Record sizing round trip: for a name of `n` bytes, the record length a
/// well-formed entry is built with — `8 + n` rounded up to the strictly next
/// multiple of four, making room for the name's terminating zero byte — is
/// exactly what `dirsiz` recomputes from the decoded entry, since `dirsiz`
/// depends only on the name length and iteration hands the stored name
/// length back unchanged.
pub proof fn lemma_dirsiz_roundtrip(n: u16)
    requires
        n <= 255,
    ensures
        spec_dirsiz(n) == 8 + n - (n % 4) + 4,
        spec_dirsiz(n) % 4 == 0,
        8 + n < spec_dirsiz(n) <= 8 + n + 4,
{
    vstd::arithmetic::div_mod::lemma_fundamental_div_mod(n as int, 4);
    vstd::arithmetic::div_mod::lemma_hoist_over_denominator(n as int, 1, 4);
    vstd::arithmetic::div_mod::lemma_mod_division_less_than_divisor(n as int, 4);
    assert(spec_dirsiz(n) == 12 + 4 * (n as int / 4));
    assert((4 * (3 + n as int / 4)) % 4 == 0) by {
        vstd::arithmetic::div_mod::lemma_mod_multiples_basic(3 + n as int / 4, 4);
    }
    assert(4 * (3 + n as int / 4) == 12 + 4 * (n as int / 4)) by (nonlinear_arith);
}

/// The in-memory representation of a directory entry.
pub struct Entry {
    pub ino: u32,
    pub reclen: u16,
    pub namelen: u16,
    pub name: Vec<u8>,
}

impl Entry {
    /// A decoded entry: its name bytes and length fields are consistent, as
    /// iteration validated them.
    pub open spec fn wf(self) -> bool {
        &&& self.namelen <= 255
        &&& self.name@.len() == self.namelen
        &&& 8 + self.namelen <= self.reclen
    }

    /// Returns the size a record holding this entry needs, including the
    /// prefix, the name's terminating zero byte and the padding to a 4-byte
    /// boundary.
    pub fn dirsiz(&self) -> (r: u16)
        requires
            self.wf(),
        ensures
            r == spec_dirsiz(self.namelen),
    {
        let x: u16 = self.namelen + 1 + 3;
        proof {
            assert(x & !3u16 == 4 * (x / 4)) by (bit_vector);
        }
        let name_size = x & !3u16;
        8 + name_size
    }

    /// Returns the logical name of the entry: the stored name bytes up to,
    /// and not including, the first zero byte.
    pub fn name(&self) -> (r: &[u8])
        ensures
            r@ == spec_trunc_name(self.name@),
    {
        let len = self.name.len();
        let mut k: usize = 0;
        while k < len && self.name[k] != 0
            invariant
                len == self.name@.len(),
                k <= len,
                forall|j: int| 0 <= j < k ==> self.name@[j] != 0,
            decreases len - k,
        {
            k = k + 1;
        }
        proof {
            lemma_first_nul_at(self.name@, k as int);
            assert(self.name@.take(k as int) =~= self.name@.subrange(0, k as int));
        }
        slice_subrange(self.name.as_slice(), 0, k)
    }

    /// Returns the inode number of the entry.
    pub fn ino(&self) -> (r: u32)
        ensures
            r == self.ino,
    {
        self.ino
    }
}

impl<'a> Directory<'a> {
    /// A directory over a usable filesystem view.
    pub open spec fn wf(self) -> bool {
        &&& self.inode.wf()
        &&& spec_mode_type(self.inode.dinode@.smode) == FileType::Dir
    }

    /// Wraps a directory inode. The caller has checked that the inode's mode
    /// carries the directory file type.
    pub fn new(inode: Inode<'a>) -> (r: Directory<'a>)
        requires
            inode.wf(),
            spec_mode_type(inode.dinode@.smode) == FileType::Dir,
        ensures
            r.inode == inode,
            r.wf(),
    {
        Directory { inode }
    }

    /// Returns an iterator over the directory's entries, from its start.
    pub fn iter(&self) -> (r: Iter<'_>)
        ensures
            r.dir == self,
            r.pos == 0,
    {
        Iter::new(self)
    }

    /// Looks `name` up among the directory's entries and returns the inode
    /// number of the first entry whose logical name matches, or `None` when
    /// iteration ends without a match.
    pub fn lookup(&self, name: &[u8]) -> (r: Option<u32>)
        requires
            self.wf(),
        ensures
            r == spec_lookup(
                self.inode.fs.sd@,
                self.inode.fs.sb,
                self.inode.dinode@,
                name@,
                0,
            ),
    {
        let ghost disk = self.inode.fs.sd@;
        let ghost sb = self.inode.fs.sb;
        let ghost di = self.inode.dinode@;
        let mut it = self.iter();
        let mut done = false;
        let mut result: Option<u32> = None;
        while !done
            invariant
                self.wf(),
                it.dir == self,
                disk == self.inode.fs.sd@,
                sb == self.inode.fs.sb,
                di == self.inode.dinode@,
                !done ==> result is None && spec_lookup(disk, sb, di, name@, 0) == spec_lookup(
                    disk,
                    sb,
                    di,
                    name@,
                    it.pos as int,
                ),
                done ==> result == spec_lookup(disk, sb, di, name@, 0),
            decreases spec_iter_measure(di.lsize, it.pos as int), (if done { 0int } else { 1int }),
        {
            match it.next() {
                None => {
                    done = true;
                },
                Some(e) => {
                    if crate::bytes::bytes_eq(e.name(), name) {
                        result = Some(e.ino());
                        done = true;
                    }
                },
            }
        }
        result
    }
}

/// A single-pass iterator over a directory's entries.
pub struct Iter<'a> {
    pub dir: &'a Directory<'a>,
    pub pos: u64,
}

impl<'a> Iter<'a> {
    /// Returns an iterator over the directory's entries, from its start.
    pub fn new(dir: &'a Directory<'a>) -> (r: Iter<'a>)
        ensures
            r.dir == dir,
            r.pos == 0,
    {
        Iter { dir, pos: 0 }
    }

    /// Decodes the entry at the iterator's position and advances past its
    /// record. Returns `None`, without moving, at the end of the sequence:
    /// past the last record, or at a record that is malformed or cannot be
    /// read.
    pub fn next(&mut self) -> (r: Option<Entry>)
        requires
            old(self).dir.wf(),
        ensures
            final (self).dir == old(self).dir,
            ({
                let disk = old(self).dir.inode.fs.sd@;
                let sb = old(self).dir.inode.fs.sb;
                let di = old(self).dir.inode.dinode@;
                match r {
                    None => {
                        &&& spec_next_entry(disk, sb, di, old(self).pos as int) is None
                        &&& final (self).pos == old(self).pos
                    },
                    Some(e) => {
                        &&& e.wf()
                        &&& spec_next_entry(disk, sb, di, old(self).pos as int) == Some(
                            (e.ino, e.reclen, e.namelen, e.name@),
                        )
                        &&& final (self).pos == old(self).pos + e.reclen
                    },
                }
            }),
    {
        let ghost disk = self.dir.inode.fs.sd@;
        let ghost sb = self.dir.inode.fs.sb;
        let ghost di = self.dir.inode.dinode@;
        let pos = self.pos;
        let mut buf: Vec<u8> = vec![0u8; PREFIX_LEN];
        let nread = match self.dir.inode.read(pos, &mut buf) {
            Ok(n) => n,
            Err(_) => {
                return None;
            },
        };
        if nread < PREFIX_LEN {
            return None;
        }
        assert(spec_read_len(pos, di.lsize, 8) == 8);
        let ghost pre = Seq::new(8, |i: int| file_byte(disk, sb, di, pos + i)->0);
        proof {
            assert(buf@ =~= pre);
        }
        let ino = read_u32(buf.as_slice(), 0);
        let reclen = read_u16(buf.as_slice(), 4);
        let namelen = read_u16(buf.as_slice(), 6);
        if reclen == 0 {
            return None;
        }
        if (reclen as usize) < PREFIX_LEN + namelen as usize || (namelen as usize) > MAX_NAME_LEN {
            return None;
        }
        let namepos = pos + PREFIX_LEN as u64;
        let mut name: Vec<u8> = vec![0u8; namelen as usize];
        let nread = match self.dir.inode.read(namepos, &mut name) {
            Ok(n) => n,
            Err(_) => {
                return None;
            },
        };
        if nread != namelen as usize {
            return None;
        }
        proof {
            assert(name@ =~= Seq::new(
                namelen as nat,
                |i: int| file_byte(disk, sb, di, pos + 8 + i)->0,
            ));
        }
        let entry = Entry { ino, reclen, namelen, name };
        proof {
            assert((1u64 << 39u64) == 0x80_0000_0000u64) by (bit_vector);
        }
        self.pos = pos + reclen as u64;
        Some(entry)
    }
}

} // verus!
