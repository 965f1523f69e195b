use ufsreader::Block;
use ufsreader::Directory;
use ufsreader::Entry;
use ufsreader::FileSystem;
use ufsreader::FileType;
use ufsreader::Mode;
use ufsreader::State;
use ufsreader::SuperBlock;

const SB: usize = 8192;
const IMG_LEN: usize = 256 * 1024;
const ITABLE: usize = 16384;

fn put_u16(img: &mut Vec<u8>, off: usize, v: u16) {
    let b = v.to_le_bytes();
    img[off] = b[0];
    img[off + 1] = b[1];
}

fn put_u32(img: &mut Vec<u8>, off: usize, v: u32) {
    let b = v.to_le_bytes();
    for i in 0..4 {
        img[off + i] = b[i];
    }
}

fn put_u64(img: &mut Vec<u8>, off: usize, v: u64) {
    let b = v.to_le_bytes();
    for i in 0..8 {
        img[off + i] = b[i];
    }
}

/// A tiny valid image: 512-byte fragments, 4096-byte blocks, one cylinder
/// group of 16 inodes whose table sits at fragment 32 (byte 16384), and
/// 4 addresses per indirect block.
fn base_image() -> Vec<u8> {
    let mut img = vec![0u8; IMG_LEN];
    put_u32(&mut img, SB + 16, 32); // iblkno
    put_u32(&mut img, SB + 20, 64); // dblkno
    put_u32(&mut img, SB + 24, 0); // cgoffset
    put_u32(&mut img, SB + 28, 0); // cgmask
    put_u32(&mut img, SB + 44, 1); // ncg
    put_u32(&mut img, SB + 48, 4096); // bsize
    put_u32(&mut img, SB + 52, 512); // fsize
    put_u32(&mut img, SB + 80, 12); // bshift
    put_u32(&mut img, SB + 84, 9); // fshift
    put_u32(&mut img, SB + 96, 3); // fragshift
    put_u32(&mut img, SB + 100, 0); // fsbtodb
    put_u32(&mut img, SB + 116, 4); // nindir
    put_u32(&mut img, SB + 120, 32); // inopb
    put_u32(&mut img, SB + 184, 16); // ipg
    put_u32(&mut img, SB + 188, 512); // fpg
    img[SB + 209] = 0x01; // clean
    img[SB + 211] = 0x01; // flags: large files
    put_u32(&mut img, SB + 1372, 0x011954); // magic
    img
}

fn inode_base(ino: u32) -> usize {
    ITABLE + (ino as usize % 32) * 128
}

/// Writes an inode record: mode word, size, direct and indirect addresses.
fn set_inode(img: &mut Vec<u8>, ino: u32, mode: u16, size: u64, dblocks: &[u32], iblocks: &[u32]) {
    let base = inode_base(ino);
    put_u16(img, base, mode);
    put_u16(img, base + 2, 1); // nlink
    put_u64(img, base + 8, size);
    for (i, d) in dblocks.iter().enumerate() {
        put_u32(img, base + 40 + 4 * i, *d);
    }
    for (i, d) in iblocks.iter().enumerate() {
        put_u32(img, base + 88 + 4 * i, *d);
    }
}

const DIR_MODE: u16 = 0o040755;
const REG_MODE: u16 = 0o100644;

/// Writes one directory record at `off` and returns the offset past it.
fn put_dirent(img: &mut Vec<u8>, off: usize, ino: u32, reclen: u16, name: &[u8]) -> usize {
    put_u32(img, off, ino);
    put_u16(img, off + 4, reclen);
    put_u16(img, off + 6, name.len() as u16);
    img[off + 8..off + 8 + name.len()].copy_from_slice(name);
    off + reclen as usize
}

#[test]
fn superblock_decodes() {
    let img = base_image();
    let fs = FileSystem::new(&img).expect("valid image");
    assert!(matches!(fs.superblock().state(), Ok(State::Clean)));
    assert!(fs.superblock().flags().large_files);
    assert_eq!(fs.fragsize(), 512);
    assert_eq!(fs.blocksize(), 4096);
    assert_eq!(fs.indir_span_per_block(), 4);
    assert_eq!(fs.inodes_per_frag(), 4);
    assert_eq!(fs.cylgroups(), 0..1u32);
}

#[test]
fn superblock_bad_magic_fails() {
    let mut img = base_image();
    put_u32(&mut img, SB + 1372, 0x011955);
    assert!(SuperBlock::read(&img).is_err());
    assert!(FileSystem::new(&img).is_err());
}

#[test]
fn superblock_short_buffer_fails() {
    let img = vec![0u8; 4096];
    assert!(SuperBlock::read(&img).is_err());
}

#[test]
fn superblock_insane_geometry_fails() {
    // A block size that does not match its stored shift is rejected.
    let mut img = base_image();
    put_u32(&mut img, SB + 48, 4097);
    assert!(FileSystem::new(&img).is_err());
    // So is a zero inodes-per-group count.
    let mut img = base_image();
    put_u32(&mut img, SB + 184, 0);
    assert!(FileSystem::new(&img).is_err());
}

#[test]
fn geometry_formulas() {
    let img = base_image();
    let fs = FileSystem::new(&img).expect("valid image");
    let sb = fs.superblock();
    assert_eq!(sb.cgbase(0), 0);
    assert_eq!(sb.cgstart(0), 0);
    assert_eq!(sb.cgimin(0), 32);
    assert_eq!(sb.cgdmin(0), 64);
    assert_eq!(sb.blkstofrags(3), 24);
    assert_eq!(sb.itog(2), 0);
    assert_eq!(sb.itod(2), 32);
    assert_eq!(sb.itoo(2), 2);
    assert_eq!(sb.inopf(), 4);
    assert_eq!(sb.inode_offset(2), 16384 + 256);
    assert_eq!(sb.lblkno(4096), 1);
    assert_eq!(sb.lblkno(4095), 0);
    assert_eq!(sb.fsbtodb(7), 7);
    assert_eq!(fs.logical_blockno(8192), 2);
    assert_eq!(fs.logical_block_fragno(512 * 9), 1);
    assert_eq!(fs.cylgroup_data_offset(0), 64 * 512);
}

#[test]
fn geometry_skewed_group_start() {
    // A group start is skewed by cgoffset times the group number outside
    // the cgmask bits.
    let sb = SuperBlock {
        iblkno: 16,
        dblkno: 40,
        cgoffset: 8,
        cgmask: 0xffff_fffc,
        ncg: 6,
        bsize: 4096,
        fsize: 512,
        bshift: 12,
        fshift: 9,
        fragshift: 3,
        fsbtodb: 0,
        nindir: 1024,
        inopb: 32,
        ipg: 16,
        fpg: 1000,
        clean: 0,
        flags: 0,
        magic: 0x011954,
    };
    assert_eq!(sb.cgbase(5), 5000);
    // 5 & !0xfffffffc == 1, so the skew is one cgoffset.
    assert_eq!(sb.cgstart(5), 5008);
    assert_eq!(sb.cgimin(5), 5024);
    assert_eq!(sb.cgdmin(5), 5048);
}

#[test]
fn inode_offsets_distinct_within_block() {
    let img = base_image();
    let fs = FileSystem::new(&img).expect("valid image");
    let sb = fs.superblock();
    // Inodes 2..16 share group 0 and inode-table block 32; all their byte
    // offsets differ.
    let mut offs: Vec<u64> = Vec::new();
    for ino in 0..16u32 {
        assert_eq!(sb.itod(ino), 32);
        offs.push(sb.inode_offset(ino));
    }
    for i in 0..offs.len() {
        for j in 0..i {
            assert_ne!(offs[i], offs[j]);
        }
    }
}

#[test]
fn inode_decode_and_accessors() {
    let mut img = base_image();
    set_inode(&mut img, 2, DIR_MODE, 512, &[100], &[]);
    let base = inode_base(2);
    put_u32(&mut img, base + 116, 77); // uid
    put_u32(&mut img, base + 120, 88); // gid
    let fs = FileSystem::new(&img).expect("valid image");
    let ino = fs.inode(2).expect("inode 2 decodes");
    assert_eq!(ino.size(), 512);
    assert_eq!(ino.nlink(), 1);
    assert_eq!(ino.uid(), 77);
    assert_eq!(ino.gid(), 88);
    assert_eq!(ino.mode().typ(), FileType::Dir);
}

#[test]
fn inode_out_of_range_fails() {
    let img = base_image();
    let fs = FileSystem::new(&img).expect("valid image");
    // Only ncg * ipg == 16 inodes exist.
    assert!(fs.inode(16).is_err());
    assert!(fs.inode(u32::MAX).is_err());
    assert!(fs.inode(15).is_ok());
}

#[test]
fn mode_bits() {
    let m = Mode(DIR_MODE);
    assert_eq!(m.typ(), FileType::Dir);
    assert!(m.ur() && m.uw() && m.ux());
    assert!(m.gr() && !m.gw() && m.gx());
    assert!(m.or() && !m.ow() && m.ox());
    assert!(!m.suid() && !m.sgid() && !m.sticky());
    let m = Mode(0o101644);
    assert_eq!(m.typ(), FileType::Regular);
    assert!(m.sticky() && !m.sgid() && !m.suid());
    assert!(m.ur() && m.uw() && !m.ux());
    assert!(m.gr() && !m.gw());
    assert!(m.or() && !m.ow());
}

#[test]
fn file_type_round_trip() {
    let types = [
        FileType::Unused,
        FileType::Fifo,
        FileType::Char,
        FileType::Dir,
        FileType::Block,
        FileType::Regular,
        FileType::SymLink,
        FileType::ShadowInode,
        FileType::Sock,
        FileType::AttrDir,
    ];
    for t in types {
        assert_eq!(FileType::from_raw(t.into_raw()), t);
    }
    assert_eq!(FileType::from_raw(0o17), FileType::Unused);
}

#[test]
fn bmap_direct_nonzero_gives_fragment() {
    let mut img = base_image();
    set_inode(&mut img, 4, REG_MODE, 8192, &[100, 0], &[]);
    for i in 0..512usize {
        img[100 * 512 + i] = (i % 251) as u8;
    }
    let fs = FileSystem::new(&img).expect("valid image");
    let ino = fs.inode(4).expect("inode 4 decodes");
    match ino.bmap(0).expect("maps") {
        Block::Sd(bs) => {
            assert_eq!(bs.len(), 512);
            assert_eq!(bs, &img[100 * 512..100 * 512 + 512]);
        }
        Block::Hole => panic!("expected a fragment"),
    }
    // An offset in the second fragment of the same block.
    match ino.bmap(512 + 7).expect("maps") {
        Block::Sd(bs) => {
            assert_eq!(bs.len(), 512);
            assert_eq!(bs, &img[101 * 512..101 * 512 + 512]);
        }
        Block::Hole => panic!("expected a fragment"),
    }
}

#[test]
fn bmap_direct_zero_gives_hole() {
    let mut img = base_image();
    set_inode(&mut img, 4, REG_MODE, 8192, &[100, 0], &[]);
    let fs = FileSystem::new(&img).expect("valid image");
    let ino = fs.inode(4).expect("inode 4 decodes");
    // Logical block 1 has a zero direct entry.
    assert!(matches!(ino.bmap(4096).expect("maps"), Block::Hole));
}

#[test]
fn bmap_singly_indirect() {
    let mut img = base_image();
    // nindir == 4: logical blocks 12..16 go through iblocks[0] at frag 200.
    set_inode(&mut img, 4, REG_MODE, 16 * 4096, &[0; 12], &[200, 0, 0]);
    put_u32(&mut img, 200 * 512, 0); // lbn 12: a hole
    put_u32(&mut img, 200 * 512 + 4, 150); // lbn 13: block at frag 150
    for i in 0..512usize {
        img[150 * 512 + i] = 0xabu8;
    }
    let fs = FileSystem::new(&img).expect("valid image");
    let ino = fs.inode(4).expect("inode 4 decodes");
    assert!(matches!(ino.bmap(12 * 4096).expect("maps"), Block::Hole));
    match ino.bmap(13 * 4096).expect("maps") {
        Block::Sd(bs) => assert_eq!(bs, &img[150 * 512..150 * 512 + 512]),
        Block::Hole => panic!("expected a fragment"),
    }
}

#[test]
fn read_through_indirect_hole_yields_zeros() {
    let mut img = base_image();
    set_inode(&mut img, 4, REG_MODE, 16 * 4096, &[0; 12], &[200, 0, 0]);
    put_u32(&mut img, 200 * 512, 0); // zero entry within the indirect block
    put_u32(&mut img, 200 * 512 + 4, 150);
    let fs = FileSystem::new(&img).expect("valid image");
    let ino = fs.inode(4).expect("inode 4 decodes");
    let mut buf = vec![0xffu8; 512];
    let n = ino.read(12 * 4096, &mut buf).expect("a hole reads as zeros");
    assert_eq!(n, 512);
    assert!(buf.iter().all(|&b| b == 0));
}

#[test]
fn bmap_beyond_indirection_fails() {
    let mut img = base_image();
    set_inode(&mut img, 4, REG_MODE, u64::MAX, &[0; 12], &[0, 0, 0]);
    let fs = FileSystem::new(&img).expect("valid image");
    let ino = fs.inode(4).expect("inode 4 decodes");
    // 12 direct + 4 + 16 + 64 indirect logical blocks are addressable.
    assert!(ino.bmap(96 * 4096).is_err());
    assert!(ino.bmap(95 * 4096).is_ok());
}

#[test]
fn bmap_outside_image_fails() {
    let mut img = base_image();
    set_inode(&mut img, 4, REG_MODE, 8192, &[60000, 0], &[]);
    let fs = FileSystem::new(&img).expect("valid image");
    let ino = fs.inode(4).expect("inode 4 decodes");
    // Fragment 60000 lies beyond the 512-fragment image.
    assert!(ino.bmap(0).is_err());
}

#[test]
fn read_at_or_past_end_returns_zero() {
    let mut img = base_image();
    set_inode(&mut img, 4, REG_MODE, 1000, &[100], &[]);
    let fs = FileSystem::new(&img).expect("valid image");
    let ino = fs.inode(4).expect("inode 4 decodes");
    let mut buf = vec![0u8; 64];
    assert_eq!(ino.read(1000, &mut buf).expect("in range"), 0);
    assert_eq!(ino.read(1001, &mut buf).expect("in range"), 0);
    assert_eq!(ino.read(1 << 30, &mut buf).expect("in range"), 0);
    // An empty file reads zero bytes at any offset.
    set_inode(&mut img, 5, REG_MODE, 0, &[], &[]);
    let fs = FileSystem::new(&img).expect("valid image");
    let ino = fs.inode(5).expect("inode 5 decodes");
    assert_eq!(ino.read(0, &mut buf).expect("in range"), 0);
}

#[test]
fn read_clamps_to_file_size() {
    let mut img = base_image();
    set_inode(&mut img, 4, REG_MODE, 100, &[100], &[]);
    for i in 0..512usize {
        img[100 * 512 + i] = (i + 1) as u8;
    }
    let fs = FileSystem::new(&img).expect("valid image");
    let ino = fs.inode(4).expect("inode 4 decodes");
    let mut buf = vec![0xaau8; 512];
    let n = ino.read(40, &mut buf).expect("in range");
    assert_eq!(n, 60);
    for i in 0..60 {
        assert_eq!(buf[i], (40 + i + 1) as u8);
    }
    // Bytes past the count read keep their old values.
    assert!(buf[60..].iter().all(|&b| b == 0xaa));
}

#[test]
fn read_crosses_fragments() {
    let mut img = base_image();
    set_inode(&mut img, 4, REG_MODE, 2048, &[100], &[]);
    for i in 0..2048usize {
        img[100 * 512 + i] = (i % 249) as u8;
    }
    let fs = FileSystem::new(&img).expect("valid image");
    let ino = fs.inode(4).expect("inode 4 decodes");
    let mut buf = vec![0u8; 1024];
    let n = ino.read(300, &mut buf).expect("in range");
    assert_eq!(n, 1024);
    for i in 0..1024 {
        assert_eq!(buf[i], ((300 + i) % 249) as u8);
    }
}

#[test]
fn read_past_max_offset_fails() {
    let mut img = base_image();
    set_inode(&mut img, 4, REG_MODE, 1000, &[100], &[]);
    let fs = FileSystem::new(&img).expect("valid image");
    let ino = fs.inode(4).expect("inode 4 decodes");
    let mut buf = vec![0u8; 16];
    assert!(ino.read((1u64 << 39) + 1, &mut buf).is_err());
    assert!(ino.read(1u64 << 39, &mut buf).is_ok());
}

/// Builds an image with a root directory holding "a" (a directory) and
/// "f" (a regular file); "a" holds "b", a regular file of 7 bytes.
fn tree_image() -> Vec<u8> {
    let mut img = base_image();
    // Root directory, inode 2, content in fragment 100.
    set_inode(&mut img, 2, DIR_MODE, 512, &[100], &[]);
    let off = 100 * 512;
    let off = put_dirent(&mut img, off, 2, 12, b".");
    let off = put_dirent(&mut img, off, 2, 12, b"..");
    let off = put_dirent(&mut img, off, 3, 12, b"a");
    let _ = put_dirent(&mut img, off, 4, 12, b"f");
    // Directory "a", inode 3, content in fragment 101.
    set_inode(&mut img, 3, DIR_MODE, 512, &[101], &[]);
    let off = 101 * 512;
    let off = put_dirent(&mut img, off, 3, 12, b".");
    let off = put_dirent(&mut img, off, 2, 12, b"..");
    let _ = put_dirent(&mut img, off, 5, 12, b"b");
    // Regular file "f", inode 4, 11 bytes.
    set_inode(&mut img, 4, REG_MODE, 11, &[102], &[]);
    img[102 * 512..102 * 512 + 11].copy_from_slice(b"hello there");
    // Regular file "b", inode 5, 7 bytes.
    set_inode(&mut img, 5, REG_MODE, 7, &[103], &[]);
    img[103 * 512..103 * 512 + 7].copy_from_slice(b"in a :)");
    img
}

#[test]
fn directory_iterates_entries() {
    let img = tree_image();
    let fs = FileSystem::new(&img).expect("valid image");
    let root = fs.root_inode().expect("root decodes");
    let dir = Directory::new(root);
    let mut it = dir.iter();
    let names: [&[u8]; 4] = [b".", b"..", b"a", b"f"];
    let inos: [u32; 4] = [2, 2, 3, 4];
    for k in 0..4 {
        let e = it.next().expect("an entry");
        assert_eq!(e.name(), names[k]);
        assert_eq!(e.ino(), inos[k]);
    }
    assert!(it.next().is_none());
}

#[test]
fn one_record_then_zeros_yields_one_entry() {
    let mut img = base_image();
    set_inode(&mut img, 2, DIR_MODE, 512, &[100], &[]);
    let _ = put_dirent(&mut img, 100 * 512, 7, 16, b"solo");
    let fs = FileSystem::new(&img).expect("valid image");
    let root = fs.root_inode().expect("root decodes");
    let dir = Directory::new(root);
    let mut it = dir.iter();
    let e = it.next().expect("exactly one entry");
    assert_eq!(e.ino(), 7);
    assert_eq!(e.name(), b"solo");
    assert!(it.next().is_none());
    assert!(it.next().is_none());
}

#[test]
fn zero_record_length_ends_iteration() {
    let mut img = base_image();
    set_inode(&mut img, 2, DIR_MODE, 512, &[100], &[]);
    // A record whose record length is zero, with plausible bytes behind it.
    let off = 100 * 512;
    put_u32(&mut img, off, 9);
    put_u16(&mut img, off + 4, 0);
    put_u16(&mut img, off + 6, 1);
    img[off + 8] = b'x';
    let _ = put_dirent(&mut img, off + 12, 10, 12, b"y");
    let fs = FileSystem::new(&img).expect("valid image");
    let root = fs.root_inode().expect("root decodes");
    let dir = Directory::new(root);
    let mut it = dir.iter();
    assert!(it.next().is_none());
}

#[test]
fn malformed_record_ends_iteration() {
    let mut img = base_image();
    set_inode(&mut img, 2, DIR_MODE, 512, &[100], &[]);
    // Record length too small for the declared name length.
    let off = 100 * 512;
    put_u32(&mut img, off, 9);
    put_u16(&mut img, off + 4, 12);
    put_u16(&mut img, off + 6, 9);
    let fs = FileSystem::new(&img).expect("valid image");
    let root = fs.root_inode().expect("root decodes");
    let dir = Directory::new(root);
    let mut it = dir.iter();
    assert!(it.next().is_none());
}

#[test]
fn name_stops_at_first_nul() {
    let e = Entry {
        ino: 1,
        reclen: 16,
        namelen: 5,
        name: vec![b'a', b'b', 0, b'c', b'd'],
    };
    assert_eq!(e.name(), b"ab");
    let e = Entry {
        ino: 1,
        reclen: 16,
        namelen: 3,
        name: vec![b'a', b'b', b'c'],
    };
    assert_eq!(e.name(), b"abc");
}

#[test]
fn dirsiz_rounds_to_four() {
    let mk = |n: u16| Entry {
        ino: 1,
        reclen: 8 + n + 8,
        namelen: n,
        name: vec![b'a'; n as usize],
    };
    assert_eq!(mk(0).dirsiz(), 12);
    assert_eq!(mk(1).dirsiz(), 12);
    assert_eq!(mk(3).dirsiz(), 12);
    assert_eq!(mk(4).dirsiz(), 16);
    assert_eq!(mk(5).dirsiz(), 16);
    assert_eq!(mk(255).dirsiz(), 264);
}

#[test]
fn dirsiz_round_trips_through_decode() {
    let mut img = base_image();
    set_inode(&mut img, 2, DIR_MODE, 512, &[100], &[]);
    // Records built with record length 8 + n rounded up to the strictly
    // next multiple of four.
    let off = 100 * 512;
    let off = put_dirent(&mut img, off, 3, 12, b"x"); // n = 1
    let off = put_dirent(&mut img, off, 4, 16, b"name"); // n = 4
    let _ = put_dirent(&mut img, off, 5, 16, b"seven"); // n = 5
    let fs = FileSystem::new(&img).expect("valid image");
    let root = fs.root_inode().expect("root decodes");
    let dir = Directory::new(root);
    let mut it = dir.iter();
    for expect in [12u16, 16, 16] {
        let e = it.next().expect("an entry");
        assert_eq!(e.dirsiz(), expect);
    }
    assert!(it.next().is_none());
}

#[test]
fn lookup_finds_first_match() {
    let img = tree_image();
    let fs = FileSystem::new(&img).expect("valid image");
    let root = fs.root_inode().expect("root decodes");
    let dir = Directory::new(root);
    assert_eq!(dir.lookup(b"a"), Some(3));
    assert_eq!(dir.lookup(b"f"), Some(4));
    assert_eq!(dir.lookup(b"."), Some(2));
    assert_eq!(dir.lookup(b"missing"), None);
}

#[test]
fn namei_resolves_root() {
    let img = tree_image();
    let fs = FileSystem::new(&img).expect("valid image");
    let ino = fs.namei(b"/").expect("root resolves");
    assert_eq!(ino.mode().typ(), FileType::Dir);
    assert_eq!(ino.size(), 512);
    let ino = fs.namei(b"").expect("empty path resolves to the root");
    assert_eq!(ino.size(), 512);
    let ino = fs.namei(b"///").expect("separators alone resolve to the root");
    assert_eq!(ino.mode().typ(), FileType::Dir);
}

#[test]
fn namei_resolves_nested_path() {
    let img = tree_image();
    let fs = FileSystem::new(&img).expect("valid image");
    let ino = fs.namei(b"/a/b").expect("/a/b resolves");
    assert_eq!(ino.mode().typ(), FileType::Regular);
    assert_eq!(ino.size(), 7);
    let mut buf = vec![0u8; 7];
    assert_eq!(ino.read(0, &mut buf).expect("reads"), 7);
    assert_eq!(&buf, b"in a :)");
    // Repeated separators are skipped.
    let ino = fs.namei(b"//a///b").expect("resolves despite extra separators");
    assert_eq!(ino.size(), 7);
    let ino = fs.namei(b"/a").expect("/a resolves");
    assert_eq!(ino.mode().typ(), FileType::Dir);
}

#[test]
fn namei_missing_component_fails() {
    let img = tree_image();
    let fs = FileSystem::new(&img).expect("valid image");
    assert!(fs.namei(b"/a/missing").is_err());
    assert!(fs.namei(b"/missing").is_err());
}

#[test]
fn namei_through_file_fails() {
    let img = tree_image();
    let fs = FileSystem::new(&img).expect("valid image");
    // "f" is a regular file, not a directory.
    assert!(fs.namei(b"/f/x").is_err());
    assert!(fs.namei(b"/a/b/c").is_err());
}

#[test]
fn file_read_through_namei() {
    let img = tree_image();
    let fs = FileSystem::new(&img).expect("valid image");
    let ino = fs.namei(b"/f").expect("/f resolves");
    let mut buf = vec![0u8; 32];
    let n = ino.read(0, &mut buf).expect("reads");
    assert_eq!(n, 11);
    assert_eq!(&buf[..11], b"hello there");
}

#[test]
fn read_fails_on_unmappable_fragment() {
    let mut img = base_image();
    // The second block points outside the 512-fragment image, so a read
    // crossing into it fails while a read confined to the first succeeds.
    set_inode(&mut img, 4, REG_MODE, 8192, &[100, 60000], &[]);
    let fs = FileSystem::new(&img).expect("valid image");
    let ino = fs.inode(4).expect("inode 4 decodes");
    let mut buf = vec![0u8; 8192];
    assert!(ino.read(0, &mut buf).is_err());
    let mut buf = vec![0u8; 4096];
    assert_eq!(ino.read(0, &mut buf).expect("first block maps"), 4096);
}

#[test]
fn empty_directory_yields_no_entries() {
    let mut img = base_image();
    set_inode(&mut img, 2, DIR_MODE, 0, &[], &[]);
    let fs = FileSystem::new(&img).expect("valid image");
    let root = fs.root_inode().expect("root decodes");
    let dir = Directory::new(root);
    let mut it = dir.iter();
    assert!(it.next().is_none());
    assert_eq!(dir.lookup(b"anything"), None);
}

#[test]
fn longest_name_round_trips() {
    let mut img = base_image();
    set_inode(&mut img, 2, DIR_MODE, 512, &[100], &[]);
    let name = vec![b'q'; 255];
    let _ = put_dirent(&mut img, 100 * 512, 6, 264, &name);
    let fs = FileSystem::new(&img).expect("valid image");
    let root = fs.root_inode().expect("root decodes");
    let dir = Directory::new(root);
    let mut it = dir.iter();
    let e = it.next().expect("an entry");
    assert_eq!(e.name(), &name[..]);
    assert_eq!(e.dirsiz(), 264);
    assert!(it.next().is_none());
    assert_eq!(dir.lookup(&name), Some(6));
}

#[test]
fn states_decode() {
    let cases: [(u8, State); 7] = [
        (0x00, State::Active),
        (0x01, State::Clean),
        (0x02, State::Stable),
        (0xfc, State::Fix),
        (0xfd, State::Log),
        (0xfe, State::Suspend),
        (0xff, State::Bad),
    ];
    for (raw, want) in cases {
        let mut img = base_image();
        img[SB + 209] = raw;
        let fs = FileSystem::new(&img).expect("valid image");
        assert_eq!(fs.superblock().state().expect("a known state"), want);
    }
    let mut img = base_image();
    img[SB + 209] = 0x40;
    let fs = FileSystem::new(&img).expect("valid image");
    assert!(fs.superblock().state().is_err());
}
