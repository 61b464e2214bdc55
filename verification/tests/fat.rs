//! FAT32 directory reconstruction over fabricated on-disk record streams,
//! and file reads through the cache from a fabricated volume.

use pagefs::error::KError;
use pagefs::fat32::dir::{DirChildren, DynInode};
use pagefs::fat32::dir_entry::{DirEntryBuilder, DirEntryBuilderResult};
use pagefs::fat32::fat::{FileAllocTable, RamDisk};
use pagefs::inode::{BytesInodeBackend, InoCounter};
use pagefs::time::TimeSpec;

const EOC: u32 = 0x0FFF_FFF8;
const SECTOR: usize = 512;

fn fat_checksum(name: &[u8; 11]) -> u8 {
    let mut s: u8 = 0;
    for &b in name.iter() {
        s = (if s & 1 != 0 { 0x80u8 } else { 0u8 }).wrapping_add(s >> 1).wrapping_add(b);
    }
    s
}

fn short_record(name11: &[u8; 11], attrs: u8, first_cluster: u32, size: u32) -> [u8; 32] {
    let mut r = [0u8; 32];
    r[..11].copy_from_slice(name11);
    r[11] = attrs;
    // creation stamp: time 0x5678, date 0x1234
    r[14] = 0x78;
    r[15] = 0x56;
    r[16] = 0x34;
    r[17] = 0x12;
    // access date 0x2222
    r[18] = 0x22;
    r[19] = 0x22;
    r[20] = ((first_cluster >> 16) & 0xFF) as u8;
    r[21] = ((first_cluster >> 24) & 0xFF) as u8;
    // modification stamp: time 0x1111, date 0x3333
    r[22] = 0x11;
    r[23] = 0x11;
    r[24] = 0x33;
    r[25] = 0x33;
    r[26] = (first_cluster & 0xFF) as u8;
    r[27] = ((first_cluster >> 8) & 0xFF) as u8;
    r[28..32].copy_from_slice(&size.to_le_bytes());
    r
}

fn long_record(seq: u8, first_on_disk: bool, checksum: u8, units: &[u16]) -> [u8; 32] {
    let mut r = [0u8; 32];
    r[0] = seq | if first_on_disk { 0x40 } else { 0 };
    r[11] = 0x0F;
    r[13] = checksum;
    // 13 unit slots, padded with one terminator then 0xFFFF
    let mut padded = [0xFFFFu16; 13];
    for (i, &u) in units.iter().enumerate() {
        padded[i] = u;
    }
    if units.len() < 13 {
        padded[units.len()] = 0;
    }
    let offs = [1, 3, 5, 7, 9, 14, 16, 18, 20, 22, 24, 28, 30];
    for (k, &off) in offs.iter().enumerate() {
        let b = padded[k].to_le_bytes();
        r[off] = b[0];
        r[off + 1] = b[1];
    }
    r
}

fn units_of(s: &str) -> Vec<u16> {
    s.chars().map(|c| c as u16).collect()
}

/// A volume with one-sector clusters: the directory at cluster 2, anything
/// else as given. `extra` is laid down verbatim from cluster 3 on.
fn volume(dir_records: &[[u8; 32]], extra: &[u8], table: Vec<u32>) -> FileAllocTable {
    let mut image = vec![0u8; SECTOR];
    for (i, rec) in dir_records.iter().enumerate() {
        image[i * 32..(i + 1) * 32].copy_from_slice(rec);
    }
    image.extend_from_slice(extra);
    while image.len() % SECTOR != 0 {
        image.push(0);
    }
    FileAllocTable::new(RamDisk::new(image), table, 1, 0)
}

fn simple_table() -> Vec<u32> {
    let mut t = vec![0u32; 8];
    t[2] = EOC;
    t[3] = EOC;
    t[4] = EOC;
    t
}

fn now(sec: u64) -> TimeSpec {
    TimeSpec { sec, nsec: 0 }
}

#[test]
fn single_short_record_reconstructs() {
    let rec = short_record(b"HELLO   TXT", 0x00, 3, 20);
    let fat = volume(&[rec], &[], simple_table());
    let mut counter = InoCounter::new();
    let root = pagefs::fat32::dir::FatDir::new_root(&fat, 2, &mut counter);
    let mut iter = root.backend_ref().dir_entry_iter(&fat);
    let first = iter.next().unwrap().unwrap();
    assert_eq!(first.name().as_str(), "HELLO.TXT");
    assert!(!first.is_dir());
    assert_eq!(first.first_cluster_id(), 3);
    assert_eq!(first.size(), 20);
    assert_eq!(first.create_time().sec, 0x1234u64 * 65536 + 0x5678);
    assert_eq!(first.access_time().sec, 0x2222u64 * 65536);
    assert_eq!(first.modify_time().sec, 0x3333u64 * 65536 + 0x1111);
    assert!(iter.next().is_none());
}

#[test]
fn two_fragments_concatenate_ascending() {
    let name11 = *b"LONGNA~1TXT";
    let chk = fat_checksum(&name11);
    let long_name = "long_file_name18.txt"; // 20 characters: 13 + 7
    let units = units_of(long_name);
    let frag2 = long_record(2, true, chk, &units[13..]);
    let frag1 = long_record(1, false, chk, &units[..13]);
    let short = short_record(&name11, 0x00, 3, 5);
    let fat = volume(&[frag2, frag1, short], &[], simple_table());
    let mut counter = InoCounter::new();
    let root = pagefs::fat32::dir::FatDir::new_root(&fat, 2, &mut counter);
    let mut iter = root.backend_ref().dir_entry_iter(&fat);
    let entry = iter.next().unwrap().unwrap();
    assert_eq!(entry.name().as_str(), long_name);
    assert!(iter.next().is_none());
}

#[test]
fn checksum_mismatch_is_corrupt_and_enumeration_continues() {
    let name11 = *b"REALFILETXT";
    let chk = fat_checksum(&name11);
    let frag = long_record(1, true, chk.wrapping_add(1), &units_of("mismatched")[..]);
    let short = short_record(&name11, 0x00, 3, 5);
    let good = short_record(b"GOOD    BIN", 0x00, 4, 7);
    let fat = volume(&[frag, short, good], &[], simple_table());
    let mut counter = InoCounter::new();
    let root = pagefs::fat32::dir::FatDir::new_root(&fat, 2, &mut counter);
    let mut iter = root.backend_ref().dir_entry_iter(&fat);
    match iter.next().unwrap() {
        Err(e) => assert_eq!(e, KError::CorruptDirEntry),
        Ok(_) => panic!("the mismatched chain must be corrupt"),
    }
    let second = iter.next().unwrap().unwrap();
    assert_eq!(second.name().as_str(), "GOOD.BIN");
    assert!(iter.next().is_none());
}

#[test]
fn end_sentinel_stops_enumeration() {
    let first = short_record(b"VISIBLE A  ", 0x00, 3, 1);
    let sentinel = [0u8; 32];
    let after = short_record(b"HIDDEN  B  ", 0x00, 4, 1);
    let fat = volume(&[first, sentinel, after], &[], simple_table());
    let mut counter = InoCounter::new();
    let root = pagefs::fat32::dir::FatDir::new_root(&fat, 2, &mut counter);
    let mut iter = root.backend_ref().dir_entry_iter(&fat);
    let entry = iter.next().unwrap().unwrap();
    assert_eq!(entry.name().as_str(), "VISIBLE.A");
    assert!(iter.next().is_none());
    assert!(iter.next().is_none());
}

#[test]
fn free_slots_are_skipped() {
    let mut free = [0u8; 32];
    free[0] = 0xE5;
    let rec = short_record(b"AFTERFRE   ", 0x00, 3, 2);
    let fat = volume(&[free, rec], &[], simple_table());
    let mut counter = InoCounter::new();
    let root = pagefs::fat32::dir::FatDir::new_root(&fat, 2, &mut counter);
    let mut iter = root.backend_ref().dir_entry_iter(&fat);
    let entry = iter.next().unwrap().unwrap();
    assert_eq!(entry.name().as_str(), "AFTERFRE");
    assert!(iter.next().is_none());
}

#[test]
fn lookup_missing_name_is_empty() {
    let name11 = *b"REALFILETXT";
    let chk = fat_checksum(&name11);
    let corrupt = long_record(1, true, chk.wrapping_add(1), &units_of("x")[..]);
    let bad_short = short_record(&name11, 0x00, 3, 5);
    let good = short_record(b"GOOD    BIN", 0x00, 4, 7);
    let fat = volume(&[corrupt, bad_short, good], &[], simple_table());
    let mut counter = InoCounter::new();
    let root = pagefs::fat32::dir::FatDir::new_root(&fat, 2, &mut counter);
    assert!(root.backend_ref().lookup(&fat, "NOWHERE.TXT", &mut counter).is_none());
}

#[test]
fn lookup_finds_file_and_dir() {
    let file_rec = short_record(b"NOTES   TXT", 0x00, 3, 9);
    let dir_rec = short_record(b"SUB        ", 0x10, 4, 0);
    let fat = volume(&[file_rec, dir_rec], &[], simple_table());
    let mut counter = InoCounter::new();
    let root = pagefs::fat32::dir::FatDir::new_root(&fat, 2, &mut counter);
    match root.backend_ref().lookup(&fat, "NOTES.TXT", &mut counter) {
        Some(DynInode::Bytes(node)) => {
            assert_eq!(node.meta().name(), "NOTES.TXT");
            assert_eq!(node.meta().data_len(), 9);
        },
        _ => panic!("expected a regular file"),
    }
    match root.backend_ref().lookup(&fat, "SUB", &mut counter) {
        Some(DynInode::Dir(node)) => {
            assert_eq!(node.meta().name(), "SUB");
            // one cluster of records: the directory's footprint
            assert_eq!(node.meta().data_len(), 512);
        },
        _ => panic!("expected a directory"),
    }
}

#[test]
fn file_read_through_cache_crosses_clusters() {
    // content spans clusters 3 and 4
    let mut table = vec![0u32; 8];
    table[2] = EOC;
    table[3] = 4;
    table[4] = EOC;
    let mut content = Vec::new();
    for i in 0..600u32 {
        content.push((i % 233) as u8);
    }
    let file_rec = short_record(b"SPAN    BIN", 0x00, 3, 600);
    let fat = volume(&[file_rec], &content, table);
    let mut counter = InoCounter::new();
    let root = pagefs::fat32::dir::FatDir::new_root(&fat, 2, &mut counter);
    let mut node = match root.backend_ref().lookup(&fat, "SPAN.BIN", &mut counter) {
        Some(DynInode::Bytes(node)) => node,
        _ => panic!("expected a regular file"),
    };
    let mut buf = vec![0u8; 600];
    let n = node.read_at(&fat, &mut buf, 0, now(1)).unwrap();
    assert_eq!(n, 600);
    assert_eq!(buf, content);
    // an unaligned slice of it
    let mut buf2 = vec![0u8; 100];
    let n2 = node.read_at(&fat, &mut buf2, 450, now(2)).unwrap();
    assert_eq!(n2, 100);
    assert_eq!(buf2[..], content[450..550]);
}

#[test]
fn write_back_is_unsupported_on_fat_files() {
    let file_rec = short_record(b"RO      BIN", 0x00, 3, 4);
    let mut fat = volume(&[file_rec], &[1, 2, 3, 4], simple_table());
    let mut counter = InoCounter::new();
    let root = pagefs::fat32::dir::FatDir::new_root(&fat, 2, &mut counter);
    let node = match root.backend_ref().lookup(&fat, "RO.BIN", &mut counter) {
        Some(DynInode::Bytes(node)) => node,
        _ => panic!("expected a regular file"),
    };
    let data = vec![0u8; 4];
    let r = node.backend_ref().write_inode_at(&mut fat, &data, 0);
    assert_eq!(r.unwrap_err(), KError::Unsupported);
}

#[test]
fn read_dir_is_idempotent_and_keeps_existing() {
    let a = short_record(b"ALPHA      ", 0x00, 3, 1);
    let b = short_record(b"BETA       ", 0x10, 4, 0);
    let dup = short_record(b"ALPHA      ", 0x00, 4, 2);
    let fat = volume(&[a, b, dup], &[], simple_table());
    let mut counter = InoCounter::new();
    let root = pagefs::fat32::dir::FatDir::new_root(&fat, 2, &mut counter);
    let mut children = DirChildren::new();
    root.backend_ref().read_dir(&fat, &mut counter, &mut children).unwrap();
    // the duplicate name was not inserted twice
    assert_eq!(children.len(), 2);
    assert_eq!(children.name_at(0).as_str(), "ALPHA");
    assert_eq!(children.name_at(1).as_str(), "BETA");
    match children.node_at(0) {
        DynInode::Bytes(node) => assert_eq!(node.meta().data_len(), 1),
        _ => panic!("ALPHA is a file"),
    }
    // draining again changes nothing: present names are left untouched
    root.backend_ref().read_dir(&fat, &mut counter, &mut children).unwrap();
    assert_eq!(children.len(), 2);
}

#[test]
fn builder_handles_single_records() {
    let rec = short_record(b"ONE     TWO", 0x00, 5, 11).to_vec();
    match DirEntryBuilder::from_entry(&rec) {
        Ok(DirEntryBuilderResult::Final(d)) => {
            assert_eq!(d.name().as_str(), "ONE.TWO");
            assert_eq!(d.first_cluster_id(), 5);
            assert_eq!(d.size(), 11);
        },
        _ => panic!("a short record alone is a complete entry"),
    }
    // an unflagged fragment with no chain in progress is corrupt
    let orphan = long_record(1, false, 0x55, &units_of("x")[..]).to_vec();
    match DirEntryBuilder::from_entry(&orphan) {
        Err(e) => assert_eq!(e, KError::CorruptDirEntry),
        Ok(_) => panic!("an orphan fragment must be corrupt"),
    }
}

#[test]
fn sector_reads_match_image() {
    let mut image = vec![0u8; 1024];
    for i in 0..1024 {
        image[i] = (i % 251) as u8;
    }
    let disk = RamDisk::new(image.clone());
    let mut buf = vec![0u8; SECTOR];
    disk.read_blocks_cached(1, &mut buf);
    assert_eq!(buf[..], image[512..1024]);
}
