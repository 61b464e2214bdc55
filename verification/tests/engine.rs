//! The byte-range engine over a memory backend: round trips, boundary
//! behaviour, size growth, partial-page preservation, and the load-once
//! guarantee.

use pagefs::inode::{InoCounter, Inode, InodeMeta, InodeMode, MemFile, StatMode};
use pagefs::page_cache::PageState;
use pagefs::thread::{KSignalSet, ThreadInner, TrapContext};
use pagefs::time::TimeSpec;

const PAGE: usize = 4096;

fn now(sec: u64) -> TimeSpec {
    TimeSpec { sec, nsec: 0 }
}

fn fresh_file() -> Inode<MemFile> {
    let mut counter = InoCounter::new();
    let meta = InodeMeta::new(InodeMode::Regular, String::from("data"), &mut counter);
    Inode::new(meta, MemFile)
}

fn read_vec(node: &mut Inode<MemFile>, medium: &Vec<u8>, offset: u64, len: usize) -> (usize, Vec<u8>) {
    let mut buf = vec![0u8; len];
    let n = node.read_at(medium, &mut buf, offset, now(9)).unwrap();
    (n, buf)
}

#[test]
fn round_trip_unaligned() {
    let mut node = fresh_file();
    let mut medium: Vec<u8> = Vec::new();
    let data: Vec<u8> = (0..3000u32).map(|i| (i % 251) as u8).collect();
    let offset = 4090u64; // straddles a page boundary
    let written = node.write_at(&mut medium, &data, offset, now(1)).unwrap();
    assert_eq!(written, data.len());
    let (n, got) = read_vec(&mut node, &medium, offset, data.len());
    assert_eq!(n, data.len());
    assert_eq!(got, data);
}

#[test]
fn round_trip_page_aligned() {
    let mut node = fresh_file();
    let mut medium: Vec<u8> = Vec::new();
    let data = vec![0xA5u8; PAGE];
    node.write_at(&mut medium, &data, 0, now(1)).unwrap();
    let (n, got) = read_vec(&mut node, &medium, 0, PAGE);
    assert_eq!(n, PAGE);
    assert_eq!(got, data);
}

#[test]
fn read_past_end_returns_zero_and_skips_cache() {
    let mut node = fresh_file();
    let medium: Vec<u8> = vec![7u8; 100];
    // data_len is still 0: any offset is at or past the end
    let mut buf = vec![1u8; 16];
    let n = node.read_at(&medium, &mut buf, 0, now(2)).unwrap();
    assert_eq!(n, 0);
    assert_eq!(buf, vec![1u8; 16]);
    // the cache was never touched: no page exists
    assert!(node.meta().page_cache().get(0).is_none());
    // and the access stamp was not updated
    assert_eq!(node.meta().access_time(), TimeSpec { sec: 0, nsec: 0 });
}

#[test]
fn write_extends_data_len_exactly() {
    let mut node = fresh_file();
    let mut medium: Vec<u8> = Vec::new();
    let data = vec![3u8; 10];
    node.write_at(&mut medium, &data, 5000, now(3)).unwrap();
    assert_eq!(node.meta().data_len(), 5010);
    // a write entirely within the current size never changes it
    node.write_at(&mut medium, &data, 100, now(4)).unwrap();
    assert_eq!(node.meta().data_len(), 5010);
    // timestamps: a completing write stamps all three
    assert_eq!(node.meta().access_time(), now(4));
    assert_eq!(node.meta().modify_time(), now(4));
    assert_eq!(node.meta().change_time(), now(4));
}

#[test]
fn partial_write_preserves_rest_of_page() {
    let mut node = fresh_file();
    let mut medium: Vec<u8> = Vec::new();
    let pattern: Vec<u8> = (0..PAGE as u32).map(|i| (i % 199) as u8).collect();
    node.write_at(&mut medium, &pattern, 0, now(1)).unwrap();
    // narrower overlapping write inside the same, already-Dirty page
    let narrow = vec![0xEEu8; 64];
    node.write_at(&mut medium, &narrow, 1000, now(2)).unwrap();
    let (n, got) = read_vec(&mut node, &medium, 0, PAGE);
    assert_eq!(n, PAGE);
    for i in 0..PAGE {
        if (1000..1064).contains(&i) {
            assert_eq!(got[i], 0xEE, "inside the narrow write at {i}");
        } else {
            assert_eq!(got[i], pattern[i], "outside the narrow write at {i}");
        }
    }
}

#[test]
fn fill_happens_exactly_once() {
    let mut medium: Vec<u8> = vec![0x11u8; 600];
    // content is readable without a prior write: the size is seeded directly
    let mut counter = InoCounter::new();
    let mut meta = InodeMeta::new(InodeMode::Regular, String::from("data"), &mut counter);
    meta.update_inner(600, now(0), now(0), now(0));
    let mut node = Inode::new(meta, MemFile);
    let (n, got) = read_vec(&mut node, &medium, 0, 600);
    assert_eq!(n, 600);
    assert_eq!(got, vec![0x11u8; 600]);
    // the first read filled the page from the backend
    let page = node.meta().page_cache().get(0).unwrap();
    assert_eq!(page.state(), PageState::Synced);
    // mutate the backing store behind the cache's back; a second read must
    // not fill again, so it still sees the cached bytes
    for b in medium.iter_mut() {
        *b = 0x22;
    }
    let (n2, got2) = read_vec(&mut node, &medium, 0, 600);
    assert_eq!(n2, 600);
    assert_eq!(got2, vec![0x11u8; 600]);
}

#[test]
fn partial_tail_write_reads_backing_first() {
    // a narrow write at the tail of previously-written content must not
    // corrupt the neighbouring bytes of its page
    let mut node = fresh_file();
    let mut medium: Vec<u8> = Vec::new();
    let base = vec![0x40u8; 2 * PAGE];
    node.write_at(&mut medium, &base, 0, now(1)).unwrap();
    let tail = vec![0x41u8; 8];
    node.write_at(&mut medium, &tail, (2 * PAGE) as u64, now(2)).unwrap();
    assert_eq!(node.meta().data_len(), (2 * PAGE + 8) as u64);
    let (n, got) = read_vec(&mut node, &medium, (2 * PAGE - 4) as u64, 12);
    assert_eq!(n, 12);
    assert_eq!(&got[..4], &[0x40u8; 4]);
    assert_eq!(&got[4..], &[0x41u8; 8]);
}

#[test]
fn non_regular_node_bypasses_cache() {
    let mut counter = InoCounter::new();
    let mut meta = InodeMeta::new(InodeMode::CharDevice, String::from("tty"), &mut counter);
    meta.update_inner(4, now(0), now(0), now(0));
    let mut node = Inode::new(meta, MemFile);
    let mut medium: Vec<u8> = vec![9, 8, 7, 6];
    let mut buf = vec![0u8; 4];
    let n = node.read_at(&medium, &mut buf, 0, now(5)).unwrap();
    assert_eq!(n, 4);
    assert_eq!(buf, vec![9, 8, 7, 6]);
    assert!(node.meta().page_cache().get(0).is_none());
    let n = node.write_at(&mut medium, &vec![1u8, 2], 1, now(6)).unwrap();
    assert_eq!(n, 2);
    assert_eq!(medium, vec![9, 1, 2, 6]);
}

#[test]
fn inode_numbers_are_unique_and_monotonic() {
    let mut counter = InoCounter::new();
    let a = InodeMeta::new(InodeMode::Regular, String::from("a"), &mut counter);
    let b = InodeMeta::new(InodeMode::Dir, String::from("b"), &mut counter);
    let c = InodeMeta::new(InodeMode::Fifo, String::from("c"), &mut counter);
    assert_eq!(a.ino(), 0);
    assert_eq!(b.ino(), 1);
    assert_eq!(c.ino(), 2);
    assert_eq!(b.name(), "b");
    assert_eq!(b.mode(), InodeMode::Dir);
}

#[test]
fn stat_mode_kinds() {
    assert_eq!(StatMode::from(InodeMode::Regular), StatMode(0x8000));
    assert_eq!(StatMode::from(InodeMode::Dir), StatMode(0x4000));
    assert_eq!(StatMode::from(InodeMode::SymbolLink), StatMode(0xA000));
    assert_eq!(StatMode::from(InodeMode::Socket), StatMode(0xC000));
    assert_eq!(StatMode::from(InodeMode::Fifo), StatMode(0x1000));
    assert_eq!(StatMode::from(InodeMode::BlockDevice), StatMode(0x6000));
    assert_eq!(StatMode::from(InodeMode::CharDevice), StatMode(0x2000));
}

#[test]
fn fat_stamp_carries_raw_fields() {
    let t = TimeSpec::from_fat_stamp(0x1234, 0x5678);
    assert_eq!(t.sec, 0x1234u64 * 65536 + 0x5678);
    assert_eq!(t.nsec, 0);
}

#[test]
fn console_print_runs() {
    pagefs::console::print("pagefs");
    pagefs::console::stdout_puts("\n");
}

#[test]
fn signal_sets_are_bit_precise() {
    let empty = KSignalSet::empty();
    assert!(!empty.contains(9));
    let with_kill = empty.insert(9);
    assert!(with_kill.contains(9));
    assert!(!with_kill.contains(10));
    let inner = ThreadInner {
        trap_context: TrapContext { user_regs: [0; 32], sepc: 0x1000, sstatus: 0 },
        clear_child_tid: 0,
        signal_mask: with_kill,
        pending_signal: KSignalSet::empty(),
    };
    assert_eq!(inner.trap_context.sepc, 0x1000);
    assert!(inner.signal_mask.contains(9));
}
