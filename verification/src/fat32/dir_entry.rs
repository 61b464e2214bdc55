//! Logical directory entries and their reconstruction from raw 32-byte
//! on-disk records: one short-name record alone, or one short-name record
//! preceded by up to twenty long-name fragments in descending sequence order
//! whose checksums match the short name's.

use vstd::prelude::*;
use vstd::string::StringExecFns;
use crate::error::{KError, KResult};
use crate::time::TimeSpec;

verus! {

/// Size in bytes of one raw record.
pub const RECORD_LEN: usize = 32;

/// Attribute bit marking a directory.
pub const ATTR_DIR: u8 = 0x10;

/// Mathematical model of one logical directory entry.
pub struct EntryV {
    pub name: Seq<char>,
    pub attrs: u8,
    pub first_cluster: u32,
    pub size: u32,
    pub access_time: TimeSpec,
    pub create_time: TimeSpec,
    pub modify_time: TimeSpec,
}

/// A reconstructed logical directory entry: its name (short, or assembled
/// from long-name fragments), attributes, first cluster, byte size, and the
/// three stamps carried verbatim from the short-name record.
pub struct DirEntry {
    name: String,
    attrs: u8,
    first_cluster: u32,
    size: u32,
    access_time: TimeSpec,
    create_time: TimeSpec,
    modify_time: TimeSpec,
}

impl View for DirEntry {
    type V = EntryV;

    closed spec fn view(&self) -> EntryV {
        EntryV {
            name: self.name@,
            attrs: self.attrs,
            first_cluster: self.first_cluster,
            size: self.size,
            access_time: self.access_time,
            create_time: self.create_time,
            modify_time: self.modify_time,
        }
    }
}

impl DirEntry {
    /// The entry's name.
    pub fn name(&self) -> (r: &String)
        ensures
            r@ == self@.name,
    {
        &self.name
    }

    /// Moves the name out, leaving an empty one behind.
    pub fn take_name(&mut self) -> (r: String)
        ensures
            r@ == old(self)@.name,
            final(self)@ == (EntryV { name: Seq::empty(), ..old(self)@ }),
    {
        let mut s = String::new();
        core::mem::swap(&mut self.name, &mut s);
        s
    }

    /// Whether the entry names a directory.
    pub fn is_dir(&self) -> (r: bool)
        ensures
            r == (self@.attrs & ATTR_DIR != 0),
    {
        self.attrs & ATTR_DIR != 0
    }

    /// The first cluster of the entry's content.
    pub fn first_cluster_id(&self) -> (r: u32)
        ensures
            r == self@.first_cluster,
    {
        self.first_cluster
    }

    /// The content size in bytes.
    pub fn size(&self) -> (r: u32)
        ensures
            r == self@.size,
    {
        self.size
    }

    /// The stamp from the short-name record's access-date field.
    pub fn access_time(&self) -> (r: TimeSpec)
        ensures
            r == self@.access_time,
    {
        self.access_time
    }

    /// The stamp from the short-name record's creation fields.
    pub fn create_time(&self) -> (r: TimeSpec)
        ensures
            r == self@.create_time,
    {
        self.create_time
    }

    /// The stamp from the short-name record's modification fields.
    pub fn modify_time(&self) -> (r: TimeSpec)
        ensures
            r == self@.modify_time,
    {
        self.modify_time
    }
}

// ===== Raw record shape =====

/// The record's attribute byte.
pub open spec fn rec_attrs(r: Seq<u8>) -> u8 {
    r[11]
}

/// Whether the record is a long-name fragment.
pub open spec fn rec_is_long(r: Seq<u8>) -> bool {
    rec_attrs(r) & 0x3F == 0x0F
}

/// Whether a long-name fragment is the chain's first on disk (the marker of
/// the highest sequence number).
pub open spec fn long_is_last(r: Seq<u8>) -> bool {
    r[0] & 0x40 != 0
}

/// A long-name fragment's sequence number.
pub open spec fn long_seq_num(r: Seq<u8>) -> u8 {
    r[0] & 0x3F
}

/// A long-name fragment's embedded checksum byte.
pub open spec fn long_checksum(r: Seq<u8>) -> u8 {
    r[13]
}

/// The little-endian 16-bit value at byte offset `lo`.
pub open spec fn u16_at(r: Seq<u8>, lo: int) -> u16 {
    (r[lo] + r[lo + 1] * 256) as u16
}

/// Where the `k`-th of a fragment's 13 UTF-16 code units sits in the record.
pub open spec fn long_unit_off(k: int) -> int {
    if k < 5 {
        1 + 2 * k
    } else if k < 11 {
        14 + 2 * (k - 5)
    } else {
        28 + 2 * (k - 11)
    }
}

/// The 13 UTF-16 code units a long-name fragment carries.
pub open spec fn long_units(r: Seq<u8>) -> Seq<u16> {
    Seq::new(13, |k: int| u16_at(r, long_unit_off(k)))
}

/// One step of the short-name checksum: rotate right one bit, then add.
pub open spec fn chk_step(s: u8, b: u8) -> u8 {
    ((((s as int) % 2) * 128 + (s as int) / 2 + b) % 256) as u8
}

/// The one-byte hash of an 11-byte short name that every fragment of its
/// long-name chain must carry.
pub open spec fn checksum11(s: Seq<u8>) -> u8
    decreases s.len(),
{
    if s.len() == 0 {
        0u8
    } else {
        chk_step(checksum11(s.drop_last()), s.last())
    }
}

/// The byte sequence without its trailing padding spaces.
pub open spec fn trim_spaces(s: Seq<u8>) -> Seq<u8>
    decreases s.len(),
{
    if s.len() > 0 && s.last() == 0x20u8 {
        trim_spaces(s.drop_last())
    } else {
        s
    }
}

/// Bytes read as characters.
pub open spec fn bytes_to_chars(s: Seq<u8>) -> Seq<char> {
    Seq::new(s.len(), |k: int| (s[k] as u32) as char)
}

/// UTF-16 code units read as characters; meaningful when none is a
/// surrogate.
pub open spec fn units_to_chars(s: Seq<u16>) -> Seq<char> {
    Seq::new(s.len(), |k: int| (s[k] as u32) as char)
}

/// Whether every code unit is a Unicode scalar (no surrogates), so the name
/// can be read as characters.
pub open spec fn units_ok(s: Seq<u16>) -> bool {
    forall|k: int| 0 <= k < s.len() ==> !(0xD800 <= #[trigger] s[k] < 0xE000)
}

/// An assembled long name, cut at its terminator.
pub open spec fn cut_at_nul(s: Seq<u16>) -> Seq<u16>
    decreases s.len(),
{
    if s.len() == 0 {
        Seq::empty()
    } else if s[0] == 0u16 {
        Seq::empty()
    } else {
        seq![s[0]] + cut_at_nul(s.drop_first())
    }
}

/// The name a short record carries: the 8-byte base and 3-byte extension,
/// each stripped of padding, joined with a dot when the extension is there.
pub open spec fn short_name_chars(r: Seq<u8>) -> Seq<char> {
    let base = trim_spaces(r.subrange(0, 8));
    let ext = trim_spaces(r.subrange(8, 11));
    if ext.len() == 0 {
        bytes_to_chars(base)
    } else {
        bytes_to_chars(base) + seq!['.'] + bytes_to_chars(ext)
    }
}

/// The entry a short-name record describes, under the given name.
pub open spec fn entry_from_short(r: Seq<u8>, name: Seq<char>) -> EntryV {
    EntryV {
        name: name,
        attrs: rec_attrs(r),
        first_cluster: (u16_at(r, 26) + u16_at(r, 20) * 0x10000) as u32,
        size: (u16_at(r, 28) + u16_at(r, 30) * 0x10000) as u32,
        access_time: TimeSpec::spec_from_fat_stamp(u16_at(r, 18), 0),
        create_time: TimeSpec::spec_from_fat_stamp(u16_at(r, 16), u16_at(r, 14)),
        modify_time: TimeSpec::spec_from_fat_stamp(u16_at(r, 24), u16_at(r, 22)),
    }
}

// ===== The builder state machine =====

/// The reconstruction state between records: either no chain in progress, or
/// a long-name chain with the next expected sequence number, the checksum
/// every record of the chain must carry, and the code units gathered so far
/// (fragments arrive in descending order, so each one is prepended).
pub enum BuildSt {
    Idle,
    Going { expect: u8, checksum: u8, units: Seq<u16> },
}

/// What one record does to the reconstruction: the state it leaves behind,
/// and — when it completes something — the finished entry, or `None` for a
/// corrupt one.
pub open spec fn step(st: BuildSt, r: Seq<u8>) -> (BuildSt, Option<Option<EntryV>>) {
    if rec_is_long(r) {
        match st {
            BuildSt::Idle => {
                if long_is_last(r) && 1 <= long_seq_num(r) <= 20 {
                    (
                        BuildSt::Going {
                            expect: (long_seq_num(r) - 1) as u8,
                            checksum: long_checksum(r),
                            units: long_units(r),
                        },
                        None,
                    )
                } else {
                    (BuildSt::Idle, Some(None))
                }
            },
            BuildSt::Going { expect, checksum, units } => {
                if !long_is_last(r) && expect >= 1 && long_seq_num(r) == expect && long_checksum(r)
                    == checksum {
                    (
                        BuildSt::Going {
                            expect: (expect - 1) as u8,
                            checksum: checksum,
                            units: long_units(r) + units,
                        },
                        None,
                    )
                } else {
                    (BuildSt::Idle, Some(None))
                }
            },
        }
    } else {
        match st {
            BuildSt::Idle => (BuildSt::Idle, Some(Some(entry_from_short(r, short_name_chars(r))))),
            BuildSt::Going { expect, checksum, units } => {
                if expect == 0 && checksum11(r.subrange(0, 11)) == checksum && units_ok(
                    cut_at_nul(units),
                ) {
                    (
                        BuildSt::Idle,
                        Some(Some(entry_from_short(r, units_to_chars(cut_at_nul(units))))),
                    )
                } else {
                    (BuildSt::Idle, Some(None))
                }
            },
        }
    }
}

/// Relies on char::from_u32: `Some` exactly for Unicode scalar values,
/// carrying the character with that value.
#[verifier::external_body]
fn char_from_u32(v: u32) -> (r: Option<char>)
    ensures
        r matches Some(c) ==> c == v as char,
        r is Some <==> (v < 0xD800 || (0xE000 <= v && v <= 0x10FFFF)),
{
    char::from_u32(v)
}

/// Relies on String::push: appends one character.
#[verifier::external_body]
fn push_char(s: &mut String, c: char)
    ensures
        final(s)@ == old(s)@.push(c),
{
    s.push(c);
}

/// The little-endian 16-bit value at byte offset `lo` of the record.
fn read_u16_at(r: &Vec<u8>, lo: usize) -> (v: u16)
    requires
        lo + 2 <= r@.len(),
    ensures
        v == u16_at(r@, lo as int),
{
    let n = r.len();
    proof {
        assert(lo + 2 <= n);
    }
    r[lo] as u16 + r[lo + 1] as u16 * 256
}

/// The short-name checksum of the record's first 11 bytes.
#[verifier::loop_isolation(false)]
fn checksum11_exec(r: &Vec<u8>) -> (v: u8)
    requires
        r@.len() >= 11,
    ensures
        v == checksum11(r@.subrange(0, 11)),
{
    let mut acc: u16 = 0;
    let mut i: usize = 0;
    while i < 11
        invariant
            i <= 11,
            r@.len() >= 11,
            acc < 256,
            acc == checksum11(r@.subrange(0, i as int)),
        decreases 11 - i,
    {
        proof {
            assert(r@.subrange(0, i + 1).drop_last() =~= r@.subrange(0, i as int));
            assert(r@.subrange(0, i + 1).last() == r@[i as int]);
        }
        acc = ((acc % 2) * 128 + acc / 2 + r[i] as u16) % 256;
        i += 1;
    }
    acc as u8
}

/// Turns UTF-16 code units into a string, or reports the entry corrupt when
/// one is a surrogate.
#[verifier::loop_isolation(false)]
fn units_to_string(units: &Vec<u16>) -> (r: KResult<String>)
    ensures
        r matches Ok(s) ==> units_ok(units@) && s@ == units_to_chars(units@),
        r is Err ==> !units_ok(units@) && (r matches Err(e) && e == KError::CorruptDirEntry),
{
    let mut s = String::new();
    let mut i: usize = 0;
    let n = units.len();
    while i < n
        invariant
            i <= n,
            n == units@.len(),
            s@.len() == i,
            forall|k: int| 0 <= k < i ==> !(0xD800 <= #[trigger] units@[k] < 0xE000),
            forall|k: int| 0 <= k < i ==> s@[k] == (units@[k] as u32) as char,
        decreases n - i,
    {
        let u = units[i];
        match char_from_u32(u as u32) {
            Some(c) => {
                push_char(&mut s, c);
            },
            None => {
                proof {
                    assert(0xD800 <= units@[i as int] < 0xE000);
                }
                return Err(KError::CorruptDirEntry);
            },
        }
        i += 1;
    }
    proof {
        assert(s@ =~= units_to_chars(units@));
    }
    Ok(s)
}

/// The 13 code units of a long-name fragment, in record order.
fn long_units_exec(r: &Vec<u8>) -> (v: Vec<u16>)
    requires
        r@.len() == RECORD_LEN,
    ensures
        v@ == long_units(r@),
{
    let mut v: Vec<u16> = Vec::new();
    v.push(read_u16_at(r, 1));
    v.push(read_u16_at(r, 3));
    v.push(read_u16_at(r, 5));
    v.push(read_u16_at(r, 7));
    v.push(read_u16_at(r, 9));
    v.push(read_u16_at(r, 14));
    v.push(read_u16_at(r, 16));
    v.push(read_u16_at(r, 18));
    v.push(read_u16_at(r, 20));
    v.push(read_u16_at(r, 22));
    v.push(read_u16_at(r, 24));
    v.push(read_u16_at(r, 28));
    v.push(read_u16_at(r, 30));
    proof {
        assert(v@ =~= long_units(r@));
    }
    v
}

/// The units assembled so far, cut at the long name's terminator.
#[verifier::loop_isolation(false)]
fn cut_at_nul_exec(units: &Vec<u16>) -> (v: Vec<u16>)
    ensures
        v@ == cut_at_nul(units@),
{
    let mut v: Vec<u16> = Vec::new();
    let n = units.len();
    let mut i: usize = 0;
    while i < n
        invariant
            i <= n,
            n == units@.len(),
            forall|k: int| 0 <= k < i ==> units@[k] != 0u16,
            v@ =~= units@.subrange(0, i as int),
        decreases n - i,
    {
        let u = units[i];
        if u == 0 {
            proof {
                lemma_cut_at_nul(units@, i as int);
            }
            return v;
        }
        v.push(u);
        i += 1;
    }
    proof {
        lemma_cut_at_nul(units@, n as int);
    }
    v
}

/// `cut_at_nul` yields exactly the prefix before the first zero unit.
proof fn lemma_cut_at_nul(s: Seq<u16>, n: int)
    requires
        0 <= n <= s.len(),
        forall|k: int| 0 <= k < n ==> s[k] != 0u16,
        n < s.len() ==> s[n] == 0u16,
    ensures
        cut_at_nul(s) =~= s.subrange(0, n),
    decreases s.len(),
{
    if s.len() == 0 {
    } else if s[0] == 0u16 {
        assert(n == 0);
    } else {
        lemma_cut_at_nul(s.drop_first(), n - 1);
        assert(s.drop_first().subrange(0, n - 1) =~= s.subrange(1, n));
        assert(cut_at_nul(s) =~= seq![s[0]] + s.subrange(1, n));
        assert(seq![s[0]] + s.subrange(1, n) =~= s.subrange(0, n));
    }
}

/// `trim_spaces` yields exactly the prefix up to the last non-space byte.
proof fn lemma_trim_spaces(s: Seq<u8>, n: int)
    requires
        0 <= n <= s.len(),
        forall|k: int| n <= k < s.len() ==> s[k] == 0x20u8,
        n > 0 ==> s[n - 1] != 0x20u8,
    ensures
        trim_spaces(s) =~= s.subrange(0, n),
    decreases s.len(),
{
    if s.len() == 0 {
    } else if s.last() == 0x20u8 {
        assert(n < s.len());
        lemma_trim_spaces(s.drop_last(), n);
        assert(s.drop_last().subrange(0, n) =~= s.subrange(0, n));
    } else {
        assert(n == s.len());
        assert(s.subrange(0, n) =~= s);
    }
}

/// The record's base or extension field without its padding, as characters
/// appended to `out`.
#[verifier::loop_isolation(false)]
fn append_trimmed(out: &mut String, r: &Vec<u8>, lo: usize, hi: usize)
    requires
        lo <= hi <= r@.len(),
    ensures
        final(out)@ == old(out)@ + bytes_to_chars(trim_spaces(r@.subrange(lo as int, hi as int))),
{
    let ghost field = r@.subrange(lo as int, hi as int);
    let mut n: usize = hi - lo;
    while n > 0 && r[lo + n - 1] == 0x20
        invariant
            n <= hi - lo,
            lo <= hi <= r@.len(),
            forall|k: int| n <= k < hi - lo ==> field[k] == 0x20u8,
        decreases n,
    {
        n = n - 1;
    }
    proof {
        lemma_trim_spaces(field, n as int);
    }
    let ghost out0 = out@;
    let mut i: usize = 0;
    while i < n
        invariant
            i <= n,
            n <= hi - lo,
            lo <= hi <= r@.len(),
            out@.len() == out0.len() + i,
            forall|k: int| 0 <= k < out0.len() ==> out@[k] == out0[k],
            forall|k: int| 0 <= k < i ==> out@[out0.len() + k] == (field[k] as u32) as char,
        decreases n - i,
    {
        let b = r[lo + i];
        match char_from_u32(b as u32) {
            Some(c) => {
                push_char(out, c);
            },
            None => {
                proof {
                    assert(false);
                }
            },
        }
        i += 1;
    }
    proof {
        assert(out@ =~= out0 + bytes_to_chars(trim_spaces(field)));
    }
}

/// The name a short record carries, as a string.
fn short_name_exec(r: &Vec<u8>) -> (s: String)
    requires
        r@.len() == RECORD_LEN,
    ensures
        s@ == short_name_chars(r@),
{
    let mut s = String::new();
    append_trimmed(&mut s, r, 0, 8);
    let mut ext = String::new();
    append_trimmed(&mut ext, r, 8, 11);
    if ext.as_str().is_empty() {
        proof {
            assert(s@ =~= short_name_chars(r@));
        }
        s
    } else {
        push_char(&mut s, '.');
        s.append(ext.as_str());
        proof {
            assert(s@ =~= short_name_chars(r@));
        }
        s
    }
}

/// The entry a short-name record describes, under the given name.
fn entry_from_short_exec(r: &Vec<u8>, name: String) -> (d: DirEntry)
    requires
        r@.len() == RECORD_LEN,
    ensures
        d@ == entry_from_short(r@, name@),
{
    DirEntry {
        name,
        attrs: r[11],
        first_cluster: read_u16_at(r, 26) as u32 + read_u16_at(r, 20) as u32 * 0x10000,
        size: read_u16_at(r, 28) as u32 + read_u16_at(r, 30) as u32 * 0x10000,
        access_time: TimeSpec::from_fat_stamp(read_u16_at(r, 18), 0),
        create_time: TimeSpec::from_fat_stamp(read_u16_at(r, 16), read_u16_at(r, 14)),
        modify_time: TimeSpec::from_fat_stamp(read_u16_at(r, 24), read_u16_at(r, 22)),
    }
}

/// An in-progress long-name chain.
pub struct DirEntryBuilder {
    units: Vec<u16>,
    expect: u8,
    checksum: u8,
}

impl View for DirEntryBuilder {
    type V = BuildSt;

    closed spec fn view(&self) -> BuildSt {
        BuildSt::Going { expect: self.expect, checksum: self.checksum, units: self.units@ }
    }
}

/// What consuming one record yields: a still-growing builder, or a finished
/// logical entry.
pub enum DirEntryBuilderResult {
    Builder(DirEntryBuilder),
    Final(DirEntry),
}

impl DirEntryBuilder {
    /// Starts reconstruction at a record boundary with no chain in progress:
    /// a long-name fragment carrying the chain-start marker opens a builder,
    /// a short-name record is a complete one-record entry by itself, and
    /// anything else is corrupt.
    pub fn from_entry(r: &Vec<u8>) -> (res: KResult<DirEntryBuilderResult>)
        requires
            r@.len() == RECORD_LEN,
        ensures
            match res {
                Ok(DirEntryBuilderResult::Builder(b)) => step(BuildSt::Idle, r@)
                    == (b@, Option::<Option<EntryV>>::None),
                Ok(DirEntryBuilderResult::Final(d)) => step(BuildSt::Idle, r@) == (
                    BuildSt::Idle,
                    Option::Some(Option::Some(d@)),
                ),
                Err(e) => e == KError::CorruptDirEntry && step(BuildSt::Idle, r@) == (
                    BuildSt::Idle,
                    Option::Some(Option::<EntryV>::None),
                ),
            },
    {
        let attrs = r[11];
        if attrs & 0x3F == 0x0F {
            let head = r[0];
            let seq_num = head & 0x3F;
            if head & 0x40 != 0 && 1 <= seq_num && seq_num <= 20 {
                Ok(
                    DirEntryBuilderResult::Builder(
                        DirEntryBuilder {
                            units: long_units_exec(r),
                            expect: seq_num - 1,
                            checksum: r[13],
                        },
                    ),
                )
            } else {
                Err(KError::CorruptDirEntry)
            }
        } else {
            let name = short_name_exec(r);
            Ok(DirEntryBuilderResult::Final(entry_from_short_exec(r, name)))
        }
    }

    /// Consumes the next record of an in-progress chain: the fragment with
    /// the next lower sequence number and the same checksum extends the name
    /// at the front; the short-name record whose checksum matches, once the
    /// sequence has come down to one, finishes the entry; anything else is
    /// corrupt.
    #[verifier::loop_isolation(false)]
    pub fn add_entry(self, r: &Vec<u8>) -> (res: KResult<DirEntryBuilderResult>)
        requires
            r@.len() == RECORD_LEN,
        ensures
            match res {
                Ok(DirEntryBuilderResult::Builder(b)) => step(self@, r@) == (
                    b@,
                    Option::<Option<EntryV>>::None,
                ),
                Ok(DirEntryBuilderResult::Final(d)) => step(self@, r@) == (
                    BuildSt::Idle,
                    Option::Some(Option::Some(d@)),
                ),
                Err(e) => e == KError::CorruptDirEntry && step(self@, r@) == (
                    BuildSt::Idle,
                    Option::Some(Option::<EntryV>::None),
                ),
            },
    {
        let attrs = r[11];
        if attrs & 0x3F == 0x0F {
            let head = r[0];
            let seq_num = head & 0x3F;
            if head & 0x40 == 0 && self.expect >= 1 && seq_num == self.expect && r[13]
                == self.checksum {
                let mut joined = long_units_exec(r);
                let mut i: usize = 0;
                let n = self.units.len();
                while i < n
                    invariant
                        i <= n,
                        n == self.units@.len(),
                        joined@ =~= long_units(r@) + self.units@.subrange(0, i as int),
                    decreases n - i,
                {
                    joined.push(self.units[i]);
                    proof {
                        assert(joined@ =~= long_units(r@) + self.units@.subrange(0, i + 1));
                    }
                    i += 1;
                }
                proof {
                    assert(self.units@.subrange(0, n as int) =~= self.units@);
                }
                Ok(
                    DirEntryBuilderResult::Builder(
                        DirEntryBuilder {
                            units: joined,
                            expect: self.expect - 1,
                            checksum: self.checksum,
                        },
                    ),
                )
            } else {
                Err(KError::CorruptDirEntry)
            }
        } else {
            let chk = checksum11_exec(r);
            if self.expect == 0 && chk == self.checksum {
                let cut = cut_at_nul_exec(&self.units);
                match units_to_string(&cut) {
                    Ok(name) => Ok(
                        DirEntryBuilderResult::Final(entry_from_short_exec(r, name)),
                    ),
                    Err(e) => Err(e),
                }
            } else {
                Err(KError::CorruptDirEntry)
            }
        }
    }
}

} // verus!
