//! The audit spool: records behind their length in one file, their checksums
//! in another.
//!
//! ```text
//! record   := u32 little-endian length || record bytes
//! spool    := record*
//! checksum := u32 little-endian CRC-32C of each record, in order
//! ```

use vstd::prelude::*;
use vstd::slice::{slice_subrange, slice_to_vec};

use crate::by_age::{self, matching_by_age};
use crate::config::AuditFailureMode;
use crate::text::{self, push_decimal, push_decimal_padded};

verus! {

/// The CRC-32C polynomial, bits reversed.
pub const CRC32C_POLY: u32 = 0x82F6_3B78;

/// Divides one bit further.
pub open spec fn crc_bit(c: u32) -> u32 {
    if c & 1 == 1 {
        (c >> 1) ^ CRC32C_POLY
    } else {
        c >> 1
    }
}

/// Divides `n` bits further.
pub open spec fn crc_bits(c: u32, n: nat) -> u32
    decreases n,
{
    if n == 0 {
        c
    } else {
        crc_bit(crc_bits(c, (n - 1) as nat))
    }
}

/// The remainder after all of `data`, on from `c`.
pub open spec fn crc_run(c: u32, data: Seq<u8>) -> u32
    decreases data.len(),
{
    if data.len() == 0 {
        c
    } else {
        crc_bits(crc_run(c, data.drop_last()) ^ (data.last() as u32), 8)
    }
}

/// The CRC-32C of `data`: the remainder from all ones, inverted.
pub open spec fn crc32c_of(data: Seq<u8>) -> u32 {
    !crc_run(0xFFFF_FFFF, data)
}

/// The CRC-32C (Castagnoli) of `data`.
#[must_use]
pub fn crc32c(data: &[u8]) -> (r: u32)
    ensures
        r == crc32c_of(data@),
{
    let mut crc: u32 = 0xFFFF_FFFF;
    let mut i: usize = 0;
    while i < data.len()
        invariant
            i <= data@.len(),
            crc == crc_run(0xFFFF_FFFF, data@.take(i as int)),
        decreases data@.len() - i,
    {
        proof {
            assert(data@.take(i + 1).drop_last() =~= data@.take(i as int));
            assert(data@.take(i + 1).last() == data@[i as int]);
        }
        crc = crc ^ (data[i] as u32);
        let ghost start = crc;
        let mut k: u32 = 0;
        while k < 8
            invariant
                k <= 8,
                crc == crc_bits(start, k as nat),
            decreases 8 - k,
        {
            crc = if crc & 1 == 1 {
                (crc >> 1) ^ CRC32C_POLY
            } else {
                crc >> 1
            };
            k = k + 1;
        }
        i = i + 1;
    }
    assert(data@.take(i as int) =~= data@);
    !crc
}

/// The four little-endian bytes of `n`.
pub open spec fn le32(n: u32) -> Seq<u8> {
    seq![
        (n % 0x100) as u8,
        (n / 0x100 % 0x100) as u8,
        (n / 0x1_0000 % 0x100) as u8,
        (n / 0x100_0000) as u8,
    ]
}

/// The number that four little-endian bytes spell.
pub open spec fn le32_value(b: Seq<u8>) -> nat {
    b[0] as nat + 0x100 * (b[1] as nat) + 0x1_0000 * (b[2] as nat) + 0x100_0000 * (b[3] as nat)
}

/// The four little-endian bytes of `n`, appended.
fn push_le32(out: &mut Vec<u8>, n: u32)
    ensures
        final(out)@ == old(out)@ + le32(n),
{
    out.push((n % 0x100) as u8);
    out.push((n / 0x100 % 0x100) as u8);
    out.push((n / 0x1_0000 % 0x100) as u8);
    out.push((n / 0x100_0000) as u8);
    assert(out@ =~= old(out)@ + le32(n));
}

/// The number at byte `at`.
fn read_le32(b: &[u8], at: usize) -> (n: u32)
    requires
        at + 4 <= b@.len(),
    ensures
        n == le32_value(b@.subrange(at as int, at + 4)),
{
    b[at] as u32 + 0x100 * (b[at + 1] as u32) + 0x1_0000 * (b[at + 2] as u32) + 0x100_0000 * (
    b[at + 3] as u32)
}

// ---------------------------------------------------------------------------
// Writing.
// ---------------------------------------------------------------------------
/// Why a record was not taken.
#[derive(Debug, Clone, Copy, PartialEq, Eq, Structural)]
pub enum SpoolError {
    /// The record would take the spool over its limit.
    Full,
    /// The batch is closed.
    Closed,
}

impl SpoolError {
    /// The message for a person.
    pub fn message(self) -> (r: &'static str)
        ensures
            r@ == (match self {
                SpoolError::Full => "audit spool full"@,
                SpoolError::Closed => "spool bin file missing"@,
            }),
    {
        match self {
            SpoolError::Full => "audit spool full",
            SpoolError::Closed => "spool bin file missing",
        }
    }
}

/// What one record adds to the two files of a batch.
#[derive(Debug)]
pub struct SpoolChunk {
    /// For the record file.
    pub bin: Vec<u8>,
    /// For the checksum file.
    pub crc: Vec<u8>,
}

/// What a record adds to the record file.
pub open spec fn framed(record: Seq<u8>) -> Seq<u8> {
    le32(record.len() as u32) + record
}

/// One batch of the spool, as far as it has been written.
#[derive(Debug)]
pub struct SpoolWriter {
    /// How many bytes the record file holds.
    pub bytes_written: u64,
    /// How many it may hold.
    pub max_bytes: u64,
    /// Whether records are still taken.
    pub open: bool,
    /// What to do when a record is not taken.
    pub on_failure: AuditFailureMode,
}

impl SpoolWriter {
    /// A fresh batch.
    pub fn open(max_bytes: u64, on_failure: AuditFailureMode) -> (r: Self)
        ensures
            r == (SpoolWriter { bytes_written: 0, max_bytes, open: true, on_failure }),
    {
        SpoolWriter { bytes_written: 0, max_bytes, open: true, on_failure }
    }

    /// Whether a record of `len` bytes is over the limit. A limit of all ones
    /// is none.
    pub open spec fn is_full_for(self, len: nat) -> bool {
        self.bytes_written + len + 4 > self.max_bytes && self.max_bytes < u64::MAX
    }

    /// How many bytes the record file holds after a record of `len` bytes, as
    /// far as a number can tell.
    pub open spec fn size_with(self, len: nat) -> int {
        if self.bytes_written + 4 + len > u64::MAX {
            u64::MAX as int
        } else {
            self.bytes_written + 4 + len
        }
    }

    /// What `record` adds to the files. The batch itself changes once the
    /// bytes have been written: see `appended`.
    ///
    /// # Errors
    ///
    /// `Full` when the record would take the batch over its limit, else
    /// `Closed` when the batch is closed.
    pub fn append(&self, record: &[u8]) -> (r: Result<SpoolChunk, SpoolError>)
        requires
            record@.len() <= u32::MAX,
        ensures
            match r {
                Ok(chunk) => {
                    &&& !self.is_full_for(record@.len())
                    &&& self.open
                    &&& chunk.bin@ == framed(record@)
                    &&& chunk.crc@ == le32(crc32c_of(record@))
                },
                Err(SpoolError::Full) => self.is_full_for(record@.len()),
                Err(SpoolError::Closed) => !self.is_full_for(record@.len()) && !self.open,
            },
    {
        let size: u64 = record.len() as u64 + 4;
        if self.bytes_written.saturating_add(size) > self.max_bytes {
            return Err(SpoolError::Full);
        }
        if !self.open {
            return Err(SpoolError::Closed);
        }
        let mut bin: Vec<u8> = Vec::new();
        push_le32(&mut bin, record.len() as u32);
        bin.extend_from_slice(record);
        let mut crc: Vec<u8> = Vec::new();
        push_le32(&mut crc, crc32c(record));
        proof {
            assert(bin@ =~= framed(record@));
            assert(crc@ =~= le32(crc32c_of(record@)));
        }
        Ok(SpoolChunk { bin, crc })
    }

    /// Counts a record of `len` bytes whose bytes have been written.
    pub fn appended(&mut self, len: usize)
        requires
            len <= u32::MAX,
        ensures
            final(self).bytes_written == (if old(self).bytes_written + len + 4 > u64::MAX {
                u64::MAX as int
            } else {
                old(self).bytes_written + len + 4
            }),
            final(self).max_bytes == old(self).max_bytes,
            final(self).open == old(self).open,
            final(self).on_failure == old(self).on_failure,
            final(self).bytes_written == old(self).size_with(len as nat),
    {
        self.bytes_written = self.bytes_written.saturating_add(len as u64 + 4);
    }

    /// Closes the batch. What was written stays to be recovered.
    pub fn close(&mut self)
        ensures
            *final(self) == (SpoolWriter { open: false, ..*old(self) }),
    {
        self.open = false;
    }

    /// What to do when a record is not taken.
    #[must_use]
    pub fn on_failure(&self) -> (r: AuditFailureMode)
        ensures
            r == self.on_failure,
    {
        self.on_failure
    }
}

// ---------------------------------------------------------------------------
// Recovery.
// ---------------------------------------------------------------------------
/// The records that a record file holds in full.
pub open spec fn complete_records(bin: Seq<u8>) -> Seq<Seq<u8>>
    decreases bin.len(),
{
    if bin.len() < 4 {
        Seq::empty()
    } else {
        let end = 4 + le32_value(bin.take(4));
        if bin.len() < end {
            Seq::empty()
        } else {
            seq![bin.subrange(4, end as int)] + complete_records(bin.skip(end as int))
        }
    }
}

/// Whether a record file ends inside a record.
pub open spec fn cut_short(bin: Seq<u8>) -> bool
    decreases bin.len(),
{
    if bin.len() == 0 {
        false
    } else if bin.len() < 4 {
        true
    } else {
        let end = 4 + le32_value(bin.take(4));
        if bin.len() < end {
            true
        } else {
            cut_short(bin.skip(end as int))
        }
    }
}

/// The checksum of record `i`, where the checksum file reaches that far.
pub open spec fn checksum_at(crc: Option<Seq<u8>>, i: nat) -> Option<nat> {
    match crc {
        Some(c) => if c.len() >= 4 * i + 4 {
            Some(le32_value(c.subrange((4 * i) as int, (4 * i + 4) as int)))
        } else {
            None
        },
        None => None,
    }
}

/// Whether record `i` matches its checksum. One without a checksum passes.
pub open spec fn passes(record: Seq<u8>, crc: Option<Seq<u8>>, i: nat) -> bool {
    match checksum_at(crc, i) {
        Some(c) => c == crc32c_of(record),
        None => true,
    }
}

/// The records that match their checksums.
pub open spec fn intact_records(records: Seq<Seq<u8>>, crc: Option<Seq<u8>>) -> Seq<Seq<u8>>
    decreases records.len(),
{
    if records.len() == 0 {
        Seq::empty()
    } else {
        let before = intact_records(records.drop_last(), crc);
        if passes(records.last(), crc, (records.len() - 1) as nat) {
            before.push(records.last())
        } else {
            before
        }
    }
}

/// What recovery makes of the two files of a batch.
#[derive(Debug)]
pub struct SpoolScan {
    /// The records to hand on, in order.
    pub records: Vec<Vec<u8>>,
    /// How many were cut short or do not match their checksum.
    pub dropped: usize,
}

/// The bytes of each record.
pub open spec fn contents(records: Seq<Vec<u8>>) -> Seq<Seq<u8>> {
    records.map_values(|r: Vec<u8>| r@)
}

/// Takes the records of a batch apart. A record that does not match its
/// checksum is dropped and the scan goes on; a record that is cut short is
/// dropped and ends it. Where there is no checksum, the record is taken.
pub fn recover_one(bin: &[u8], crc: Option<&[u8]>) -> (r: SpoolScan)
    ensures
        ({
            let sums = match crc {
                Some(c) => Some(c@),
                None => None::<Seq<u8>>,
            };
            let complete = complete_records(bin@);
            let intact = intact_records(complete, sums);
            &&& contents(r.records@) == intact
            &&& r.dropped == complete.len() - intact.len() + (if cut_short(bin@) {
                1int
            } else {
                0
            })
        }),
        r.records@.len() + r.dropped <= bin@.len(),
{
    let ghost sums = match crc {
        Some(c) => Some(c@),
        None => None::<Seq<u8>>,
    };
    let ghost mut done: Seq<Seq<u8>> = Seq::empty();
    let mut records: Vec<Vec<u8>> = Vec::new();
    let mut dropped: usize = 0;
    let mut pos: usize = 0;
    let mut index: usize = 0;
    let size: usize = bin.len();
    proof {
        assert(bin@.skip(0) =~= bin@);
        assert(done + complete_records(bin@) =~= complete_records(bin@));
        assert(contents(records@) =~= Seq::<Seq<u8>>::empty());
    }
    while size - pos >= 4
        invariant
            pos <= size,
            size == bin@.len(),
            sums == (match crc {
                Some(c) => Some(c@),
                None => None::<Seq<u8>>,
            }),
            complete_records(bin@) == done + complete_records(bin@.skip(pos as int)),
            cut_short(bin@) == cut_short(bin@.skip(pos as int)),
            contents(records@) == intact_records(done, sums),
            dropped == done.len() - records@.len(),
            index == done.len(),
            4 * index <= pos,
        decreases size - pos,
    {
        let len: u32 = read_le32(bin, pos);
        let ghost rest = bin@.skip(pos as int);
        proof {
            assert(rest.take(4) =~= bin@.subrange(pos as int, pos + 4));
        }
        if ((size - pos - 4) as u64) < len as u64 {
            proof {
                assert(done + Seq::<Seq<u8>>::empty() =~= done);
            }
            return SpoolScan { records, dropped: dropped + 1 };
        }
        let end: usize = pos + 4 + len as usize;
        let record = slice_subrange(bin, pos + 4, end);
        let expected: Option<u32> = match crc {
            Some(c) => {
                if c.len() / 4 > index {
                    proof {
                        assert(c@.subrange((4 * index) as int, 4 * index + 4) == c@.subrange(
                            (index * 4) as int,
                            index * 4 + 4,
                        ));
                    }
                    Some(read_le32(c, index * 4))
                } else {
                    None
                }
            },
            None => None,
        };
        let intact = match expected {
            Some(sum) => sum == crc32c(record),
            None => true,
        };
        proof {
            assert(record@ =~= rest.subrange(4, 4 + len as int));
            assert(bin@.skip(end as int) =~= rest.skip(4 + len as int));
            assert(intact == passes(record@, sums, index as nat));
            assert(done.push(record@).drop_last() =~= done);
            assert(done + (seq![record@] + complete_records(bin@.skip(end as int))) =~= done.push(
                record@,
            ) + complete_records(bin@.skip(end as int)));
            done = done.push(record@);
        }
        if intact {
            let ghost was = records@;
            let copy = slice_to_vec(record);
            records.push(copy);
            proof {
                assert(contents(records@) =~= contents(was).push(record@));
            }
        } else {
            dropped = dropped + 1;
        }
        pos = end;
        index = index + 1;
    }
    proof {
        assert(done + Seq::<Seq<u8>>::empty() =~= done);
    }
    if size > pos {
        dropped = dropped + 1;
    }
    SpoolScan { records, dropped }
}

/// The end of the name of a record file.
pub open spec fn bin_suffix() -> Seq<char> {
    ".audit.bin"@
}

/// The name of a batch: when it was begun, in nanoseconds since 1970, and by
/// which process.
pub open spec fn stamp_text(nanos: nat, pid: nat) -> Seq<char> {
    text::zero_padded(nanos, 20).push('-') + text::decimal(pid)
}

/// The name of a batch.
pub fn batch_stamp(nanos: u64, pid: u32) -> (r: String)
    ensures
        r@ == stamp_text(nanos as nat, pid as nat),
{
    let mut out = String::new();
    push_decimal_padded(&mut out, nanos, 20, '0');
    out.push('-');
    push_decimal(&mut out, pid as u64);
    assert(out@ =~= stamp_text(nanos as nat, pid as nat));
    out
}

/// The name of the record file of a batch.
pub fn bin_name(stamp: &str) -> (r: String)
    ensures
        r@ == stamp@ + bin_suffix(),
{
    let mut out = stamp.to_string();
    out.append(".audit.bin");
    out
}

/// The name of the checksum file that belongs to a record file.
pub fn with_crc_suffix(bin: &str) -> (r: String)
    ensures
        r@ == bin@ + ".crc"@,
{
    let mut out = bin.to_string();
    out.append(".crc");
    out
}

/// The record files among these, by their places, in the order in which they
/// are recovered: the oldest first. `modified` says when each was last changed.
pub fn recovery_order(names: &Vec<String>, modified: &Vec<i128>) -> (r: Vec<usize>)
    requires
        names@.len() == modified@.len(),
    ensures
        by_age::places(r@) == by_age::chosen_by_age(
            text::texts(names@),
            modified@,
            Seq::empty(),
            bin_suffix(),
        ),
{
    proof {
        reveal_strlit("");
        assert(""@ =~= Seq::<char>::empty());
    }
    matching_by_age(names, modified, "", ".audit.bin")
}

/// Recovery leaves out the checksum files.
pub proof fn law_checksum_file_is_no_record_file(stamp: Seq<char>)
    ensures
        bin_suffix().is_suffix_of(stamp + bin_suffix()),
        !bin_suffix().is_suffix_of(stamp + bin_suffix() + ".crc"@),
{
    reveal_strlit(".audit.bin");
    reveal_strlit(".crc");
    let bin = stamp + bin_suffix();
    let crc = bin + ".crc"@;
    assert(bin.subrange(stamp.len() as int, bin.len() as int) =~= bin_suffix());
    assert(crc.last() == 'c');
    if bin_suffix().is_suffix_of(crc) {
        let tail = crc.subrange(crc.len() - 10, crc.len() as int);
        assert(tail.last() == crc.last());
        assert(bin_suffix().last() == 'n');
    }
}

/// What came of recovering one batch.
#[derive(Debug)]
pub struct RecoveryReport {
    /// The file that was recovered.
    pub path: String,
    /// How many records were handed on.
    pub records: usize,
    /// How many were dropped.
    pub dropped: usize,
}

impl RecoveryReport {
    /// The report on a scan of whose records `decoded` could be decoded; the
    /// others count as dropped.
    pub fn of_scan(path: String, scan: &SpoolScan, decoded: usize) -> (r: Self)
        requires
            decoded <= scan.records@.len(),
            scan.dropped + scan.records@.len() <= usize::MAX,
        ensures
            r.path == path,
            r.records == decoded,
            r.dropped == scan.dropped + (scan.records@.len() - decoded),
    {
        RecoveryReport {
            path,
            records: decoded,
            dropped: scan.dropped + (scan.records.len() - decoded),
        }
    }
}

// ---------------------------------------------------------------------------
// What was appended is recovered.
// ---------------------------------------------------------------------------
/// The record file after these records.
pub open spec fn bin_of(records: Seq<Seq<u8>>) -> Seq<u8>
    decreases records.len(),
{
    if records.len() == 0 {
        Seq::empty()
    } else {
        bin_of(records.drop_last()) + framed(records.last())
    }
}

/// The checksum file after these records.
pub open spec fn crc_of(records: Seq<Seq<u8>>) -> Seq<u8>
    decreases records.len(),
{
    if records.len() == 0 {
        Seq::empty()
    } else {
        crc_of(records.drop_last()) + le32(crc32c_of(records.last()))
    }
}

/// Whether every record fits its length.
pub open spec fn lengths_fit(records: Seq<Seq<u8>>) -> bool {
    forall|i: int| 0 <= i < records.len() ==> (#[trigger] records[i]).len() <= u32::MAX
}

proof fn lemma_le32(n: u32)
    ensures
        le32(n).len() == 4,
        le32_value(le32(n)) == n,
{
}

/// A record file followed by `tail` holds its records, then those of `tail`.
proof fn lemma_records_then(records: Seq<Seq<u8>>, tail: Seq<u8>)
    requires
        lengths_fit(records),
    ensures
        complete_records(bin_of(records) + tail) == records + complete_records(tail),
        cut_short(bin_of(records) + tail) == cut_short(tail),
    decreases records.len(),
{
    if records.len() == 0 {
        assert(bin_of(records) + tail =~= tail);
        assert(records + complete_records(tail) =~= complete_records(tail));
    } else {
        let front = records.drop_last();
        let last = records.last();
        let more = framed(last) + tail;
        assert(last == records[records.len() - 1]);
        assert(bin_of(records) + tail =~= bin_of(front) + more);
        lemma_records_then(front, more);
        lemma_le32(last.len() as u32);
        assert(more.take(4) =~= le32(last.len() as u32));
        assert(more.subrange(4, 4 + last.len() as int) =~= last);
        assert(more.skip(4 + last.len() as int) =~= tail);
        assert(front + (seq![last] + complete_records(tail)) =~= records + complete_records(tail));
    }
}

proof fn lemma_intact(records: Seq<Seq<u8>>, more: Seq<u8>)
    requires
        crc_of(records).len() == 4 * records.len(),
    ensures
        intact_records(records, Some(crc_of(records) + more)) == records,
    decreases records.len(),
{
    if records.len() > 0 {
        let front = records.drop_last();
        let last = records.last();
        let sum = le32(crc32c_of(last));
        lemma_le32(crc32c_of(last));
        assert(crc_of(front).len() == 4 * front.len());
        assert(crc_of(records) + more =~= crc_of(front) + (sum + more));
        lemma_intact(front, sum + more);
        let at = 4 * front.len() as int;
        assert((crc_of(records) + more).subrange(at, at + 4) =~= sum);
        assert(front.push(last) =~= records);
    } else {
        assert(records =~= Seq::<Seq<u8>>::empty());
    }
}

proof fn lemma_crc_len(records: Seq<Seq<u8>>)
    ensures
        crc_of(records).len() == 4 * records.len(),
    decreases records.len(),
{
    if records.len() > 0 {
        lemma_crc_len(records.drop_last());
    }
}

/// Every record that was appended is recovered, and nothing is dropped.
pub proof fn law_appended_is_recovered(records: Seq<Seq<u8>>)
    requires
        lengths_fit(records),
    ensures
        complete_records(bin_of(records)) == records,
        !cut_short(bin_of(records)),
        intact_records(records, Some(crc_of(records))) == records,
        intact_records(records, None) == records,
{
    let none = Seq::<u8>::empty();
    lemma_records_then(records, none);
    assert(bin_of(records) + none =~= bin_of(records));
    assert(records + complete_records(none) =~= records);
    lemma_crc_len(records);
    lemma_intact(records, none);
    assert(crc_of(records) + none =~= crc_of(records));
    lemma_no_sums(records);
}

proof fn lemma_no_sums(records: Seq<Seq<u8>>)
    ensures
        intact_records(records, None) == records,
    decreases records.len(),
{
    if records.len() > 0 {
        lemma_no_sums(records.drop_last());
        assert(records.drop_last().push(records.last()) =~= records);
    } else {
        assert(records =~= Seq::<Seq<u8>>::empty());
    }
}

/// A batch that was cut off inside its last record gives back the records
/// before it. The last one counts as dropped once any of it was written.
pub proof fn law_cut_tail_is_dropped(records: Seq<Seq<u8>>, last: Seq<u8>, kept: nat)
    requires
        lengths_fit(records.push(last)),
        kept < framed(last).len(),
    ensures
        ({
            let bin = bin_of(records) + framed(last).take(kept as int);
            &&& complete_records(bin) == records
            &&& cut_short(bin) == (kept > 0)
            &&& intact_records(records, Some(crc_of(records.push(last)))) == records
        }),
{
    let tail = framed(last).take(kept as int);
    assert forall|i: int| 0 <= i < records.len() implies (#[trigger] records[i]).len()
        <= u32::MAX by {
        assert(records.push(last)[i] == records[i]);
    }
    assert(records.push(last)[records.len() as int] == last);
    lemma_records_then(records, tail);
    lemma_le32(last.len() as u32);
    if kept >= 4 {
        assert(tail.take(4) =~= le32(last.len() as u32));
    }
    assert(records + Seq::<Seq<u8>>::empty() =~= records);
    lemma_crc_len(records);
    lemma_intact(records, le32(crc32c_of(last)));
    assert(records.push(last).drop_last() =~= records);
}

/// One step of the division loses nothing.
proof fn lemma_crc_bit_one_to_one(a: u32, b: u32)
    requires
        crc_bit(a) == crc_bit(b),
    ensures
        a == b,
{
    assert((if a & 1 == 1 { (a >> 1) ^ 0x82F6_3B78u32 } else { a >> 1 }) == (if b & 1 == 1 {
        (b >> 1) ^ 0x82F6_3B78u32
    } else {
        b >> 1
    }) ==> a == b) by (bit_vector);
}

proof fn lemma_crc_bits_one_to_one(a: u32, b: u32, n: nat)
    requires
        crc_bits(a, n) == crc_bits(b, n),
    ensures
        a == b,
    decreases n,
{
    if n > 0 {
        let m = (n - 1) as nat;
        lemma_crc_bit_one_to_one(crc_bits(a, m), crc_bits(b, m));
        lemma_crc_bits_one_to_one(a, b, m);
    }
}

proof fn lemma_crc_run_differs(a: Seq<u8>, b: Seq<u8>, i: int)
    requires
        a.len() == b.len(),
        0 <= i < a.len(),
        a[i] != b[i],
        forall|k: int| 0 <= k < a.len() && k != i ==> a[k] == b[k],
    ensures
        crc_run(0xFFFF_FFFF, a) != crc_run(0xFFFF_FFFF, b),
    decreases a.len(),
{
    let x = crc_run(0xFFFF_FFFF, a.drop_last());
    let y = crc_run(0xFFFF_FFFF, b.drop_last());
    let p = a.last() as u32;
    let q = b.last() as u32;
    if i == a.len() - 1 {
        assert(a.drop_last() =~= b.drop_last());
        assert(x ^ p == x ^ q ==> p == q) by (bit_vector);
    } else {
        lemma_crc_run_differs(a.drop_last(), b.drop_last(), i);
        assert(x ^ p == y ^ p ==> x == y) by (bit_vector);
    }
    if crc_bits(x ^ p, 8) == crc_bits(y ^ q, 8) {
        lemma_crc_bits_one_to_one(x ^ p, y ^ q, 8);
    }
}

/// A record with one byte damaged does not match the checksum of the record
/// that was appended.
pub proof fn law_damaged_byte_is_noticed(record: Seq<u8>, damaged: Seq<u8>, i: int)
    requires
        record.len() == damaged.len(),
        0 <= i < record.len(),
        record[i] != damaged[i],
        forall|k: int| 0 <= k < record.len() && k != i ==> record[k] == damaged[k],
    ensures
        crc32c_of(damaged) != crc32c_of(record),
{
    let a = crc_run(0xFFFF_FFFF, record);
    let b = crc_run(0xFFFF_FFFF, damaged);
    lemma_crc_run_differs(record, damaged, i);
    assert(!a == !b ==> a == b) by (bit_vector);
}

proof fn lemma_checksum_at(records: Seq<Seq<u8>>, more: Seq<u8>, i: nat)
    requires
        i < records.len(),
    ensures
        checksum_at(Some(crc_of(records) + more), i) == Some(crc32c_of(records[i as int]) as nat),
    decreases records.len(),
{
    let front = records.drop_last();
    let last = records.last();
    let sum = le32(crc32c_of(last));
    lemma_le32(crc32c_of(last));
    lemma_crc_len(records);
    lemma_crc_len(front);
    assert(crc_of(records) + more =~= crc_of(front) + (sum + more));
    if i < front.len() {
        lemma_checksum_at(front, sum + more, i);
    } else {
        let at = 4 * front.len() as int;
        assert((crc_of(records) + more).subrange(at, at + 4) =~= sum);
    }
}

proof fn lemma_intact_but_one(records: Seq<Seq<u8>>, altered: Seq<u8>, k: int, n: int)
    requires
        0 <= k < records.len(),
        0 <= n <= records.len(),
        crc32c_of(altered) != crc32c_of(records[k]),
    ensures
        intact_records(records.update(k, altered).take(n), Some(crc_of(records))) == (if n <= k {
            records.take(n)
        } else {
            records.take(n).remove(k)
        }),
    decreases n,
{
    let now = records.update(k, altered);
    if n == 0 {
        assert(records.take(0) =~= Seq::<Seq<u8>>::empty());
    } else {
        let none = Seq::<u8>::empty();
        lemma_intact_but_one(records, altered, k, n - 1);
        lemma_checksum_at(records, none, (n - 1) as nat);
        assert(crc_of(records) + none =~= crc_of(records));
        assert(now.take(n).drop_last() =~= now.take(n - 1));
        assert(now.take(n).last() == now[n - 1]);
        if n - 1 < k {
            assert(records.take(n - 1).push(records[n - 1]) =~= records.take(n));
        } else if n - 1 == k {
            assert(records.take(n).remove(k) =~= records.take(n - 1));
        } else {
            assert(records.take(n - 1).remove(k).push(records[n - 1]) =~= records.take(n).remove(
                k,
            ));
        }
    }
}

/// Where one record of a batch was altered so that its checksum is another,
/// recovery gives back all the others in order, and one counts as dropped.
pub proof fn law_altered_record_is_dropped(records: Seq<Seq<u8>>, altered: Seq<u8>, k: int)
    requires
        lengths_fit(records),
        0 <= k < records.len(),
        altered.len() == records[k].len(),
        crc32c_of(altered) != crc32c_of(records[k]),
    ensures
        ({
            let complete = complete_records(bin_of(records.update(k, altered)));
            let intact = intact_records(complete, Some(crc_of(records)));
            &&& !cut_short(bin_of(records.update(k, altered)))
            &&& intact == records.remove(k)
            &&& complete.len() - intact.len() == 1
        }),
{
    let now = records.update(k, altered);
    assert forall|i: int| 0 <= i < now.len() implies (#[trigger] now[i]).len() <= u32::MAX by {
        assert(records[i].len() <= u32::MAX);
    }
    law_appended_is_recovered(now);
    lemma_intact_but_one(records, altered, k, records.len() as int);
    assert(now.take(records.len() as int) =~= now);
    assert(records.take(records.len() as int) =~= records);
}

// ---------------------------------------------------------------------------
// What a batch keeps.
// ---------------------------------------------------------------------------
/// A length is spelled by four bytes, the lowest first, and stands before its
/// record.
pub proof fn law_a_record_follows_its_length(record: Seq<u8>)
    requires
        record.len() <= u32::MAX,
    ensures
        framed(record).len() == 4 + record.len(),
        framed(record).skip(4) == record,
        framed(record)[0] as nat + 256 * (framed(record)[1] as nat) + 65_536 * (framed(
            record,
        )[2] as nat) + 16_777_216 * (framed(record)[3] as nat) == record.len(),
{
    lemma_le32(record.len() as u32);
    assert(framed(record).skip(4) =~= record);
}

/// A record that is taken keeps the batch within its limit, its length counted;
/// one that is refused as too much would not. The largest limit is none.
pub proof fn law_a_batch_keeps_its_limit(w: SpoolWriter, len: nat)
    ensures
        w.max_bytes < u64::MAX ==> (w.is_full_for(len) <==> w.bytes_written + 4 + len
            > w.max_bytes),
        w.max_bytes == u64::MAX ==> !w.is_full_for(len),
{
}

/// A record without a checksum is handed on, whether there is no checksum file
/// or it ends before.
pub proof fn law_a_record_without_a_checksum_is_handed_on(
    records: Seq<Seq<u8>>,
    record: Seq<u8>,
    sums: Seq<u8>,
)
    ensures
        intact_records(records, None) == records,
        sums.len() < 4 * records.len() + 4 ==> intact_records(records.push(record), Some(sums))
            == intact_records(records, Some(sums)).push(record),
    decreases records.len(),
{
    let all = records.push(record);
    assert(all.drop_last() =~= records);
    if records.len() > 0 {
        law_a_record_without_a_checksum_is_handed_on(records.drop_last(), records.last(), sums);
        assert(records.drop_last().push(records.last()) =~= records);
    } else {
        assert(intact_records(records, None) =~= records);
    }
}

/// A record whose checksum is there is handed on exactly where that is its own.
pub proof fn law_a_checksum_decides(records: Seq<Seq<u8>>, record: Seq<u8>, sums: Seq<u8>, c: u32)
    requires
        sums.len() >= 4 * records.len() + 4,
        sums.subrange(4 * records.len() as int, 4 * records.len() as int + 4) == le32(c),
    ensures
        intact_records(records.push(record), Some(sums)) == (if c == crc32c_of(record) {
            intact_records(records, Some(sums)).push(record)
        } else {
            intact_records(records, Some(sums))
        }),
{
    lemma_le32(c);
    assert(records.push(record).drop_last() =~= records);
}

/// The name of a batch says when it was begun, in at least twenty digits, and by
/// which process.
pub proof fn law_a_stamp_says_when_and_who(nanos: nat, pid: nat)
    ensures
        ({
            let s = stamp_text(nanos, pid);
            let n = (s.len() - text::decimal(pid).len() - 1) as int;
            &&& n >= 20
            &&& s[n] == '-'
            &&& s.skip(n + 1) == text::decimal(pid)
            &&& text::digits_value(s.take(n), 10) == nanos
        }),
{
    let when = text::zero_padded(nanos, 20);
    let s = stamp_text(nanos, pid);
    let n = when.len() as int;
    text::law_filled_up_with_zeros_it_stays_the_number(nanos, 20);
    assert(s.take(n) =~= when);
    assert(s.skip(n + 1) =~= text::decimal(pid));
}

/// A remainder goes on where it was left: taking a text in two parts gives what
/// taking it at once gives.
pub proof fn law_a_checksum_can_be_taken_in_parts(c: u32, a: Seq<u8>, b: Seq<u8>)
    ensures
        crc_run(c, a + b) == crc_run(crc_run(c, a), b),
    decreases b.len(),
{
    if b.len() == 0 {
        assert(a + b =~= a);
    } else {
        assert((a + b).drop_last() =~= a + b.drop_last());
        assert((a + b).last() == b.last());
        law_a_checksum_can_be_taken_in_parts(c, a, b.drop_last());
    }
}

/// A batch grows by as many bytes as a record takes in its file, and one that
/// was taken never leaves it over its limit.
pub proof fn law_a_batch_grows_by_its_records(w: SpoolWriter, record: Seq<u8>)
    requires
        record.len() <= u32::MAX,
        w.bytes_written <= w.max_bytes,
        !w.is_full_for(record.len()),
    ensures
        w.size_with(record.len()) <= w.max_bytes,
        w.max_bytes < u64::MAX ==> w.size_with(record.len()) == w.bytes_written + framed(
            record,
        ).len(),
{
    lemma_le32(record.len() as u32);
}

} // verus!
