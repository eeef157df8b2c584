use obs_core::audit_spool::{
    batch_stamp, bin_name, crc32c, recover_one, recovery_order, with_crc_suffix, RecoveryReport,
    SpoolError, SpoolWriter,
};
use obs_core::config::AuditFailureMode;

fn append_all(writer: &mut SpoolWriter, records: &[Vec<u8>]) -> (Vec<u8>, Vec<u8>) {
    let mut bin = Vec::new();
    let mut crc = Vec::new();
    for record in records {
        let chunk = writer.append(record).unwrap();
        bin.extend_from_slice(&chunk.bin);
        crc.extend_from_slice(&chunk.crc);
        writer.appended(record.len());
    }
    (bin, crc)
}

fn named(prefix: &str, n: usize) -> Vec<Vec<u8>> {
    (0..n).map(|i| format!("test.v1.{prefix}{i}").into_bytes()).collect()
}

#[test]
fn test_crc32c_canonical_vector() {
    assert_eq!(crc32c(b"123456789"), 0xE306_9283);
}

#[test]
fn test_round_trip_recovery() {
    let mut writer = SpoolWriter::open(1 << 20, AuditFailureMode::WarnOnly);
    let records = named("Audit", 5);
    let (bin, crc) = append_all(&mut writer, &records);
    writer.close();
    let scan = recover_one(&bin, Some(&crc));
    assert_eq!(scan.records.len(), 5);
    assert_eq!(scan.records, records);
    let report = RecoveryReport::of_scan("a.audit.bin".to_string(), &scan, 5);
    assert_eq!(report.records, 5);
    assert_eq!(report.dropped, 0);
}

#[test]
fn test_truncated_tail_is_discarded() {
    let mut writer = SpoolWriter::open(1 << 20, AuditFailureMode::WarnOnly);
    let records = named("Trunc", 3);
    let (mut bin, crc) = append_all(&mut writer, &records);
    bin.truncate(bin.len() - 8);
    let scan = recover_one(&bin, Some(&crc));
    assert!(scan.records.len() < 3, "truncation should drop the partial tail");
    assert_eq!(scan.records, records[..2].to_vec());
    assert_eq!(scan.dropped, 1);
}

#[test]
fn a_record_cut_inside_its_length_counts_as_dropped() {
    let mut writer = SpoolWriter::open(1 << 20, AuditFailureMode::WarnOnly);
    let records = named("Cut", 1);
    let (mut bin, crc) = append_all(&mut writer, &records);
    bin.extend_from_slice(&[9, 0]);
    let scan = recover_one(&bin, Some(&crc));
    assert_eq!(scan.records, records);
    assert_eq!(scan.dropped, 1);
}

#[test]
fn a_damaged_record_is_dropped_and_the_others_stay() {
    let mut writer = SpoolWriter::open(1 << 20, AuditFailureMode::WarnOnly);
    let records = named("Bit", 3);
    let (mut bin, crc) = append_all(&mut writer, &records);
    bin[4] ^= 1;
    let scan = recover_one(&bin, Some(&crc));
    assert_eq!(scan.records, records[1..].to_vec());
    assert_eq!(scan.dropped, 1);
    // Without checksums nothing is noticed.
    assert_eq!(recover_one(&bin, None).records.len(), 3);
}

#[test]
fn a_full_spool_and_a_closed_one_refuse_records() {
    let mut writer = SpoolWriter::open(12, AuditFailureMode::Abort);
    assert_eq!(writer.append(b"123456789").unwrap_err(), SpoolError::Full);
    assert_eq!(SpoolError::Full.message(), "audit spool full");
    assert!(writer.append(b"12345678").is_ok());
    writer.appended(8);
    assert_eq!(writer.append(b"").unwrap_err(), SpoolError::Full);
    assert_eq!(writer.on_failure(), AuditFailureMode::Abort);
    let mut closed = SpoolWriter::open(1 << 20, AuditFailureMode::Panic);
    closed.close();
    assert_eq!(closed.append(b"x").unwrap_err(), SpoolError::Closed);
}

#[test]
fn a_record_is_framed_by_its_length() {
    let writer = SpoolWriter::open(1 << 20, AuditFailureMode::WarnOnly);
    let chunk = writer.append(b"ab").unwrap();
    assert_eq!(chunk.bin, vec![2, 0, 0, 0, b'a', b'b']);
    assert_eq!(chunk.crc, crc32c(b"ab").to_le_bytes().to_vec());
}

#[test]
fn spool_files_are_recovered_oldest_first() {
    let stamp = batch_stamp(42, 7);
    assert_eq!(stamp, "00000000000000000042-7");
    assert_eq!(bin_name(&stamp), "00000000000000000042-7.audit.bin");
    assert_eq!(with_crc_suffix("a.audit.bin"), "a.audit.bin.crc");
    let names: Vec<String> = ["b.audit.bin", "b.audit.bin.crc", "notes.txt", "a.audit.bin", "c.audit.bin"]
        .iter()
        .map(|s| s.to_string())
        .collect();
    let modified = vec![30, 1, 2, 10, 30];
    assert_eq!(recovery_order(&names, &modified), vec![3, 0, 4]);
}
