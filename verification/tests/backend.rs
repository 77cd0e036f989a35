use memmap2::{Mmap, MmapOptions};
use yclass::codec::MemoryChunk;
use yclass::plugin::PluginSession;
use yclass::process::{Process, ReadOutcome, WriteOutcome};
use yclass::snapshot::Segment;
use yclass::writer::ConcatenatedDumpWriter;

fn map_bytes(bytes: &[u8]) -> Mmap {
    let mut m = MmapOptions::new().len(bytes.len()).map_anon().unwrap();
    m.copy_from_slice(bytes);
    m.make_read_only().unwrap()
}

fn segment(address: u64, data: &[u8]) -> Segment {
    Segment {
        address,
        data: data.to_vec(),
    }
}

#[test]
fn test_snapshot_merge_contiguous() {
    let process = Process::minidump(vec![segment(0x1000, b"AAAA"), segment(0x1004, b"BBBB")]);

    // the merged segment serves a read across the old boundary in one copy
    let mut buf = vec![0u8; 4];
    let outcome = process.read(0x1002, &mut buf);
    assert_eq!(outcome, ReadOutcome::Complete);
    assert_eq!(buf, b"AABB");

    assert!(process.can_read(0x1000));
    assert!(process.can_read(0x1007));
    assert!(!process.can_read(0x1008));
}

#[test]
fn test_snapshot_merge_chain() {
    let process = Process::minidump(vec![
        segment(0x1000, b"AA"),
        segment(0x1002, b"BB"),
        segment(0x1004, b"CC"),
    ]);

    // all three regions collapse into one span
    let mut buf = vec![0u8; 6];
    assert_eq!(process.read(0x1000, &mut buf), ReadOutcome::Complete);
    assert_eq!(buf, b"AABBCC");
}

#[test]
fn test_snapshot_gap_stays_separate() {
    let process = Process::minidump(vec![segment(0x1000, b"AAAA"), segment(0x2000, b"BBBB")]);

    // a spanning read truncates at the first region's end and leaves the
    // rest of the buffer as it was
    let mut buf = vec![9u8; 4];
    let outcome = process.read(0x1002, &mut buf);
    assert_eq!(outcome, ReadOutcome::Partial(2));
    assert_eq!(buf, [b'A', b'A', 9, 9]);

    assert!(!process.can_read(0x1004));
    assert!(process.can_read(0x2003));
}

#[test]
fn test_snapshot_is_read_only() {
    let process = Process::minidump(vec![segment(0x1000, b"AAAA")]);
    assert_eq!(process.write(0x1000, b"ZZ"), WriteOutcome::Unsupported);
    assert_eq!(process.id(), 0);
    assert_eq!(process.name().unwrap(), "[minidump]");

    let mut buf = vec![7u8; 2];
    assert_eq!(process.read(0x9000, &mut buf), ReadOutcome::Unreadable);
    assert_eq!(buf, [7, 7]);
}

#[test]
fn test_dump_backend_dispatch() {
    let mut writer = ConcatenatedDumpWriter::new();
    writer.add_chunk(MemoryChunk {
        address: 0x1000,
        data: b"Hello".to_vec(),
    });
    writer.add_chunk(MemoryChunk {
        address: 0x2000,
        data: b"World".to_vec(),
    });
    let process = Process::concatenated_dump(map_bytes(&writer.write())).unwrap();

    let mut buf = vec![0u8; 3];
    assert_eq!(process.read(0x1002, &mut buf), ReadOutcome::Complete);
    assert_eq!(buf, b"llo");

    // a read past the chunk's end truncates and keeps the tail
    let mut buf = vec![9u8; 4];
    assert_eq!(process.read(0x2003, &mut buf), ReadOutcome::Partial(2));
    assert_eq!(buf, [b'l', b'd', 9, 9]);

    let mut buf = vec![9u8; 2];
    assert_eq!(process.read(0x3000, &mut buf), ReadOutcome::Unreadable);
    assert_eq!(buf, [9, 9]);

    assert!(process.can_read(0x1004));
    assert!(!process.can_read(0x1005));
    assert!(!process.can_read(0xFFF));

    assert_eq!(process.write(0x1000, b"ZZ"), WriteOutcome::Unsupported);
    assert_eq!(process.id(), 0);
    assert_eq!(process.name().unwrap(), "[concatenated dump]");
}

#[test]
fn test_corrupt_dump_installs_nothing() {
    assert!(Process::concatenated_dump(map_bytes(&[0, 1, 2])).is_err());
}

#[test]
fn test_attach_to_missing_process_fails() {
    // process id 0 never names an attachable target
    assert!(Process::attach(0).is_err());
}

#[test]
fn test_plugin_lifecycle_counts() {
    let mut session = PluginSession::attach(1234);
    assert_eq!(session.id(), 1234);
    assert_eq!(session.name(), "[MANAGED]");
    assert_eq!(session.ops(), 0);

    session.record_op();
    session.record_op();
    session.record_op();
    assert_eq!(session.ops(), 3);

    let report = session.detach();
    assert_eq!(report.attach_calls, 1);
    assert_eq!(report.op_calls, 3);
    assert_eq!(report.detach_calls, 1);
}

#[test]
fn test_plugin_lifecycle_on_error_path() {
    // even when attachment is abandoned immediately, the one detach runs
    let session = PluginSession::attach(77);
    let report = session.detach();
    assert_eq!(report.attach_calls, 1);
    assert_eq!(report.op_calls, 0);
    assert_eq!(report.detach_calls, 1);
}
