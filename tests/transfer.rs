use std::io::{Cursor, Read};

use filedrop::archive::{ArchiveReader, ArchiveWriter, ENTRY_MODE};
use filedrop::clock::get_timestamps;
use filedrop::error::{from_extract_failure, from_io_failure, FailureKind, Operation, TransferError};
use filedrop::paths::{directory_marker, join_rel, resolve_destination};
use filedrop::session::{step, Outcome, Phase, Role};
use filedrop::stream::{copy, MemSink, MemSource};

fn pattern(len: usize) -> Vec<u8> {
    (0..len).map(|i| ((i * 31 + 7) % 251) as u8).collect()
}

/// Reads back every entry of an archive: name, directory flag, content.
fn entries_of(bytes: &[u8]) -> Vec<(String, bool, Vec<u8>)> {
    let mut archive = zip::ZipArchive::new(Cursor::new(bytes.to_vec())).unwrap();
    let mut out = Vec::new();
    for i in 0..archive.len() {
        let mut f = archive.by_index(i).unwrap();
        let mut content = Vec::new();
        f.read_to_end(&mut content).unwrap();
        out.push((f.name().to_string(), f.is_dir(), content));
    }
    out
}

/// Moves bytes through a small buffer, as a connection would.
fn send_through(bytes: Vec<u8>, buffer_size: usize) -> Vec<u8> {
    let mut src = MemSource::new(bytes);
    let mut sink = MemSink::new();
    copy(&mut src, &mut sink, buffer_size).unwrap();
    sink.into_bytes()
}

#[test]
fn copy_moves_everything_through_small_buffer() {
    let data = pattern(1000);
    let mut src = MemSource::new(data.clone());
    let mut sink = MemSink::new();
    assert_eq!(copy(&mut src, &mut sink, 3), Ok(()));
    assert_eq!(src.remaining(), 0);
    assert_eq!(sink.into_bytes(), data);
}

#[test]
fn copy_of_empty_source_writes_nothing() {
    let mut src = MemSource::new(Vec::new());
    let mut sink = MemSink::new();
    assert_eq!(copy(&mut src, &mut sink, 16), Ok(()));
    assert!(sink.into_bytes().is_empty());
}

#[test]
fn copy_with_buffer_larger_than_payload() {
    let data = pattern(10);
    assert_eq!(send_through(data.clone(), 1 << 20), data);
}

#[test]
fn join_and_marker_names() {
    assert_eq!(join_rel("", "a.txt"), "a.txt");
    assert_eq!(join_rel("sub", "a.txt"), "sub/a.txt");
    assert_eq!(join_rel("sub/deep", "x"), "sub/deep/x");
    assert_eq!(directory_marker("sub/deep"), "sub/deep/");
}

#[test]
fn destination_is_explicit_path_or_cwd() {
    assert_eq!(resolve_destination(Some("/tmp/out".to_string()), "/home/me".to_string()), "/tmp/out");
    assert_eq!(resolve_destination(None, "/home/me".to_string()), "/home/me");
}

#[test]
fn io_failures_are_classified() {
    assert_eq!(from_io_failure(FailureKind::NotFound, Operation::Read), TransferError::NotFound);
    assert_eq!(from_io_failure(FailureKind::PermissionDenied, Operation::Write), TransferError::AccessDenied);
    assert_eq!(
        from_io_failure(FailureKind::Other, Operation::Write),
        TransferError::Io { operation: Operation::Write }
    );
    assert_eq!(from_extract_failure(None), TransferError::CorruptArchive);
    assert_eq!(from_extract_failure(Some(FailureKind::PermissionDenied)), TransferError::AccessDenied);
    assert_eq!(from_extract_failure(Some(FailureKind::NotFound)), TransferError::AccessDenied);
    assert_eq!(
        from_extract_failure(Some(FailureKind::Other)),
        TransferError::Io { operation: Operation::Write }
    );
}

#[test]
fn single_file_round_trip() {
    let data = pattern(4096);
    let mut w = ArchiveWriter::new();
    w.add_file("report.bin", &mut MemSource::new(data.clone()), 100).unwrap();
    let bytes = w.finish().unwrap();
    let entries = entries_of(&bytes);
    assert_eq!(entries, vec![("report.bin".to_string(), false, data)]);
}

#[test]
fn five_megabyte_file_survives_transfer() {
    let data = pattern(5 * 1024 * 1024);
    let mut w = ArchiveWriter::new();
    w.add_file("big.bin", &mut MemSource::new(data.clone()), 64 * 1024).unwrap();
    let sent = w.finish().unwrap();
    let received = send_through(sent.clone(), 4096);
    assert_eq!(received, sent);
    let reader = ArchiveReader::open(received).unwrap();
    assert_eq!(reader.entry_count(), 1);
    let bytes = {
        let mut archive = reader.into_archive();
        let mut f = archive.by_index(0).unwrap();
        let mut content = Vec::new();
        f.read_to_end(&mut content).unwrap();
        assert_eq!(f.name(), "big.bin");
        content
    };
    assert!(bytes == data);
}

#[test]
fn empty_file_gives_zero_length_entry() {
    let mut w = ArchiveWriter::new();
    w.add_file("empty.txt", &mut MemSource::new(Vec::new()), 8).unwrap();
    let bytes = w.finish().unwrap();
    assert_eq!(entries_of(&bytes), vec![("empty.txt".to_string(), false, Vec::new())]);
}

#[test]
fn empty_directory_gives_lone_marker() {
    let mut w = ArchiveWriter::new();
    w.add_directory("nothing").unwrap();
    assert_eq!(w.next_dir(), Some("nothing".to_string()));
    assert_eq!(w.next_dir(), None);
    let bytes = w.finish().unwrap();
    assert_eq!(entries_of(&bytes), vec![("nothing/".to_string(), true, Vec::new())]);
}

#[test]
fn directory_tree_round_trip() {
    // root: a.txt, sub/ { b.txt, deep/ { c.txt } }
    let mut w = ArchiveWriter::new();
    w.add_file("a.txt", &mut MemSource::new(b"alpha".to_vec()), 2).unwrap();
    w.add_directory("sub").unwrap();
    assert_eq!(w.next_dir(), Some("sub".to_string()));
    w.add_file("b.txt", &mut MemSource::new(b"bravo".to_vec()), 2).unwrap();
    w.add_directory("deep").unwrap();
    assert_eq!(w.next_dir(), Some("sub/deep".to_string()));
    w.add_file("c.txt", &mut MemSource::new(b"charlie".to_vec()), 2).unwrap();
    assert_eq!(w.next_dir(), None);
    let bytes = send_through(w.finish().unwrap(), 7);
    let reader = ArchiveReader::open(bytes.clone()).unwrap();
    assert_eq!(reader.entry_count(), 5);
    assert_eq!(
        entries_of(&bytes),
        vec![
            ("a.txt".to_string(), false, b"alpha".to_vec()),
            ("sub/".to_string(), true, Vec::new()),
            ("sub/b.txt".to_string(), false, b"bravo".to_vec()),
            ("sub/deep/".to_string(), true, Vec::new()),
            ("sub/deep/c.txt".to_string(), false, b"charlie".to_vec()),
        ]
    );
}

#[test]
fn walk_visits_queued_directories_last_first() {
    let mut w = ArchiveWriter::new();
    w.add_directory("one").unwrap();
    w.add_directory("two").unwrap();
    assert_eq!(w.next_dir(), Some("two".to_string()));
    w.add_directory("inner").unwrap();
    assert_eq!(w.next_dir(), Some("two/inner".to_string()));
    assert_eq!(w.next_dir(), Some("one".to_string()));
    assert_eq!(w.next_dir(), None);
}

#[test]
fn three_files_two_nested_directories() {
    let mut w = ArchiveWriter::new();
    w.add_directory("d1").unwrap();
    w.add_file("top.txt", &mut MemSource::new(pattern(300)), 64).unwrap();
    assert_eq!(w.next_dir(), Some("d1".to_string()));
    w.add_file("mid.txt", &mut MemSource::new(pattern(301)), 64).unwrap();
    w.add_directory("d2").unwrap();
    assert_eq!(w.next_dir(), Some("d1/d2".to_string()));
    w.add_file("low.txt", &mut MemSource::new(pattern(302)), 64).unwrap();
    let received = send_through(w.finish().unwrap(), 1000);
    let mut got = entries_of(&received);
    got.sort();
    let mut want = vec![
        ("d1/".to_string(), true, Vec::new()),
        ("top.txt".to_string(), false, pattern(300)),
        ("d1/mid.txt".to_string(), false, pattern(301)),
        ("d1/d2/".to_string(), true, Vec::new()),
        ("d1/d2/low.txt".to_string(), false, pattern(302)),
    ];
    want.sort();
    assert_eq!(got, want);
}

#[test]
fn truncated_archive_is_corrupt() {
    let mut w = ArchiveWriter::new();
    w.add_file("f", &mut MemSource::new(pattern(2000)), 64).unwrap();
    let bytes = w.finish().unwrap();
    let cut = bytes[..bytes.len() / 2].to_vec();
    assert_eq!(ArchiveReader::open(cut).err(), Some(TransferError::CorruptArchive));
}

#[test]
fn garbage_and_empty_are_corrupt() {
    assert_eq!(ArchiveReader::open(b"not an archive at all".to_vec()).err(), Some(TransferError::CorruptArchive));
    assert_eq!(ArchiveReader::open(Vec::new()).err(), Some(TransferError::CorruptArchive));
}

#[test]
fn entries_carry_file_mode() {
    let mut w = ArchiveWriter::new();
    w.add_file("m", &mut MemSource::new(vec![1, 2, 3]), 2).unwrap();
    let bytes = w.finish().unwrap();
    let mut archive = zip::ZipArchive::new(Cursor::new(bytes)).unwrap();
    let f = archive.by_index(0).unwrap();
    assert_eq!(f.unix_mode().map(|m| m & 0o777), Some(ENTRY_MODE));
}

#[test]
fn sender_phases_in_order() {
    let mut p = Phase::Idle;
    let mut seen = Vec::new();
    while p != Phase::Done {
        p = step(Role::Sender, p, Outcome::Succeeded);
        seen.push(p);
    }
    assert_eq!(seen, vec![Phase::Archiving, Phase::Connecting, Phase::Transferring, Phase::Done]);
}

#[test]
fn receiver_phases_in_order() {
    let mut p = Phase::Idle;
    let mut seen = Vec::new();
    while p != Phase::Done {
        p = step(Role::Receiver, p, Outcome::Succeeded);
        seen.push(p);
    }
    assert_eq!(seen, vec![Phase::Listening, Phase::Transferring, Phase::Extracting, Phase::Done]);
}

#[test]
fn missing_input_fails_before_connecting() {
    let p = step(Role::Sender, Phase::Idle, Outcome::Succeeded);
    assert_eq!(p, Phase::Archiving);
    let p = step(Role::Sender, p, Outcome::Failed(TransferError::NotFound));
    assert_eq!(p, Phase::Failed(TransferError::NotFound));
    assert_eq!(step(Role::Sender, p, Outcome::Succeeded), p);
}

#[test]
fn corrupt_archive_fails_receiver() {
    let p = step(Role::Receiver, Phase::Extracting, Outcome::Failed(TransferError::CorruptArchive));
    assert_eq!(p, Phase::Failed(TransferError::CorruptArchive));
    assert_eq!(step(Role::Receiver, p, Outcome::Succeeded), p);
    assert_eq!(step(Role::Receiver, Phase::Done, Outcome::Failed(TransferError::Connection)), Phase::Done);
}

#[test]
fn timestamps_are_after_the_epoch() {
    let a = get_timestamps().unwrap();
    assert!(a > 1_600_000_000_000);
}

#[test]
fn duplicate_names_are_refused_and_state_kept() {
    let mut w = ArchiveWriter::new();
    w.add_directory("d").unwrap();
    assert_eq!(w.add_directory("d"), Err(TransferError::Io { operation: Operation::Write }));
    w.add_file("f", &mut MemSource::new(vec![9]), 4).unwrap();
    let bytes = w.finish().unwrap();
    assert_eq!(
        entries_of(&bytes),
        vec![("d/".to_string(), true, Vec::new()), ("f".to_string(), false, vec![9])]
    );
}

#[test]
fn copy_hello_world_through_four_byte_buffer() {
    let mut src = MemSource::new(b"hello world".to_vec());
    let mut sink = MemSink::new();
    assert_eq!(copy(&mut src, &mut sink, 4), Ok(()));
    assert_eq!(sink.into_bytes(), b"hello world".to_vec());
}

#[test]
fn overlong_names_are_refused() {
    let long = "x".repeat(20000);
    let mut w = ArchiveWriter::new();
    assert_eq!(w.add_directory(&long), Err(TransferError::Io { operation: Operation::Write }));
    assert_eq!(
        w.add_file(&long, &mut MemSource::new(vec![1]), 4),
        Err(TransferError::Io { operation: Operation::Write })
    );
}

#[test]
fn file_name_ending_in_backslash_is_refused() {
    let mut w = ArchiveWriter::new();
    assert_eq!(
        w.add_file("odd\\", &mut MemSource::new(vec![1]), 4),
        Err(TransferError::Io { operation: Operation::Write })
    );
    w.add_file("fine", &mut MemSource::new(vec![2]), 4).unwrap();
    let bytes = w.finish().unwrap();
    assert_eq!(entries_of(&bytes), vec![("fine".to_string(), false, vec![2])]);
}

#[test]
fn duplicate_file_is_refused() {
    let mut w = ArchiveWriter::new();
    w.add_file("same", &mut MemSource::new(vec![1]), 4).unwrap();
    assert_eq!(
        w.add_file("same", &mut MemSource::new(vec![2]), 4),
        Err(TransferError::Io { operation: Operation::Write })
    );
}
