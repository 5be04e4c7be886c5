use glommio::io::directory::{
    contains_dir, created, ByteOrder, DirEntry64, DirEntryIter, Directory, DirectoryError, GetDents, MissingNul, DIR_ENTRY_MIN_SIZE,
    EEXIST,
};

fn record(ino: u64, file_type: u8, name: &[u8]) -> Vec<u8> {
    let reclen = (19 + name.len() + 1).div_ceil(8) * 8;
    let mut buf = vec![0u8; reclen];
    buf[0..8].copy_from_slice(&ino.to_ne_bytes());
    buf[16..18].copy_from_slice(&(reclen as u16).to_ne_bytes());
    buf[18] = file_type;
    buf[19..19 + name.len()].copy_from_slice(name);
    buf
}

#[test]
fn directory_dirent_iter_empty() {
    let buf = vec![0u8; 0].into_boxed_slice();
    let mut iter = DirEntryIter::new(&buf);
    let mut count = 0;
    while iter.next().is_some() {
        count += 1;
    }
    assert_eq!(count, 0);
}

#[test]
fn directory_dirent_iter_buffer_too_small_for_reclen() {
    let mut buf = vec![0u8; 24];

    let reclen: u16 = 40;
    buf[16..18].copy_from_slice(&reclen.to_ne_bytes());

    let mut iter = DirEntryIter::new(&buf);
    assert!(iter.next().is_none());
}

#[test]
fn directory_dirent_missing_null_terminator() {
    let mut buf = vec![0u8; 22];

    let reclen: u16 = 22;
    buf[16..18].copy_from_slice(&reclen.to_ne_bytes());

    buf[19] = b'a';
    buf[20] = b'b';
    buf[21] = b'c';

    let mut iter = DirEntryIter::new(&buf);
    let entry = iter
        .next()
        .expect("Should still parse out the entry from the slice");

    let name_result = entry.d_name();
    assert!(name_result.is_err());
    assert_eq!(name_result, Err(MissingNul));
}

#[test]
fn records_come_out_in_order_with_their_fields() {
    let mut buf = record(0x0102_0304_0506_0708, 4, b".");
    buf.extend(record(7, 8, b"f1"));
    buf.extend(record(9, 8, b"a-rather-long-file-name"));
    let n = buf.len();
    buf.extend([0xff; 40]);
    let dents = GetDents { buf: buf.into_boxed_slice(), n };

    let mut iter = dents.iter();
    let first = iter.next().unwrap();
    assert_eq!(first.d_ino(), 0x0102_0304_0506_0708);
    assert_eq!(first.d_type(), 4);
    assert_eq!(first.d_reclen(), 24);
    assert_eq!(first.d_name(), Ok(&b"."[..]));

    let second = iter.next().unwrap();
    assert_eq!((second.d_ino(), second.d_type()), (7, 8));
    assert_eq!(second.d_name(), Ok(&b"f1"[..]));

    let third = iter.next().unwrap();
    assert_eq!(third.d_ino(), 9);
    assert_eq!(third.d_name(), Ok(&b"a-rather-long-file-name"[..]));

    assert!(iter.next().is_none(), "what lies past the end is not looked at");
    assert!(iter.next().is_none());
}

#[test]
fn a_header_cut_short_is_no_record() {
    let buf = vec![1u8; DIR_ENTRY_MIN_SIZE - 1];
    assert!(DirEntryIter::new(&buf).next().is_none());
}

#[test]
fn an_empty_name_ends_at_once() {
    let mut buf = vec![0u8; 24];
    buf[16] = 24;
    assert_eq!(DirEntry64::new(&buf).d_name(), Ok(&b""[..]));
}

#[test]
fn a_name_with_a_directory_in_it_is_told_from_a_plain_one() {
    for plain in [&b"f1"[..], b"f1/", b"f1//", b"f1/.", b"f1/./", b"...", b".hidden", b"a.b"] {
        assert!(!contains_dir(plain), "{plain:?}");
    }
    for other in [&b""[..], b"/", b"/f1", b"a/b", b"a/..", b".", b"..", b"./a", b"../a", b"a/.b"] {
        assert!(contains_dir(other), "{other:?}");
    }
}

#[test]
fn files_are_named_under_their_directory() {
    let dir = Directory::from_parts(5, Some(b"/tmp/d".to_vec()));
    assert_eq!(dir.as_raw_fd(), 5);
    assert_eq!(dir.path(), Some(&b"/tmp/d".to_vec()));
    assert_eq!(dir.file_path(b"f1"), Ok(b"/tmp/d/f1".to_vec()));
    assert_eq!(dir.file_path(b"a/b"), Err(DirectoryError::ContainsDirectory));

    let slashed = Directory::from_parts(5, Some(b"/tmp/d/".to_vec()));
    assert_eq!(slashed.file_path(b"f1"), Ok(b"/tmp/d/f1".to_vec()));

    let nameless = Directory::from_parts(5, None);
    assert_eq!(nameless.path(), None);
    assert_eq!(nameless.file_path(b"f1"), Err(DirectoryError::NoPath));
    assert_eq!(nameless.file_path(b".."), Err(DirectoryError::ContainsDirectory));
}

#[test]
fn a_directory_that_is_there_already_will_do() {
    assert_eq!(EEXIST, libc::EEXIST);
    assert_eq!(created(None), Ok(()));
    assert_eq!(created(Some(libc::EEXIST)), Ok(()));
    assert_eq!(created(Some(libc::EACCES)), Err(libc::EACCES));
}

#[test]
fn records_end_to_end_are_what_was_filled_in() {
    let names: [&[u8]; 3] = [b"a", b"a longer name", b"bc"];
    let mut buf: Vec<u8> = names.iter().enumerate().flat_map(|(i, name)| record(i as u64, 8, name)).collect();
    let filled = buf.len();
    // Less than a record is left over.
    buf.extend([1u8; 9]);
    let dents = GetDents { n: buf.len(), buf: buf.into_boxed_slice() };
    let mut iter = dents.iter();
    let mut end = 0;
    while let Some(entry) = iter.next() {
        assert_eq!(entry.d_name(), DirEntry64::new(&dents.buf[end..end + entry.d_reclen()]).d_name());
        end += entry.d_reclen();
    }
    assert_eq!(end, filled);
}

#[test]
fn numbers_are_read_as_they_are_stored() {
    let mut buf = vec![0u8; 24];
    buf[0] = 1;
    buf[7] = 2;
    buf[16] = 24;
    let low = DirEntry64::stored(&buf, ByteOrder::LowFirst);
    assert_eq!((low.d_ino(), low.d_reclen()), (u64::from_le_bytes([1, 0, 0, 0, 0, 0, 0, 2]), 24));
    let high = DirEntry64::stored(&buf, ByteOrder::HighFirst);
    assert_eq!((high.d_ino(), high.d_reclen()), (u64::from_be_bytes([1, 0, 0, 0, 0, 0, 0, 2]), 24 * 256));
    let native = DirEntry64::new(&buf);
    assert_eq!(native.d_ino(), u64::from_ne_bytes([1, 0, 0, 0, 0, 0, 0, 2]));
    assert_eq!(native.d_reclen(), u16::from_ne_bytes([24, 0]) as usize);

    assert!(DirEntryIter::stored(&buf, ByteOrder::LowFirst).next().is_some());
    assert!(DirEntryIter::stored(&buf, ByteOrder::HighFirst).next().is_none());
    assert_eq!(ByteOrder::from_reading(1), ByteOrder::LowFirst);
    assert_eq!(ByteOrder::from_reading(256), ByteOrder::HighFirst);
}
