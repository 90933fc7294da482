use std::io::Write;

use emme_matrix::reader::{ReadError, Reader, SeekFrom};
use emme_matrix::util::{ends_with, is_matrix_file_name, min};

fn gzip(bytes: &[u8]) -> Vec<u8> {
    let mut e = flate2::write::GzEncoder::new(Vec::new(), flate2::Compression::default());
    e.write_all(bytes).unwrap();
    e.finish().unwrap()
}

fn counting(n: usize) -> Vec<u8> {
    (0..n).map(|i| (i % 251) as u8).collect()
}

#[test]
fn read_fills_what_remains() {
    let mut r = Reader::plain(vec![1, 2, 3, 4, 5]);
    let mut buf = [0u8; 3];
    assert_eq!(r.read(&mut buf), 3);
    assert_eq!(buf, [1, 2, 3]);
    assert_eq!(r.read(&mut buf), 2);
    assert_eq!(buf, [4, 5, 3]);
    assert_eq!(r.read(&mut buf), 0);
}

#[test]
fn open_chooses_by_suffix() {
    let data = counting(10);
    let r = Reader::open("a.mtx.gz", gzip(&data)).unwrap();
    assert!(matches!(r, Reader::Gzip(_)));
    let r = Reader::open("a.mtx", data.clone()).unwrap();
    assert!(matches!(r, Reader::Plain(_)));
    assert_eq!(r.remaining(), 10);
    assert_eq!(Reader::open("a.gz", data).err(), Some(ReadError::CorruptStream));
}

#[test]
fn read_u32_and_vector_are_little_endian() {
    let mut r = Reader::plain(vec![1, 0, 0, 0, 0x78, 0x56, 0x34, 0x12, 0xff, 0xff, 0xff, 0xff, 9]);
    assert_eq!(r.read_u32(), Ok(1));
    assert_eq!(r.read_into_vector(2), Ok(vec![0x1234_5678, u32::MAX]));
    assert_eq!(r.read_u32(), Err(ReadError::UnexpectedEof));
    assert_eq!(r.remaining(), 1);
}

#[test]
fn short_vector_read_fails_whole() {
    let mut r = Reader::plain(counting(7));
    assert_eq!(r.read_into_vector(2), Err(ReadError::UnexpectedEof));
    assert_eq!(r.remaining(), 7);
    assert_eq!(r.read_into_vector(0), Ok(vec![]));
}

#[test]
fn gzip_skip_advances_exactly() {
    let data = counting(10_000);
    let mut r = Reader::gzip(&gzip(&data)).unwrap();
    assert_eq!(r.seek(SeekFrom::Current(5000)), Ok(5000));
    let mut buf = [0u8; 4];
    assert_eq!(r.read(&mut buf), 4);
    assert_eq!(&buf[..], &data[5000..5004]);
    assert_eq!(r.seek(SeekFrom::Current(0)), Ok(5004));
    assert_eq!(r.seek(SeekFrom::Current(1_000_000)), Ok(10_000));
    assert_eq!(r.read(&mut buf), 0);
}

#[test]
fn gzip_rejects_other_seeks() {
    let mut r = Reader::gzip(&gzip(&counting(100))).unwrap();
    assert_eq!(r.seek(SeekFrom::Start(0)), Err(ReadError::UnsupportedSeek));
    assert_eq!(r.seek(SeekFrom::End(0)), Err(ReadError::UnsupportedSeek));
    assert_eq!(r.seek(SeekFrom::Current(-1)), Err(ReadError::UnsupportedSeek));
    assert_eq!(r.remaining(), 100);
}

#[test]
fn plain_seeks_every_way() {
    let mut r = Reader::plain(counting(100));
    assert_eq!(r.seek(SeekFrom::Start(10)), Ok(10));
    assert_eq!(r.seek(SeekFrom::Current(-4)), Ok(6));
    assert_eq!(r.seek(SeekFrom::End(-1)), Ok(99));
    assert_eq!(r.remaining(), 1);
    assert_eq!(r.seek(SeekFrom::End(5)), Ok(105));
    assert_eq!(r.remaining(), 0);
    assert_eq!(r.seek(SeekFrom::Current(-200)), Err(ReadError::InvalidSeek));
    assert_eq!(r.seek(SeekFrom::Start(3)), Ok(3));
    let mut buf = [0u8; 1];
    r.read(&mut buf);
    assert_eq!(buf[0], 3);
}

#[test]
fn suffix_checks() {
    assert!(ends_with("example.mtx", "mtx"));
    assert!(ends_with("a.gz", ".gz"));
    assert!(!ends_with("gz", ".gz"));
    assert!(ends_with("", ""));
    assert_eq!(min(3, 9), 3);
    assert_eq!(min(9, 3), 3);
}

#[test]
fn matrix_file_names() {
    assert!(is_matrix_file_name("a.mtx"));
    assert!(is_matrix_file_name("a.mtx.gz"));
    assert!(is_matrix_file_name("amtx.gz"));
    assert!(!is_matrix_file_name(".mtx"));
    assert!(!is_matrix_file_name("a.gz"));
    assert!(!is_matrix_file_name("a.csv"));
    assert!(!is_matrix_file_name("a.mtx.csv"));
}
