use std::io::Write;

use emme_matrix::matrix::{Matrix, MatrixError, MAGIC};

fn word(out: &mut Vec<u8>, w: u32) {
    out.extend_from_slice(&w.to_le_bytes());
}

/// A file with the given column labels, row labels and payload.
fn emme_bytes(col_labels: &[u32], row_labels: &[u32], payload: &[f32]) -> Vec<u8> {
    let mut out = Vec::new();
    word(&mut out, MAGIC);
    word(&mut out, 1);
    word(&mut out, 1);
    word(&mut out, 2);
    word(&mut out, col_labels.len() as u32);
    word(&mut out, row_labels.len() as u32);
    for l in col_labels {
        word(&mut out, *l);
    }
    for l in row_labels {
        word(&mut out, *l);
    }
    for v in payload {
        word(&mut out, v.to_bits());
    }
    out
}

fn gzip(bytes: &[u8]) -> Vec<u8> {
    let mut e = flate2::write::GzEncoder::new(Vec::new(), flate2::Compression::default());
    e.write_all(bytes).unwrap();
    e.finish().unwrap()
}

fn sample() -> Vec<u8> {
    emme_bytes(&[100, 200, 300], &[10, 20], &[1.0, 2.0, 3.0, 4.0, 5.0, 6.0])
}

#[test]
fn decode_reads_labels_and_payload() {
    let m = Matrix::from_emme_file("demand.mtx", sample()).unwrap();
    assert_eq!(m.cols, 3);
    assert_eq!(m.rows, 2);
    assert_eq!(m.indexes.len(), 2);
    assert_eq!(m.indexes[0], vec![100, 200, 300]);
    assert_eq!(m.indexes[1], vec![10, 20]);
    let values: Vec<f32> = m.data.iter().map(|b| f32::from_bits(*b)).collect();
    assert_eq!(values, vec![1.0, 2.0, 3.0, 4.0, 5.0, 6.0]);
}

#[test]
fn decoded_payload_fills_the_grid() {
    for (m, n) in [(0usize, 0usize), (1, 0), (0, 4), (3, 2), (5, 5)] {
        let cols: Vec<u32> = (0..m as u32).collect();
        let rows: Vec<u32> = (0..n as u32).collect();
        let payload = vec![0.5f32; m * n];
        let d = Matrix::from_emme_file("x.mtx", emme_bytes(&cols, &rows, &payload)).unwrap();
        assert_eq!(d.rows * d.cols, d.data.len());
        assert_eq!(d.cols, m);
        assert_eq!(d.rows, n);
    }
}

#[test]
fn get_row_inside_and_past_the_end() {
    let m = Matrix::from_emme_file("demand.mtx", sample()).unwrap();
    let r0: Vec<f32> = m.get_row(0).unwrap().iter().map(|b| f32::from_bits(*b)).collect();
    let r1: Vec<f32> = m.get_row(1).unwrap().iter().map(|b| f32::from_bits(*b)).collect();
    assert_eq!(r0, vec![1.0, 2.0, 3.0]);
    assert_eq!(r1, vec![4.0, 5.0, 6.0]);
    assert!(m.get_row(2).is_none());
    assert!(m.get_row(usize::MAX).is_none());
}

#[test]
fn any_changed_magic_byte_is_an_invalid_header() {
    let good = sample();
    for i in 0..4 {
        for b in [0u8, 1, 0x7f, 0xff, good[i] ^ 0xff] {
            if b == good[i] {
                continue;
            }
            let mut bad = good.clone();
            bad[i] = b;
            assert_eq!(
                Matrix::from_emme_file("x.mtx", bad).err(),
                Some(MatrixError::InvalidHeader)
            );
        }
    }
}

#[test]
fn dimension_count_other_than_two_is_rejected() {
    for d in [0u32, 1, 3, 4, 255, u32::MAX] {
        let mut bad = sample();
        bad[12..16].copy_from_slice(&d.to_le_bytes());
        assert_eq!(
            Matrix::from_emme_file("x.mtx", bad).err(),
            Some(MatrixError::InvalidDimensions)
        );
    }
}

#[test]
fn every_truncation_fails() {
    let good = sample();
    for k in 0..good.len() {
        let r = Matrix::from_emme_file("x.mtx", good[..k].to_vec());
        assert_eq!(r.err(), Some(MatrixError::Truncated));
    }
}

#[test]
fn huge_index_lengths_are_truncated_not_allocated() {
    let mut bad = emme_bytes(&[], &[], &[]);
    bad[16..20].copy_from_slice(&u32::MAX.to_le_bytes());
    bad[20..24].copy_from_slice(&u32::MAX.to_le_bytes());
    assert_eq!(Matrix::from_emme_file("x.mtx", bad).err(), Some(MatrixError::Truncated));
}

#[test]
fn trailing_bytes_are_ignored() {
    let mut bytes = sample();
    bytes.extend_from_slice(&[9, 9, 9]);
    let m = Matrix::from_emme_file("x.mtx", bytes).unwrap();
    assert_eq!(m.data.len(), 6);
}

#[test]
fn gzip_and_plain_decode_alike() {
    let plain = sample();
    let a = Matrix::from_emme_file("demand.mtx", plain.clone()).unwrap();
    let b = Matrix::from_emme_file("demand.mtx.gz", gzip(&plain)).unwrap();
    assert_eq!(a.data, b.data);
    assert_eq!(a.rows, b.rows);
    assert_eq!(a.cols, b.cols);
    assert_eq!(a.indexes, b.indexes);
}

#[test]
fn compressed_bytes_read_as_plain_do_not_decode() {
    let r = Matrix::from_emme_file("demand.mtx", gzip(&sample()));
    assert_eq!(r.err(), Some(MatrixError::InvalidHeader));
}

#[test]
fn corrupt_gzip_is_reported() {
    let r = Matrix::from_emme_file("demand.mtx.gz", sample());
    assert_eq!(r.err(), Some(MatrixError::CorruptStream));
}
