use emme_matrix::matrix::{push_decimal, Matrix, MatrixError};

fn two_by_two() -> Matrix {
    Matrix {
        data: [1.0f32, 2.0, 3.0, 4.0].iter().map(|v| v.to_bits()).collect(),
        rows: 2,
        cols: 2,
        indexes: vec![vec![100, 200], vec![10, 20]],
    }
}

fn cell_texts(m: &Matrix) -> Vec<Vec<u8>> {
    m.data.iter().map(|b| format!("{:.5}", f32::from_bits(*b)).into_bytes()).collect()
}

#[test]
fn square_csv_of_a_two_by_two_matrix() {
    let m = two_by_two();
    let mut out = Vec::new();
    m.write_csv_square(&cell_texts(&m), &mut out).unwrap();
    assert_eq!(
        String::from_utf8(out).unwrap(),
        "Row\\Col,100,200\n10,1.00000,2.00000\n20,3.00000,4.00000\n"
    );
}

#[test]
fn long_csv_of_a_two_by_two_matrix() {
    let m = two_by_two();
    let mut out = Vec::new();
    m.write_csv_column(&cell_texts(&m), &mut out).unwrap();
    assert_eq!(
        String::from_utf8(out).unwrap(),
        "Origin,Destination,Value\n10,100,1.00000\n10,200,2.00000\n20,100,3.00000\n20,200,4.00000\n"
    );
}

#[test]
fn writers_append_after_existing_output() {
    let m = two_by_two();
    let mut out = b"x".to_vec();
    m.write_csv_column(&cell_texts(&m), &mut out).unwrap();
    assert!(out.starts_with(b"xOrigin,"));
}

#[test]
fn empty_matrix_writes_headers_only() {
    let m = Matrix { data: vec![], rows: 0, cols: 0, indexes: vec![vec![], vec![]] };
    let mut sq = Vec::new();
    m.write_csv_square(&vec![], &mut sq).unwrap();
    assert_eq!(sq, b"Row\\Col\n".to_vec());
    let mut long = Vec::new();
    m.write_csv_column(&vec![], &mut long).unwrap();
    assert_eq!(long, b"Origin,Destination,Value\n".to_vec());
}

#[test]
fn row_label_without_row_is_an_error() {
    let m = Matrix {
        data: vec![0, 0],
        rows: 1,
        cols: 2,
        indexes: vec![vec![1, 2], vec![7, 8]],
    };
    let cells = cell_texts(&m);
    let mut out = b"keep".to_vec();
    assert_eq!(m.write_csv_square(&cells, &mut out), Err(MatrixError::InvalidRowIndex));
    assert_eq!(out, b"keep".to_vec());
    assert_eq!(m.write_csv_column(&cells, &mut out), Err(MatrixError::InvalidRowIndex));
    assert_eq!(out, b"keep".to_vec());
}

#[test]
fn decimal_labels() {
    for (v, s) in [(0u32, "0"), (7, "7"), (10, "10"), (1234, "1234"), (u32::MAX, "4294967295")] {
        let mut out = Vec::new();
        push_decimal(&mut out, v);
        assert_eq!(String::from_utf8(out).unwrap(), s);
    }
}
