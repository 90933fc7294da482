//! The EMME matrix: its binary layout, its decoder, and its CSV forms.
//!
//! Layout, all integers little-endian and 32 bits wide: magic number,
//! format version, data type tag, dimension count (always 2), the two
//! index lengths, the first index array (column labels), the second index
//! array (row labels), then the payload, one 32-bit float per cell, row by
//! row. Payload values are kept as the bit patterns of those floats.

use vstd::prelude::*;
use crate::reader::{Reader, le_word, le_words, decompressed, lemma_rest_after_read};

verus! {

/// The first word of every matrix file.
pub const MAGIC: u32 = 0xC4D4_F1B2;

/// Why a matrix could not be decoded or written.
#[derive(Debug, Clone, Copy, PartialEq, Eq, Structural)]
pub enum MatrixError {
    /// The file does not start with the magic number.
    InvalidHeader,
    /// The dimension count is not 2.
    InvalidDimensions,
    /// The file ends before the header, an index array or the payload does.
    Truncated,
    /// A gzip file could not be decompressed.
    CorruptStream,
    /// A row label has no row of values behind it.
    InvalidRowIndex,
}

/// A dense matrix with a label for each row and each column.
pub struct Matrix {
    /// Cell values, row by row, as the bit patterns of 32-bit floats.
    pub data: Vec<u32>,
    pub rows: usize,
    pub cols: usize,
    /// Column labels, then row labels.
    pub indexes: Vec<Vec<u32>>,
}

/// What a matrix holds, as mathematical values.
pub ghost struct MatrixModel {
    pub data: Seq<u32>,
    pub rows: nat,
    pub cols: nat,
    pub indexes: Seq<Seq<u32>>,
}

impl View for Matrix {
    type V = MatrixModel;

    open spec fn view(&self) -> MatrixModel {
        MatrixModel {
            data: self.data@,
            rows: self.rows as nat,
            cols: self.cols as nat,
            indexes: Seq::new(self.indexes@.len(), |i: int| self.indexes@[i]@),
        }
    }
}

impl MatrixModel {
    /// The shape that decoding guarantees: two label arrays, one column per
    /// label of the first, one row per label of the second, and one value
    /// per cell.
    pub open spec fn wf(self) -> bool {
        &&& self.indexes.len() == 2
        &&& self.cols == self.indexes[0].len()
        &&& self.rows == self.indexes[1].len()
        &&& self.data.len() == self.rows * self.cols
    }
}

/// Byte offset of the first index array.
pub open spec fn header_len() -> nat {
    24
}

/// Number of bytes that a file with index lengths `m` and `n` needs.
pub open spec fn file_len(m: nat, n: nat) -> nat {
    header_len() + 4 * m + 4 * n + 4 * (m * n)
}

/// The matrix that the bytes `s` encode, or why they do not encode one.
pub open spec fn decode_emme(s: Seq<u8>) -> Result<MatrixModel, MatrixError> {
    if s.len() < 4 {
        Err(MatrixError::Truncated)
    } else if le_word(s, 0) != MAGIC {
        Err(MatrixError::InvalidHeader)
    } else if s.len() < 16 {
        Err(MatrixError::Truncated)
    } else if le_word(s, 12) != 2 {
        Err(MatrixError::InvalidDimensions)
    } else if s.len() < header_len() {
        Err(MatrixError::Truncated)
    } else {
        let m = le_word(s, 16) as nat;
        let n = le_word(s, 20) as nat;
        if s.len() < file_len(m, n) {
            Err(MatrixError::Truncated)
        } else {
            Ok(
                MatrixModel {
                    data: le_words(s.skip((header_len() + 4 * m + 4 * n) as int), m * n),
                    rows: n,
                    cols: m,
                    indexes: seq![
                        le_words(s.skip(header_len() as int), m),
                        le_words(s.skip((header_len() + 4 * m) as int), n),
                    ],
                },
            )
        }
    }
}

/// A decoding outcome seen as mathematical values.
pub open spec fn outcome_view(r: Result<Matrix, MatrixError>) -> Result<MatrixModel, MatrixError> {
    match r {
        Ok(m) => Ok(m@),
        Err(e) => Err(e),
    }
}

/// Decimal digits of `n`, most significant first, as ASCII bytes.
pub open spec fn decimal(n: nat) -> Seq<u8>
    decreases n,
{
    if n < 10 {
        seq![(48 + n) as u8]
    } else {
        decimal(n / 10) + seq![(48 + n % 10) as u8]
    }
}

/// Each item preceded by a comma.
pub open spec fn joined(items: Seq<Seq<u8>>) -> Seq<u8>
    decreases items.len(),
{
    if items.len() == 0 {
        Seq::empty()
    } else {
        joined(items.drop_last()) + seq![COMMA] + items.last()
    }
}

/// The decimal text of each label.
pub open spec fn label_texts(labels: Seq<u32>) -> Seq<Seq<u8>> {
    Seq::new(labels.len(), |i: int| decimal(labels[i] as nat))
}

/// The cell texts of row `r`.
pub open spec fn row_cells(m: MatrixModel, cells: Seq<Seq<u8>>, r: int) -> Seq<Seq<u8>> {
    cells.subrange(r * m.cols, r * m.cols + m.cols)
}

/// ASCII comma, the field separator.
pub const COMMA: u8 = 44;

/// ASCII line feed, the line terminator.
pub const NEWLINE: u8 = 10;

/// `Row\Col` in ASCII, the title of the label column in the square layout.
pub open spec fn square_corner() -> Seq<u8> {
    seq![82, 111, 119, 92, 67, 111, 108]
}

/// First line of the square layout: a corner title, then the column labels.
pub open spec fn square_header(m: MatrixModel) -> Seq<u8> {
    square_corner() + joined(label_texts(m.indexes[0]))
        + seq![NEWLINE]
}

/// Line of row `r` in the square layout: its label, then its values.
pub open spec fn square_line(m: MatrixModel, cells: Seq<Seq<u8>>, r: int) -> Seq<u8> {
    decimal(m.indexes[1][r] as nat) + joined(row_cells(m, cells, r)) + seq![NEWLINE]
}

/// The lines of the first `k` rows in the square layout.
pub open spec fn square_lines(m: MatrixModel, cells: Seq<Seq<u8>>, k: nat) -> Seq<u8>
    decreases k,
{
    if k == 0 {
        Seq::empty()
    } else {
        square_lines(m, cells, (k - 1) as nat) + square_line(m, cells, k - 1)
    }
}

/// The square CSV text of `m`, where `cells[i]` is the text of `m.data[i]`.
pub open spec fn square_csv(m: MatrixModel, cells: Seq<Seq<u8>>) -> Seq<u8> {
    square_header(m) + square_lines(m, cells, m.indexes[1].len())
}

/// First line of the long layout: `Origin,Destination,Value` in ASCII.
pub open spec fn long_header() -> Seq<u8> {
    seq![
        79, 114, 105, 103, 105, 110, 44, 68, 101, 115, 116, 105, 110, 97, 116, 105, 111, 110, 44,
        86, 97, 108, 117, 101, 10,
    ]
}

/// Line of the cell in row `r` and column `c` in the long layout.
pub open spec fn long_line(m: MatrixModel, cells: Seq<Seq<u8>>, r: int, c: int) -> Seq<u8> {
    decimal(m.indexes[1][r] as nat) + seq![COMMA] + decimal(m.indexes[0][c] as nat) + seq![COMMA]
        + cells[r * m.cols + c] + seq![NEWLINE]
}

/// The lines of the first `k` columns of row `r` in the long layout.
pub open spec fn long_cells(m: MatrixModel, cells: Seq<Seq<u8>>, r: int, k: nat) -> Seq<u8>
    decreases k,
{
    if k == 0 {
        Seq::empty()
    } else {
        long_cells(m, cells, r, (k - 1) as nat) + long_line(m, cells, r, k - 1)
    }
}

/// The lines of the first `k` rows in the long layout.
pub open spec fn long_lines(m: MatrixModel, cells: Seq<Seq<u8>>, k: nat) -> Seq<u8>
    decreases k,
{
    if k == 0 {
        Seq::empty()
    } else {
        long_lines(m, cells, (k - 1) as nat) + long_cells(m, cells, k - 1, m.indexes[0].len())
    }
}

/// The long CSV text of `m`, one line per cell, row by row.
pub open spec fn long_csv(m: MatrixModel, cells: Seq<Seq<u8>>) -> Seq<u8> {
    long_header() + long_lines(m, cells, m.indexes[1].len())
}

/// The views of a list of texts.
pub open spec fn texts(v: &Vec<Vec<u8>>) -> Seq<Seq<u8>> {
    Seq::new(v@.len(), |i: int| v@[i]@)
}

/// Appends the decimal digits of `v`.
pub fn push_decimal(out: &mut Vec<u8>, v: u32)
    ensures
        final(out)@ == old(out)@ + decimal(v as nat),
    decreases v,
{
    if v >= 10 {
        push_decimal(out, v / 10);
    }
    out.push((48 + v % 10) as u8);
    assert(out@ =~= old(out)@ + decimal(v as nat));
}

/// Appends `b`.
fn push_bytes(out: &mut Vec<u8>, b: &[u8])
    ensures
        final(out)@ == old(out)@ + b@,
{
    let mut i: usize = 0;
    while i < b.len()
        invariant
            i <= b@.len(),
            out@ == old(out)@ + b@.take(i as int),
        decreases b@.len() - i,
    {
        out.push(b[i]);
        i = i + 1;
        assert(out@ =~= old(out)@ + b@.take(i as int));
    }
    assert(b@.take(b@.len() as int) =~= b@);
}

/// Reads one word, where the stream holds four more bytes.
fn next_word(reader: &mut Reader) -> (r: Result<u32, MatrixError>)
    ensures
        r is Ok <==> 4 <= old(reader).rest().len(),
        r matches Ok(w) ==> w == le_word(old(reader).rest(), 0) && final(reader).rest()
            == old(reader).rest().skip(4),
        r is Err ==> r == Err::<u32, MatrixError>(MatrixError::Truncated),
{
    let ghost a = reader.source();
    match reader.read_u32() {
        Ok(w) => {
            proof {
                lemma_rest_after_read(a, reader.source(), 4);
            }
            Ok(w)
        },
        Err(_) => Err(MatrixError::Truncated),
    }
}

/// Reads `size` words, where the stream holds `4 * size` more bytes.
fn next_words(reader: &mut Reader, size: usize) -> (r: Result<Vec<u32>, MatrixError>)
    ensures
        r is Ok <==> 4 * size <= old(reader).rest().len(),
        r matches Ok(v) ==> v@ == le_words(old(reader).rest(), size as nat) 
            && final(reader).rest() == old(reader).rest().skip(4 * size),
        r is Err ==> r == Err::<Vec<u32>, MatrixError>(MatrixError::Truncated),
{
    let ghost a = reader.source();
    match reader.read_into_vector(size) {
        Ok(v) => {
            proof {
                lemma_rest_after_read(a, reader.source(), (4 * size) as nat);
            }
            Ok(v)
        },
        Err(_) => Err(MatrixError::Truncated),
    }
}

impl Matrix {
    /// Decodes the matrix in a file named `file_path` whose bytes are
    /// `contents`; a name ending in `.gz` marks a gzip-compressed file.
    pub fn from_emme_file(file_path: &str, contents: Vec<u8>) -> (r: Result<Matrix, MatrixError>)
        ensures
            decompressed(file_path@, contents@) is None ==> r == Err::<Matrix, MatrixError>(
                MatrixError::CorruptStream,
            ),
            decompressed(file_path@, contents@) matches Some(s) ==> outcome_view(r)
                == decode_emme(s),
    {
        let mut reader = match Reader::open(file_path, contents) {
            Ok(rd) => rd,
            Err(_) => return Err(MatrixError::CorruptStream),
        };
        proof {
            assert(reader.rest() =~= reader.source().content());
        }
        Matrix::from_reader(&mut reader)
    }

    /// The counts agree with the payload: one value per cell.
    pub open spec fn sized(&self) -> bool {
        self.data@.len() == self.rows * self.cols
    }

    /// The values of row `row`, or `None` past the last row.
    pub fn get_row(&self, row: usize) -> (r: Option<&[u32]>)
        requires
            self.sized(),
        ensures
            row < self.rows ==> (r matches Some(v) && v@ == self.data@.subrange(
                row * self.cols,
                row * self.cols + self.cols,
            )),
            row >= self.rows ==> r is None,
    {
        let total = self.data.len();
        if row < self.rows {
            assert(row * self.cols + self.cols <= total) by (nonlinear_arith)
                requires
                    row < self.rows,
                    total == self.rows * self.cols,
            ;
            let start = row * self.cols;
            let end = start + self.cols;
            Some(vstd::slice::slice_subrange(self.data.as_slice(), start, end))
        } else {
            None
        }
    }

    /// Appends the square CSV form to `out`: a header line with the column
    /// labels, then one line per row label with that row's values.
    /// `cells[i]` is the text of the value `data[i]`. Fails, appending
    /// nothing, where a row label has no row of values behind it.
    pub fn write_csv_square(&self, cells: &Vec<Vec<u8>>, out: &mut Vec<u8>) -> (r: Result<
        (),
        MatrixError,
    >)
        requires
            self.indexes@.len() == 2,
            self.sized(),
            cells@.len() == self.data@.len(),
        ensures
            r is Ok <==> self.indexes@[1].len() <= self.rows,
            r is Ok ==> final(out)@ == old(out)@ + square_csv(self@, texts(cells)),
            r is Err ==> r == Err::<(), MatrixError>(MatrixError::InvalidRowIndex) && final(out)@
                == old(out)@,
    {
        let col_labels = &self.indexes[0];
        let row_labels = &self.indexes[1];
        if row_labels.len() > self.rows {
            return Err(MatrixError::InvalidRowIndex);
        }
        let ghost m = self@;
        let ghost cs = texts(cells);
        let ncells = cells.len();
        let corner: Vec<u8> = vec![82, 111, 119, 92, 67, 111, 108];
        assert(corner@ =~= square_corner());
        push_bytes(out, corner.as_slice());
        let mut c: usize = 0;
        while c < col_labels.len()
            invariant
                c <= col_labels@.len(),
                m.indexes.len() == 2,
                col_labels@ == m.indexes[0],
                out@ == old(out)@ + square_corner() + joined(label_texts(m.indexes[0]).take(
                    c as int,
                )),
            decreases col_labels@.len() - c,
        {
            let ghost before = out@;
            out.push(COMMA);
            push_decimal(out, col_labels[c]);
            c = c + 1;
            proof {
                let t = label_texts(m.indexes[0]).take(c as int);
                assert(t.drop_last() =~= label_texts(m.indexes[0]).take(c - 1));
                assert(out@ =~= before + seq![COMMA] + t.last());
            }
        }
        out.push(NEWLINE);
        proof {
            assert(label_texts(m.indexes[0]).take(c as int) =~= label_texts(m.indexes[0]));
            assert(out@ =~= old(out)@ + square_header(m));
        }
        let mut row: usize = 0;
        while row < row_labels.len()
            invariant
                self@ == m,
                cs == texts(cells),
                m.indexes.len() == 2,
                row_labels@ == m.indexes[1],
                row <= row_labels@.len() <= self.rows,
                self.sized(),
                cells@.len() == self.data@.len(),
                ncells == cells@.len(),
                out@ == old(out)@ + square_header(m) + square_lines(m, cs, row as nat),
            decreases row_labels@.len() - row,
        {
            let ghost line_start = out@;
            push_decimal(out, row_labels[row]);
            let values = match self.get_row(row) {
                Some(v) => v,
                None => return Err(MatrixError::InvalidRowIndex),
            };
            assert(row * self.cols + self.cols <= ncells) by (nonlinear_arith)
                requires
                    row < self.rows,
                    ncells == self.rows * self.cols,
            ;
            let start: usize = row * self.cols;
            let ghost rc = row_cells(m, cs, row as int);
            let mut c: usize = 0;
            while c < values.len()
                invariant
                    c <= values@.len() == self.cols,
                    start == row * self.cols,
                    start + self.cols <= cells@.len(),
                    m.indexes.len() == 2,
                    row < m.indexes[1].len(),
                    ncells == cells@.len(),
                    rc == cs.subrange(start as int, start + self.cols),
                    cs == texts(cells),
                    out@ == line_start + decimal(m.indexes[1][row as int] as nat) + joined(
                        rc.take(c as int),
                    ),
                decreases values@.len() - c,
            {
                let ghost before = out@;
                out.push(COMMA);
                push_bytes(out, cells[start + c].as_slice());
                c = c + 1;
                proof {
                    let t = rc.take(c as int);
                    assert(t.drop_last() =~= rc.take(c - 1));
                    assert(out@ =~= before + seq![COMMA] + t.last());
                }
            }
            out.push(NEWLINE);
            row = row + 1;
            proof {
                assert(rc.take(c as int) =~= rc);
                assert(out@ =~= line_start + square_line(m, cs, row - 1));
            }
        }
        Ok(())
    }

    /// Appends the long CSV form to `out`: a header line, then one line
    /// `row label,column label,value` per cell, all cells of a row before
    /// those of the next. `cells[i]` is the text of the value `data[i]`.
    /// Fails, appending nothing, where a row label has no row of values
    /// behind it.
    pub fn write_csv_column(&self, cells: &Vec<Vec<u8>>, out: &mut Vec<u8>) -> (r: Result<
        (),
        MatrixError,
    >)
        requires
            self.indexes@.len() == 2,
            self.sized(),
            self.indexes@[0].len() <= self.cols,
            cells@.len() == self.data@.len(),
        ensures
            r is Ok <==> self.indexes@[1].len() <= self.rows,
            r is Ok ==> final(out)@ == old(out)@ + long_csv(self@, texts(cells)),
            r is Err ==> r == Err::<(), MatrixError>(MatrixError::InvalidRowIndex) && final(out)@
                == old(out)@,
    {
        let col_labels = &self.indexes[0];
        let row_labels = &self.indexes[1];
        if row_labels.len() > self.rows {
            return Err(MatrixError::InvalidRowIndex);
        }
        let ghost m = self@;
        let ghost cs = texts(cells);
        let ncells = cells.len();
        let header: Vec<u8> = vec![
            79, 114, 105, 103, 105, 110, 44, 68, 101, 115, 116, 105, 110, 97, 116, 105, 111, 110, 44,
            86, 97, 108, 117, 101, 10,
        ];
        assert(header@ =~= long_header());
        push_bytes(out, header.as_slice());
        let mut row: usize = 0;
        while row < row_labels.len()
            invariant
                self@ == m,
                cs == texts(cells),
                m.indexes.len() == 2,
                row_labels@ == m.indexes[1],
                col_labels@ == m.indexes[0],
                col_labels@.len() <= self.cols,
                row <= row_labels@.len() <= self.rows,
                self.sized(),
                cells@.len() == self.data@.len(),
                ncells == cells@.len(),
                out@ == old(out)@ + long_header() + long_lines(m, cs, row as nat),
            decreases row_labels@.len() - row,
        {
            let ghost row_start = out@;
            if self.get_row(row).is_none() {
                return Err(MatrixError::InvalidRowIndex);
            }
            assert(row * self.cols + self.cols <= ncells) by (nonlinear_arith)
                requires
                    row < self.rows,
                    ncells == self.rows * self.cols,
            ;
            let start: usize = row * self.cols;
            let mut c: usize = 0;
            while c < col_labels.len()
                invariant
                    self@ == m,
                    cs == texts(cells),
                    c <= col_labels@.len() <= self.cols,
                    start == row * self.cols,
                    start + self.cols <= cells@.len(),
                    m.indexes.len() == 2,
                    col_labels@ == m.indexes[0],
                    row_labels@ == m.indexes[1],
                    row < m.indexes[1].len(),
                    ncells == cells@.len(),
                    out@ == row_start + long_cells(m, cs, row as int, c as nat),
                decreases col_labels@.len() - c,
            {
                let ghost before = out@;
                push_decimal(out, row_labels[row]);
                out.push(COMMA);
                push_decimal(out, col_labels[c]);
                out.push(COMMA);
                push_bytes(out, cells[start + c].as_slice());
                out.push(NEWLINE);
                c = c + 1;
                proof {
                    assert(out@ =~= before + long_line(m, cs, row as int, c - 1));
                }
            }
            row = row + 1;
        }
        Ok(())
    }

    /// Decodes a matrix from what `reader` has not read yet.
    pub fn from_reader(reader: &mut Reader) -> (r: Result<Matrix, MatrixError>)
        ensures
            outcome_view(r) == decode_emme(old(reader).rest()),
    {
        let ghost s = reader.rest();
        let magic = next_word(reader)?;
        if magic != MAGIC {
            return Err(MatrixError::InvalidHeader);
        }
        let _version = next_word(reader)?;
        let _data_type = next_word(reader)?;
        let dimensions = next_word(reader)?;
        assert(reader.rest() =~= s.skip(16));
        if dimensions != 2 {
            return Err(MatrixError::InvalidDimensions);
        }
        let m = next_word(reader)?;
        let n = next_word(reader)?;
        assert(reader.rest() =~= s.skip(24));
        let col_labels = next_words(reader, m as usize)?;
        assert(reader.rest() =~= s.skip(24 + 4 * m));
        let row_labels = next_words(reader, n as usize)?;
        assert(reader.rest() =~= s.skip(24 + 4 * m + 4 * n));
        assert(m as u64 * n as u64 <= u32::MAX as u64 * u32::MAX as u64) by (nonlinear_arith)
            requires
                m <= u32::MAX,
                n <= u32::MAX,
        ;
        let size: u64 = m as u64 * n as u64;
        if size > reader.remaining() as u64 / 4 {
            assert(4 * size > reader.rest().len()) by (nonlinear_arith)
                requires
                    size > reader.rest().len() / 4,
            ;
            return Err(MatrixError::Truncated);
        }
        let data = next_words(reader, size as usize)?;
        let mut indexes: Vec<Vec<u32>> = Vec::new();
        indexes.push(col_labels);
        indexes.push(row_labels);
        let r = Matrix { data, rows: n as usize, cols: m as usize, indexes };
        assert(r@.indexes[0] == decode_emme(s)->Ok_0.indexes[0]);
        assert(r@.indexes[1] == decode_emme(s)->Ok_0.indexes[1]);
        assert(r@.indexes =~= decode_emme(s)->Ok_0.indexes);
        Ok(r)
    }
}

} // verus!
