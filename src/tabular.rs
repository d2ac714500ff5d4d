//! Tabular files: reading one CSV record, and the dense index from logical
//! record number to the byte offset of its record in one tabular file.
use vstd::prelude::*;

use crate::text::{chars_of, parse_decimal, parse_unsigned};
use crate::types::{Error, ErrorModel};

verus! {

/// What csv's reader makes of `line` with no header row: whether it found a
/// record, and that record's fields; `None` where the text is not valid CSV.
pub uninterp spec fn csv_record_of(line: Seq<u8>) -> Option<(bool, Seq<Seq<char>>)>;

pub open spec fn strings_view(v: Seq<String>) -> Seq<Seq<char>> {
    v.map_values(|s: String| s@)
}

/// Relies on csv's `Reader::read_record` (headers off): the first record of
/// `line`, whether there was one, or `None` on a CSV or UTF-8 error.
#[verifier::external_body]
fn read_csv_record(line: &[u8]) -> (r: Option<(bool, Vec<String>)>)
    ensures
        r is Some <==> csv_record_of(line@) is Some,
        r matches Some((found, fields)) ==> csv_record_of(line@) == Some(
            (found, strings_view(fields@)),
        ),
{
    let mut reader = csv::ReaderBuilder::new().has_headers(false).from_reader(line);
    let mut record = csv::StringRecord::new();
    reader.read_record(&mut record).ok().map(|found| (found, record.iter().map(|f| f.to_string()).collect()))
}

/// The column of a tabular record that holds its logical record number.
pub const LOGRECNO_COLUMN: usize = 4;

/// What one line of a tabular file is to the indexer.
pub enum TabularLine {
    /// No record: an empty line.
    Blank,
    /// A record with this logical record number.
    Record(u64),
    /// Not a record with a logical record number.
    Corrupt,
}

/// The logical record number of a record's fields: column 4 as a `u64`.
pub open spec fn logrecno_of_fields(fields: Seq<Seq<char>>) -> Option<u64> {
    if fields.len() > LOGRECNO_COLUMN {
        match parse_unsigned(fields[LOGRECNO_COLUMN as int], u64::MAX as nat) {
            Some(n) => Some(n as u64),
            None => None,
        }
    } else {
        None
    }
}

/// How the indexer reads one line of a tabular file.
pub open spec fn tabular_line(line: Seq<u8>) -> TabularLine {
    tabular_line_of(csv_record_of(line))
}

/// How the indexer reads what csv made of a line.
pub open spec fn tabular_line_of(parsed: Option<(bool, Seq<Seq<char>>)>) -> TabularLine {
    match parsed {
        None => TabularLine::Corrupt,
        Some((false, _)) => TabularLine::Blank,
        Some((true, fields)) => match logrecno_of_fields(fields) {
            Some(n) => TabularLine::Record(n),
            None => TabularLine::Corrupt,
        },
    }
}

/// The logical record number of the fields of a record.
pub fn record_logrecno(fields: &Vec<String>) -> (r: Option<u64>)
    ensures
        r == logrecno_of_fields(strings_view(fields@)),
{
    if fields.len() <= LOGRECNO_COLUMN {
        return None;
    }
    let cell = chars_of(fields[LOGRECNO_COLUMN].as_str());
    assert(cell@.subrange(0, cell@.len() as int) =~= cell@);
    parse_decimal(&cell, 0, cell.len(), u64::MAX)
}

/// The fields of the record on `line`, where it holds one.
pub fn parse_record(line: &[u8]) -> (r: Option<Vec<String>>)
    ensures
        match csv_record_of(line@) {
            Some((true, fields)) => r matches Some(v) && strings_view(v@) == fields,
            _ => r is None,
        },
{
    match read_csv_record(line) {
        Some((true, fields)) => Some(fields),
        _ => None,
    }
}

/// The byte offset of each logical record in one tabular file, for the
/// numbers `1..=rows`.
pub struct LogicalRecordPositionIndex {
    file: u32,
    rows: usize,
    positions: Vec<Option<u64>>,
}

impl LogicalRecordPositionIndex {
    /// The tabular file indexed.
    pub closed spec fn file_spec(&self) -> u32 {
        self.file
    }

    /// The largest logical record number.
    pub closed spec fn rows_spec(&self) -> nat {
        self.rows as nat
    }

    /// The offset of record `n`, where it was seen.
    pub closed spec fn position(&self, n: int) -> Option<u64> {
        if 0 <= n < self.positions@.len() {
            self.positions@[n]
        } else {
            None
        }
    }

    /// Every number in `1..=rows` has a position.
    #[verifier::type_invariant]
    pub closed spec fn complete(&self) -> bool {
        &&& self.positions@.len() == self.rows + 1
        &&& forall|n: int| 1 <= n <= self.rows ==> (#[trigger] self.positions@[n]) is Some
    }

    /// A complete index has a position for every number `1..=rows`.
    pub proof fn lemma_complete_position(&self, n: int)
        requires
            self.complete(),
            1 <= n <= self.rows_spec(),
        ensures
            self.position(n) is Some,
    {
        assert(self.positions@[n] is Some);
    }

    pub fn file(&self) -> (r: u32)
        ensures
            r == self.file_spec(),
    {
        self.file
    }

    pub fn rows(&self) -> (r: usize)
        ensures
            r == self.rows_spec(),
    {
        self.rows
    }

    /// The offset of logical record `n`.
    pub fn get(&self, n: u64) -> (r: Option<u64>)
        ensures
            r == self.position(n as int),
    {
        if (n as u128) < (self.positions.len() as u128) {
            self.positions[n as usize]
        } else {
            None
        }
    }
}

/// How indexer `before` becomes `after` on taking in a line of kind `kind`
/// that starts at `offset`, with result `r`: a record numbered within
/// `1..=rows` stores `offset`, a blank line changes nothing, anything else is
/// refused as corrupt at that line's number.
pub open spec fn line_taken(
    before: TabularIndexer,
    after: TabularIndexer,
    offset: u64,
    kind: TabularLine,
    r: Result<(), Error>,
) -> bool {
    let corrupt = ErrorModel::CorruptTabular {
        file: before.file_spec(),
        line: after.lines_spec() as usize,
    };
    &&& after.file_spec() == before.file_spec()
    &&& after.rows_spec() == before.rows_spec()
    &&& after.lines_spec() == if before.lines_spec() < usize::MAX {
        before.lines_spec() + 1
    } else {
        before.lines_spec()
    }
    &&& match kind {
        TabularLine::Blank => r is Ok && after.positions_spec() == before.positions_spec(),
        TabularLine::Record(n) => if 1 <= n <= before.rows_spec() {
            r is Ok && after.positions_spec() == before.positions_spec().update(
                n as int,
                Some(offset),
            )
        } else {
            (r matches Err(e) && e@ == corrupt) && after.positions_spec() == before.positions_spec()
        },
        TabularLine::Corrupt => (r matches Err(e) && e@ == corrupt) && after.positions_spec()
            == before.positions_spec(),
    }
}

/// Builds the position index of one tabular file from its lines, in order.
pub struct TabularIndexer {
    file: u32,
    rows: usize,
    lines: usize,
    positions: Vec<Option<u64>>,
}

impl TabularIndexer {
    pub closed spec fn wf(&self) -> bool {
        self.positions@.len() == self.rows + 1
    }

    pub closed spec fn file_spec(&self) -> u32 {
        self.file
    }

    pub closed spec fn rows_spec(&self) -> nat {
        self.rows as nat
    }

    /// Lines seen so far.
    pub closed spec fn lines_spec(&self) -> nat {
        self.lines as nat
    }

    /// The offset recorded so far for each number `0..=rows`.
    pub closed spec fn positions_spec(&self) -> Seq<Option<u64>> {
        self.positions@
    }

    /// An indexer for tabular file `file` of a release of `rows` records.
    pub fn new(file: u32, rows: usize) -> (r: Self)
        requires
            rows < usize::MAX,
        ensures
            r.wf(),
            r.file_spec() == file,
            r.rows_spec() == rows,
            r.lines_spec() == 0,
            r.positions_spec() == Seq::new((rows + 1) as nat, |i: int| None::<u64>),
    {
        let mut positions: Vec<Option<u64>> = Vec::new();
        for i in 0..rows + 1
            invariant
                positions@.len() == i,
                forall|j: int| 0 <= j < i ==> (#[trigger] positions@[j]) is None,
        {
            positions.push(None);
        }
        assert(positions@ =~= Seq::new((rows + 1) as nat, |i: int| None::<u64>));
        TabularIndexer { file, rows, lines: 0, positions }
    }

    /// Takes in the next line of the file, which starts at byte `offset`: a
    /// record stores `offset` as the position of its logical record number.
    pub fn add_line(&mut self, offset: u64, line: &[u8]) -> (r: Result<(), Error>)
        requires
            old(self).wf(),
        ensures
            final(self).wf(),
            line_taken(*old(self), *final(self), offset, tabular_line(line@), r),
    {
        let parsed = read_csv_record(line);
        self.add_record(offset, parsed)
    }

    /// Takes in the next line of the file, which starts at byte `offset`, as
    /// csv read it: whether it held a record, and that record's fields; `None`
    /// where it was not valid CSV text.
    pub fn add_record(&mut self, offset: u64, parsed: Option<(bool, Vec<String>)>) -> (r: Result<
        (),
        Error,
    >)
        requires
            old(self).wf(),
        ensures
            final(self).wf(),
            line_taken(
                *old(self),
                *final(self),
                offset,
                tabular_line_of(
                    match parsed {
                        Some((found, fields)) => Some((found, strings_view(fields@))),
                        None => None,
                    },
                ),
                r,
            ),
    {
        if self.lines < usize::MAX {
            self.lines = self.lines + 1;
        }
        let corrupt = Error::CorruptTabular { file: self.file, line: self.lines };
        match parsed {
            None => Err(corrupt),
            Some((false, _)) => Ok(()),
            Some((true, fields)) => match record_logrecno(&fields) {
                None => Err(corrupt),
                Some(n) => {
                    if n == 0 || n > self.rows as u64 {
                        return Err(corrupt);
                    }
                    self.positions.set(n as usize, Some(offset));
                    Ok(())
                },
            },
        }
    }

    /// The index, where every logical record number `1..=rows` was seen;
    /// else the first number missing.
    pub fn finish(self) -> (r: Result<LogicalRecordPositionIndex, Error>)
        requires
            self.wf(),
        ensures
            match r {
                Ok(idx) => idx.complete() && idx.file_spec() == self.file_spec() && idx.rows_spec()
                    == self.rows_spec() && forall|n: int|
                    1 <= n <= self.rows_spec() ==> #[trigger] idx.position(n)
                        == self.positions_spec()[n],
                Err(e) => exists|n: int|
                    1 <= n <= self.rows_spec() && (#[trigger] self.positions_spec()[n]) is None
                        && e@ == (ErrorModel::MissingLogicalRecord {
                        file: self.file_spec(),
                        logrecno: n as u64,
                    }),
            },
    {
        let mut n: usize = 1;
        while n < self.positions.len()
            invariant
                self.positions@.len() == self.rows + 1,
                1 <= n <= self.rows + 1,
                forall|m: int| 1 <= m < n ==> (#[trigger] self.positions@[m]) is Some,
            decreases self.rows + 1 - n,
        {
            if self.positions[n].is_none() {
                assert(self.positions_spec()[n as int] is None);
                return Err(Error::MissingLogicalRecord { file: self.file, logrecno: n as u64 });
            }
            n = n + 1;
        }
        LogicalRecordPositionIndex::ok_from(self.file, self.rows, self.positions)
    }
}

impl LogicalRecordPositionIndex {
    /// The index of a file with no records.
    pub(crate) fn empty() -> (r: Self)
        ensures
            r.complete(),
    {
        let mut positions: Vec<Option<u64>> = Vec::new();
        positions.push(None);
        LogicalRecordPositionIndex { file: 0, rows: 0, positions }
    }

    fn ok_from(file: u32, rows: usize, positions: Vec<Option<u64>>) -> (r: Result<Self, Error>)
        requires
            positions@.len() == rows + 1,
            forall|n: int| 1 <= n <= rows ==> (#[trigger] positions@[n]) is Some,
        ensures
            r matches Ok(idx) && idx.complete() && idx.file_spec() == file && idx.rows_spec()
                == rows && forall|n: int| 0 <= n <= rows ==> #[trigger] idx.position(n) == positions@[n],
    {
        Ok(LogicalRecordPositionIndex { file, rows, positions })
    }
}

} // verus!
