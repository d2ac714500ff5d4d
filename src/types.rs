//! The values shared by the whole library: census tables and schemas, file
//! roles, table segments, and the error type.
use vstd::prelude::*;

verus! {

/// A demographic table of a PL94-171 release. `P5` exists only in 2020.
#[derive(Clone, Copy, Debug, PartialEq, Eq, Hash, Structural)]
pub enum Table {
    P1,
    P2,
    P3,
    P4,
    H1,
    P5,
}

/// A census release, optionally narrowed to one of its tables.
#[derive(Clone, Copy, Debug, PartialEq, Eq, Hash, Structural)]
pub enum Schema {
    Census2010Pl94_171(Option<Table>),
    Census2020Pl94_171(Option<Table>),
}

/// The role of a file in a release: the geographic header, or tabular file `n`.
#[derive(Clone, Copy, Debug, PartialEq, Eq, Hash, Structural)]
pub enum FileType {
    Tabular(u32),
    GeographicalHeader,
}

/// One segment of a table as a packing list declares it: `columns`
/// consecutive CSV columns of tabular file `file`.
#[derive(Clone, Copy, Debug, PartialEq, Eq, Hash, Structural)]
pub struct TableSegmentSpecifier {
    pub file: u32,
    pub columns: usize,
}

/// One segment of a table resolved to the absolute column range
/// `[start, end)` of tabular file `file`.
#[derive(Clone, Copy, Debug, PartialEq, Eq, Hash, Structural)]
pub struct TableSegmentLocation {
    pub file: u32,
    pub start: usize,
    pub end: usize,
}

impl TableSegmentLocation {
    /// Number of columns in the segment.
    pub open spec fn width(self) -> int {
        self.end - self.start
    }
}

/// Why a packing list is malformed.
#[derive(Clone, Copy, Debug, PartialEq, Eq, Hash, Structural)]
pub enum Malformation {
    /// No `STUSAB: XX` line.
    MissingStusab,
    /// No file-information line names the geographic header.
    MissingGeographicalHeader,
    /// Two file-information lines name a geographic header.
    DuplicateGeographicalHeader,
    /// Two file-information lines name the same tabular file.
    DuplicateTabularFile(u32),
    /// A size or line count on the given (1-based) line does not fit a `usize`.
    NumberTooLarge(usize),
    /// A table segment names a tabular file that no file-information line lists.
    UnlistedTabularFile(u32),
    /// A table segment runs past the largest column number.
    ColumnOverflow(u32),
}

/// Every way an operation of the library can fail.
#[derive(Debug, PartialEq, Eq)]
pub enum Error {
    Io { path: String, message: String },
    MalformedPackingList(Malformation),
    UnknownSchema { year: String, ext: String },
    AmbiguousSchema,
    UnknownTable(String),
    UnrecognizedFile(String),
    InconsistentRowCount(Vec<usize>),
    CorruptTabular { file: u32, line: usize },
    MissingLogicalRecord { file: u32, logrecno: u64 },
    CorruptGeographicalHeader { offset: u64 },
    DuplicateGeoid(String),
    UnknownGeoid(String),
    UnknownLogrecno(u64),
    MissingTable(Table),
    IndexInconsistency { file: FileType, logrecno: u64 },
    NotIndexed,
}

/// An [`Error`] with its strings and lists as mathematical values.
pub enum ErrorModel {
    Io { path: Seq<char>, message: Seq<char> },
    MalformedPackingList(Malformation),
    UnknownSchema { year: Seq<char>, ext: Seq<char> },
    AmbiguousSchema,
    UnknownTable(Seq<char>),
    UnrecognizedFile(Seq<char>),
    InconsistentRowCount(Seq<usize>),
    CorruptTabular { file: u32, line: usize },
    MissingLogicalRecord { file: u32, logrecno: u64 },
    CorruptGeographicalHeader { offset: u64 },
    DuplicateGeoid(Seq<char>),
    UnknownGeoid(Seq<char>),
    UnknownLogrecno(u64),
    MissingTable(Table),
    IndexInconsistency { file: FileType, logrecno: u64 },
    NotIndexed,
}

impl View for Error {
    type V = ErrorModel;

    open spec fn view(&self) -> ErrorModel {
        match self {
            Error::Io { path, message } => ErrorModel::Io { path: path@, message: message@ },
            Error::MalformedPackingList(m) => ErrorModel::MalformedPackingList(*m),
            Error::UnknownSchema { year, ext } => ErrorModel::UnknownSchema {
                year: year@,
                ext: ext@,
            },
            Error::AmbiguousSchema => ErrorModel::AmbiguousSchema,
            Error::UnknownTable(n) => ErrorModel::UnknownTable(n@),
            Error::UnrecognizedFile(i) => ErrorModel::UnrecognizedFile(i@),
            Error::InconsistentRowCount(v) => ErrorModel::InconsistentRowCount(v@),
            Error::CorruptTabular { file, line } => ErrorModel::CorruptTabular {
                file: *file,
                line: *line,
            },
            Error::MissingLogicalRecord { file, logrecno } => ErrorModel::MissingLogicalRecord {
                file: *file,
                logrecno: *logrecno,
            },
            Error::CorruptGeographicalHeader { offset } => ErrorModel::CorruptGeographicalHeader {
                offset: *offset,
            },
            Error::DuplicateGeoid(g) => ErrorModel::DuplicateGeoid(g@),
            Error::UnknownGeoid(g) => ErrorModel::UnknownGeoid(g@),
            Error::UnknownLogrecno(n) => ErrorModel::UnknownLogrecno(*n),
            Error::MissingTable(t) => ErrorModel::MissingTable(*t),
            Error::IndexInconsistency { file, logrecno } => ErrorModel::IndexInconsistency {
                file: *file,
                logrecno: *logrecno,
            },
            Error::NotIndexed => ErrorModel::NotIndexed,
        }
    }
}

/// Position of a table in the declared order.
pub open spec fn table_slot(t: Table) -> int {
    match t {
        Table::P1 => 0,
        Table::P2 => 1,
        Table::P3 => 2,
        Table::P4 => 3,
        Table::H1 => 4,
        Table::P5 => 5,
    }
}

/// Number of tables.
pub const TABLE_COUNT: usize = 6;

impl Table {
    /// Position of this table in the declared order.
    pub fn slot(self) -> (r: usize)
        ensures
            r == table_slot(self),
            r < TABLE_COUNT,
    {
        match self {
            Table::P1 => 0,
            Table::P2 => 1,
            Table::P3 => 2,
            Table::P4 => 3,
            Table::H1 => 4,
            Table::P5 => 5,
        }
    }
}

impl Table {
    /// The table at position `i` of the declared order.
    pub fn from_slot(i: usize) -> (r: Table)
        requires
            i < TABLE_COUNT,
        ensures
            table_slot(r) == i,
    {
        if i == 0 {
            Table::P1
        } else if i == 1 {
            Table::P2
        } else if i == 2 {
            Table::P3
        } else if i == 3 {
            Table::P4
        } else if i == 4 {
            Table::H1
        } else {
            Table::P5
        }
    }
}

/// Distinct tables have distinct positions.
pub proof fn lemma_table_slot_injective(a: Table, b: Table)
    ensures
        table_slot(a) == table_slot(b) ==> a == b,
{
}

/// The table of `schema`'s release whose packing-list name is `name`.
pub open spec fn table_named(schema: Schema, name: Seq<char>) -> Option<Table> {
    if name == seq!['p', '1'] {
        Some(Table::P1)
    } else if name == seq!['p', '2'] {
        Some(Table::P2)
    } else if name == seq!['p', '3'] {
        Some(Table::P3)
    } else if name == seq!['p', '4'] {
        Some(Table::P4)
    } else if name == seq!['h', '1'] {
        Some(Table::H1)
    } else if name == seq!['p', '5'] && schema is Census2020Pl94_171 {
        Some(Table::P5)
    } else {
        None
    }
}

} // verus!
