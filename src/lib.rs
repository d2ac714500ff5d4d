//! Random access to a census redistricting (PL94-171) data release: the
//! packing-list parser, the logical-record and GEOID indices, record
//! composition and the fixed-column geographic header layout.
pub mod dataset;
pub mod header;
pub mod layout;
pub mod packing_list;
pub mod tabular;
pub mod text;
pub mod types;

pub use dataset::{Dataset, IndexedDataset, LogicalRecord, Stage};
pub use header::{GeographicalHeader, GeographicalHeaderIndex};
pub use layout::{Field, Pl94_171Layout};
pub use packing_list::{extract_file_information, get_stusab, FileInformation, PackingList};
pub use tabular::{LogicalRecordPositionIndex, TabularIndexer};
pub use types::{
    Error, FileType, Malformation, Schema, Table, TableSegmentLocation, TableSegmentSpecifier,
};
