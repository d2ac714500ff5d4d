//! The indexed dataset: a packing list, the position index of every tabular
//! file and the GEOID index, and the retrieval operations over them.
use vstd::prelude::*;

use crate::header::{header_logrecno, GeographicalHeader, GeographicalHeaderIndex};
use crate::packing_list::{parse_packing_list, total_width, PackingList, PackingListModel};
use crate::tabular::{csv_record_of, logrecno_of_fields, parse_record, record_logrecno, strings_view, LogicalRecordPositionIndex};
use crate::types::{Error, ErrorModel, FileType, Table, TableSegmentLocation};
use std::collections::HashMap;

verus! {

/// The stage a dataset is in; stages are passed one way, in this order.
pub enum Stage {
    Empty,
    Unpacked,
    Indexed,
}

// ---------------------------------------------------------------------------
// Composition of a logical record.

/// The segments of `tables`, in order, each table's segments in their own
/// order; `Err(t)` for the first table the layout lacks.
pub open spec fn requested_segments(
    layout: Map<Table, Seq<TableSegmentLocation>>,
    tables: Seq<Table>,
    k: int,
) -> Result<Seq<TableSegmentLocation>, Table>
    decreases k,
{
    if k <= 0 {
        Ok(Seq::empty())
    } else {
        match requested_segments(layout, tables, k - 1) {
            Err(t) => Err(t),
            Ok(segs) => if layout.contains_key(tables[k - 1]) {
                Ok(segs + layout[tables[k - 1]])
            } else {
                Err(tables[k - 1])
            },
        }
    }
}

/// The cells that segment `seg` takes from the record on `line`, where the
/// line holds record `n` with enough columns.
pub open spec fn segment_cells(n: u64, seg: TableSegmentLocation, line: Seq<u8>) -> Option<
    Seq<Seq<char>>,
> {
    match csv_record_of(line) {
        Some((true, fields)) => cells_of_fields(n, seg, fields),
        _ => None,
    }
}

/// The cells `fields[seg.start..seg.end]`, where `fields` are record `n`'s
/// and reach that far.
pub open spec fn cells_of_fields(n: u64, seg: TableSegmentLocation, fields: Seq<Seq<char>>) -> Option<
    Seq<Seq<char>>,
> {
    if logrecno_of_fields(fields) == Some(n) && seg.start <= seg.end && seg.end <= fields.len() {
        Some(fields.subrange(seg.start as int, seg.end as int))
    } else {
        None
    }
}

/// The cells of the first `k` segments, each taken from its own line, or the
/// first segment whose line is missing or is not record `n`.
pub open spec fn compose_upto(
    n: u64,
    segs: Seq<TableSegmentLocation>,
    lines: Seq<Seq<u8>>,
    k: int,
) -> Result<Seq<Seq<char>>, ErrorModel>
    decreases k,
{
    if k <= 0 {
        Ok(Seq::empty())
    } else {
        match compose_upto(n, segs, lines, k - 1) {
            Err(e) => Err(e),
            Ok(cells) => {
                let seg = segs[k - 1];
                let bad = ErrorModel::IndexInconsistency {
                    file: FileType::Tabular(seg.file),
                    logrecno: n,
                };
                if k - 1 >= lines.len() {
                    Err(bad)
                } else {
                    match segment_cells(n, seg, lines[k - 1]) {
                        Some(c) => Ok(cells + c),
                        None => Err(bad),
                    }
                }
            },
        }
    }
}

/// The record that segments `segs` compose from `lines`, line `i` being the
/// record read for segment `i`.
pub open spec fn compose(n: u64, segs: Seq<TableSegmentLocation>, lines: Seq<Seq<u8>>) -> Result<
    Seq<Seq<char>>,
    ErrorModel,
> {
    compose_upto(n, segs, lines, segs.len() as int)
}

/// The concatenation of `fields[i][segs[i].start..segs[i].end]` over the
/// first `k` segments.
pub open spec fn projected(segs: Seq<TableSegmentLocation>, fields: Seq<Seq<Seq<char>>>, k: int) -> Seq<
    Seq<char>,
>
    decreases k,
{
    if k <= 0 {
        Seq::empty()
    } else {
        projected(segs, fields, k - 1) + fields[k - 1].subrange(
            segs[k - 1].start as int,
            segs[k - 1].end as int,
        )
    }
}

/// Composition projects: where line `i` holds record `n` with fields
/// `fields[i]` wide enough for segment `i`, the record composed is the
/// concatenation of `fields[i][segs[i].start..segs[i].end]` in segment order,
/// and it has as many cells as the segments are wide.
pub proof fn lemma_compose_projects(
    n: u64,
    segs: Seq<TableSegmentLocation>,
    lines: Seq<Seq<u8>>,
    fields: Seq<Seq<Seq<char>>>,
)
    requires
        lines.len() >= segs.len(),
        fields.len() >= segs.len(),
        forall|i: int|
            0 <= i < segs.len() ==> csv_record_of(#[trigger] lines[i]) == Some((true, fields[i]))
                && logrecno_of_fields(fields[i]) == Some(n) && segs[i].start <= segs[i].end
                <= fields[i].len(),
    ensures
        compose(n, segs, lines) == Ok::<_, ErrorModel>(projected(segs, fields, segs.len() as int)),
        projected(segs, fields, segs.len() as int).len() == total_width(segs),
{
    lemma_compose_projects_upto(n, segs, lines, fields, segs.len() as int);
    assert(segs.take(segs.len() as int) =~= segs);
}

proof fn lemma_compose_projects_upto(
    n: u64,
    segs: Seq<TableSegmentLocation>,
    lines: Seq<Seq<u8>>,
    fields: Seq<Seq<Seq<char>>>,
    k: int,
)
    requires
        0 <= k <= segs.len(),
        lines.len() >= segs.len(),
        fields.len() >= segs.len(),
        forall|i: int|
            0 <= i < segs.len() ==> csv_record_of(#[trigger] lines[i]) == Some((true, fields[i]))
                && logrecno_of_fields(fields[i]) == Some(n) && segs[i].start <= segs[i].end
                <= fields[i].len(),
    ensures
        compose_upto(n, segs, lines, k) == Ok::<_, ErrorModel>(projected(segs, fields, k)),
        projected(segs, fields, k).len() == total_width(segs.take(k)),
    decreases k,
{
    if k > 0 {
        lemma_compose_projects_upto(n, segs, lines, fields, k - 1);
        assert(csv_record_of(lines[k - 1]) == Some((true, fields[k - 1])));
        assert(segs.take(k).drop_last() =~= segs.take(k - 1));
    } else {
        assert(segs.take(0) =~= Seq::<TableSegmentLocation>::empty());
    }
    if k == segs.len() {
        assert(segs.take(k) =~= segs);
    }
}

// ---------------------------------------------------------------------------
// The dataset.

/// A census dataset: created empty with an identifier, then unpacked from a
/// packing list, then indexed; only an indexed dataset answers requests.
pub struct IndexedDataset {
    identifier: String,
    packing_list: Option<PackingList>,
    logical_record_index: Option<HashMap<u32, LogicalRecordPositionIndex>>,
    header_index: Option<GeographicalHeaderIndex>,
}

/// The first index among the first `k` that does not fit packing list `pl`,
/// or the files indexed so far.
pub open spec fn check_indices_upto(
    pl: PackingListModel,
    v: Seq<LogicalRecordPositionIndex>,
    k: int,
) -> Result<Set<u32>, ErrorModel>
    decreases k,
{
    if k <= 0 {
        Ok(Set::empty())
    } else {
        match check_indices_upto(pl, v, k - 1) {
            Err(e) => Err(e),
            Ok(seen) => {
                let f = v[k - 1].file_spec();
                if !pl.tabular_files.contains_key(f) {
                    Err(
                        ErrorModel::MalformedPackingList(
                            crate::types::Malformation::UnlistedTabularFile(f),
                        ),
                    )
                } else if seen.contains(f) {
                    Err(
                        ErrorModel::MalformedPackingList(
                            crate::types::Malformation::DuplicateTabularFile(f),
                        ),
                    )
                } else if v[k - 1].rows_spec() != pl.rows {
                    Err(ErrorModel::InconsistentRowCount(seq![pl.rows, v[k - 1].rows_spec() as usize]))
                } else {
                    Ok(seen.insert(f))
                }
            },
        }
    }
}

/// Whether the position indices `v` fit packing list `pl`: one for each of
/// its tabular files, each for its number of rows; else the first misfit.
pub open spec fn check_indices(pl: PackingListModel, v: Seq<LogicalRecordPositionIndex>) -> Result<
    (),
    ErrorModel,
> {
    match check_indices_upto(pl, v, v.len() as int) {
        Err(e) => Err(e),
        Ok(seen) => if seen == pl.tabular_files.dom() {
            Ok(())
        } else {
            Err(ErrorModel::NotIndexed)
        },
    }
}

impl IndexedDataset {
    pub closed spec fn stage(&self) -> Stage {
        if self.logical_record_index is Some {
            Stage::Indexed
        } else if self.packing_list is Some {
            Stage::Unpacked
        } else {
            Stage::Empty
        }
    }

    pub closed spec fn identifier_spec(&self) -> Seq<char> {
        self.identifier@
    }

    /// The packing list, once unpacked.
    pub closed spec fn packing_list_spec(&self) -> PackingListModel {
        self.packing_list->0@
    }

    /// The GEOID index, once indexed.
    pub closed spec fn geoid_index(&self) -> Map<Seq<char>, (u64, u64)> {
        self.header_index->0@
    }

    /// The offset of logical record `n` in tabular file `f`, once indexed.
    pub closed spec fn position(&self, f: u32, n: int) -> Option<u64> {
        if self.logical_record_index->0@.contains_key(f) {
            self.logical_record_index->0@[f].position(n)
        } else {
            None
        }
    }

    #[verifier::type_invariant]
    closed spec fn wf(&self) -> bool {
        &&& self.logical_record_index is Some <==> self.header_index is Some
        &&& self.logical_record_index matches Some(ri) ==> {
            &&& self.packing_list is Some
            &&& ri@.dom() == self.packing_list->0@.tabular_files.dom()
            &&& forall|f: u32| #[trigger]
                ri@.contains_key(f) ==> ri@[f].complete() && ri@[f].rows_spec()
                    == self.packing_list->0@.rows
        }
    }

    /// An empty dataset named `identifier`.
    pub fn new(identifier: String) -> (r: Self)
        ensures
            r.stage() is Empty,
            r.identifier_spec() == identifier@,
    {
        IndexedDataset {
            identifier,
            packing_list: None,
            logical_record_index: None,
            header_index: None,
        }
    }

    /// Whether the dataset is indexed.
    pub fn is_indexed(&self) -> (r: bool)
        ensures
            r == (self.stage() is Indexed),
    {
        self.logical_record_index.is_some()
    }

    pub fn identifier(&self) -> (r: &String)
        ensures
            r@ == self.identifier_spec(),
    {
        &self.identifier
    }

    /// Installs the packing list whose text is `text`, its files to be found
    /// in `directory`.
    pub fn unpack(self, text: &str, directory: Option<String>) -> (r: Result<Self, Error>)
        requires
            self.stage() is Empty,
        ensures
            match parse_packing_list(text@) {
                Ok(m) => r matches Ok(d) && d.stage() is Unpacked && d.identifier_spec()
                    == self.identifier_spec() && d.packing_list_spec() == (PackingListModel {
                    directory: match directory {
                        Some(s) => Some(s@),
                        None => None,
                    },
                    ..m
                }),
                Err(e) => r matches Err(x) && x@ == e,
            },
    {
        proof {
            use_type_invariant(&self);
        }
        match PackingList::parse(text) {
            Err(e) => Err(e),
            Ok(pl) => {
                let pl = pl.with_directory(directory);
                Ok(IndexedDataset { packing_list: Some(pl), ..self })
            },
        }
    }

    /// The packing list, once unpacked.
    pub fn packing_list(&self) -> (r: Option<&PackingList>)
        ensures
            match r {
                Some(pl) => !(self.stage() is Empty) && pl@ == self.packing_list_spec(),
                None => self.stage() is Empty,
            },
    {
        proof {
            use_type_invariant(self);
        }
        match &self.packing_list {
            Some(pl) => Some(pl),
            None => None,
        }
    }

    /// Installs the position index of every tabular file and the GEOID index.
    pub fn index(self, tabular: Vec<LogicalRecordPositionIndex>, header: GeographicalHeaderIndex) -> (r:
        Result<Self, Error>)
        requires
            self.stage() is Unpacked,
            header.wf(),
        ensures
            match check_indices(self.packing_list_spec(), tabular@) {
                Ok(_) => r matches Ok(d) && d.stage() is Indexed && d.identifier_spec()
                    == self.identifier_spec() && d.packing_list_spec() == self.packing_list_spec()
                    && d.geoid_index() == header@ && (forall|i: int, n: int|
                    0 <= i < tabular@.len() ==> #[trigger] d.position(tabular@[i].file_spec(), n)
                        == #[trigger] tabular@[i].position(n)) && (forall|f: u32, n: int|
                    #![trigger d.position(f, n)]
                    d.packing_list_spec().tabular_files.contains_key(f) && 1 <= n
                        <= d.packing_list_spec().rows ==> d.position(f, n) is Some),
                Err(e) => r matches Err(x) && x@ == e,
            },
    {
        proof {
            use_type_invariant(&self);
        }
        broadcast use vstd::std_specs::hash::group_hash_axioms;

        let pl = match &self.packing_list {
            Some(pl) => pl,
            None => {
                return Err(Error::NotIndexed);
            },
        };
        let ghost plm = pl@;
        let ghost all = tabular@;
        let rows = pl.rows();
        let files = pl.tabular_files();
        let mut ri: HashMap<u32, LogicalRecordPositionIndex> = HashMap::new();
        let mut rest = tabular;
        let mut k: usize = 0;
        while k < rest.len()
            invariant
                plm == self.packing_list_spec(),
                rows == plm.rows,
                crate::packing_list::names_view(files@) == plm.tabular_files,
                all == tabular@,
                rest@.len() == all.len(),
                k <= all.len(),
                forall|j: int| k <= j < all.len() ==> #[trigger] rest@[j] == all[j],
                check_indices_upto(plm, all, k as int) == Ok::<_, ErrorModel>(ri@.dom()),
                ri@.dom().subset_of(files@.dom()),
                forall|f: u32| #[trigger]
                    ri@.contains_key(f) ==> ri@[f].complete() && ri@[f].rows_spec() == plm.rows,
                forall|i: int| 0 <= i < k ==> ri@.contains_key(#[trigger] all[i].file_spec()) && ri@[all[i].file_spec()] == all[i],
            decreases all.len() - k,
        {
            let ghost before = ri@;
            let f = rest[k].file();
            assert(rest@[k as int] == all[k as int]);
            assert(files@.contains_key(f) == plm.tabular_files.contains_key(f));
            if !files.contains_key(&f) {
                proof { lemma_check_err_stays(plm, all, k + 1, all.len() as int); }
                return Err(Error::MalformedPackingList(crate::types::Malformation::UnlistedTabularFile(f)));
            }
            if ri.contains_key(&f) {
                proof { lemma_check_err_stays(plm, all, k + 1, all.len() as int); }
                return Err(Error::MalformedPackingList(crate::types::Malformation::DuplicateTabularFile(f)));
            }
            let n = rest[k].rows();
            if n != rows {
                proof { lemma_check_err_stays(plm, all, k + 1, all.len() as int); }
                let mut counts: Vec<usize> = Vec::new();
                counts.push(rows);
                counts.push(n);
                assert(counts@ =~= seq![rows, n]);
                return Err(Error::InconsistentRowCount(counts));
            }
            let mut taken = LogicalRecordPositionIndex::empty();
            rest.set_and_swap(k, &mut taken);
            proof {
                use_type_invariant(&taken);
            }
            ri.insert(f, taken);
            assert(ri@.dom() =~= before.dom().insert(f));
            k = k + 1;
        }
        if ri.len() != files.len() {
            proof {
                assert(ri@.dom() != plm.tabular_files.dom()) by {
                    assert(plm.tabular_files.dom() =~= files@.dom());
                }
            }
            return Err(Error::NotIndexed);
        }
        proof {
            assert(plm.tabular_files.dom() =~= files@.dom());
            lemma_subset_same_len(ri@.dom(), files@.dom());
        }
        let r = IndexedDataset { logical_record_index: Some(ri), header_index: Some(header), ..self };
        proof {
            assert forall|f: u32, n: int|
                #![trigger r.position(f, n)]
                r.packing_list_spec().tabular_files.contains_key(f) && 1 <= n
                    <= r.packing_list_spec().rows implies r.position(f, n) is Some by {
                assert(ri@.contains_key(f));
                assert(ri@[f].complete());
                ri@[f].lemma_complete_position(n);
            }
        }
        Ok(r)
    }
}

proof fn lemma_check_err_stays(pl: PackingListModel, v: Seq<LogicalRecordPositionIndex>, k: int, m: int)
    requires
        0 <= k <= m,
        check_indices_upto(pl, v, k) is Err,
    ensures
        check_indices_upto(pl, v, m) == check_indices_upto(pl, v, k),
    decreases m - k,
{
    if m > k {
        lemma_check_err_stays(pl, v, k, m - 1);
    }
}

proof fn lemma_subset_same_len(a: Set<u32>, b: Set<u32>)
    requires
        a.finite(),
        b.finite(),
        a.subset_of(b),
        a.len() == b.len(),
    ensures
        a == b,
{
    if a != b {
        let x = choose|x: u32| b.contains(x) && !a.contains(x);
        assert(b.contains(x) && !a.contains(x)) by {
            assert(!(b =~= a));
        }
        vstd::set_lib::lemma_len_subset(a, b.remove(x));
        assert(b.remove(x).len() == b.len() - 1);
    }
}

/// The lines handed in, as byte sequences.
pub open spec fn lines_view(lines: Seq<Vec<u8>>) -> Seq<Seq<u8>> {
    lines.map_values(|l: Vec<u8>| l@)
}

/// The segments to read for logical record `n` of `tables`: the dataset must
/// be indexed, `n` within `1..=rows`, every table laid out, and every
/// segment's file indexed.
pub open spec fn retrieval_segments(ds: IndexedDataset, n: u64, tables: Seq<Table>) -> Result<
    Seq<TableSegmentLocation>,
    ErrorModel,
> {
    if !(ds.stage() is Indexed) {
        Err(ErrorModel::NotIndexed)
    } else if n < 1 || n > ds.packing_list_spec().rows {
        Err(ErrorModel::UnknownLogrecno(n))
    } else {
        match requested_segments(ds.packing_list_spec().table_locations, tables, tables.len() as int) {
            Err(t) => Err(ErrorModel::MissingTable(t)),
            Ok(segs) => if forall|i: int|
                0 <= i < segs.len() ==> (#[trigger] ds.position(segs[i].file, n as int)) is Some {
                Ok(segs)
            } else {
                Err(ErrorModel::NotIndexed)
            },
        }
    }
}

/// Where to read logical record `n` of `tables`: for each segment, in output
/// order, its tabular file and the byte offset of record `n` in it.
pub open spec fn retrieval_plan(ds: IndexedDataset, n: u64, tables: Seq<Table>) -> Result<
    Seq<(u32, u64)>,
    ErrorModel,
> {
    match retrieval_segments(ds, n, tables) {
        Err(e) => Err(e),
        Ok(segs) => Ok(
            segs.map_values(
                |s: TableSegmentLocation| (s.file, ds.position(s.file, n as int)->0),
            ),
        ),
    }
}

/// Logical record `n` of `tables`, composed from `lines`, line `i` being the
/// one read at the `i`-th place of the plan.
pub open spec fn retrieval(ds: IndexedDataset, n: u64, tables: Seq<Table>, lines: Seq<Seq<u8>>) -> Result<
    Seq<Seq<char>>,
    ErrorModel,
> {
    match retrieval_segments(ds, n, tables) {
        Err(e) => Err(e),
        Ok(segs) => compose(n, segs, lines),
    }
}

/// Whether `r` answers the request for logical record `n` of `tables` with
/// `lines` read at the places of its plan.
pub open spec fn retrieved(
    ds: IndexedDataset,
    n: u64,
    tables: Seq<Table>,
    lines: Seq<Seq<u8>>,
    r: Result<Vec<String>, Error>,
) -> bool {
    match retrieval(ds, n, tables, lines) {
        Ok(cells) => r matches Ok(v) && strings_view(v@) == cells,
        Err(e) => r matches Err(x) && x@ == e,
    }
}

/// Retrieval is idempotent: two answers to one request on one dataset agree,
/// cell for cell, or error for error.
pub proof fn lemma_retrieval_idempotent(
    ds: IndexedDataset,
    n: u64,
    tables: Seq<Table>,
    lines: Seq<Seq<u8>>,
    first: Result<Vec<String>, Error>,
    second: Result<Vec<String>, Error>,
)
    requires
        retrieved(ds, n, tables, lines, first),
        retrieved(ds, n, tables, lines, second),
    ensures
        match (first, second) {
            (Ok(a), Ok(b)) => strings_view(a@) == strings_view(b@),
            (Err(a), Err(b)) => a@ == b@,
            _ => false,
        },
{
}

proof fn lemma_requested_err_stays(
    layout: Map<Table, Seq<TableSegmentLocation>>,
    tables: Seq<Table>,
    k: int,
    m: int,
)
    requires
        0 <= k <= m,
        requested_segments(layout, tables, k) is Err,
    ensures
        requested_segments(layout, tables, m) == requested_segments(layout, tables, k),
    decreases m - k,
{
    if m > k {
        lemma_requested_err_stays(layout, tables, k, m - 1);
    }
}

proof fn lemma_compose_err_stays(n: u64, segs: Seq<TableSegmentLocation>, lines: Seq<Seq<u8>>, k: int, m: int)
    requires
        0 <= k <= m,
        compose_upto(n, segs, lines, k) is Err,
    ensures
        compose_upto(n, segs, lines, m) == compose_upto(n, segs, lines, k),
    decreases m - k,
{
    if m > k {
        lemma_compose_err_stays(n, segs, lines, k, m - 1);
    }
}

/// The cells that segment `seg` takes from the fields of a record, where the
/// record is number `n` and has enough columns.
pub fn project_record(n: u64, seg: TableSegmentLocation, fields: &Vec<String>) -> (r: Option<
    Vec<String>,
>)
    ensures
        match cells_of_fields(n, seg, strings_view(fields@)) {
            Some(c) => r matches Some(v) && strings_view(v@) == c,
            None => r is None,
        },
{
    let number = record_logrecno(fields);
    match number {
        Some(m) => {
            if m != n {
                return None;
            }
        },
        None => {
            return None;
        },
    }
    if !(seg.start <= seg.end && seg.end <= fields.len()) {
        return None;
    }
    let mut out: Vec<String> = Vec::new();
    copy_cells(fields, seg.start, seg.end, &mut out);
    assert(strings_view(out@) =~= strings_view(fields@).subrange(seg.start as int, seg.end as int));
    Some(out)
}

/// The cells `fields[start..end]`, copied.
fn copy_cells(fields: &Vec<String>, start: usize, end: usize, out: &mut Vec<String>)
    requires
        start <= end <= fields@.len(),
    ensures
        strings_view(final(out)@) == strings_view(old(out)@) + strings_view(fields@).subrange(
            start as int,
            end as int,
        ),
{
    let ghost base = strings_view(out@);
    let mut i = start;
    while i < end
        invariant
            start <= i <= end <= fields@.len(),
            strings_view(out@) == base + strings_view(fields@).subrange(start as int, i as int),
        decreases end - i,
    {
        let ghost before = out@;
        out.push(fields[i].clone());
        assert(strings_view(out@) =~= strings_view(before).push(fields@[i as int]@));
        assert(strings_view(fields@).subrange(start as int, i + 1) =~= strings_view(fields@).subrange(
            start as int,
            i as int,
        ).push(fields@[i as int]@));
        i = i + 1;
    }
}

impl IndexedDataset {
    /// The segments of `tables`, in order, each table's in its own order.
    pub fn segments(&self, tables: &Vec<Table>) -> (r: Result<Vec<TableSegmentLocation>, Error>)
        ensures
            self.stage() is Empty ==> (r matches Err(e) && e@ == ErrorModel::NotIndexed),
            !(self.stage() is Empty) ==> match requested_segments(
                self.packing_list_spec().table_locations,
                tables@,
                tables@.len() as int,
            ) {
                Ok(segs) => r matches Ok(v) && v@ == segs,
                Err(t) => r matches Err(e) && e@ == ErrorModel::MissingTable(t),
            },
    {
        proof {
            use_type_invariant(self);
        }
        let pl = match &self.packing_list {
            Some(pl) => pl,
            None => {
                return Err(Error::NotIndexed);
            },
        };
        let ghost layout = pl@.table_locations;
        let mut out: Vec<TableSegmentLocation> = Vec::new();
        let mut k: usize = 0;
        while k < tables.len()
            invariant
                self.packing_list == Some(*pl),
                layout == pl@.table_locations,
                k <= tables@.len(),
                requested_segments(layout, tables@, k as int) == Ok::<_, Table>(out@),
            decreases tables@.len() - k,
        {
            let t = tables[k];
            match pl.locations(t) {
                None => {
                    proof {
                        lemma_requested_err_stays(layout, tables@, k + 1, tables@.len() as int);
                    }
                    return Err(Error::MissingTable(t));
                },
                Some(locs) => {
                    let ghost before = out@;
                    let mut j: usize = 0;
                    while j < locs.len()
                        invariant
                            j <= locs@.len(),
                            out@ == before + locs@.take(j as int),
                        decreases locs@.len() - j,
                    {
                        out.push(locs[j]);
                        assert(locs@.take(j + 1) =~= locs@.take(j as int).push(locs@[j as int]));
                        j = j + 1;
                    }
                    assert(locs@.take(j as int) =~= locs@);
                },
            }
            k = k + 1;
        }
        Ok(out)
    }

    fn retrieval_segments_exec(&self, n: u64, tables: &Vec<Table>) -> (r: Result<
        Vec<TableSegmentLocation>,
        Error,
    >)
        ensures
            match retrieval_segments(*self, n, tables@) {
                Ok(segs) => r matches Ok(v) && v@ == segs,
                Err(e) => r matches Err(x) && x@ == e,
            },
    {
        proof {
            use_type_invariant(self);
        }
        broadcast use vstd::std_specs::hash::group_hash_axioms;

        let ri = match &self.logical_record_index {
            Some(ri) => ri,
            None => {
                return Err(Error::NotIndexed);
            },
        };
        let rows = match &self.packing_list {
            Some(pl) => pl.rows(),
            None => {
                return Err(Error::NotIndexed);
            },
        };
        if n < 1 || n > rows as u64 {
            return Err(Error::UnknownLogrecno(n));
        }
        let segs = match self.segments(tables) {
            Ok(v) => v,
            Err(e) => {
                return Err(e);
            },
        };
        let ghost layout = self.packing_list_spec().table_locations;
        assert(self.stage() is Indexed);
        let mut i: usize = 0;
        while i < segs.len()
            invariant
                self.logical_record_index == Some(*ri),
                self.stage() is Indexed,
                1 <= n <= self.packing_list_spec().rows,
                layout == self.packing_list_spec().table_locations,
                requested_segments(layout, tables@, tables@.len() as int) == Ok::<_, Table>(segs@),
                i <= segs@.len(),
                forall|j: int| 0 <= j < i ==> (#[trigger] self.position(segs@[j].file, n as int)) is Some,
            decreases segs@.len() - i,
        {
            let f = segs[i].file;
            let found = match ri.get(&f) {
                Some(idx) => idx.get(n).is_some(),
                None => false,
            };
            if !found {
                assert(self.position(segs@[i as int].file, n as int) is None);
                return Err(Error::NotIndexed);
            }
            i = i + 1;
        }
        Ok(segs)
    }

    /// Where to read logical record `n` for `tables`: for each segment in
    /// output order, its tabular file and the byte offset of the record.
    pub fn plan_logical_record(&self, n: u64, tables: &Vec<Table>) -> (r: Result<Vec<(u32, u64)>, Error>)
        ensures
            match retrieval_plan(*self, n, tables@) {
                Ok(plan) => r matches Ok(v) && v@ == plan,
                Err(e) => r matches Err(x) && x@ == e,
            },
    {
        proof {
            use_type_invariant(self);
        }
        broadcast use vstd::std_specs::hash::group_hash_axioms;

        let segs = match self.retrieval_segments_exec(n, tables) {
            Ok(v) => v,
            Err(e) => {
                return Err(e);
            },
        };
        let ri = match &self.logical_record_index {
            Some(ri) => ri,
            None => {
                return Err(Error::NotIndexed);
            },
        };
        let ghost want = segs@.map_values(
            |s: TableSegmentLocation| (s.file, self.position(s.file, n as int)->0),
        );
        let mut plan: Vec<(u32, u64)> = Vec::new();
        let mut i: usize = 0;
        while i < segs.len()
            invariant
                self.logical_record_index == Some(*ri),
                i <= segs@.len(),
                want == segs@.map_values(
                    |s: TableSegmentLocation| (s.file, self.position(s.file, n as int)->0),
                ),
                forall|j: int| 0 <= j < segs@.len() ==> (#[trigger] self.position(segs@[j].file, n as int)) is Some,
                plan@ == want.take(i as int),
            decreases segs@.len() - i,
        {
            let f = segs[i].file;
            assert(self.position(segs@[i as int].file, n as int) is Some);
            let offset = match ri.get(&f) {
                Some(idx) => match idx.get(n) {
                    Some(o) => o,
                    None => {
                        return Err(Error::NotIndexed);
                    },
                },
                None => {
                    return Err(Error::NotIndexed);
                },
            };
            plan.push((f, offset));
            assert(plan@ =~= want.take(i + 1));
            i = i + 1;
        }
        assert(want.take(segs@.len() as int) =~= want);
        Ok(plan)
    }

    /// Logical record `n` of `tables`: for each segment, in order, the cells
    /// of its column range, taken from `records[i]`, the line read at the
    /// `i`-th place of the plan, which must hold record `n`.
    pub fn get_logical_record(&self, n: u64, tables: &Vec<Table>, records: &Vec<Vec<u8>>) -> (r:
        Result<Vec<String>, Error>)
        ensures
            retrieved(*self, n, tables@, lines_view(records@), r),
    {
        proof {
            use_type_invariant(self);
        }
        let segs = match self.retrieval_segments_exec(n, tables) {
            Ok(v) => v,
            Err(e) => {
                return Err(e);
            },
        };
        let ghost lines = lines_view(records@);
        let mut out: Vec<String> = Vec::new();
        let mut i: usize = 0;
        assert(strings_view(out@) =~= Seq::<Seq<char>>::empty());
        while i < segs.len()
            invariant
                i <= segs@.len(),
                retrieval_segments(*self, n, tables@) == Ok::<_, ErrorModel>(segs@),
                lines == lines_view(records@),
                compose_upto(n, segs@, lines, i as int) == Ok::<_, ErrorModel>(strings_view(out@)),
            decreases segs@.len() - i,
        {
            let seg = segs[i];
            let bad = Error::IndexInconsistency { file: FileType::Tabular(seg.file), logrecno: n };
            if i >= records.len() {
                proof {
                    lemma_compose_err_stays(n, segs@, lines, i + 1, segs@.len() as int);
                }
                return Err(bad);
            }
            assert(lines[i as int] == records@[i as int]@);
            let fields = match parse_record(records[i].as_slice()) {
                Some(f) => f,
                None => {
                    proof {
                        lemma_compose_err_stays(n, segs@, lines, i + 1, segs@.len() as int);
                    }
                    return Err(bad);
                },
            };
            let mut cells = match project_record(n, seg, &fields) {
                Some(c) => c,
                None => {
                    proof {
                        lemma_compose_err_stays(n, segs@, lines, i + 1, segs@.len() as int);
                    }
                    return Err(bad);
                },
            };
            let ghost before = out@;
            let ghost taken = cells@;
            out.append(&mut cells);
            assert(strings_view(out@) =~= strings_view(before) + strings_view(taken));
            i = i + 1;
        }
        Ok(out)
    }

    /// The logical record number of `geoid`.
    pub fn get_logical_record_number_for_geoid(&self, geoid: &str) -> (r: Result<u64, Error>)
        ensures
            !(self.stage() is Indexed) ==> (r matches Err(e) && e@ == ErrorModel::NotIndexed),
            self.stage() is Indexed ==> if self.geoid_index().contains_key(geoid@) {
                r == Ok::<u64, Error>(self.geoid_index()[geoid@].0)
            } else {
                r matches Err(e) && e@ == ErrorModel::UnknownGeoid(geoid@)
            },
    {
        match self.header_location_for_geoid(geoid) {
            Ok((n, _)) => Ok(n),
            Err(e) => Err(e),
        }
    }

    /// The logical record number of `geoid` and the byte offset of its line
    /// in the geographic header file.
    pub fn header_location_for_geoid(&self, geoid: &str) -> (r: Result<(u64, u64), Error>)
        ensures
            !(self.stage() is Indexed) ==> (r matches Err(e) && e@ == ErrorModel::NotIndexed),
            self.stage() is Indexed ==> if self.geoid_index().contains_key(geoid@) {
                r == Ok::<(u64, u64), Error>(self.geoid_index()[geoid@])
            } else {
                r matches Err(e) && e@ == ErrorModel::UnknownGeoid(geoid@)
            },
    {
        proof {
            use_type_invariant(self);
        }
        let hi = match &self.header_index {
            Some(hi) => hi,
            None => {
                return Err(Error::NotIndexed);
            },
        };
        match hi.get(geoid) {
            Some(v) => Ok(v),
            None => Err(Error::UnknownGeoid(geoid.to_owned())),
        }
    }

    /// The geographic header of `geoid`, from `line`, the line read at the
    /// offset that the index gives; it must hold the indexed record number.
    pub fn get_header_for_geoid(&self, geoid: &str, line: String) -> (r: Result<
        GeographicalHeader,
        Error,
    >)
        ensures
            !(self.stage() is Indexed) ==> (r matches Err(e) && e@ == ErrorModel::NotIndexed),
            self.stage() is Indexed ==> if !self.geoid_index().contains_key(geoid@) {
                r matches Err(e) && e@ == ErrorModel::UnknownGeoid(geoid@)
            } else if line@.len() < crate::layout::LINE_LENGTH {
                r matches Err(e) && e@ == (ErrorModel::CorruptGeographicalHeader {
                    offset: self.geoid_index()[geoid@].1,
                })
            } else if header_logrecno(line@) != Some(self.geoid_index()[geoid@].0) {
                r matches Err(e) && e@ == (ErrorModel::IndexInconsistency {
                    file: FileType::GeographicalHeader,
                    logrecno: self.geoid_index()[geoid@].0,
                })
            } else {
                r matches Ok(h) && h.line_spec() == line@
            },
    {
        proof {
            use_type_invariant(self);
        }
        let (n, offset) = match self.header_location_for_geoid(geoid) {
            Ok(v) => v,
            Err(e) => {
                return Err(e);
            },
        };
        let header = match GeographicalHeader::new(line) {
            Some(h) => h,
            None => {
                return Err(Error::CorruptGeographicalHeader { offset });
            },
        };
        match header.logrecno() {
            Some(m) => {
                if m == n {
                    return Ok(header);
                }
            },
            None => {},
        }
        Err(Error::IndexInconsistency { file: FileType::GeographicalHeader, logrecno: n })
    }
}

/// One logical record: its number, its header line and place name, and its
/// cells table by table.
pub struct LogicalRecord {
    pub number: u64,
    pub header: String,
    pub name: String,
    pub records: Vec<Vec<String>>,
}

impl LogicalRecord {
    /// The characters `range` of the header line.
    pub fn header_field(&self, range: core::ops::Range<usize>) -> (r: &str)
        requires
            range.start <= range.end <= self.header@.len(),
        ensures
            r@ == self.header@.subrange(range.start as int, range.end as int),
    {
        self.header.as_str().substring_char(range.start, range.end)
    }
}

/// Retrieval operations that a dataset offers.
pub trait Dataset {
    /// The logical record number of `geoid`.
    fn get_logical_record_number_for_geoid(&self, geoid: &str) -> Result<u64, Error>;

    /// Logical record `number` of `tables`, from the lines read at the places
    /// of its plan.
    fn get_logical_record(&self, number: u64, tables: &Vec<Table>, records: &Vec<Vec<u8>>) -> Result<
        Vec<String>,
        Error,
    >;
}

impl Dataset for IndexedDataset {
    fn get_logical_record_number_for_geoid(&self, geoid: &str) -> Result<u64, Error> {
        IndexedDataset::get_logical_record_number_for_geoid(self, geoid)
    }

    fn get_logical_record(&self, number: u64, tables: &Vec<Table>, records: &Vec<Vec<u8>>) -> Result<
        Vec<String>,
        Error,
    > {
        IndexedDataset::get_logical_record(self, number, tables, records)
    }
}

} // verus!
