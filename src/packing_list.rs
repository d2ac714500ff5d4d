//! The packing-list parser: the state code, the schema, the file inventory
//! and the column layout of each table.
use vstd::prelude::*;

use crate::text::{
    all_digits, chars_of, is_ascii_digit, is_ascii_lower, is_ascii_upper, is_word, is_word_char, parse_decimal,
    parse_unsigned, split_bounds, split_on, to_lower_ascii,
};
use crate::types::{
    table_named, table_slot, Error, ErrorModel, FileType, Malformation, Schema, Table,
    TableSegmentLocation, TableSegmentSpecifier, TABLE_COUNT,
};
use std::collections::HashMap;

verus! {

/// The lines of a text: the pieces between line feeds.
pub open spec fn text_lines(t: Seq<char>) -> Seq<Seq<char>> {
    split_on(t, '\n')
}

// ---------------------------------------------------------------------------
// The state code.

/// The lowercased state code of a line that ends in `STUSAB: XX`, with `XX`
/// two uppercase ASCII letters.
pub open spec fn stusab_of_line(l: Seq<char>) -> Option<Seq<char>> {
    let n = l.len() as int;
    if n >= 10 && l.subrange(n - 10, n - 2) == seq!['S', 'T', 'U', 'S', 'A', 'B', ':', ' ']
        && is_ascii_upper(l[n - 2]) && is_ascii_upper(l[n - 1]) {
        Some(seq![to_lower_ascii(l[n - 2]), to_lower_ascii(l[n - 1])])
    } else {
        None
    }
}

/// The state code of the first line that declares one.
pub open spec fn first_stusab(ls: Seq<Seq<char>>) -> Option<Seq<char>>
    decreases ls.len(),
{
    if ls.len() == 0 {
        None
    } else if stusab_of_line(ls[0]) is Some {
        stusab_of_line(ls[0])
    } else {
        first_stusab(ls.drop_first())
    }
}

proof fn lemma_first_stusab_len(ls: Seq<Seq<char>>)
    ensures
        first_stusab(ls) matches Some(st) ==> st.len() == 2,
    decreases ls.len(),
{
    if ls.len() > 0 && stusab_of_line(ls[0]) is None {
        lemma_first_stusab_len(ls.drop_first());
    }
}

/// Relies on `str::to_ascii_lowercase`: 'A'..='Z' become 'a'..='z', every
/// other character is kept.
#[verifier::external_body]
fn ascii_lowercase(s: &str) -> (r: String)
    ensures
        r@ == s@.map_values(|c: char| to_lower_ascii(c)),
{
    s.to_ascii_lowercase()
}

fn stusab_line_at(t: &Vec<char>, a: usize, b: usize) -> (r: bool)
    requires
        a <= b <= t@.len(),
    ensures
        r == stusab_of_line(t@.subrange(a as int, b as int)) is Some,
{
    let ghost l = t@.subrange(a as int, b as int);
    if b - a < 10 {
        return false;
    }
    let m = b - 10;
    let r = t[m] == 'S' && t[m + 1] == 'T' && t[m + 2] == 'U' && t[m + 3] == 'S' && t[m + 4]
        == 'A' && t[m + 5] == 'B' && t[m + 6] == ':' && t[m + 7] == ' ' && 'A' <= t[b - 2]
        && t[b - 2] <= 'Z' && 'A' <= t[b - 1] && t[b - 1] <= 'Z';
    let ghost n = l.len() as int;
    let ghost lit = seq!['S', 'T', 'U', 'S', 'A', 'B', ':', ' '];
    assert(r ==> l.subrange(n - 10, n - 2) =~= lit);
    assert(l.subrange(n - 10, n - 2) == lit && is_ascii_upper(l[n - 2]) && is_ascii_upper(l[n - 1])
        ==> r) by {
        if l.subrange(n - 10, n - 2) == lit {
            assert(lit[0] == 'S');
            assert(lit[1] == 'T');
            assert(lit[2] == 'U');
            assert(lit[3] == 'S');
            assert(lit[4] == 'A');
            assert(lit[5] == 'B');
            assert(lit[6] == ':');
            assert(lit[7] == ' ');
            assert(l[n - 2] == t@[b - 2] && l[n - 1] == t@[b - 1]);
            assert(t@[m + 0] == l.subrange(n - 10, n - 2)[0]);
            assert(t@[m + 1] == l.subrange(n - 10, n - 2)[1]);
            assert(t@[m + 2] == l.subrange(n - 10, n - 2)[2]);
            assert(t@[m + 3] == l.subrange(n - 10, n - 2)[3]);
            assert(t@[m + 4] == l.subrange(n - 10, n - 2)[4]);
            assert(t@[m + 5] == l.subrange(n - 10, n - 2)[5]);
            assert(t@[m + 6] == l.subrange(n - 10, n - 2)[6]);
            assert(t@[m + 7] == l.subrange(n - 10, n - 2)[7]);
        }
    }
    r
}

/// The state code declared by a packing list, lowercased: the code of its
/// first line that ends in `STUSAB: XX`.
pub fn get_stusab(s: &str) -> (r: Option<String>)
    ensures
        r matches Some(v) ==> first_stusab(text_lines(s@)) == Some(v@),
        r is None ==> first_stusab(text_lines(s@)) is None,
{
    let t = chars_of(s);
    let lines = split_bounds(&t, 0, t.len(), '\n');
    assert(t@.subrange(0, t@.len() as int) =~= s@);
    find_stusab(s, &t, &lines)
}

fn find_stusab(s: &str, t: &Vec<char>, lines: &Vec<(usize, usize)>) -> (r: Option<String>)
    requires
        t@ == s@,
        lines@.len() == text_lines(s@).len(),
        forall|k: int|
            0 <= k < lines@.len() ==> (#[trigger] lines@[k]).0 <= lines@[k].1 <= t@.len()
                && t@.subrange(lines@[k].0 as int, lines@[k].1 as int) == text_lines(s@)[k],
    ensures
        r matches Some(v) ==> first_stusab(text_lines(s@)) == Some(v@),
        r is None ==> first_stusab(text_lines(s@)) is None,
{
    let ghost ls = text_lines(s@);
    let mut k: usize = 0;
    assert(ls.skip(0) =~= ls);
    while k < lines.len()
        invariant
            0 <= k <= lines@.len() == ls.len(),
            t@ == s@,
            ls == text_lines(s@),
            forall|k: int|
                0 <= k < lines@.len() ==> (#[trigger] lines@[k]).0 <= lines@[k].1 <= t@.len()
                    && t@.subrange(lines@[k].0 as int, lines@[k].1 as int) == ls[k],
            first_stusab(ls) == first_stusab(ls.skip(k as int)),
        decreases lines@.len() - k,
    {
        let (a, b) = lines[k];
        assert(ls.skip(k as int)[0] == ls[k as int]);
        if stusab_line_at(t, a, b) {
            let code = ascii_lowercase(s.substring_char(b - 2, b));
            let ghost l = ls[k as int];
            assert(code@ =~= seq![to_lower_ascii(l[l.len() - 2]), to_lower_ascii(l[l.len() - 1])]);
            return Some(code);
        }
        assert(ls.skip(k as int).drop_first() =~= ls.skip(k + 1));
        k = k + 1;
    }
    assert(ls.skip(k as int) =~= Seq::<Seq<char>>::empty());
    None
}

// ---------------------------------------------------------------------------
// File-information lines: `FILE|DATE|SIZE|LINES|`.

/// The index of the last `|` before index `j`, or -1.
pub open spec fn last_pipe_before(l: Seq<char>, j: int) -> int
    decreases j,
{
    if j <= 0 {
        -1
    } else if l[j - 1] == '|' {
        j - 1
    } else {
        last_pipe_before(l, j - 1)
    }
}

/// The end of the run of word characters that starts at `i`.
pub open spec fn word_end(l: Seq<char>, i: int) -> int
    decreases l.len() - i,
{
    if 0 <= i < l.len() && is_word(l[i]) {
        word_end(l, i + 1)
    } else {
        i
    }
}

/// The shape of a file-information line, as `(w, p1, p2, p3)`: the line is
/// `l[0..p1] | l[p1+1..p2] | l[p2+1..p3] | l[p3+1..n-1] |` with no `|` in the
/// date, digits in the size and the line count, and a file name made of two
/// lowercase letters, a run of word characters ending in a four-digit year
/// (the run ends at `w`), a `.` and a non-empty dataset name.
pub open spec fn file_line_shape(l: Seq<char>) -> Option<(int, int, int, int)> {
    let n = l.len() as int;
    let p3 = last_pipe_before(l, n - 1);
    let p2 = last_pipe_before(l, p3);
    let p1 = last_pipe_before(l, p2);
    let w = word_end(l, 2);
    if n >= 1 && l[n - 1] == '|' && 0 <= p1 && p1 + 1 < p2 && p2 + 1 < p3 && p3 + 1 < n - 1
        && all_digits(l.subrange(p2 + 1, p3)) && all_digits(l.subrange(p3 + 1, n - 1)) && w
        >= 7 && w + 1 < p1 && l[w] == '.' && is_ascii_lower(l[0]) && is_ascii_lower(l[1])
        && all_digits(l.subrange(w - 4, w)) {
        Some((w, p1, p2, p3))
    } else {
        None
    }
}

/// A file-information line, with its numbers as values.
pub struct FileInformationModel {
    pub filename: Seq<char>,
    pub date: Seq<char>,
    pub file_size: usize,
    pub rows: usize,
    pub ty: FileType,
}

/// The role that the identifier of a file name gives: `geo` is the
/// geographic header, a decimal `u32` a tabular file.
pub open spec fn file_type_of(ident: Seq<char>) -> Option<FileType> {
    if ident == seq!['g', 'e', 'o'] {
        Some(FileType::GeographicalHeader)
    } else if parse_unsigned(ident, u32::MAX as nat) is Some {
        Some(FileType::Tabular(parse_unsigned(ident, u32::MAX as nat)->0 as u32))
    } else {
        None
    }
}

/// What line `l` (number `num`, from 1) says as a file-information line:
/// `None` where it is not one.
pub open spec fn file_line_outcome(l: Seq<char>, num: usize) -> Option<
    Result<FileInformationModel, ErrorModel>,
> {
    match file_line_shape(l) {
        None => None,
        Some((w, p1, p2, p3)) => {
            let ident = l.subrange(2, w - 4);
            let size = parse_unsigned(l.subrange(p2 + 1, p3), usize::MAX as nat);
            let rows = parse_unsigned(l.subrange(p3 + 1, l.len() - 1), usize::MAX as nat);
            if file_type_of(ident) is None {
                Some(Err(ErrorModel::UnrecognizedFile(ident)))
            } else if size is None || rows is None {
                Some(Err(ErrorModel::MalformedPackingList(Malformation::NumberTooLarge(num))))
            } else {
                Some(
                    Ok(
                        FileInformationModel {
                            filename: l.subrange(0, p1),
                            date: l.subrange(p1 + 1, p2),
                            file_size: size->0 as usize,
                            rows: rows->0 as usize,
                            ty: file_type_of(ident)->0,
                        },
                    ),
                )
            }
        },
    }
}

/// The file-information lines among the first `k` lines, or the first failure.
pub open spec fn file_infos_upto(ls: Seq<Seq<char>>, k: int) -> Result<
    Seq<FileInformationModel>,
    ErrorModel,
>
    decreases k,
{
    if k <= 0 {
        Ok(Seq::empty())
    } else {
        match file_infos_upto(ls, k - 1) {
            Err(e) => Err(e),
            Ok(v) => match file_line_outcome(ls[k - 1], k as usize) {
                None => Ok(v),
                Some(Ok(fi)) => Ok(v.push(fi)),
                Some(Err(e)) => Err(e),
            },
        }
    }
}

/// The file-information lines of a packing list, or the first failure.
pub open spec fn file_infos(ls: Seq<Seq<char>>) -> Result<Seq<FileInformationModel>, ErrorModel> {
    file_infos_upto(ls, ls.len() as int)
}

/// One file named by a packing list.
pub struct FileInformation {
    pub filename: String,
    pub date: String,
    pub file_size: usize,
    pub rows: usize,
    pub ty: FileType,
}

impl View for FileInformation {
    type V = FileInformationModel;

    open spec fn view(&self) -> FileInformationModel {
        FileInformationModel {
            filename: self.filename@,
            date: self.date@,
            file_size: self.file_size,
            rows: self.rows,
            ty: self.ty,
        }
    }
}

pub open spec fn infos_view(v: Seq<FileInformation>) -> Seq<FileInformationModel> {
    v.map_values(|f: FileInformation| f@)
}

fn last_pipe_at(t: &Vec<char>, a: usize, b: usize, j: usize) -> (r: usize)
    requires
        a <= j <= b <= t@.len(),
    ensures
        a <= r <= j,
        r == j ==> last_pipe_before(t@.subrange(a as int, b as int), j - a) == -1,
        r < j ==> last_pipe_before(t@.subrange(a as int, b as int), j - a) == r - a,
{
    let ghost l = t@.subrange(a as int, b as int);
    let mut i = j;
    while i > a
        invariant
            a <= i <= j <= b <= t@.len(),
            l == t@.subrange(a as int, b as int),
            last_pipe_before(l, j - a) == last_pipe_before(l, i - a),
        decreases i,
    {
        if t[i - 1] == '|' {
            return i - 1;
        }
        i = i - 1;
    }
    j
}

fn word_end_at(t: &Vec<char>, a: usize, b: usize, i: usize) -> (r: usize)
    requires
        a <= i <= b <= t@.len(),
    ensures
        i <= r <= b,
        r - a == word_end(t@.subrange(a as int, b as int), i - a),
{
    let ghost l = t@.subrange(a as int, b as int);
    let mut j = i;
    while j < b && is_word_char(t[j])
        invariant
            a <= i <= j <= b <= t@.len(),
            l == t@.subrange(a as int, b as int),
            word_end(l, i - a) == word_end(l, j - a),
        decreases b - j,
    {
        j = j + 1;
    }
    j
}

pub fn digits_only(t: &Vec<char>, from: usize, to: usize) -> (r: bool)
    requires
        from <= to <= t@.len(),
    ensures
        r == all_digits(t@.subrange(from as int, to as int)),
{
    let mut i = from;
    while i < to
        invariant
            from <= i <= to <= t@.len(),
            all_digits(t@.subrange(from as int, i as int)),
        decreases to - i,
    {
        if !('0' <= t[i] && t[i] <= '9') {
            assert(t@.subrange(from as int, to as int)[i - from] == t@[i as int]);
            return false;
        }
        i = i + 1;
        assert(all_digits(t@.subrange(from as int, i as int))) by {
            assert forall|j: int| 0 <= j < i - from implies #[trigger] t@.subrange(
                from as int,
                i as int,
            )[j] >= '0' && t@.subrange(from as int, i as int)[j] <= '9' by {
                if j < i - 1 - from {
                    assert(t@.subrange(from as int, i as int)[j] == t@.subrange(
                        from as int,
                        i - 1,
                    )[j]);
                }
            }
        }
    }
    true
}

fn file_type_at(s: &str, t: &Vec<char>, a: usize, b: usize) -> (r: Option<FileType>)
    requires
        a <= b <= t@.len(),
        t@ == s@,
    ensures
        r == file_type_of(t@.subrange(a as int, b as int)),
{
    let ghost ident = t@.subrange(a as int, b as int);
    if b - a == 3 && t[a] == 'g' && t[a + 1] == 'e' && t[a + 2] == 'o' {
        assert(ident =~= seq!['g', 'e', 'o']);
        return Some(FileType::GeographicalHeader);
    }
    assert(ident != seq!['g', 'e', 'o']) by {
        if ident == seq!['g', 'e', 'o'] {
            assert(ident[0] == 'g' && ident[1] == 'e' && ident[2] == 'o');
        }
    }
    match parse_decimal(t, a, b, u32::MAX as u64) {
        Some(v) => Some(FileType::Tabular(v as u32)),
        None => None,
    }
}

/// The shape of line `t[a..b]` as a file-information line, in positions of `t`.
#[verifier::rlimit(30)]
fn file_line_shape_at(t: &Vec<char>, a: usize, b: usize) -> (r: Option<(usize, usize, usize, usize)>)
    requires
        a <= b <= t@.len(),
    ensures
        match r {
            Some((w, p1, p2, p3)) => a + 7 <= w && w + 1 < p1 && p1 + 1 < p2 && p2 + 1 < p3
                && p3 + 1 < b && file_line_shape(t@.subrange(a as int, b as int)) == Some(
                ((w - a) as int, (p1 - a) as int, (p2 - a) as int, (p3 - a) as int),
            ),
            None => file_line_shape(t@.subrange(a as int, b as int)) is None,
        },
{
    let ghost l = t@.subrange(a as int, b as int);
    if b == a || t[b - 1] != '|' {
        return None;
    }
    let p3 = last_pipe_at(t, a, b, b - 1);
    let p2 = last_pipe_at(t, a, b, p3);
    let p1 = last_pipe_at(t, a, b, p2);
    if p1 == p2 || p1 + 1 >= p2 || p2 + 1 >= p3 || p3 + 1 >= b - 1 {
        return None;
    }
    let w = word_end_at(t, a, b, a + 2);
    assert(t@.subrange(p2 + 1, p3 as int) =~= l.subrange(p2 + 1 - a, p3 - a));
    assert(t@.subrange(p3 + 1, b - 1) =~= l.subrange(p3 + 1 - a, l.len() - 1));
    if !(digits_only(t, p2 + 1, p3) && digits_only(t, p3 + 1, b - 1)) {
        return None;
    }
    if !(w - a >= 7 && w < p1 && p1 - w >= 2 && t[w] == '.' && 'a' <= t[a] && t[a] <= 'z' && 'a'
        <= t[a + 1] && t[a + 1] <= 'z') {
        return None;
    }
    assert(t@.subrange(w - 4, w as int) =~= l.subrange(w - a - 4, w - a));
    if !digits_only(t, w - 4, w) {
        return None;
    }
    Some((w, p1, p2, p3))
}

/// Reads line `t[a..b]` (number `num`) as a file-information line.
fn file_line_at(s: &str, t: &Vec<char>, a: usize, b: usize, num: usize) -> (r: Option<
    Result<FileInformation, Error>,
>)
    requires
        a <= b <= t@.len(),
        t@ == s@,
    ensures
        match (r, file_line_outcome(t@.subrange(a as int, b as int), num)) {
            (None, None) => true,
            (Some(Ok(fi)), Some(Ok(m))) => fi@ == m,
            (Some(Err(e)), Some(Err(m))) => e@ == m,
            _ => false,
        },
{
    let ghost l = t@.subrange(a as int, b as int);
    let (w, p1, p2, p3) = match file_line_shape_at(t, a, b) {
        Some(shape) => shape,
        None => {
            return None;
        },
    };
    assert(t@.subrange(a + 2, w - 4) =~= l.subrange(2, w - a - 4));
    let ty = file_type_at(s, t, a + 2, w - 4);
    let ty = match ty {
        Some(ty) => ty,
        None => {
            return Some(Err(Error::UnrecognizedFile(s.substring_char(a + 2, w - 4).to_owned())));
        },
    };
    assert(t@.subrange(p2 + 1, p3 as int) =~= l.subrange(p2 + 1 - a, p3 - a));
    assert(t@.subrange(p3 + 1, b - 1) =~= l.subrange(p3 + 1 - a, l.len() - 1));
    let size = parse_decimal(t, p2 + 1, p3, usize::MAX as u64);
    let rows = parse_decimal(t, p3 + 1, b - 1, usize::MAX as u64);
    match (size, rows) {
        (Some(size), Some(rows)) => {
            assert(t@.subrange(a as int, p1 as int) =~= l.subrange(0, p1 - a));
            assert(t@.subrange(p1 + 1, p2 as int) =~= l.subrange(p1 + 1 - a, p2 - a));
            Some(
                Ok(
                    FileInformation {
                        filename: s.substring_char(a, p1).to_owned(),
                        date: s.substring_char(p1 + 1, p2).to_owned(),
                        file_size: size as usize,
                        rows: rows as usize,
                        ty,
                    },
                ),
            )
        },
        _ => Some(Err(Error::MalformedPackingList(Malformation::NumberTooLarge(num)))),
    }
}

/// The file-information lines of a packing list, in order: each line of the
/// shape `FILE|DATE|SIZE|LINES|` whose file name is a state code, an
/// identifier, a year, `.` and a dataset name.
pub fn extract_file_information(s: &str) -> (r: Result<Vec<FileInformation>, Error>)
    ensures
        r matches Ok(v) ==> file_infos(text_lines(s@)) == Ok::<_, ErrorModel>(infos_view(v@)),
        r matches Err(e) ==> file_infos(text_lines(s@)) == Err::<Seq<FileInformationModel>, _>(e@),
{
    let t = chars_of(s);
    let lines = split_bounds(&t, 0, t.len(), '\n');
    assert(t@.subrange(0, t@.len() as int) =~= s@);
    collect_file_information(s, &t, &lines)
}

fn collect_file_information(s: &str, t: &Vec<char>, lines: &Vec<(usize, usize)>) -> (r: Result<
    Vec<FileInformation>,
    Error,
>)
    requires
        t@ == s@,
        lines@.len() == text_lines(s@).len(),
        forall|k: int|
            0 <= k < lines@.len() ==> (#[trigger] lines@[k]).0 <= lines@[k].1 <= t@.len()
                && t@.subrange(lines@[k].0 as int, lines@[k].1 as int) == text_lines(s@)[k],
    ensures
        r matches Ok(v) ==> file_infos(text_lines(s@)) == Ok::<_, ErrorModel>(infos_view(v@)),
        r matches Err(e) ==> file_infos(text_lines(s@)) == Err::<Seq<FileInformationModel>, _>(e@),
{
    let ghost ls = text_lines(s@);
    let mut out: Vec<FileInformation> = Vec::new();
    let mut k: usize = 0;
    assert(infos_view(out@) =~= Seq::empty());
    while k < lines.len()
        invariant
            0 <= k <= lines@.len() == ls.len(),
            t@ == s@,
            ls == text_lines(s@),
            forall|k: int|
                0 <= k < lines@.len() ==> (#[trigger] lines@[k]).0 <= lines@[k].1 <= t@.len()
                    && t@.subrange(lines@[k].0 as int, lines@[k].1 as int) == ls[k],
            file_infos_upto(ls, k as int) == Ok::<_, ErrorModel>(infos_view(out@)),
        decreases lines@.len() - k,
    {
        let (a, b) = lines[k];
        let ghost before = out@;
        match file_line_at(s, t, a, b, k + 1) {
            None => {},
            Some(Ok(fi)) => {
                out.push(fi);
                assert(infos_view(out@) =~= infos_view(before).push(fi@));
            },
            Some(Err(e)) => {
                assert(file_infos_upto(ls, k + 1) == Err::<Seq<FileInformationModel>, _>(e@));
                proof {
                    lemma_file_infos_err_stays(ls, k + 1, ls.len() as int);
                }
                return Err(e);
            },
        }
        k = k + 1;
    }
    Ok(out)
}

proof fn lemma_file_infos_err_stays(ls: Seq<Seq<char>>, k: int, m: int)
    requires
        0 <= k <= m,
        file_infos_upto(ls, k) is Err,
    ensures
        file_infos_upto(ls, m) == file_infos_upto(ls, k),
    decreases m - k,
{
    if m > k {
        lemma_file_infos_err_stays(ls, k, m - 1);
    }
}

// ---------------------------------------------------------------------------
// The file inventory.

/// The tabular files (by number) and the geographic header among the first
/// `k` file-information lines, or the first duplicate.
pub open spec fn partition_upto(fis: Seq<FileInformationModel>, k: int) -> Result<
    (Map<u32, Seq<char>>, Option<Seq<char>>),
    ErrorModel,
>
    decreases k,
{
    if k <= 0 {
        Ok((Map::empty(), None))
    } else {
        match partition_upto(fis, k - 1) {
            Err(e) => Err(e),
            Ok((tab, geo)) => match fis[k - 1].ty {
                FileType::GeographicalHeader => if geo is Some {
                    Err(ErrorModel::MalformedPackingList(Malformation::DuplicateGeographicalHeader))
                } else {
                    Ok((tab, Some(fis[k - 1].filename)))
                },
                FileType::Tabular(n) => if tab.contains_key(n) {
                    Err(ErrorModel::MalformedPackingList(Malformation::DuplicateTabularFile(n)))
                } else {
                    Ok((tab.insert(n, fis[k - 1].filename), geo))
                },
            },
        }
    }
}

/// The line counts of the listed files, in order.
pub open spec fn row_counts(fis: Seq<FileInformationModel>) -> Seq<usize> {
    fis.map_values(|f: FileInformationModel| f.rows)
}

/// Whether all listed files have the same line count.
pub open spec fn rows_agree(fis: Seq<FileInformationModel>) -> bool {
    forall|i: int| 0 <= i < fis.len() ==> (#[trigger] fis[i]).rows == fis[0].rows
}

/// The tabular files, the geographic header and the common line count that
/// the file-information lines give: exactly one geographic header, distinct
/// tabular numbers, and one line count for all.
pub open spec fn file_inventory(fis: Seq<FileInformationModel>) -> Result<
    (Map<u32, Seq<char>>, Seq<char>, usize),
    ErrorModel,
> {
    match partition_upto(fis, fis.len() as int) {
        Err(e) => Err(e),
        Ok((tab, geo)) => if geo is None {
            Err(ErrorModel::MalformedPackingList(Malformation::MissingGeographicalHeader))
        } else if !rows_agree(fis) {
            Err(ErrorModel::InconsistentRowCount(row_counts(fis)))
        } else {
            Ok((tab, geo->0, fis[0].rows))
        },
    }
}

pub open spec fn names_view(m: Map<u32, String>) -> Map<u32, Seq<char>> {
    m.map_values(|s: String| s@)
}

proof fn lemma_partition_err_stays(fis: Seq<FileInformationModel>, k: int, m: int)
    requires
        0 <= k <= m,
        partition_upto(fis, k) is Err,
    ensures
        partition_upto(fis, m) == partition_upto(fis, k),
    decreases m - k,
{
    if m > k {
        lemma_partition_err_stays(fis, k, m - 1);
    }
}

/// Splits the listed files into the tabular files, keyed by number, and the
/// one geographic header.
pub fn partition_file_information(infos: &Vec<FileInformation>) -> (r: Result<
    (HashMap<u32, String>, String),
    Error,
>)
    ensures
        match r {
            Ok((tab, geo)) => partition_upto(infos_view(infos@), infos@.len() as int) == Ok::<
                _,
                ErrorModel,
            >((names_view(tab@), Some(geo@))),
            Err(e) => file_inventory(infos_view(infos@)) == Err::<
                (Map<u32, Seq<char>>, Seq<char>, usize),
                _,
            >(e@),
        },
{
    broadcast use vstd::std_specs::hash::group_hash_axioms;

    let ghost fis = infos_view(infos@);
    let mut tab: HashMap<u32, String> = HashMap::new();
    let mut geo: Option<String> = None;
    let mut k: usize = 0;
    assert(names_view(tab@) =~= Map::empty());
    while k < infos.len()
        invariant
            0 <= k <= infos@.len(),
            fis == infos_view(infos@),
            partition_upto(fis, k as int) == Ok::<_, ErrorModel>(
                (
                    names_view(tab@),
                    match geo {
                        Some(g) => Some(g@),
                        None => None,
                    },
                ),
            ),
        decreases infos@.len() - k,
    {
        let fi = &infos[k];
        assert(fis[k as int] == fi@);
        match fi.ty {
            FileType::GeographicalHeader => {
                if geo.is_some() {
                    proof {
                        lemma_partition_err_stays(fis, k + 1, fis.len() as int);
                    }
                    return Err(
                        Error::MalformedPackingList(Malformation::DuplicateGeographicalHeader),
                    );
                }
                geo = Some(fi.filename.clone());
            },
            FileType::Tabular(n) => {
                if tab.contains_key(&n) {
                    proof {
                        lemma_partition_err_stays(fis, k + 1, fis.len() as int);
                    }
                    return Err(Error::MalformedPackingList(Malformation::DuplicateTabularFile(n)));
                }
                let ghost before = tab@;
                tab.insert(n, fi.filename.clone());
                assert(names_view(tab@) =~= names_view(before).insert(n, fi.filename@));
            },
        }
        k = k + 1;
    }
    match geo {
        Some(g) => Ok((tab, g)),
        None => Err(Error::MalformedPackingList(Malformation::MissingGeographicalHeader)),
    }
}

/// The line count that all listed files share.
pub fn common_row_count(infos: &Vec<FileInformation>) -> (r: Result<usize, Error>)
    requires
        infos@.len() > 0,
    ensures
        match r {
            Ok(n) => rows_agree(infos_view(infos@)) && n == infos@[0].rows,
            Err(e) => !rows_agree(infos_view(infos@)) && e@ == ErrorModel::InconsistentRowCount(
                row_counts(infos_view(infos@)),
            ),
        },
{
    let ghost fis = infos_view(infos@);
    let first = infos[0].rows;
    let mut all_equal = true;
    let mut counts: Vec<usize> = Vec::new();
    let mut k: usize = 0;
    while k < infos.len()
        invariant
            0 < infos@.len(),
            k <= infos@.len(),
            fis == infos_view(infos@),
            first == fis[0].rows,
            counts@ == row_counts(fis).take(k as int),
            all_equal <==> forall|i: int| 0 <= i < k ==> (#[trigger] fis[i]).rows == first,
        decreases infos@.len() - k,
    {
        let n = infos[k].rows;
        assert(fis[k as int].rows == n);
        counts.push(n);
        assert(counts@ =~= row_counts(fis).take(k + 1));
        if n != first {
            all_equal = false;
        }
        k = k + 1;
    }
    assert(counts@ =~= row_counts(fis));
    if all_equal {
        Ok(first)
    } else {
        Err(Error::InconsistentRowCount(counts))
    }
}

// ---------------------------------------------------------------------------
// Table-information lines: `NAME|FILE:WIDTH FILE:WIDTH ...|`.

pub open spec fn is_alnum(c: char) -> bool {
    is_ascii_lower(c) || is_ascii_upper(c) || is_ascii_digit(c)
}

/// The end of the run of ASCII letters and digits that starts at `i`.
pub open spec fn alnum_end(l: Seq<char>, i: int) -> int
    decreases l.len() - i,
{
    if 0 <= i < l.len() && is_alnum(l[i]) {
        alnum_end(l, i + 1)
    } else {
        i
    }
}

pub open spec fn is_loc_char(c: char) -> bool {
    is_ascii_digit(c) || c == ':' || c == ' '
}

/// The name and the location text of a table-information line: letters and
/// digits, `|`, digits, colons and spaces, `|`.
pub open spec fn table_line_shape(l: Seq<char>) -> Option<(Seq<char>, Seq<char>)> {
    let q = alnum_end(l, 0);
    let n = l.len() as int;
    if q > 0 && n >= q + 3 && l[q] == '|' && l[n - 1] == '|' && (forall|i: int|
        q + 1 <= i < n - 1 ==> is_loc_char(#[trigger] l[i])) {
        Some((l.subrange(0, q), l.subrange(q + 1, n - 1)))
    } else {
        None
    }
}

/// The index of the first `:` at or after `i`, or the length.
pub open spec fn colon_from(tok: Seq<char>, i: int) -> int
    decreases tok.len() - i,
{
    if i < 0 || i >= tok.len() {
        tok.len() as int
    } else if tok[i] == ':' {
        i
    } else {
        colon_from(tok, i + 1)
    }
}

/// A `FILE:WIDTH` token as a segment specifier.
pub open spec fn specifier_of(tok: Seq<char>) -> Option<TableSegmentSpecifier> {
    let c = colon_from(tok, 0);
    let file = parse_unsigned(tok.subrange(0, c), u32::MAX as nat);
    let columns = parse_unsigned(tok.subrange(c + 1, tok.len() as int), usize::MAX as nat);
    if c < tok.len() && file is Some && columns is Some {
        Some(TableSegmentSpecifier { file: file->0 as u32, columns: columns->0 as usize })
    } else {
        None
    }
}

/// The specifiers among the first `k` tokens; tokens of another shape are skipped.
pub open spec fn specifiers_upto(toks: Seq<Seq<char>>, k: int) -> Seq<TableSegmentSpecifier>
    decreases k,
{
    if k <= 0 {
        Seq::empty()
    } else {
        let r = specifiers_upto(toks, k - 1);
        match specifier_of(toks[k - 1]) {
            Some(sp) => r.push(sp),
            None => r,
        }
    }
}

/// The segment specifiers of a location text, its tokens cut at spaces.
pub open spec fn specifiers_of(loc: Seq<char>) -> Seq<TableSegmentSpecifier> {
    specifiers_upto(split_on(loc, ' '), split_on(loc, ' ').len() as int)
}

/// The next free column of tabular file `f`: 5 until a segment of it is placed.
pub open spec fn next_column(cur: Map<u32, usize>, f: u32) -> nat {
    if cur.contains_key(f) {
        cur[f] as nat
    } else {
        5
    }
}

/// The first `k` specifiers placed at the cursors `cur`, with the cursors
/// after them; each must name a file in `files` and stay within `usize`.
pub open spec fn place_upto(
    specs: Seq<TableSegmentSpecifier>,
    k: int,
    cur: Map<u32, usize>,
    files: Set<u32>,
) -> Result<(Seq<TableSegmentLocation>, Map<u32, usize>), ErrorModel>
    decreases k,
{
    if k <= 0 {
        Ok((Seq::empty(), cur))
    } else {
        match place_upto(specs, k - 1, cur, files) {
            Err(e) => Err(e),
            Ok((locs, c)) => {
                let sp = specs[k - 1];
                let start = next_column(c, sp.file);
                if !files.contains(sp.file) {
                    Err(ErrorModel::MalformedPackingList(Malformation::UnlistedTabularFile(sp.file)))
                } else if start + sp.columns > usize::MAX {
                    Err(ErrorModel::MalformedPackingList(Malformation::ColumnOverflow(sp.file)))
                } else {
                    let end = (start + sp.columns) as usize;
                    Ok(
                        (
                            locs.push(
                                TableSegmentLocation { file: sp.file, start: start as usize, end },
                            ),
                            c.insert(sp.file, end),
                        ),
                    )
                }
            },
        }
    }
}

/// All specifiers placed at the cursors `cur`.
pub open spec fn place(specs: Seq<TableSegmentSpecifier>, cur: Map<u32, usize>, files: Set<u32>) -> Result<
    (Seq<TableSegmentLocation>, Map<u32, usize>),
    ErrorModel,
> {
    place_upto(specs, specs.len() as int, cur, files)
}

/// The table layout that the first `k` lines give, with the column cursors
/// after them. A later line for the same table replaces an earlier one; the
/// cursors advance in either case.
pub open spec fn layout_upto(ls: Seq<Seq<char>>, k: int, schema: Schema, files: Set<u32>) -> Result<
    (Map<Table, Seq<TableSegmentLocation>>, Map<u32, usize>),
    ErrorModel,
>
    decreases k,
{
    if k <= 0 {
        Ok((Map::empty(), Map::empty()))
    } else {
        match layout_upto(ls, k - 1, schema, files) {
            Err(e) => Err(e),
            Ok((tables, cur)) => match table_line_shape(ls[k - 1]) {
                None => Ok((tables, cur)),
                Some((name, loc)) => match table_named(schema, name) {
                    None => Err(ErrorModel::UnknownTable(name)),
                    Some(t) => match place(specifiers_of(loc), cur, files) {
                        Err(e) => Err(e),
                        Ok((locs, c)) => Ok((tables.insert(t, locs), c)),
                    },
                },
            },
        }
    }
}

/// The table layout of a packing list's lines.
pub open spec fn table_layout(ls: Seq<Seq<char>>, schema: Schema, files: Set<u32>) -> Result<
    Map<Table, Seq<TableSegmentLocation>>,
    ErrorModel,
> {
    match layout_upto(ls, ls.len() as int, schema, files) {
        Err(e) => Err(e),
        Ok((tables, _)) => Ok(tables),
    }
}

/// Total width of a list of segments.
pub open spec fn total_width(locs: Seq<TableSegmentLocation>) -> int
    decreases locs.len(),
{
    if locs.len() == 0 {
        0
    } else {
        total_width(locs.drop_last()) + locs.last().width()
    }
}

/// Total number of columns that a list of specifiers declares.
pub open spec fn total_columns(specs: Seq<TableSegmentSpecifier>) -> int
    decreases specs.len(),
{
    if specs.len() == 0 {
        0
    } else {
        total_columns(specs.drop_last()) + specs.last().columns
    }
}

/// Number of columns that a list of specifiers declares in file `f`.
pub open spec fn columns_in_file(specs: Seq<TableSegmentSpecifier>, f: u32) -> int
    decreases specs.len(),
{
    if specs.len() == 0 {
        0
    } else {
        columns_in_file(specs.drop_last(), f) + if specs.last().file == f {
            specs.last().columns as int
        } else {
            0
        }
    }
}

proof fn lemma_place_upto_shape(
    specs: Seq<TableSegmentSpecifier>,
    k: int,
    cur: Map<u32, usize>,
    files: Set<u32>,
)
    requires
        0 <= k <= specs.len(),
        place_upto(specs, k, cur, files) is Ok,
    ensures
        ({
            let (locs, c) = place_upto(specs, k, cur, files)->Ok_0;
            &&& locs.len() == k
            &&& total_width(locs) == total_columns(specs.take(k))
            &&& forall|f: u32|
                #[trigger] next_column(c, f) == next_column(cur, f) + columns_in_file(
                    specs.take(k),
                    f,
                )
        }),
    decreases k,
{
    if k > 0 {
        lemma_place_upto_shape(specs, k - 1, cur, files);
        assert(specs.take(k).drop_last() =~= specs.take(k - 1));
        let (locs, c) = place_upto(specs, k - 1, cur, files)->Ok_0;
        let (locs2, c2) = place_upto(specs, k, cur, files)->Ok_0;
        let sp = specs[k - 1];
        let start = next_column(c, sp.file);
        assert(locs2 == locs.push(
            TableSegmentLocation {
                file: sp.file,
                start: start as usize,
                end: (start + sp.columns) as usize,
            },
        ));
        assert(c2 == c.insert(sp.file, (start + sp.columns) as usize));
        assert(locs2.drop_last() =~= locs);
        assert(specs.take(k).last() == sp);
        assert(total_width(locs2) == total_width(locs) + sp.columns);
        assert forall|f: u32|
            #[trigger] next_column(c2, f) == next_column(cur, f) + columns_in_file(
                specs.take(k),
                f,
            ) by {
            if f == sp.file {
                assert(next_column(c2, f) == start + sp.columns);
            } else {
                assert(next_column(c2, f) == next_column(c, f));
            }
        }
    } else {
        assert(specs.take(0) =~= Seq::<TableSegmentSpecifier>::empty());
    }
}

/// Placing a table's segments keeps its width: the columns of the resolved
/// segments add up to the columns that the specifiers declare, one segment
/// for each specifier.
pub proof fn lemma_place_preserves_width(
    specs: Seq<TableSegmentSpecifier>,
    cur: Map<u32, usize>,
    files: Set<u32>,
)
    requires
        place(specs, cur, files) is Ok,
    ensures
        place(specs, cur, files)->Ok_0.0.len() == specs.len(),
        total_width(place(specs, cur, files)->Ok_0.0) == total_columns(specs),
{
    lemma_place_upto_shape(specs, specs.len() as int, cur, files);
    assert(specs.take(specs.len() as int) =~= specs);
}

/// The specifiers of every table-information line among the first `k`, in
/// order, up to the first line with a name of no table.
pub open spec fn declared_specifiers(ls: Seq<Seq<char>>, k: int, schema: Schema) -> Seq<
    TableSegmentSpecifier,
>
    decreases k,
{
    if k <= 0 {
        Seq::empty()
    } else {
        let r = declared_specifiers(ls, k - 1, schema);
        match table_line_shape(ls[k - 1]) {
            None => r,
            Some((name, loc)) => r + specifiers_of(loc),
        }
    }
}

proof fn lemma_columns_in_file_concat(a: Seq<TableSegmentSpecifier>, b: Seq<TableSegmentSpecifier>, f: u32)
    ensures
        columns_in_file(a + b, f) == columns_in_file(a, f) + columns_in_file(b, f),
    decreases b.len(),
{
    if b.len() == 0 {
        assert(a + b =~= a);
    } else {
        assert((a + b).drop_last() =~= a + b.drop_last());
        lemma_columns_in_file_concat(a, b.drop_last(), f);
    }
}

/// After the table-information lines, each file's column cursor stands at 5
/// plus the columns that all segments declared in that file.
pub proof fn lemma_cursor_after_segments(ls: Seq<Seq<char>>, k: int, schema: Schema, files: Set<u32>)
    requires
        0 <= k <= ls.len(),
        layout_upto(ls, k, schema, files) is Ok,
    ensures
        forall|f: u32|
            #[trigger] next_column(layout_upto(ls, k, schema, files)->Ok_0.1, f) == 5
                + columns_in_file(declared_specifiers(ls, k, schema), f),
    decreases k,
{
    if k > 0 {
        lemma_cursor_after_segments(ls, k - 1, schema, files);
        let (tables, cur) = layout_upto(ls, k - 1, schema, files)->Ok_0;
        match table_line_shape(ls[k - 1]) {
            None => {},
            Some((name, loc)) => {
                let specs = specifiers_of(loc);
                lemma_place_upto_shape(specs, specs.len() as int, cur, files);
                assert(specs.take(specs.len() as int) =~= specs);
                assert forall|f: u32|
                    #[trigger] next_column(layout_upto(ls, k, schema, files)->Ok_0.1, f) == 5
                        + columns_in_file(declared_specifiers(ls, k, schema), f) by {
                    lemma_columns_in_file_concat(declared_specifiers(ls, k - 1, schema), specs, f);
                }
            },
        }
    } else {
        assert forall|f: u32|
            #[trigger] next_column(layout_upto(ls, k, schema, files)->Ok_0.1, f) == 5
                + columns_in_file(declared_specifiers(ls, k, schema), f) by {
            assert(!Map::<u32, usize>::empty().contains_key(f));
        }
    }
}

/// Whether line `l` is a table-information line for table `t` whose
/// specifiers declare `width` columns in all.
pub open spec fn declares_width(l: Seq<char>, schema: Schema, t: Table, width: int) -> bool {
    match table_line_shape(l) {
        Some((name, loc)) => table_named(schema, name) == Some(t) && total_columns(
            specifiers_of(loc),
        ) == width,
        None => false,
    }
}

/// Each table that the first `k` lines lay out is as wide as the specifiers
/// of a line among them that declares it.
pub proof fn lemma_layout_widths(ls: Seq<Seq<char>>, k: int, schema: Schema, files: Set<u32>)
    requires
        0 <= k <= ls.len(),
        layout_upto(ls, k, schema, files) is Ok,
    ensures
        forall|t: Table|
            #[trigger] layout_upto(ls, k, schema, files)->Ok_0.0.contains_key(t) ==> exists|j: int|
                0 <= j < k && declares_width(
                    ls[j],
                    schema,
                    t,
                    total_width(layout_upto(ls, k, schema, files)->Ok_0.0[t]),
                ),
    decreases k,
{
    if k > 0 {
        lemma_layout_widths(ls, k - 1, schema, files);
        let (tables, cur) = layout_upto(ls, k - 1, schema, files)->Ok_0;
        let now = layout_upto(ls, k, schema, files)->Ok_0.0;
        match table_line_shape(ls[k - 1]) {
            None => {
                assert forall|t: Table| #[trigger] now.contains_key(t) implies exists|j: int|
                    0 <= j < k && declares_width(ls[j], schema, t, total_width(now[t])) by {
                    let j = choose|j: int|
                        0 <= j < k - 1 && declares_width(ls[j], schema, t, total_width(tables[t]));
                }
            },
            Some((name, loc)) => {
                let specs = specifiers_of(loc);
                let tk = table_named(schema, name)->0;
                lemma_place_preserves_width(specs, cur, files);
                assert forall|t: Table| #[trigger] now.contains_key(t) implies exists|j: int|
                    0 <= j < k && declares_width(ls[j], schema, t, total_width(now[t])) by {
                    if t == tk {
                        assert(declares_width(ls[k - 1], schema, t, total_width(now[t])));
                    } else {
                        let j = choose|j: int|
                            0 <= j < k - 1 && declares_width(
                                ls[j],
                                schema,
                                t,
                                total_width(tables[t]),
                            );
                        assert(declares_width(ls[j], schema, t, total_width(now[t])));
                    }
                }
            },
        }
    }
}

/// In an accepted packing list, each table is as wide as the specifiers of
/// a table-information line that declares it: resolving segments keeps the
/// total width.
pub proof fn lemma_accepted_layout_widths(text: Seq<char>)
    requires
        parse_packing_list(text) is Ok,
    ensures
        forall|t: Table|
            #[trigger] parse_packing_list(text)->Ok_0.table_locations.contains_key(t)
                ==> exists|j: int|
                0 <= j < text_lines(text).len() && declares_width(
                    text_lines(text)[j],
                    parse_packing_list(text)->Ok_0.schema,
                    t,
                    total_width(parse_packing_list(text)->Ok_0.table_locations[t]),
                ),
{
    let ls = text_lines(text);
    let st = first_stusab(ls)->0;
    let schema = infer_schema(schema_matches_from(text, st, 0))->Ok_0;
    let fis = file_infos(ls)->Ok_0;
    let tab = file_inventory(fis)->Ok_0.0;
    lemma_layout_widths(ls, ls.len() as int, schema, tab.dom());
}

/// Table locations held by table position.
pub open spec fn slots_view(slots: Seq<Option<Vec<TableSegmentLocation>>>) -> Map<
    Table,
    Seq<TableSegmentLocation>,
> {
    Map::new(
        |t: Table| slots[table_slot(t)] is Some,
        |t: Table| slots[table_slot(t)]->0@,
    )
}

fn alnum_end_at(t: &Vec<char>, a: usize, b: usize, i: usize) -> (r: usize)
    requires
        a <= i <= b <= t@.len(),
    ensures
        i <= r <= b,
        r - a == alnum_end(t@.subrange(a as int, b as int), i - a),
{
    let ghost l = t@.subrange(a as int, b as int);
    let mut j = i;
    while j < b && (('a' <= t[j] && t[j] <= 'z') || ('A' <= t[j] && t[j] <= 'Z') || ('0' <= t[j]
        && t[j] <= '9'))
        invariant
            a <= i <= j <= b <= t@.len(),
            l == t@.subrange(a as int, b as int),
            alnum_end(l, i - a) == alnum_end(l, j - a),
        decreases b - j,
    {
        j = j + 1;
    }
    j
}

/// The end `q` of the name in line `t[a..b]`, where it is a table-information line.
fn table_line_at(t: &Vec<char>, a: usize, b: usize) -> (r: Option<usize>)
    requires
        a <= b <= t@.len(),
    ensures
        match r {
            Some(q) => a < q && q + 2 < b && table_line_shape(t@.subrange(a as int, b as int))
                == Some((t@.subrange(a as int, q as int), t@.subrange(q + 1, b - 1))),
            None => table_line_shape(t@.subrange(a as int, b as int)) is None,
        },
{
    let ghost l = t@.subrange(a as int, b as int);
    let q = alnum_end_at(t, a, b, a);
    if !(q > a && b - q >= 3 && t[q] == '|' && t[b - 1] == '|') {
        return None;
    }
    let mut i = q + 1;
    while i < b - 1
        invariant
            a < q < i <= b - 1,
            b <= t@.len(),
            l == t@.subrange(a as int, b as int),
            q - a == alnum_end(l, 0),
            t@[q as int] == '|',
            t@[b - 1] == '|',
            forall|j: int| q + 1 - a <= j < i - a ==> is_loc_char(#[trigger] l[j]),
        decreases b - i,
    {
        let c = t[i];
        if !(('0' <= c && c <= '9') || c == ':' || c == ' ') {
            assert(l[i - a] == c);
            return None;
        }
        i = i + 1;
    }
    assert(t@.subrange(a as int, q as int) =~= l.subrange(0, q - a));
    assert(t@.subrange(q + 1, b - 1) =~= l.subrange(q + 1 - a, l.len() - 1));
    Some(q)
}

fn colon_at(t: &Vec<char>, a: usize, b: usize) -> (r: usize)
    requires
        a <= b <= t@.len(),
    ensures
        a <= r <= b,
        r - a == colon_from(t@.subrange(a as int, b as int), 0),
{
    let ghost l = t@.subrange(a as int, b as int);
    let mut i = a;
    while i < b && t[i] != ':'
        invariant
            a <= i <= b <= t@.len(),
            l == t@.subrange(a as int, b as int),
            colon_from(l, 0) == colon_from(l, i - a),
        decreases b - i,
    {
        i = i + 1;
    }
    i
}

fn specifier_at(t: &Vec<char>, a: usize, b: usize) -> (r: Option<TableSegmentSpecifier>)
    requires
        a <= b <= t@.len(),
    ensures
        r == specifier_of(t@.subrange(a as int, b as int)),
{
    let ghost l = t@.subrange(a as int, b as int);
    let c = colon_at(t, a, b);
    if c == b {
        return None;
    }
    assert(t@.subrange(a as int, c as int) =~= l.subrange(0, c - a));
    assert(t@.subrange(c + 1, b as int) =~= l.subrange(c + 1 - a, l.len() as int));
    let file = parse_decimal(t, a, c, u32::MAX as u64);
    let columns = parse_decimal(t, c + 1, b, usize::MAX as u64);
    match (file, columns) {
        (Some(file), Some(columns)) => Some(
            TableSegmentSpecifier { file: file as u32, columns: columns as usize },
        ),
        _ => None,
    }
}

/// The segment specifiers of location text `t[a..b]`.
fn specifiers_at(t: &Vec<char>, a: usize, b: usize) -> (r: Vec<TableSegmentSpecifier>)
    requires
        a <= b <= t@.len(),
    ensures
        r@ == specifiers_of(t@.subrange(a as int, b as int)),
{
    let ghost toks = split_on(t@.subrange(a as int, b as int), ' ');
    let bounds = split_bounds(t, a, b, ' ');
    let mut out: Vec<TableSegmentSpecifier> = Vec::new();
    let mut k: usize = 0;
    while k < bounds.len()
        invariant
            k <= bounds@.len() == toks.len(),
            toks == split_on(t@.subrange(a as int, b as int), ' '),
            forall|j: int|
                0 <= j < bounds@.len() ==> a <= (#[trigger] bounds@[j]).0 <= bounds@[j].1 <= b
                    && t@.subrange(bounds@[j].0 as int, bounds@[j].1 as int) == toks[j],
            b <= t@.len(),
            out@ == specifiers_upto(toks, k as int),
        decreases bounds@.len() - k,
    {
        let (x, y) = bounds[k];
        match specifier_at(t, x, y) {
            Some(sp) => out.push(sp),
            None => {},
        }
        k = k + 1;
    }
    out
}

proof fn lemma_place_err_stays(
    specs: Seq<TableSegmentSpecifier>,
    k: int,
    m: int,
    cur: Map<u32, usize>,
    files: Set<u32>,
)
    requires
        0 <= k <= m,
        place_upto(specs, k, cur, files) is Err,
    ensures
        place_upto(specs, m, cur, files) == place_upto(specs, k, cur, files),
    decreases m - k,
{
    if m > k {
        lemma_place_err_stays(specs, k, m - 1, cur, files);
    }
}

/// Places the segments `specs` of one table at the column cursors `cur`,
/// advancing them: each segment starts at its file's cursor (5 for a file not
/// seen yet) and spans its width.
pub fn place_segments(
    specs: &Vec<TableSegmentSpecifier>,
    cur: &mut HashMap<u32, usize>,
    files: &HashMap<u32, String>,
) -> (r: Result<Vec<TableSegmentLocation>, Error>)
    ensures
        match place(specs@, old(cur)@, files@.dom()) {
            Ok((locs, c)) => r matches Ok(v) && v@ == locs && final(cur)@ == c,
            Err(e) => r matches Err(x) && x@ == e,
        },
{
    broadcast use vstd::std_specs::hash::group_hash_axioms;

    let ghost cur0 = cur@;
    let mut out: Vec<TableSegmentLocation> = Vec::new();
    let mut k: usize = 0;
    while k < specs.len()
        invariant
            k <= specs@.len(),
            cur0 == old(cur)@,
            place_upto(specs@, k as int, cur0, files@.dom()) == Ok::<_, ErrorModel>((out@, cur@)),
        decreases specs@.len() - k,
    {
        let sp = specs[k];
        if !files.contains_key(&sp.file) {
            let ghost e = ErrorModel::MalformedPackingList(Malformation::UnlistedTabularFile(sp.file));
            assert(place_upto(specs@, k + 1, cur0, files@.dom()) == Err::<
                (Seq<TableSegmentLocation>, Map<u32, usize>),
                ErrorModel,
            >(e));
            proof {
                lemma_place_err_stays(specs@, k + 1, specs@.len() as int, cur0, files@.dom());
            }
            return Err(Error::MalformedPackingList(Malformation::UnlistedTabularFile(sp.file)));
        }
        let start: usize = match cur.get(&sp.file) {
            Some(c) => *c,
            None => 5,
        };
        if sp.columns > usize::MAX - start {
            let ghost e = ErrorModel::MalformedPackingList(Malformation::ColumnOverflow(sp.file));
            assert(place_upto(specs@, k + 1, cur0, files@.dom()) == Err::<
                (Seq<TableSegmentLocation>, Map<u32, usize>),
                ErrorModel,
            >(e));
            proof {
                lemma_place_err_stays(specs@, k + 1, specs@.len() as int, cur0, files@.dom());
            }
            return Err(Error::MalformedPackingList(Malformation::ColumnOverflow(sp.file)));
        }
        let end = start + sp.columns;
        cur.insert(sp.file, end);
        out.push(TableSegmentLocation { file: sp.file, start, end });
        k = k + 1;
    }
    Ok(out)
}

fn table_named_at(t: &Vec<char>, a: usize, b: usize, schema: Schema) -> (r: Option<Table>)
    requires
        a <= b <= t@.len(),
    ensures
        r == table_named(schema, t@.subrange(a as int, b as int)),
{
    let ghost l = t@.subrange(a as int, b as int);
    if b - a != 2 {
        assert(l.len() != 2);
        return None;
    }
    let c0 = t[a];
    let c1 = t[a + 1];
    assert(l =~= seq![c0, c1]);
    if c0 == 'p' && c1 == '1' {
        Some(Table::P1)
    } else if c0 == 'p' && c1 == '2' {
        Some(Table::P2)
    } else if c0 == 'p' && c1 == '3' {
        Some(Table::P3)
    } else if c0 == 'p' && c1 == '4' {
        Some(Table::P4)
    } else if c0 == 'h' && c1 == '1' {
        Some(Table::H1)
    } else if c0 == 'p' && c1 == '5' && matches!(schema, Schema::Census2020Pl94_171(_)) {
        Some(Table::P5)
    } else {
        proof {
            let lits = seq![
                seq!['p', '1'],
                seq!['p', '2'],
                seq!['p', '3'],
                seq!['p', '4'],
                seq!['h', '1'],
                seq!['p', '5'],
            ];
            assert(forall|i: int| 0 <= i < 6 ==> lits[i] == l ==> lits[i][0] == c0 && lits[i][1] == c1);
            assert(lits[0] == seq!['p', '1']);
            assert(lits[1] == seq!['p', '2']);
            assert(lits[2] == seq!['p', '3']);
            assert(lits[3] == seq!['p', '4']);
            assert(lits[4] == seq!['h', '1']);
            assert(lits[5] == seq!['p', '5']);
        }
        None
    }
}

proof fn lemma_layout_err_stays(ls: Seq<Seq<char>>, k: int, m: int, schema: Schema, files: Set<u32>)
    requires
        0 <= k <= m,
        layout_upto(ls, k, schema, files) is Err,
    ensures
        layout_upto(ls, m, schema, files) == layout_upto(ls, k, schema, files),
    decreases m - k,
{
    if m > k {
        lemma_layout_err_stays(ls, k, m - 1, schema, files);
    }
}

/// The column layout of every table that the lines of `s` declare, walking
/// the table-information lines in order with one column cursor per file.
fn extract_table_locations(
    s: &str,
    t: &Vec<char>,
    lines: &Vec<(usize, usize)>,
    schema: Schema,
    files: &HashMap<u32, String>,
) -> (r: Result<Vec<Option<Vec<TableSegmentLocation>>>, Error>)
    requires
        t@ == s@,
        lines@.len() == text_lines(s@).len(),
        forall|k: int|
            0 <= k < lines@.len() ==> (#[trigger] lines@[k]).0 <= lines@[k].1 <= t@.len()
                && t@.subrange(lines@[k].0 as int, lines@[k].1 as int) == text_lines(s@)[k],
    ensures
        match table_layout(text_lines(s@), schema, files@.dom()) {
            Ok(m) => r matches Ok(v) && v@.len() == TABLE_COUNT && slots_view(v@) == m,
            Err(e) => r matches Err(x) && x@ == e,
        },
{
    let ghost ls = text_lines(s@);
    let ghost fs = files@.dom();
    let mut cur: HashMap<u32, usize> = HashMap::new();
    let mut slots: Vec<Option<Vec<TableSegmentLocation>>> = Vec::new();
    for i in 0..TABLE_COUNT
        invariant
            slots@.len() == i,
            forall|j: int| 0 <= j < i ==> (#[trigger] slots@[j]) is None,
    {
        slots.push(None);
    }
    assert(slots_view(slots@) =~= Map::empty());
    let mut k: usize = 0;
    while k < lines.len()
        invariant
            0 <= k <= lines@.len() == ls.len(),
            t@ == s@,
            ls == text_lines(s@),
            fs == files@.dom(),
            forall|k: int|
                0 <= k < lines@.len() ==> (#[trigger] lines@[k]).0 <= lines@[k].1 <= t@.len()
                    && t@.subrange(lines@[k].0 as int, lines@[k].1 as int) == ls[k],
            slots@.len() == TABLE_COUNT,
            layout_upto(ls, k as int, schema, fs) == Ok::<_, ErrorModel>((slots_view(slots@), cur@)),
        decreases lines@.len() - k,
    {
        let (a, b) = lines[k];
        if let Some(q) = table_line_at(t, a, b) {
            match table_named_at(t, a, q, schema) {
                None => {
                    proof {
                        lemma_layout_err_stays(ls, k + 1, ls.len() as int, schema, fs);
                    }
                    return Err(Error::UnknownTable(s.substring_char(a, q).to_owned()));
                },
                Some(table) => {
                    let specs = specifiers_at(t, q + 1, b - 1);
                    match place_segments(&specs, &mut cur, files) {
                        Err(e) => {
                            proof {
                                lemma_layout_err_stays(ls, k + 1, ls.len() as int, schema, fs);
                            }
                            return Err(e);
                        },
                        Ok(locs) => {
                            let ghost before = slots@;
                            let ghost lv = locs@;
                            slots.set(table.slot(), Some(locs));
                            assert(slots_view(slots@) =~= slots_view(before).insert(table, lv));
                        },
                    }
                },
            }
        }
        k = k + 1;
    }
    Ok(slots)
}

// ---------------------------------------------------------------------------
// The schema: every `{stusab}{inner}{year}.{ext}` file name in the text.

pub open spec fn is_ext_char(c: char) -> bool {
    is_ascii_lower(c) || ('1' <= c && c <= '9') || c == '-'
}

/// The end of the run of extension characters that starts at `i`.
pub open spec fn ext_end(t: Seq<char>, i: int) -> int
    decreases t.len() - i,
{
    if 0 <= i < t.len() && is_ext_char(t[i]) {
        ext_end(t, i + 1)
    } else {
        i
    }
}

/// Whether a word boundary lies at position `i`.
pub open spec fn is_boundary(t: Seq<char>, i: int) -> bool {
    (0 < i <= t.len() && is_word(t[i - 1])) != (0 <= i < t.len() && is_word(t[i]))
}

/// The last word boundary in `[lo, hi]`, or `lo - 1`.
pub open spec fn last_boundary(t: Seq<char>, lo: int, hi: int) -> int
    decreases hi - lo + 1,
{
    if hi < lo {
        lo - 1
    } else if is_boundary(t, hi) {
        hi
    } else {
        last_boundary(t, lo, hi - 1)
    }
}

/// A file name at position `p`: the state code `st`, word characters ending
/// in four digits (the year), `.`, and the longest run of extension
/// characters that ends at a word boundary. Gives the end, the year and the
/// extension.
pub open spec fn schema_match_at(t: Seq<char>, st: Seq<char>, p: int) -> Option<
    (int, Seq<char>, Seq<char>),
> {
    if st.len() == 2 && 0 <= p && p + 2 <= t.len() && t[p] == st[0] && t[p + 1] == st[1] {
        let w = word_end(t, p + 2);
        if w >= p + 6 && w < t.len() && t[w] == '.' && all_digits(t.subrange(w - 4, w)) {
            let e = last_boundary(t, w + 1, ext_end(t, w + 1));
            if e >= w + 1 {
                Some((e, t.subrange(w - 4, w), t.subrange(w + 1, e)))
            } else {
                None
            }
        } else {
            None
        }
    } else {
        None
    }
}

/// The `(year, extension)` of each file name from position `p` on, the
/// search going on after the end of each one found.
pub open spec fn schema_matches_from(t: Seq<char>, st: Seq<char>, p: int) -> Seq<
    (Seq<char>, Seq<char>),
>
    decreases t.len() - p,
{
    if p < 0 || p >= t.len() {
        Seq::empty()
    } else {
        match schema_match_at(t, st, p) {
            Some((e, y, x)) => if p < e <= t.len() {
                seq![(y, x)] + schema_matches_from(t, st, e)
            } else {
                Seq::empty()
            },
            None => schema_matches_from(t, st, p + 1),
        }
    }
}

/// The schema that a file name's year and extension denote.
pub open spec fn schema_of_pair(year: Seq<char>, ext: Seq<char>) -> Option<Schema> {
    if ext == seq!['p', 'l'] && year == seq!['2', '0', '1', '0'] {
        Some(Schema::Census2010Pl94_171(None))
    } else if ext == seq!['p', 'l'] && year == seq!['2', '0', '2', '0'] {
        Some(Schema::Census2020Pl94_171(None))
    } else {
        None
    }
}

/// The schema of the first `k` file names, if any, or the first failure: a
/// name of no known schema, or two schemas.
pub open spec fn schema_upto(ms: Seq<(Seq<char>, Seq<char>)>, k: int) -> Result<
    Option<Schema>,
    ErrorModel,
>
    decreases k,
{
    if k <= 0 {
        Ok(None)
    } else {
        match schema_upto(ms, k - 1) {
            Err(e) => Err(e),
            Ok(found) => match schema_of_pair(ms[k - 1].0, ms[k - 1].1) {
                None => Err(ErrorModel::UnknownSchema { year: ms[k - 1].0, ext: ms[k - 1].1 }),
                Some(sc) => if found is Some && found->0 != sc {
                    Err(ErrorModel::AmbiguousSchema)
                } else {
                    Ok(Some(sc))
                },
            },
        }
    }
}

/// The one schema that the file names of a text denote.
pub open spec fn infer_schema(ms: Seq<(Seq<char>, Seq<char>)>) -> Result<Schema, ErrorModel> {
    match schema_upto(ms, ms.len() as int) {
        Err(e) => Err(e),
        Ok(None) => Err(ErrorModel::UnknownSchema { year: Seq::empty(), ext: Seq::empty() }),
        Ok(Some(sc)) => Ok(sc),
    }
}

fn ext_end_at(t: &Vec<char>, i: usize) -> (r: usize)
    requires
        i <= t@.len(),
    ensures
        i <= r <= t@.len(),
        r == ext_end(t@, i as int),
{
    let mut j = i;
    while j < t.len() && (('a' <= t[j] && t[j] <= 'z') || ('1' <= t[j] && t[j] <= '9') || t[j]
        == '-')
        invariant
            i <= j <= t@.len(),
            ext_end(t@, i as int) == ext_end(t@, j as int),
        decreases t@.len() - j,
    {
        j = j + 1;
    }
    j
}

fn boundary_at(t: &Vec<char>, i: usize) -> (r: bool)
    requires
        i <= t@.len(),
    ensures
        r == is_boundary(t@, i as int),
{
    let before = i > 0 && is_word_char(t[i - 1]);
    let after = i < t.len() && is_word_char(t[i]);
    before != after
}

/// The last word boundary in `[lo, hi]`, where there is one.
fn last_boundary_at(t: &Vec<char>, lo: usize, hi: usize) -> (r: Option<usize>)
    requires
        1 <= lo <= hi <= t@.len(),
    ensures
        match r {
            Some(e) => lo <= e <= hi && last_boundary(t@, lo as int, hi as int) == e,
            None => last_boundary(t@, lo as int, hi as int) == lo - 1,
        },
{
    let mut j = hi;
    while j >= lo
        invariant
            1 <= lo <= hi <= t@.len(),
            lo - 1 <= j <= hi,
            last_boundary(t@, lo as int, hi as int) == last_boundary(t@, lo as int, j as int),
        decreases j,
    {
        if boundary_at(t, j) {
            return Some(j);
        }
        j = j - 1;
    }
    None
}

/// The file name at position `p`, as `(w, e)`: the year is `t[w-4..w]`, the
/// extension `t[w+1..e]`.
fn schema_match_exec(t: &Vec<char>, st: &Vec<char>, p: usize) -> (r: Option<(usize, usize)>)
    requires
        st@.len() == 2,
        p < t@.len(),
    ensures
        match r {
            Some((w, e)) => p + 6 <= w < e <= t@.len() && schema_match_at(t@, st@, p as int)
                == Some((e as int, t@.subrange(w - 4, w as int), t@.subrange(w + 1, e as int))),
            None => schema_match_at(t@, st@, p as int) is None,
        },
{
    if !(t.len() - p >= 2 && t[p] == st[0] && t[p + 1] == st[1]) {
        return None;
    }
    let w = word_end_at(t, 0, t.len(), p + 2);
    assert(t@.subrange(0, t@.len() as int) =~= t@);
    if !(w - p >= 6 && w < t.len() && t[w] == '.') {
        return None;
    }
    if !digits_only(t, w - 4, w) {
        return None;
    }
    let x = ext_end_at(t, w + 1);
    match last_boundary_at(t, w + 1, x) {
        Some(e) => Some((w, e)),
        None => None,
    }
}

/// The year and extension positions of every file name in `t`, in order.
fn extract_schema_matches(t: &Vec<char>, st: &Vec<char>) -> (r: Vec<(usize, usize)>)
    requires
        st@.len() == 2,
    ensures
        r@.len() == schema_matches_from(t@, st@, 0).len(),
        forall|i: int|
            0 <= i < r@.len() ==> 4 <= (#[trigger] r@[i]).0 < r@[i].1 <= t@.len() && (
            t@.subrange(r@[i].0 - 4, r@[i].0 as int),
            t@.subrange(r@[i].0 + 1, r@[i].1 as int),
        ) == schema_matches_from(t@, st@, 0)[i],
{
    let ghost all = schema_matches_from(t@, st@, 0);
    let mut out: Vec<(usize, usize)> = Vec::new();
    let mut p: usize = 0;
    while p < t.len()
        invariant
            st@.len() == 2,
            p <= t@.len(),
            all == schema_matches_from(t@, st@, 0),
            out@.len() + schema_matches_from(t@, st@, p as int).len() == all.len(),
            forall|i: int|
                0 <= i < out@.len() ==> 4 <= (#[trigger] out@[i]).0 < out@[i].1 <= t@.len() && (
                t@.subrange(out@[i].0 - 4, out@[i].0 as int),
                t@.subrange(out@[i].0 + 1, out@[i].1 as int),
            ) == all[i],
            forall|i: int|
                0 <= i < schema_matches_from(t@, st@, p as int).len() ==> #[trigger] all[out@.len()
                    + i] == schema_matches_from(t@, st@, p as int)[i],
        decreases t@.len() - p,
    {
        match schema_match_exec(t, st, p) {
            Some((w, e)) => {
                let ghost rest = schema_matches_from(t@, st@, e as int);
                let ghost pair = (t@.subrange(w - 4, w as int), t@.subrange(w + 1, e as int));
                let ghost from_p = schema_matches_from(t@, st@, p as int);
                assert(from_p == seq![pair] + rest);
                assert(from_p[0] == pair);
                assert(all[out@.len() + 0int] == from_p[0]);
                assert forall|i: int| 0 <= i < rest.len() implies #[trigger] all[out@.len() + 1 + i]
                    == rest[i] by {
                    assert(all[out@.len() + (1 + i)] == from_p[1 + i]);
                    assert(from_p[1 + i] == rest[i]);
                }
                out.push((w, e));
                p = e;
            },
            None => {
                p = p + 1;
            },
        }
    }
    out
}

fn is_year_at(t: &Vec<char>, w: usize, d2: char) -> (r: bool)
    requires
        4 <= w <= t@.len(),
    ensures
        r == (t@.subrange(w - 4, w as int) == seq!['2', '0', d2, '0']),
{
    let r = t[w - 4] == '2' && t[w - 3] == '0' && t[w - 2] == d2 && t[w - 1] == '0';
    let ghost y = t@.subrange(w - 4, w as int);
    assert(r ==> y =~= seq!['2', '0', d2, '0']);
    assert(y == seq!['2', '0', d2, '0'] ==> r) by {
        if y == seq!['2', '0', d2, '0'] {
            assert(y[0] == '2' && y[1] == '0' && y[2] == d2 && y[3] == '0');
        }
    }
    r
}

fn schema_at(t: &Vec<char>, w: usize, e: usize) -> (r: Option<Schema>)
    requires
        4 <= w < e <= t@.len(),
    ensures
        r == schema_of_pair(t@.subrange(w - 4, w as int), t@.subrange(w + 1, e as int)),
{
    let ghost x = t@.subrange(w + 1, e as int);
    let pl = e - w == 3 && t[w + 1] == 'p' && t[w + 2] == 'l';
    assert(pl ==> x =~= seq!['p', 'l']);
    assert(x == seq!['p', 'l'] ==> pl) by {
        if x == seq!['p', 'l'] {
            assert(seq!['p', 'l'].len() == 2);
            assert(x.len() == 2);
            assert(e - w == 3);
            assert(x[0] == 'p' && x[1] == 'l');
            assert(x[0] == t@[w + 1] && x[1] == t@[w + 2]);
        }
    }
    if pl && is_year_at(t, w, '1') {
        Some(Schema::Census2010Pl94_171(None))
    } else if pl && is_year_at(t, w, '2') {
        Some(Schema::Census2020Pl94_171(None))
    } else {
        proof {
            if pl {
                assert(seq!['2', '0', '1', '0'] != seq!['2', '0', '2', '0']) by {
                    assert(seq!['2', '0', '1', '0'][2] != seq!['2', '0', '2', '0'][2]);
                }
            }
        }
        None
    }
}

proof fn lemma_schema_err_stays(ms: Seq<(Seq<char>, Seq<char>)>, k: int, m: int)
    requires
        0 <= k <= m,
        schema_upto(ms, k) is Err,
    ensures
        schema_upto(ms, m) == schema_upto(ms, k),
    decreases m - k,
{
    if m > k {
        lemma_schema_err_stays(ms, k, m - 1);
    }
}

/// The one schema that the file names in the text denote.
fn extract_schemas(s: &str, t: &Vec<char>, st: &Vec<char>) -> (r: Result<Schema, Error>)
    requires
        t@ == s@,
        st@.len() == 2,
    ensures
        match infer_schema(schema_matches_from(s@, st@, 0)) {
            Ok(sc) => r == Ok::<Schema, Error>(sc),
            Err(e) => r matches Err(x) && x@ == e,
        },
{
    let ghost ms = schema_matches_from(t@, st@, 0);
    let found_at = extract_schema_matches(t, st);
    let mut found: Option<Schema> = None;
    let mut k: usize = 0;
    while k < found_at.len()
        invariant
            k <= found_at@.len() == ms.len(),
            t@ == s@,
            ms == schema_matches_from(t@, st@, 0),
            forall|i: int|
                0 <= i < found_at@.len() ==> 4 <= (#[trigger] found_at@[i]).0 < found_at@[i].1
                    <= t@.len() && (
                    t@.subrange(found_at@[i].0 - 4, found_at@[i].0 as int),
                    t@.subrange(found_at@[i].0 + 1, found_at@[i].1 as int),
                ) == ms[i],
            schema_upto(ms, k as int) == Ok::<_, ErrorModel>(found),
        decreases found_at@.len() - k,
    {
        let (w, e) = found_at[k];
        match schema_at(t, w, e) {
            None => {
                proof {
                    lemma_schema_err_stays(ms, k + 1, ms.len() as int);
                }
                return Err(
                    Error::UnknownSchema {
                        year: s.substring_char(w - 4, w).to_owned(),
                        ext: s.substring_char(w + 1, e).to_owned(),
                    },
                );
            },
            Some(sc) => {
                if let Some(f) = found {
                    if f != sc {
                        proof {
                            lemma_schema_err_stays(ms, k + 1, ms.len() as int);
                        }
                        return Err(Error::AmbiguousSchema);
                    }
                }
                found = Some(sc);
            },
        }
        k = k + 1;
    }
    match found {
        Some(sc) => Ok(sc),
        None => {
            let year = String::new();
            let ext = String::new();
            assert(year@ =~= Seq::<char>::empty() && ext@ =~= Seq::<char>::empty());
            Err(Error::UnknownSchema { year, ext })
        },
    }
}

// ---------------------------------------------------------------------------
// The packing list.

/// A parsed packing list as mathematical values.
pub struct PackingListModel {
    pub schema: Schema,
    pub directory: Option<Seq<char>>,
    pub table_locations: Map<Table, Seq<TableSegmentLocation>>,
    pub tabular_files: Map<u32, Seq<char>>,
    pub geographical_header_file: Seq<char>,
    pub rows: usize,
}

/// What a packing list's text declares: its state code, its one schema, its
/// files and its table layout, or the first failure in that order.
pub open spec fn parse_packing_list(t: Seq<char>) -> Result<PackingListModel, ErrorModel> {
    let ls = text_lines(t);
    match first_stusab(ls) {
        None => Err(ErrorModel::MalformedPackingList(Malformation::MissingStusab)),
        Some(st) => match infer_schema(schema_matches_from(t, st, 0)) {
            Err(e) => Err(e),
            Ok(schema) => match file_infos(ls) {
                Err(e) => Err(e),
                Ok(fis) => match file_inventory(fis) {
                    Err(e) => Err(e),
                    Ok((tab, geo, rows)) => match table_layout(ls, schema, tab.dom()) {
                        Err(e) => Err(e),
                        Ok(tables) => Ok(
                            PackingListModel {
                                schema,
                                directory: None,
                                table_locations: tables,
                                tabular_files: tab,
                                geographical_header_file: geo,
                                rows,
                            },
                        ),
                    },
                },
            },
        },
    }
}

/// The layout of a census release, as its packing list declares it.
pub struct PackingList {
    schema: Schema,
    directory: Option<String>,
    table_locations: Vec<Option<Vec<TableSegmentLocation>>>,
    tabular_files: HashMap<u32, String>,
    geographical_header_file: String,
    rows: usize,
}

impl View for PackingList {
    type V = PackingListModel;

    closed spec fn view(&self) -> PackingListModel {
        PackingListModel {
            schema: self.schema,
            directory: match self.directory {
                Some(d) => Some(d@),
                None => None,
            },
            table_locations: slots_view(self.table_locations@),
            tabular_files: names_view(self.tabular_files@),
            geographical_header_file: self.geographical_header_file@,
            rows: self.rows,
        }
    }
}

/// The table layout that a list of `(table, segments)` pairs gives, a later
/// pair for a table replacing an earlier one.
pub open spec fn pairs_to_layout(v: Seq<(Table, Vec<TableSegmentLocation>)>, k: int) -> Map<
    Table,
    Seq<TableSegmentLocation>,
>
    decreases k,
{
    if k <= 0 {
        Map::empty()
    } else {
        pairs_to_layout(v, k - 1).insert(v[k - 1].0, v[k - 1].1@)
    }
}

/// Whether `r` lists the table layout `m`: each laid-out table once, in the
/// declared order of tables, with its segments.
pub open spec fn lists_layout(
    m: Map<Table, Seq<TableSegmentLocation>>,
    r: Seq<(Table, Vec<TableSegmentLocation>)>,
) -> bool {
    &&& forall|i: int| 0 <= i < r.len() ==> m.contains_key(#[trigger] r[i].0) && m[r[i].0] == r[i].1@
    &&& forall|t: Table| m.contains_key(t) ==> exists|i: int| 0 <= i < r.len() && #[trigger] r[i].0 == t
    &&& forall|i: int, j: int| 0 <= i < j < r.len() ==> table_slot(#[trigger] r[i].0) < table_slot(#[trigger] r[j].0)
}

impl PackingList {
    #[verifier::type_invariant]
    spec fn wf(&self) -> bool {
        self.table_locations@.len() == TABLE_COUNT
    }

    /// A packing list from its parts.
    pub fn new(
        schema: Schema,
        directory: Option<String>,
        table_locations: Vec<(Table, Vec<TableSegmentLocation>)>,
        tabular_files: HashMap<u32, String>,
        geographical_header_file: String,
        rows: usize,
    ) -> (r: Self)
        ensures
            r@ == (PackingListModel {
                schema,
                directory: match directory {
                    Some(d) => Some(d@),
                    None => None,
                },
                table_locations: pairs_to_layout(table_locations@, table_locations@.len() as int),
                tabular_files: names_view(tabular_files@),
                geographical_header_file: geographical_header_file@,
                rows,
            }),
    {
        let mut slots: Vec<Option<Vec<TableSegmentLocation>>> = Vec::new();
        for i in 0..TABLE_COUNT
            invariant
                slots@.len() == i,
                forall|j: int| 0 <= j < i ==> (#[trigger] slots@[j]) is None,
        {
            slots.push(None);
        }
        assert(slots_view(slots@) =~= Map::empty());
        let mut pairs = table_locations;
        let ghost all = pairs@;
        let mut taken: Vec<(Table, Vec<TableSegmentLocation>)> = Vec::new();
        let mut k: usize = 0;
        while k < pairs.len()
            invariant
                slots@.len() == TABLE_COUNT,
                pairs@.len() == all.len(),
                k <= all.len(),
                forall|j: int| k <= j < all.len() ==> #[trigger] pairs@[j] == all[j],
                slots_view(slots@) == pairs_to_layout(all, k as int),
            decreases all.len() - k,
        {
            let mut entry: (Table, Vec<TableSegmentLocation>) = (Table::P1, Vec::new());
            pairs.set_and_swap(k, &mut entry);
            assert(entry == all[k as int]);
            let (table, locs) = entry;
            let ghost before = slots@;
            let ghost lv = locs@;
            slots.set(table.slot(), Some(locs));
            assert(slots_view(slots@) =~= slots_view(before).insert(table, lv));
            k = k + 1;
        }
        PackingList {
            schema,
            directory,
            table_locations: slots,
            tabular_files,
            geographical_header_file,
            rows,
        }
    }

    /// Parses the text of a packing list.
    pub fn parse(s: &str) -> (r: Result<Self, Error>)
        ensures
            match parse_packing_list(s@) {
                Ok(m) => r matches Ok(pl) && pl@ == m,
                Err(e) => r matches Err(x) && x@ == e,
            },
    {
        let t = chars_of(s);
        let lines = split_bounds(&t, 0, t.len(), '\n');
        assert(t@.subrange(0, t@.len() as int) =~= s@);
        let stusab = match find_stusab(s, &t, &lines) {
            Some(st) => st,
            None => {
                return Err(Error::MalformedPackingList(Malformation::MissingStusab));
            },
        };
        let st = chars_of(stusab.as_str());
        proof {
            lemma_first_stusab_len(text_lines(s@));
        }
        let schema = match extract_schemas(s, &t, &st) {
            Ok(v) => v,
            Err(e) => {
                return Err(e);
            },
        };
        let infos = match collect_file_information(s, &t, &lines) {
            Ok(v) => v,
            Err(e) => {
                return Err(e);
            },
        };
        let (tabular_files, geographical_header_file) = match partition_file_information(&infos) {
            Ok(v) => v,
            Err(e) => {
                return Err(e);
            },
        };
        proof {
            let fis = infos_view(infos@);
            if fis.len() == 0 {
                assert(partition_upto(fis, 0) == Ok::<_, ErrorModel>(
                    (Map::<u32, Seq<char>>::empty(), None::<Seq<char>>),
                ));
            }
        }
        let rows = match common_row_count(&infos) {
            Ok(v) => v,
            Err(e) => {
                proof {
                    let fis = infos_view(infos@);
                    assert(file_inventory(fis) == Err::<
                        (Map<u32, Seq<char>>, Seq<char>, usize),
                        ErrorModel,
                    >(e@));
                }
                return Err(e);
            },
        };
        assert(names_view(tabular_files@).dom() =~= tabular_files@.dom());
        let table_locations = match extract_table_locations(s, &t, &lines, schema, &tabular_files) {
            Ok(v) => v,
            Err(e) => {
                return Err(e);
            },
        };
        Ok(
            PackingList {
                schema,
                directory: None,
                table_locations,
                tabular_files,
                geographical_header_file,
                rows,
            },
        )
    }

    /// This packing list, its files to be found in `directory`.
    pub fn with_directory(self, directory: Option<String>) -> (r: Self)
        ensures
            r@ == (PackingListModel {
                directory: match directory {
                    Some(d) => Some(d@),
                    None => None,
                },
                ..self@
            }),
    {
        proof {
            use_type_invariant(&self);
        }
        PackingList { directory, ..self }
    }

    pub fn schema(&self) -> (r: Schema)
        ensures
            r == self@.schema,
    {
        self.schema
    }

    pub fn directory(&self) -> (r: &Option<String>)
        ensures
            match r {
                Some(d) => self@.directory == Some(d@),
                None => self@.directory is None,
            },
    {
        &self.directory
    }

    /// The segments of `table`, where the packing list lays it out.
    pub fn locations(&self, table: Table) -> (r: Option<&Vec<TableSegmentLocation>>)
        ensures
            match r {
                Some(v) => self@.table_locations.contains_key(table)
                    && self@.table_locations[table] == v@,
                None => !self@.table_locations.contains_key(table),
            },
    {
        proof {
            use_type_invariant(self);
        }
        match &self.table_locations[table.slot()] {
            Some(v) => Some(v),
            None => None,
        }
    }

    /// Every laid-out table with its segments, in the declared order of tables.
    pub fn table_locations(&self) -> (r: Vec<(Table, Vec<TableSegmentLocation>)>)
        ensures
            lists_layout(self@.table_locations, r@),
    {
        proof {
            use_type_invariant(self);
        }
        let mut out: Vec<(Table, Vec<TableSegmentLocation>)> = Vec::new();
        let mut i: usize = 0;
        while i < TABLE_COUNT
            invariant
                self.table_locations@.len() == TABLE_COUNT,
                i <= TABLE_COUNT,
                forall|k: int| 0 <= k < out@.len() ==> self@.table_locations.contains_key(#[trigger] out@[k].0)
                    && self@.table_locations[out@[k].0] == out@[k].1@ && table_slot(out@[k].0) < i,
                forall|t: Table| self@.table_locations.contains_key(t) && table_slot(t) < i ==> exists|k: int|
                    0 <= k < out@.len() && #[trigger] out@[k].0 == t,
                forall|a: int, b: int| 0 <= a < b < out@.len() ==> table_slot(#[trigger] out@[a].0) < table_slot(#[trigger] out@[b].0),
            decreases TABLE_COUNT - i,
        {
            let t = Table::from_slot(i);
            match &self.table_locations[i] {
                Some(v) => {
                    let mut copy: Vec<TableSegmentLocation> = Vec::new();
                    let mut j: usize = 0;
                    while j < v.len()
                        invariant
                            j <= v@.len(),
                            copy@ == v@.take(j as int),
                        decreases v@.len() - j,
                    {
                        copy.push(v[j]);
                        assert(v@.take(j + 1) =~= v@.take(j as int).push(v@[j as int]));
                        j = j + 1;
                    }
                    assert(v@.take(j as int) =~= v@);
                    let ghost before = out@;
                    out.push((t, copy));
                    assert(out@[before.len() as int].0 == t);
                    assert forall|u: Table| self@.table_locations.contains_key(u) && table_slot(u) < i + 1 implies exists|k: int|
                        0 <= k < out@.len() && #[trigger] out@[k].0 == u by {
                        if table_slot(u) == i {
                            crate::types::lemma_table_slot_injective(u, t);
                            assert(out@[before.len() as int].0 == u);
                        } else {
                            let k = choose|k: int| 0 <= k < before.len() && #[trigger] before[k].0 == u;
                            assert(out@[k].0 == u);
                        }
                    }
                },
                None => {
                    assert forall|u: Table| self@.table_locations.contains_key(u) && table_slot(u) < i + 1 implies exists|k: int|
                        0 <= k < out@.len() && #[trigger] out@[k].0 == u by {
                        if table_slot(u) == i {
                            crate::types::lemma_table_slot_injective(u, t);
                        }
                    }
                },
            }
            i = i + 1;
        }
        assert forall|t: Table| self@.table_locations.contains_key(t) implies exists|k: int|
            0 <= k < out@.len() && #[trigger] out@[k].0 == t by {
            assert(table_slot(t) < TABLE_COUNT);
        }
        out
    }

    pub fn tabular_files(&self) -> (r: &HashMap<u32, String>)
        ensures
            names_view(r@) == self@.tabular_files,
    {
        &self.tabular_files
    }

    pub fn geographical_header_file(&self) -> (r: &String)
        ensures
            r@ == self@.geographical_header_file,
    {
        &self.geographical_header_file
    }

    pub fn rows(&self) -> (r: usize)
        ensures
            r == self@.rows,
    {
        self.rows
    }
}

impl core::str::FromStr for PackingList {
    type Err = Error;

    fn from_str(s: &str) -> Result<Self, Error> {
        Self::parse(s)
    }
}

} // verus!
