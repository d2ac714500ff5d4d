//! The geographic header: GEOIDs, the index from GEOID to logical record
//! number and line offset, and the view of one header line.
use vstd::prelude::*;

use crate::layout::{field_text, Field, LINE_LENGTH};
use crate::text::{all_spaces, chars_of, parse_decimal, parse_unsigned, trim_bounds, trimmed};
use crate::types::{Error, ErrorModel};
use std::collections::HashMap;

verus! {

/// Length of a block-level GEOID: state (2), county (3), tract (6), block (4).
pub const GEOID_LENGTH: usize = 15;

pub open spec fn is_ascii_seq(s: Seq<char>) -> bool {
    forall|i: int| 0 <= i < s.len() ==> (#[trigger] s[i] as u32) < 128
}

pub open spec fn pow128(n: nat) -> int
    decreases n,
{
    if n == 0 {
        1
    } else {
        128 * pow128((n - 1) as nat)
    }
}

/// The characters of `s` as the digits of a base-128 number.
pub open spec fn geoid_code(s: Seq<char>) -> int
    decreases s.len(),
{
    if s.len() == 0 {
        0
    } else {
        geoid_code(s.drop_last()) * 128 + (s.last() as u32)
    }
}

/// The key under which a GEOID is stored: fifteen ASCII characters.
pub open spec fn geoid_key(s: Seq<char>) -> Option<u128> {
    if s.len() == GEOID_LENGTH && is_ascii_seq(s) {
        Some(geoid_code(s) as u128)
    } else {
        None
    }
}

proof fn lemma_geoid_code_bound(s: Seq<char>)
    requires
        is_ascii_seq(s),
    ensures
        0 <= geoid_code(s) < pow128(s.len()),
    decreases s.len(),
{
    if s.len() > 0 {
        let p = s.drop_last();
        assert(is_ascii_seq(p)) by {
            assert forall|i: int| 0 <= i < p.len() implies (#[trigger] p[i] as u32) < 128 by {
                assert(p[i] == s[i]);
            }
        }
        lemma_geoid_code_bound(p);
        let x = s.last() as u32;
        assert(x < 128) by {
            assert(s.last() == s[s.len() - 1]);
        }
        assert(0 <= geoid_code(p) * 128 + x < pow128(s.len())) by (nonlinear_arith)
            requires
                0 <= geoid_code(p) < pow128(p.len()),
                pow128(s.len()) == 128 * pow128(p.len()),
                x < 128,
        ;
    }
}

/// Two ASCII strings of one length with the same code are equal.
pub proof fn lemma_geoid_code_injective(a: Seq<char>, b: Seq<char>)
    requires
        is_ascii_seq(a),
        is_ascii_seq(b),
        a.len() == b.len(),
        geoid_code(a) == geoid_code(b),
    ensures
        a == b,
    decreases a.len(),
{
    if a.len() > 0 {
        let (pa, pb) = (a.drop_last(), b.drop_last());
        assert(is_ascii_seq(pa)) by {
            assert forall|i: int| 0 <= i < pa.len() implies (#[trigger] pa[i] as u32) < 128 by {
                assert(pa[i] == a[i]);
            }
        }
        assert(is_ascii_seq(pb)) by {
            assert forall|i: int| 0 <= i < pb.len() implies (#[trigger] pb[i] as u32) < 128 by {
                assert(pb[i] == b[i]);
            }
        }
        lemma_geoid_code_bound(pa);
        lemma_geoid_code_bound(pb);
        let (x, y) = (a.last() as u32, b.last() as u32);
        assert(x < 128 && y < 128) by {
            assert(a.last() == a[a.len() - 1] && b.last() == b[b.len() - 1]);
        }
        let (ka, kb) = (geoid_code(pa), geoid_code(pb));
        assert(ka == kb && x == y) by (nonlinear_arith)
            requires
                ka * 128 + x == kb * 128 + y,
                0 <= ka,
                0 <= kb,
                x < 128,
                y < 128,
        ;
        lemma_geoid_code_injective(pa, pb);
        lemma_char_code(a.last(), b.last());
        assert(a =~= pa.push(a.last()));
        assert(b =~= pb.push(b.last()));
    }
}

/// Distinct GEOIDs have distinct keys.
pub proof fn lemma_geoid_key_injective(a: Seq<char>, b: Seq<char>)
    requires
        geoid_key(a) is Some,
        geoid_key(a) == geoid_key(b),
    ensures
        a == b,
{
    lemma_geoid_code_bound(a);
    lemma_geoid_code_bound(b);
    lemma_pow128_fifteen();
    lemma_geoid_code_injective(a, b);
}

/// The key of a GEOID, where it has the shape of one.
pub fn geoid_key_of(geoid: &str) -> (r: Option<u128>)
    ensures
        r == geoid_key(geoid@),
{
    let g = chars_of(geoid);
    if g.len() != GEOID_LENGTH {
        return None;
    }
    let mut code: u128 = 0;
    let mut i: usize = 0;
    while i < GEOID_LENGTH
        invariant
            g@ == geoid@,
            g@.len() == GEOID_LENGTH,
            i <= GEOID_LENGTH,
            is_ascii_seq(g@.take(i as int)),
            code as int == geoid_code(g@.take(i as int)),
            code < pow128(i as nat),
        decreases GEOID_LENGTH - i,
    {
        let c = g[i] as u32;
        assert(g@.take(i + 1).drop_last() =~= g@.take(i as int));
        if c >= 128 {
            assert(!is_ascii_seq(geoid@)) by {
                assert(geoid@[i as int] as u32 >= 128);
            }
            return None;
        }
        proof {
            lemma_pow128_bound(i as nat);
            assert(code * 128 + c < pow128((i + 1) as nat)) by (nonlinear_arith)
                requires
                    code < pow128(i as nat),
                    c < 128,
                    pow128((i + 1) as nat) == 128 * pow128(i as nat),
            ;
        }
        code = code * 128 + c as u128;
        i = i + 1;
        assert(is_ascii_seq(g@.take(i as int))) by {
            assert forall|j: int| 0 <= j < i implies (#[trigger] g@.take(i as int)[j] as u32)
                < 128 by {
                if j < i - 1 {
                    assert(g@.take(i as int)[j] == g@.take(i - 1)[j]);
                }
            }
        }
    }
    assert(g@.take(GEOID_LENGTH as int) =~= g@);
    Some(code)
}

proof fn lemma_pow128_bound(n: nat)
    requires
        n < GEOID_LENGTH,
    ensures
        128 * pow128(n) <= 40564819207303340847894502572032,
{
    assert(pow128(0) == 1);
    assert(pow128(1) == 128);
    lemma_pow128_fifteen();
    lemma_pow128_monotone(n + 1, 15);
}

proof fn lemma_char_code(a: char, b: char)
    requires
        a as u32 == b as u32,
    ensures
        a == b,
{
}

proof fn lemma_pow128_fifteen()
    ensures
        pow128(15) == 40564819207303340847894502572032,
{
    assert(pow128(0) == 1);
    assert(pow128(1) == 128);
    assert(pow128(2) == 16384);
    assert(pow128(3) == 2097152);
    assert(pow128(4) == 268435456);
    assert(pow128(5) == 34359738368);
    assert(pow128(6) == 4398046511104);
    assert(pow128(7) == 562949953421312);
    assert(pow128(8) == 72057594037927936);
    assert(pow128(9) == 9223372036854775808);
    assert(pow128(10) == 1180591620717411303424);
    assert(pow128(11) == 151115727451828646838272);
    assert(pow128(12) == 19342813113834066795298816);
    assert(pow128(13) == 2475880078570760549798248448);
    assert(pow128(14) == 316912650057057350374175801344);
    assert(pow128(15) == 40564819207303340847894502572032);
}

proof fn lemma_pow128_monotone(a: nat, b: nat)
    requires
        a <= b,
    ensures
        pow128(a) <= pow128(b),
    decreases b,
{
    if a < b {
        lemma_pow128_monotone(a, (b - 1) as nat);
        lemma_pow128_positive((b - 1) as nat);
    }
}

proof fn lemma_pow128_positive(n: nat)
    ensures
        pow128(n) >= 1,
    decreases n,
{
    if n > 0 {
        lemma_pow128_positive((n - 1) as nat);
    }
}

// ---------------------------------------------------------------------------
// Header lines.

/// The GEOID of a header line: state, county, tract and block, untrimmed.
pub open spec fn header_geoid(l: Seq<char>) -> Seq<char> {
    field_text(l, Field::STATE) + field_text(l, Field::COUNTY) + field_text(l, Field::TRACT)
        + field_text(l, Field::BLOCK)
}

/// The logical record number of a header line.
pub open spec fn header_logrecno(l: Seq<char>) -> Option<u64> {
    match parse_unsigned(field_text(l, Field::LOGRECNO), u64::MAX as nat) {
        Some(n) => Some(n as u64),
        None => None,
    }
}

/// What one line of the geographic header is to the indexer.
pub enum HeaderLine {
    /// A summary row: its block is blank.
    Summary,
    /// A block-level row, with its GEOID and logical record number.
    Leaf(Seq<char>, u64),
    /// Too short, or without a number or an ASCII GEOID.
    Corrupt,
}

pub open spec fn header_line(l: Seq<char>) -> HeaderLine {
    if l.len() < LINE_LENGTH {
        HeaderLine::Corrupt
    } else if all_spaces(field_text(l, Field::BLOCK)) {
        HeaderLine::Summary
    } else if header_logrecno(l) is Some && geoid_key(header_geoid(l)) is Some {
        HeaderLine::Leaf(header_geoid(l), header_logrecno(l)->0)
    } else {
        HeaderLine::Corrupt
    }
}

fn spaces_only(t: &Vec<char>, from: usize, to: usize) -> (r: bool)
    requires
        from <= to <= t@.len(),
    ensures
        r == all_spaces(t@.subrange(from as int, to as int)),
{
    let mut i = from;
    while i < to
        invariant
            from <= i <= to <= t@.len(),
            forall|j: int| from <= j < i ==> t@[j] == ' ',
        decreases to - i,
    {
        if t[i] != ' ' {
            assert(t@.subrange(from as int, to as int)[i - from] == t@[i as int]);
            return false;
        }
        i = i + 1;
    }
    assert forall|j: int| 0 <= j < to - from implies #[trigger] t@.subrange(
        from as int,
        to as int,
    )[j] == ' ' by {
        assert(t@.subrange(from as int, to as int)[j] == t@[from + j]);
    }
    true
}

/// Maps each block-level GEOID of the geographic header to its logical record
/// number and the byte offset of its line.
pub struct GeographicalHeaderIndex {
    entries: HashMap<u128, (u64, u64)>,
    next_offset: u128,
    lines: Ghost<Map<u64, Seq<char>>>,
}

impl View for GeographicalHeaderIndex {
    type V = Map<Seq<char>, (u64, u64)>;

    closed spec fn view(&self) -> Map<Seq<char>, (u64, u64)> {
        Map::new(
            |g: Seq<char>| geoid_key(g) is Some && self.entries@.contains_key(geoid_key(g)->0),
            |g: Seq<char>| self.entries@[geoid_key(g)->0],
        )
    }
}

impl GeographicalHeaderIndex {
    /// The line taken in at byte offset `offset`, if any.
    pub closed spec fn line_at(&self, offset: u64) -> Option<Seq<char>> {
        if self.lines@.contains_key(offset) {
            Some(self.lines@[offset])
        } else {
            None
        }
    }

    /// The smallest offset that the next line may have.
    pub closed spec fn next_offset_spec(&self) -> int {
        self.next_offset as int
    }

    /// Each indexed GEOID names the line it came from, whose number it holds;
    /// lines are taken in at increasing offsets.
    pub closed spec fn wf(&self) -> bool {
        &&& self.next_offset <= u64::MAX as u128 + 1
        &&& forall|o: u64| #[trigger] self.lines@.contains_key(o) ==> (o as u128) < self.next_offset
        &&& forall|k: u128|
            #[trigger] self.entries@.contains_key(k) ==> {
                let (n, o) = self.entries@[k];
                &&& self.lines@.contains_key(o)
                &&& header_line(self.lines@[o]) == HeaderLine::Leaf(header_geoid(self.lines@[o]), n)
                &&& geoid_key(header_geoid(self.lines@[o])) == Some(k)
            }
    }

    /// An empty index.
    pub fn new() -> (r: Self)
        ensures
            r.wf(),
            r@ == Map::<Seq<char>, (u64, u64)>::empty(),
            r.next_offset_spec() == 0,
    {
        let r = GeographicalHeaderIndex {
            entries: HashMap::new(),
            next_offset: 0,
            lines: Ghost(Map::empty()),
        };
        assert(r@ =~= Map::<Seq<char>, (u64, u64)>::empty());
        r
    }

    /// Takes in the next line of the header file, which starts at byte
    /// `offset`: a block-level row adds its GEOID, a summary row is skipped.
    pub fn add_line(&mut self, offset: u64, line: &str) -> (r: Result<(), Error>)
        requires
            old(self).wf(),
        ensures
            final(self).wf(),
            offset < old(self).next_offset_spec() ==> (r matches Err(e) && e@
                == (ErrorModel::CorruptGeographicalHeader { offset })) && final(self)@ == old(
                self,
            )@,
            offset >= old(self).next_offset_spec() ==> final(self).next_offset_spec() == offset
                + 1 && match header_line(line@) {
                HeaderLine::Summary => r is Ok && final(self)@ == old(self)@,
                HeaderLine::Corrupt => (r matches Err(e) && e@
                    == (ErrorModel::CorruptGeographicalHeader { offset })) && final(self)@ == old(
                    self,
                )@,
                HeaderLine::Leaf(g, n) => if old(self)@.contains_key(g) {
                    (r matches Err(e) && e@ == ErrorModel::DuplicateGeoid(g)) && final(self)@ == old(
                        self,
                    )@
                } else {
                    r is Ok && final(self)@ == old(self)@.insert(g, (n, offset))
                },
            },
    {
        broadcast use vstd::std_specs::hash::group_hash_axioms;

        if (offset as u128) < self.next_offset {
            return Err(Error::CorruptGeographicalHeader { offset });
        }
        let ghost old_view = self@;
        self.next_offset = offset as u128 + 1;
        self.lines = Ghost(self.lines@.insert(offset, line@));
        assert(self@ =~= old_view);
        let t = chars_of(line);
        let ghost l = line@;
        if t.len() < LINE_LENGTH {
            return Err(Error::CorruptGeographicalHeader { offset });
        }
        let (bs, be) = Field::BLOCK.span();
        if spaces_only(&t, bs, be) {
            return Ok(());
        }
        let (ls, le) = Field::LOGRECNO.span();
        let n = match parse_decimal(&t, ls, le, u64::MAX) {
            Some(n) => n,
            None => {
                return Err(Error::CorruptGeographicalHeader { offset });
            },
        };
        let mut geoid = line.substring_char(27, 32).to_owned();
        geoid.append(line.substring_char(54, 60));
        geoid.append(line.substring_char(61, 65));
        assert(geoid@ =~= header_geoid(l));
        let key = match geoid_key_of(geoid.as_str()) {
            Some(k) => k,
            None => {
                return Err(Error::CorruptGeographicalHeader { offset });
            },
        };
        assert(header_line(l) == HeaderLine::Leaf(geoid@, n));
        if self.entries.contains_key(&key) {
            return Err(Error::DuplicateGeoid(geoid));
        }
        let ghost before = self.entries@;
        self.entries.insert(key, (n, offset));
        assert forall|g: Seq<char>| #[trigger] self@.contains_key(g) == old_view.insert(
            geoid@,
            (n, offset),
        ).contains_key(g) && (self@.contains_key(g) ==> self@[g] == old_view.insert(
            geoid@,
            (n, offset),
        )[g]) by {
            if geoid_key(g) == Some(key) {
                lemma_geoid_key_injective(g, geoid@);
            }
        }
        assert(self@ =~= old_view.insert(geoid@, (n, offset)));
        Ok(())
    }

    /// The logical record number and line offset of `geoid`.
    pub fn get(&self, geoid: &str) -> (r: Option<(u64, u64)>)
        ensures
            match r {
                Some(v) => self@.contains_key(geoid@) && self@[geoid@] == v,
                None => !self@.contains_key(geoid@),
            },
    {
        broadcast use vstd::std_specs::hash::group_hash_axioms;

        match geoid_key_of(geoid) {
            None => None,
            Some(k) => match self.entries.get(&k) {
                Some(v) => Some(*v),
                None => None,
            },
        }
    }
}

/// Each indexed GEOID leads back to a header line, taken in at the indexed
/// offset, whose GEOID it is and whose LOGRECNO is the indexed number.
pub proof fn lemma_indexed_line_matches(idx: &GeographicalHeaderIndex, g: Seq<char>)
    requires
        idx.wf(),
        idx@.contains_key(g),
    ensures
        idx.line_at(idx@[g].1) matches Some(l) && header_logrecno(l) == Some(idx@[g].0)
            && header_geoid(l) == g,
{
    let k = geoid_key(g)->0;
    assert(idx.entries@.contains_key(k));
    let (n, o) = idx.entries@[k];
    let l = idx.lines@[o];
    lemma_geoid_key_injective(header_geoid(l), g);
}

// ---------------------------------------------------------------------------
// The view of one header line.

/// One line of the geographic header, read field by field.
#[derive(Debug, PartialEq, Eq)]
pub struct GeographicalHeader {
    line: String,
}

impl GeographicalHeader {
    pub closed spec fn line_spec(&self) -> Seq<char> {
        self.line@
    }

    #[verifier::type_invariant]
    spec fn wf(&self) -> bool {
        self.line@.len() >= LINE_LENGTH
    }

    /// The view of `line`, where it is long enough to hold every field.
    pub fn new(line: String) -> (r: Option<Self>)
        ensures
            match r {
                Some(h) => h.line_spec() == line@ && line@.len() >= LINE_LENGTH,
                None => line@.len() < LINE_LENGTH,
            },
    {
        let n = line.as_str().unicode_len();
        if n >= LINE_LENGTH {
            Some(GeographicalHeader { line })
        } else {
            None
        }
    }

    /// The raw line.
    pub fn line(&self) -> (r: &String)
        ensures
            r@ == self.line_spec(),
    {
        &self.line
    }

    /// The text of field `f`, trimmed of whitespace.
    pub fn field(&self, f: Field) -> (r: String)
        ensures
            r@ == trimmed(field_text(self.line_spec(), f)),
    {
        proof {
            use_type_invariant(self);
        }
        let t = chars_of(self.line.as_str());
        let (a, b) = f.span();
        let (ta, tb) = trim_bounds(&t, a, b);
        self.line.as_str().substring_char(ta, tb).to_owned()
    }

    /// The place name, trimmed.
    pub fn name(&self) -> (r: String)
        ensures
            r@ == trimmed(field_text(self.line_spec(), Field::NAME)),
    {
        proof {
            use_type_invariant(self);
        }
        self.field(Field::NAME)
    }

    /// The logical record number, where LOGRECNO holds one.
    pub fn logrecno(&self) -> (r: Option<u64>)
        ensures
            r == header_logrecno(self.line_spec()),
    {
        proof {
            use_type_invariant(self);
        }
        let t = chars_of(self.line.as_str());
        let (a, b) = Field::LOGRECNO.span();
        parse_decimal(&t, a, b, u64::MAX)
    }
}

} // verus!
