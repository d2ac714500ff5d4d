//! The fixed-column layout of a PL94-171 geographic header line: each field
//! and the span of characters it occupies, and the views of a line by field.
use vstd::prelude::*;

use crate::text::{chars_of, trim_bounds, trimmed};

verus! {

/// Number of fields in a geographic header line.
pub const FIELD_COUNT: usize = 101;

/// Length of a geographic header line, without its terminator.
pub const LINE_LENGTH: usize = 500;

/// A field of the PL94-171 geographic header, in declared order.
#[allow(non_camel_case_types, clippy::upper_case_acronyms)]
#[derive(Clone, Copy, Debug, PartialEq, Eq, Hash, Structural)]
pub enum Field {
    FILEID,
    STUSAB,
    SUMLEV,
    GEOCOMP,
    CHARITER,
    CIFSN,
    LOGRECNO,
    REGION,
    DIVISION,
    STATE,
    COUNTY,
    COUNTYCC,
    COUNTYSC,
    COUSUB,
    COUSUBCC,
    COUSUBSC,
    PLACE,
    PLACECC,
    PLACESC,
    TRACT,
    BLKGRP,
    BLOCK,
    IUC,
    CONCIT,
    CONCITCC,
    CONCITSC,
    AIANHH,
    AIANHHFP,
    AIANHHCC,
    AIHHTLI,
    AITSCE,
    AITS,
    AITSCC,
    TTRACT,
    TBLKGRP,
    ANRC,
    ANRCCC,
    CBSA,
    CBASC,
    METDIV,
    CSA,
    NECTA,
    NECTASC,
    NECTADIV,
    CNECTA,
    CBSAPCI,
    NECTAPCI,
    UA,
    UASC,
    UATYPE,
    UR,
    CD,
    SLDU,
    SLDL,
    VTD,
    VTDI,
    RESERVE2,
    ZCTA5,
    SUBMCD,
    SUBMCDCC,
    SDELM,
    SDSEC,
    SDUNI,
    AREALAND,
    AREAWATR,
    NAME,
    FUNCSTAT,
    GCUNI,
    POP100,
    HU100,
    INTPTLAT,
    INTPTLON,
    LSADC,
    PARTFLAG,
    RESERVE3,
    UGA,
    STATENS,
    COUNTYNS,
    COUSUBNS,
    PLACENS,
    CONCITNS,
    AIANHHNS,
    AITSNS,
    ANRCNS,
    SUBMCDNS,
    CD113,
    CD114,
    CD115,
    SLDU2,
    SLDU3,
    SLDU4,
    SLDL2,
    SLDL3,
    SLDL4,
    AIANHHSC,
    CSASC,
    CNECTASC,
    MEMI,
    NMEMI,
    PUMA,
    RESERVED,
}

/// The half-open span `[start, end)` of characters that a field occupies.
pub open spec fn field_span(f: Field) -> (usize, usize) {
    match f {
        Field::FILEID => (0, 6),
        Field::STUSAB => (6, 8),
        Field::SUMLEV => (8, 11),
        Field::GEOCOMP => (11, 13),
        Field::CHARITER => (13, 16),
        Field::CIFSN => (16, 18),
        Field::LOGRECNO => (18, 25),
        Field::REGION => (25, 26),
        Field::DIVISION => (26, 27),
        Field::STATE => (27, 29),
        Field::COUNTY => (29, 32),
        Field::COUNTYCC => (32, 34),
        Field::COUNTYSC => (34, 36),
        Field::COUSUB => (36, 41),
        Field::COUSUBCC => (41, 43),
        Field::COUSUBSC => (43, 45),
        Field::PLACE => (45, 50),
        Field::PLACECC => (50, 52),
        Field::PLACESC => (52, 54),
        Field::TRACT => (54, 60),
        Field::BLKGRP => (60, 61),
        Field::BLOCK => (61, 65),
        Field::IUC => (65, 67),
        Field::CONCIT => (67, 72),
        Field::CONCITCC => (72, 74),
        Field::CONCITSC => (74, 76),
        Field::AIANHH => (76, 80),
        Field::AIANHHFP => (80, 85),
        Field::AIANHHCC => (85, 87),
        Field::AIHHTLI => (87, 88),
        Field::AITSCE => (88, 91),
        Field::AITS => (91, 96),
        Field::AITSCC => (96, 98),
        Field::TTRACT => (98, 104),
        Field::TBLKGRP => (104, 105),
        Field::ANRC => (105, 110),
        Field::ANRCCC => (110, 112),
        Field::CBSA => (112, 117),
        Field::CBASC => (117, 119),
        Field::METDIV => (119, 124),
        Field::CSA => (124, 127),
        Field::NECTA => (127, 132),
        Field::NECTASC => (132, 134),
        Field::NECTADIV => (134, 139),
        Field::CNECTA => (139, 142),
        Field::CBSAPCI => (142, 143),
        Field::NECTAPCI => (143, 144),
        Field::UA => (144, 149),
        Field::UASC => (149, 151),
        Field::UATYPE => (151, 152),
        Field::UR => (152, 153),
        Field::CD => (153, 155),
        Field::SLDU => (155, 158),
        Field::SLDL => (158, 161),
        Field::VTD => (161, 167),
        Field::VTDI => (167, 168),
        Field::RESERVE2 => (168, 171),
        Field::ZCTA5 => (171, 176),
        Field::SUBMCD => (176, 181),
        Field::SUBMCDCC => (181, 183),
        Field::SDELM => (183, 188),
        Field::SDSEC => (188, 193),
        Field::SDUNI => (193, 198),
        Field::AREALAND => (198, 212),
        Field::AREAWATR => (212, 226),
        Field::NAME => (226, 316),
        Field::FUNCSTAT => (316, 317),
        Field::GCUNI => (317, 318),
        Field::POP100 => (318, 327),
        Field::HU100 => (327, 336),
        Field::INTPTLAT => (336, 347),
        Field::INTPTLON => (347, 359),
        Field::LSADC => (359, 361),
        Field::PARTFLAG => (361, 362),
        Field::RESERVE3 => (362, 368),
        Field::UGA => (368, 373),
        Field::STATENS => (373, 381),
        Field::COUNTYNS => (381, 389),
        Field::COUSUBNS => (389, 397),
        Field::PLACENS => (397, 405),
        Field::CONCITNS => (405, 413),
        Field::AIANHHNS => (413, 421),
        Field::AITSNS => (421, 429),
        Field::ANRCNS => (429, 437),
        Field::SUBMCDNS => (437, 445),
        Field::CD113 => (445, 447),
        Field::CD114 => (447, 449),
        Field::CD115 => (449, 451),
        Field::SLDU2 => (451, 454),
        Field::SLDU3 => (454, 457),
        Field::SLDU4 => (457, 460),
        Field::SLDL2 => (460, 463),
        Field::SLDL3 => (463, 466),
        Field::SLDL4 => (466, 469),
        Field::AIANHHSC => (469, 471),
        Field::CSASC => (471, 473),
        Field::CNECTASC => (473, 475),
        Field::MEMI => (475, 476),
        Field::NMEMI => (476, 477),
        Field::PUMA => (477, 482),
        Field::RESERVED => (482, 500),
    }
}

/// The field at position `i` of the declared order.
pub open spec fn field_at(i: int) -> Field {
    if i <= 0 {
        Field::FILEID
    } else if i == 1 {
        Field::STUSAB
    } else if i == 2 {
        Field::SUMLEV
    } else if i == 3 {
        Field::GEOCOMP
    } else if i == 4 {
        Field::CHARITER
    } else if i == 5 {
        Field::CIFSN
    } else if i == 6 {
        Field::LOGRECNO
    } else if i == 7 {
        Field::REGION
    } else if i == 8 {
        Field::DIVISION
    } else if i == 9 {
        Field::STATE
    } else if i == 10 {
        Field::COUNTY
    } else if i == 11 {
        Field::COUNTYCC
    } else if i == 12 {
        Field::COUNTYSC
    } else if i == 13 {
        Field::COUSUB
    } else if i == 14 {
        Field::COUSUBCC
    } else if i == 15 {
        Field::COUSUBSC
    } else if i == 16 {
        Field::PLACE
    } else if i == 17 {
        Field::PLACECC
    } else if i == 18 {
        Field::PLACESC
    } else if i == 19 {
        Field::TRACT
    } else if i == 20 {
        Field::BLKGRP
    } else if i == 21 {
        Field::BLOCK
    } else if i == 22 {
        Field::IUC
    } else if i == 23 {
        Field::CONCIT
    } else if i == 24 {
        Field::CONCITCC
    } else if i == 25 {
        Field::CONCITSC
    } else if i == 26 {
        Field::AIANHH
    } else if i == 27 {
        Field::AIANHHFP
    } else if i == 28 {
        Field::AIANHHCC
    } else if i == 29 {
        Field::AIHHTLI
    } else if i == 30 {
        Field::AITSCE
    } else if i == 31 {
        Field::AITS
    } else if i == 32 {
        Field::AITSCC
    } else if i == 33 {
        Field::TTRACT
    } else if i == 34 {
        Field::TBLKGRP
    } else if i == 35 {
        Field::ANRC
    } else if i == 36 {
        Field::ANRCCC
    } else if i == 37 {
        Field::CBSA
    } else if i == 38 {
        Field::CBASC
    } else if i == 39 {
        Field::METDIV
    } else if i == 40 {
        Field::CSA
    } else if i == 41 {
        Field::NECTA
    } else if i == 42 {
        Field::NECTASC
    } else if i == 43 {
        Field::NECTADIV
    } else if i == 44 {
        Field::CNECTA
    } else if i == 45 {
        Field::CBSAPCI
    } else if i == 46 {
        Field::NECTAPCI
    } else if i == 47 {
        Field::UA
    } else if i == 48 {
        Field::UASC
    } else if i == 49 {
        Field::UATYPE
    } else if i == 50 {
        Field::UR
    } else if i == 51 {
        Field::CD
    } else if i == 52 {
        Field::SLDU
    } else if i == 53 {
        Field::SLDL
    } else if i == 54 {
        Field::VTD
    } else if i == 55 {
        Field::VTDI
    } else if i == 56 {
        Field::RESERVE2
    } else if i == 57 {
        Field::ZCTA5
    } else if i == 58 {
        Field::SUBMCD
    } else if i == 59 {
        Field::SUBMCDCC
    } else if i == 60 {
        Field::SDELM
    } else if i == 61 {
        Field::SDSEC
    } else if i == 62 {
        Field::SDUNI
    } else if i == 63 {
        Field::AREALAND
    } else if i == 64 {
        Field::AREAWATR
    } else if i == 65 {
        Field::NAME
    } else if i == 66 {
        Field::FUNCSTAT
    } else if i == 67 {
        Field::GCUNI
    } else if i == 68 {
        Field::POP100
    } else if i == 69 {
        Field::HU100
    } else if i == 70 {
        Field::INTPTLAT
    } else if i == 71 {
        Field::INTPTLON
    } else if i == 72 {
        Field::LSADC
    } else if i == 73 {
        Field::PARTFLAG
    } else if i == 74 {
        Field::RESERVE3
    } else if i == 75 {
        Field::UGA
    } else if i == 76 {
        Field::STATENS
    } else if i == 77 {
        Field::COUNTYNS
    } else if i == 78 {
        Field::COUSUBNS
    } else if i == 79 {
        Field::PLACENS
    } else if i == 80 {
        Field::CONCITNS
    } else if i == 81 {
        Field::AIANHHNS
    } else if i == 82 {
        Field::AITSNS
    } else if i == 83 {
        Field::ANRCNS
    } else if i == 84 {
        Field::SUBMCDNS
    } else if i == 85 {
        Field::CD113
    } else if i == 86 {
        Field::CD114
    } else if i == 87 {
        Field::CD115
    } else if i == 88 {
        Field::SLDU2
    } else if i == 89 {
        Field::SLDU3
    } else if i == 90 {
        Field::SLDU4
    } else if i == 91 {
        Field::SLDL2
    } else if i == 92 {
        Field::SLDL3
    } else if i == 93 {
        Field::SLDL4
    } else if i == 94 {
        Field::AIANHHSC
    } else if i == 95 {
        Field::CSASC
    } else if i == 96 {
        Field::CNECTASC
    } else if i == 97 {
        Field::MEMI
    } else if i == 98 {
        Field::NMEMI
    } else if i == 99 {
        Field::PUMA
    } else {
        Field::RESERVED
    }
}

impl Field {
    /// The span of characters this field occupies on a line.
    pub fn span(self) -> (r: (usize, usize))
        ensures
            r == field_span(self),
            r.0 < r.1 <= LINE_LENGTH,
    {
        match self {
            Field::FILEID => (0, 6),
            Field::STUSAB => (6, 8),
            Field::SUMLEV => (8, 11),
            Field::GEOCOMP => (11, 13),
            Field::CHARITER => (13, 16),
            Field::CIFSN => (16, 18),
            Field::LOGRECNO => (18, 25),
            Field::REGION => (25, 26),
            Field::DIVISION => (26, 27),
            Field::STATE => (27, 29),
            Field::COUNTY => (29, 32),
            Field::COUNTYCC => (32, 34),
            Field::COUNTYSC => (34, 36),
            Field::COUSUB => (36, 41),
            Field::COUSUBCC => (41, 43),
            Field::COUSUBSC => (43, 45),
            Field::PLACE => (45, 50),
            Field::PLACECC => (50, 52),
            Field::PLACESC => (52, 54),
            Field::TRACT => (54, 60),
            Field::BLKGRP => (60, 61),
            Field::BLOCK => (61, 65),
            Field::IUC => (65, 67),
            Field::CONCIT => (67, 72),
            Field::CONCITCC => (72, 74),
            Field::CONCITSC => (74, 76),
            Field::AIANHH => (76, 80),
            Field::AIANHHFP => (80, 85),
            Field::AIANHHCC => (85, 87),
            Field::AIHHTLI => (87, 88),
            Field::AITSCE => (88, 91),
            Field::AITS => (91, 96),
            Field::AITSCC => (96, 98),
            Field::TTRACT => (98, 104),
            Field::TBLKGRP => (104, 105),
            Field::ANRC => (105, 110),
            Field::ANRCCC => (110, 112),
            Field::CBSA => (112, 117),
            Field::CBASC => (117, 119),
            Field::METDIV => (119, 124),
            Field::CSA => (124, 127),
            Field::NECTA => (127, 132),
            Field::NECTASC => (132, 134),
            Field::NECTADIV => (134, 139),
            Field::CNECTA => (139, 142),
            Field::CBSAPCI => (142, 143),
            Field::NECTAPCI => (143, 144),
            Field::UA => (144, 149),
            Field::UASC => (149, 151),
            Field::UATYPE => (151, 152),
            Field::UR => (152, 153),
            Field::CD => (153, 155),
            Field::SLDU => (155, 158),
            Field::SLDL => (158, 161),
            Field::VTD => (161, 167),
            Field::VTDI => (167, 168),
            Field::RESERVE2 => (168, 171),
            Field::ZCTA5 => (171, 176),
            Field::SUBMCD => (176, 181),
            Field::SUBMCDCC => (181, 183),
            Field::SDELM => (183, 188),
            Field::SDSEC => (188, 193),
            Field::SDUNI => (193, 198),
            Field::AREALAND => (198, 212),
            Field::AREAWATR => (212, 226),
            Field::NAME => (226, 316),
            Field::FUNCSTAT => (316, 317),
            Field::GCUNI => (317, 318),
            Field::POP100 => (318, 327),
            Field::HU100 => (327, 336),
            Field::INTPTLAT => (336, 347),
            Field::INTPTLON => (347, 359),
            Field::LSADC => (359, 361),
            Field::PARTFLAG => (361, 362),
            Field::RESERVE3 => (362, 368),
            Field::UGA => (368, 373),
            Field::STATENS => (373, 381),
            Field::COUNTYNS => (381, 389),
            Field::COUSUBNS => (389, 397),
            Field::PLACENS => (397, 405),
            Field::CONCITNS => (405, 413),
            Field::AIANHHNS => (413, 421),
            Field::AITSNS => (421, 429),
            Field::ANRCNS => (429, 437),
            Field::SUBMCDNS => (437, 445),
            Field::CD113 => (445, 447),
            Field::CD114 => (447, 449),
            Field::CD115 => (449, 451),
            Field::SLDU2 => (451, 454),
            Field::SLDU3 => (454, 457),
            Field::SLDU4 => (457, 460),
            Field::SLDL2 => (460, 463),
            Field::SLDL3 => (463, 466),
            Field::SLDL4 => (466, 469),
            Field::AIANHHSC => (469, 471),
            Field::CSASC => (471, 473),
            Field::CNECTASC => (473, 475),
            Field::MEMI => (475, 476),
            Field::NMEMI => (476, 477),
            Field::PUMA => (477, 482),
            Field::RESERVED => (482, 500),
        }
    }

    /// The field at position `i` of the declared order.
    pub fn at(i: usize) -> (r: Field)
        requires
            i < FIELD_COUNT,
        ensures
            r == field_at(i as int),
    {
        if i == 0 {
            Field::FILEID
        } else if i == 1 {
            Field::STUSAB
        } else if i == 2 {
            Field::SUMLEV
        } else if i == 3 {
            Field::GEOCOMP
        } else if i == 4 {
            Field::CHARITER
        } else if i == 5 {
            Field::CIFSN
        } else if i == 6 {
            Field::LOGRECNO
        } else if i == 7 {
            Field::REGION
        } else if i == 8 {
            Field::DIVISION
        } else if i == 9 {
            Field::STATE
        } else if i == 10 {
            Field::COUNTY
        } else if i == 11 {
            Field::COUNTYCC
        } else if i == 12 {
            Field::COUNTYSC
        } else if i == 13 {
            Field::COUSUB
        } else if i == 14 {
            Field::COUSUBCC
        } else if i == 15 {
            Field::COUSUBSC
        } else if i == 16 {
            Field::PLACE
        } else if i == 17 {
            Field::PLACECC
        } else if i == 18 {
            Field::PLACESC
        } else if i == 19 {
            Field::TRACT
        } else if i == 20 {
            Field::BLKGRP
        } else if i == 21 {
            Field::BLOCK
        } else if i == 22 {
            Field::IUC
        } else if i == 23 {
            Field::CONCIT
        } else if i == 24 {
            Field::CONCITCC
        } else if i == 25 {
            Field::CONCITSC
        } else if i == 26 {
            Field::AIANHH
        } else if i == 27 {
            Field::AIANHHFP
        } else if i == 28 {
            Field::AIANHHCC
        } else if i == 29 {
            Field::AIHHTLI
        } else if i == 30 {
            Field::AITSCE
        } else if i == 31 {
            Field::AITS
        } else if i == 32 {
            Field::AITSCC
        } else if i == 33 {
            Field::TTRACT
        } else if i == 34 {
            Field::TBLKGRP
        } else if i == 35 {
            Field::ANRC
        } else if i == 36 {
            Field::ANRCCC
        } else if i == 37 {
            Field::CBSA
        } else if i == 38 {
            Field::CBASC
        } else if i == 39 {
            Field::METDIV
        } else if i == 40 {
            Field::CSA
        } else if i == 41 {
            Field::NECTA
        } else if i == 42 {
            Field::NECTASC
        } else if i == 43 {
            Field::NECTADIV
        } else if i == 44 {
            Field::CNECTA
        } else if i == 45 {
            Field::CBSAPCI
        } else if i == 46 {
            Field::NECTAPCI
        } else if i == 47 {
            Field::UA
        } else if i == 48 {
            Field::UASC
        } else if i == 49 {
            Field::UATYPE
        } else if i == 50 {
            Field::UR
        } else if i == 51 {
            Field::CD
        } else if i == 52 {
            Field::SLDU
        } else if i == 53 {
            Field::SLDL
        } else if i == 54 {
            Field::VTD
        } else if i == 55 {
            Field::VTDI
        } else if i == 56 {
            Field::RESERVE2
        } else if i == 57 {
            Field::ZCTA5
        } else if i == 58 {
            Field::SUBMCD
        } else if i == 59 {
            Field::SUBMCDCC
        } else if i == 60 {
            Field::SDELM
        } else if i == 61 {
            Field::SDSEC
        } else if i == 62 {
            Field::SDUNI
        } else if i == 63 {
            Field::AREALAND
        } else if i == 64 {
            Field::AREAWATR
        } else if i == 65 {
            Field::NAME
        } else if i == 66 {
            Field::FUNCSTAT
        } else if i == 67 {
            Field::GCUNI
        } else if i == 68 {
            Field::POP100
        } else if i == 69 {
            Field::HU100
        } else if i == 70 {
            Field::INTPTLAT
        } else if i == 71 {
            Field::INTPTLON
        } else if i == 72 {
            Field::LSADC
        } else if i == 73 {
            Field::PARTFLAG
        } else if i == 74 {
            Field::RESERVE3
        } else if i == 75 {
            Field::UGA
        } else if i == 76 {
            Field::STATENS
        } else if i == 77 {
            Field::COUNTYNS
        } else if i == 78 {
            Field::COUSUBNS
        } else if i == 79 {
            Field::PLACENS
        } else if i == 80 {
            Field::CONCITNS
        } else if i == 81 {
            Field::AIANHHNS
        } else if i == 82 {
            Field::AITSNS
        } else if i == 83 {
            Field::ANRCNS
        } else if i == 84 {
            Field::SUBMCDNS
        } else if i == 85 {
            Field::CD113
        } else if i == 86 {
            Field::CD114
        } else if i == 87 {
            Field::CD115
        } else if i == 88 {
            Field::SLDU2
        } else if i == 89 {
            Field::SLDU3
        } else if i == 90 {
            Field::SLDU4
        } else if i == 91 {
            Field::SLDL2
        } else if i == 92 {
            Field::SLDL3
        } else if i == 93 {
            Field::SLDL4
        } else if i == 94 {
            Field::AIANHHSC
        } else if i == 95 {
            Field::CSASC
        } else if i == 96 {
            Field::CNECTASC
        } else if i == 97 {
            Field::MEMI
        } else if i == 98 {
            Field::NMEMI
        } else if i == 99 {
            Field::PUMA
        } else {
            Field::RESERVED
        }
    }
}

/// The raw text of field `f` on `line`.
pub open spec fn field_text(line: Seq<char>, f: Field) -> Seq<char> {
    line.subrange(field_span(f).0 as int, field_span(f).1 as int)
}

/// The fields among the first `n` whose trimmed text is not empty, with that
/// text, in declared order.
pub open spec fn present_fields(line: Seq<char>, n: int) -> Seq<(Field, Seq<char>)>
    decreases n,
{
    if n <= 0 {
        Seq::empty()
    } else {
        let rest = present_fields(line, n - 1);
        let t = trimmed(field_text(line, field_at(n - 1)));
        if t.len() > 0 {
            rest.push((field_at(n - 1), t))
        } else {
            rest
        }
    }
}

/// A line's fields as pairs of plain values.
pub open spec fn pairs_view(r: Seq<(Field, String)>) -> Seq<(Field, Seq<char>)> {
    r.map_values(|p: (Field, String)| (p.0, p.1@))
}

/// The fixed-column layout of the 2010 PL94-171 geographic header.
#[allow(non_camel_case_types)]
pub struct Pl94_171Layout;

impl Pl94_171Layout {
    /// The span of characters that `field` occupies on a line.
    pub fn get_span(field: Field) -> (r: (usize, usize))
        ensures
            r == field_span(field),
    {
        field.span()
    }

    /// Every field of `line` with its raw text, in declared order.
    pub fn all_fields(line: &str) -> (r: Vec<(Field, String)>)
        requires
            line@.len() >= LINE_LENGTH,
        ensures
            r@.len() == FIELD_COUNT,
            forall|i: int|
                0 <= i < FIELD_COUNT ==> (#[trigger] r@[i]).0 == field_at(i) && r@[i].1@
                    == field_text(line@, field_at(i)),
    {
        let mut r: Vec<(Field, String)> = Vec::new();
        for i in 0..FIELD_COUNT
            invariant
                line@.len() >= LINE_LENGTH,
                r@.len() == i,
                forall|j: int|
                    0 <= j < i ==> (#[trigger] r@[j]).0 == field_at(j) && r@[j].1@ == field_text(
                        line@,
                        field_at(j),
                    ),
        {
            let f = Field::at(i);
            let (a, b) = f.span();
            r.push((f, line.substring_char(a, b).to_owned()));
        }
        r
    }

    /// Every field of `line` with its text trimmed of whitespace, in declared order.
    pub fn all_fields_trimmed(line: &str) -> (r: Vec<(Field, String)>)
        requires
            line@.len() >= LINE_LENGTH,
        ensures
            r@.len() == FIELD_COUNT,
            forall|i: int|
                0 <= i < FIELD_COUNT ==> (#[trigger] r@[i]).0 == field_at(i) && r@[i].1@
                    == trimmed(field_text(line@, field_at(i))),
    {
        let chars = chars_of(line);
        let mut r: Vec<(Field, String)> = Vec::new();
        for i in 0..FIELD_COUNT
            invariant
                chars@ == line@,
                line@.len() >= LINE_LENGTH,
                r@.len() == i,
                forall|j: int|
                    0 <= j < i ==> (#[trigger] r@[j]).0 == field_at(j) && r@[j].1@ == trimmed(
                        field_text(line@, field_at(j)),
                    ),
        {
            let f = Field::at(i);
            let (a, b) = f.span();
            let (ta, tb) = trim_bounds(&chars, a, b);
            r.push((f, line.substring_char(ta, tb).to_owned()));
        }
        r
    }

    /// The fields of `line` whose trimmed text is not empty, with that text,
    /// in declared order.
    pub fn fields(line: &str) -> (r: Vec<(Field, String)>)
        requires
            line@.len() >= LINE_LENGTH,
        ensures
            pairs_view(r@) == present_fields(line@, FIELD_COUNT as int),
    {
        let chars = chars_of(line);
        let mut r: Vec<(Field, String)> = Vec::new();
        for i in 0..FIELD_COUNT
            invariant
                chars@ == line@,
                line@.len() >= LINE_LENGTH,
                pairs_view(r@) == present_fields(line@, i as int),
        {
            let f = Field::at(i);
            let (a, b) = f.span();
            let (ta, tb) = trim_bounds(&chars, a, b);
            if ta < tb {
                let ghost old_r = r@;
                r.push((f, line.substring_char(ta, tb).to_owned()));
                assert(pairs_view(r@) =~= pairs_view(old_r).push((f, trimmed(field_text(line@, f)))));
            }
        }
        r
    }
}

} // verus!
