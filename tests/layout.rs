use distringo::{Field, Pl94_171Layout};

const EXAMPLE_LINE: &str = "PLST  IN04000000  00000012318                                                                                                                                                                            92789193658    1537004191Indiana                                                                                   A!  6483802  2795541+39.9030256-086.283950300            00448508                                                                                                                       ";

fn as_pairs(fields: &[(Field, String)]) -> Vec<(Field, &str)> {
    fields.iter().map(|(f, s)| (*f, s.as_str())).collect()
}

#[test]
fn example_line_fields_trimmed() {
    let fields = Pl94_171Layout::all_fields_trimmed(EXAMPLE_LINE);

    assert_eq!(
        vec![
            (Field::FILEID, "PLST"),
            (Field::STUSAB, "IN"),
            (Field::SUMLEV, "040"),
            (Field::GEOCOMP, "00"),
            (Field::CHARITER, "000"),
            (Field::CIFSN, ""),
            (Field::LOGRECNO, "0000001"),
            (Field::REGION, "2"),
            (Field::DIVISION, "3"),
            (Field::STATE, "18"),
            (Field::COUNTY, ""),
            (Field::COUNTYCC, ""),
            (Field::COUNTYSC, ""),
            (Field::COUSUB, ""),
            (Field::COUSUBCC, ""),
            (Field::COUSUBSC, ""),
            (Field::PLACE, ""),
            (Field::PLACECC, ""),
            (Field::PLACESC, ""),
            (Field::TRACT, ""),
            (Field::BLKGRP, ""),
            (Field::BLOCK, ""),
            (Field::IUC, ""),
            (Field::CONCIT, ""),
            (Field::CONCITCC, ""),
            (Field::CONCITSC, ""),
            (Field::AIANHH, ""),
            (Field::AIANHHFP, ""),
            (Field::AIANHHCC, ""),
            (Field::AIHHTLI, ""),
            (Field::AITSCE, ""),
            (Field::AITS, ""),
            (Field::AITSCC, ""),
            (Field::TTRACT, ""),
            (Field::TBLKGRP, ""),
            (Field::ANRC, ""),
            (Field::ANRCCC, ""),
            (Field::CBSA, ""),
            (Field::CBASC, ""),
            (Field::METDIV, ""),
            (Field::CSA, ""),
            (Field::NECTA, ""),
            (Field::NECTASC, ""),
            (Field::NECTADIV, ""),
            (Field::CNECTA, ""),
            (Field::CBSAPCI, ""),
            (Field::NECTAPCI, ""),
            (Field::UA, ""),
            (Field::UASC, ""),
            (Field::UATYPE, ""),
            (Field::UR, ""),
            (Field::CD, ""),
            (Field::SLDU, ""),
            (Field::SLDL, ""),
            (Field::VTD, ""),
            (Field::VTDI, ""),
            (Field::RESERVE2, ""),
            (Field::ZCTA5, ""),
            (Field::SUBMCD, ""),
            (Field::SUBMCDCC, ""),
            (Field::SDELM, ""),
            (Field::SDSEC, ""),
            (Field::SDUNI, ""),
            (Field::AREALAND, "92789193658"),
            (Field::AREAWATR, "1537004191"),
            (Field::NAME, "Indiana"),
            (Field::FUNCSTAT, "A"),
            (Field::GCUNI, "!"),
            (Field::POP100, "6483802"),
            (Field::HU100, "2795541"),
            (Field::INTPTLAT, "+39.9030256"),
            (Field::INTPTLON, "-086.2839503"),
            (Field::LSADC, "00"),
            (Field::PARTFLAG, ""),
            (Field::RESERVE3, ""),
            (Field::UGA, ""),
            (Field::STATENS, "00448508"),
            (Field::COUNTYNS, ""),
            (Field::COUSUBNS, ""),
            (Field::PLACENS, ""),
            (Field::CONCITNS, ""),
            (Field::AIANHHNS, ""),
            (Field::AITSNS, ""),
            (Field::ANRCNS, ""),
            (Field::SUBMCDNS, ""),
            (Field::CD113, ""),
            (Field::CD114, ""),
            (Field::CD115, ""),
            (Field::SLDU2, ""),
            (Field::SLDU3, ""),
            (Field::SLDU4, ""),
            (Field::SLDL2, ""),
            (Field::SLDL3, ""),
            (Field::SLDL4, ""),
            (Field::AIANHHSC, ""),
            (Field::CSASC, ""),
            (Field::CNECTASC, ""),
            (Field::MEMI, ""),
            (Field::NMEMI, ""),
            (Field::PUMA, ""),
            (Field::RESERVED, ""),
        ],
        as_pairs(&fields)
    );
}

#[test]
fn example_line_fields() {
    let fields = Pl94_171Layout::all_fields(EXAMPLE_LINE);

    assert_eq!(
        vec![
            (Field::FILEID, "PLST  "),
            (Field::STUSAB, "IN"),
            (Field::SUMLEV, "040"),
            (Field::GEOCOMP, "00"),
            (Field::CHARITER, "000"),
            (Field::CIFSN, "  "),
            (Field::LOGRECNO, "0000001"),
            (Field::REGION, "2"),
            (Field::DIVISION, "3"),
            (Field::STATE, "18"),
            (Field::COUNTY, "   "),
            (Field::COUNTYCC, "  "),
            (Field::COUNTYSC, "  "),
            (Field::COUSUB, "     "),
            (Field::COUSUBCC, "  "),
            (Field::COUSUBSC, "  "),
            (Field::PLACE, "     "),
            (Field::PLACECC, "  "),
            (Field::PLACESC, "  "),
            (Field::TRACT, "      "),
            (Field::BLKGRP, " "),
            (Field::BLOCK, "    "),
            (Field::IUC, "  "),
            (Field::CONCIT, "     "),
            (Field::CONCITCC, "  "),
            (Field::CONCITSC, "  "),
            (Field::AIANHH, "    "),
            (Field::AIANHHFP, "     "),
            (Field::AIANHHCC, "  "),
            (Field::AIHHTLI, " "),
            (Field::AITSCE, "   "),
            (Field::AITS, "     "),
            (Field::AITSCC, "  "),
            (Field::TTRACT, "      "),
            (Field::TBLKGRP, " "),
            (Field::ANRC, "     "),
            (Field::ANRCCC, "  "),
            (Field::CBSA, "     "),
            (Field::CBASC, "  "),
            (Field::METDIV, "     "),
            (Field::CSA, "   "),
            (Field::NECTA, "     "),
            (Field::NECTASC, "  "),
            (Field::NECTADIV, "     "),
            (Field::CNECTA, "   "),
            (Field::CBSAPCI, " "),
            (Field::NECTAPCI, " "),
            (Field::UA, "     "),
            (Field::UASC, "  "),
            (Field::UATYPE, " "),
            (Field::UR, " "),
            (Field::CD, "  "),
            (Field::SLDU, "   "),
            (Field::SLDL, "   "),
            (Field::VTD, "      "),
            (Field::VTDI, " "),
            (Field::RESERVE2, "   "),
            (Field::ZCTA5, "     "),
            (Field::SUBMCD, "     "),
            (Field::SUBMCDCC, "  "),
            (Field::SDELM, "     "),
            (Field::SDSEC, "     "),
            (Field::SDUNI, "     "),
            (Field::AREALAND, "   92789193658"),
            (Field::AREAWATR, "    1537004191"),
            (Field::NAME, "Indiana                                                                                   "),
            (Field::FUNCSTAT, "A"),
            (Field::GCUNI, "!"),
            (Field::POP100, "  6483802"),
            (Field::HU100, "  2795541"),
            (Field::INTPTLAT, "+39.9030256"),
            (Field::INTPTLON, "-086.2839503"),
            (Field::LSADC, "00"),
            (Field::PARTFLAG, " "),
            (Field::RESERVE3, "      "),
            (Field::UGA, "     "),
            (Field::STATENS, "00448508"),
            (Field::COUNTYNS, "        "),
            (Field::COUSUBNS, "        "),
            (Field::PLACENS, "        "),
            (Field::CONCITNS, "        "),
            (Field::AIANHHNS, "        "),
            (Field::AITSNS, "        "),
            (Field::ANRCNS, "        "),
            (Field::SUBMCDNS, "        "),
            (Field::CD113, "  "),
            (Field::CD114, "  "),
            (Field::CD115, "  "),
            (Field::SLDU2, "   "),
            (Field::SLDU3, "   "),
            (Field::SLDU4, "   "),
            (Field::SLDL2, "   "),
            (Field::SLDL3, "   "),
            (Field::SLDL4, "   "),
            (Field::AIANHHSC, "  "),
            (Field::CSASC, "  "),
            (Field::CNECTASC, "  "),
            (Field::MEMI, " "),
            (Field::NMEMI, " "),
            (Field::PUMA, "     "),
            (Field::RESERVED, "                  "),
        ],
        as_pairs(&fields)
    );
}

#[test]
fn example_line_fields_nonempty() {
    let fields = Pl94_171Layout::fields(EXAMPLE_LINE);

    assert_eq!(
        vec![
            (Field::FILEID, "PLST"),
            (Field::STUSAB, "IN"),
            (Field::SUMLEV, "040"),
            (Field::GEOCOMP, "00"),
            (Field::CHARITER, "000"),
            (Field::LOGRECNO, "0000001"),
            (Field::REGION, "2"),
            (Field::DIVISION, "3"),
            (Field::STATE, "18"),
            (Field::AREALAND, "92789193658"),
            (Field::AREAWATR, "1537004191"),
            (Field::NAME, "Indiana"),
            (Field::FUNCSTAT, "A"),
            (Field::GCUNI, "!"),
            (Field::POP100, "6483802"),
            (Field::HU100, "2795541"),
            (Field::INTPTLAT, "+39.9030256"),
            (Field::INTPTLON, "-086.2839503"),
            (Field::LSADC, "00"),
            (Field::STATENS, "00448508"),
        ],
        as_pairs(&fields)
    );
}
