use vstd::prelude::*;

verus! {

/// Simple lowercase mapping over the scripts the library normalizes: Basic
/// Latin, the Latin-1 Supplement, Latin Extended-A, Greek and Cyrillic.
/// A character outside these ranges is unchanged, so case mapping is the
/// identity on other scripts (fullwidth forms, Armenian, ...).
pub open spec fn lower_char(c: char) -> char {
    match c {
        'A' => 'a',
        'B' => 'b',
        'C' => 'c',
        'D' => 'd',
        'E' => 'e',
        'F' => 'f',
        'G' => 'g',
        'H' => 'h',
        'I' => 'i',
        'J' => 'j',
        'K' => 'k',
        'L' => 'l',
        'M' => 'm',
        'N' => 'n',
        'O' => 'o',
        'P' => 'p',
        'Q' => 'q',
        'R' => 'r',
        'S' => 's',
        'T' => 't',
        'U' => 'u',
        'V' => 'v',
        'W' => 'w',
        'X' => 'x',
        'Y' => 'y',
        'Z' => 'z',
        '\u{00c0}' => '\u{00e0}',
        '\u{00c1}' => '\u{00e1}',
        '\u{00c2}' => '\u{00e2}',
        '\u{00c3}' => '\u{00e3}',
        '\u{00c4}' => '\u{00e4}',
        '\u{00c5}' => '\u{00e5}',
        '\u{00c6}' => '\u{00e6}',
        '\u{00c7}' => '\u{00e7}',
        '\u{00c8}' => '\u{00e8}',
        '\u{00c9}' => '\u{00e9}',
        '\u{00ca}' => '\u{00ea}',
        '\u{00cb}' => '\u{00eb}',
        '\u{00cc}' => '\u{00ec}',
        '\u{00cd}' => '\u{00ed}',
        '\u{00ce}' => '\u{00ee}',
        '\u{00cf}' => '\u{00ef}',
        '\u{00d0}' => '\u{00f0}',
        '\u{00d1}' => '\u{00f1}',
        '\u{00d2}' => '\u{00f2}',
        '\u{00d3}' => '\u{00f3}',
        '\u{00d4}' => '\u{00f4}',
        '\u{00d5}' => '\u{00f5}',
        '\u{00d6}' => '\u{00f6}',
        '\u{00d8}' => '\u{00f8}',
        '\u{00d9}' => '\u{00f9}',
        '\u{00da}' => '\u{00fa}',
        '\u{00db}' => '\u{00fb}',
        '\u{00dc}' => '\u{00fc}',
        '\u{00dd}' => '\u{00fd}',
        '\u{00de}' => '\u{00fe}',
        '\u{0100}' => '\u{0101}',
        '\u{0102}' => '\u{0103}',
        '\u{0104}' => '\u{0105}',
        '\u{0106}' => '\u{0107}',
        '\u{0108}' => '\u{0109}',
        '\u{010a}' => '\u{010b}',
        '\u{010c}' => '\u{010d}',
        '\u{010e}' => '\u{010f}',
        '\u{0110}' => '\u{0111}',
        '\u{0112}' => '\u{0113}',
        '\u{0114}' => '\u{0115}',
        '\u{0116}' => '\u{0117}',
        '\u{0118}' => '\u{0119}',
        '\u{011a}' => '\u{011b}',
        '\u{011c}' => '\u{011d}',
        '\u{011e}' => '\u{011f}',
        '\u{0120}' => '\u{0121}',
        '\u{0122}' => '\u{0123}',
        '\u{0124}' => '\u{0125}',
        '\u{0126}' => '\u{0127}',
        '\u{0128}' => '\u{0129}',
        '\u{012a}' => '\u{012b}',
        '\u{012c}' => '\u{012d}',
        '\u{012e}' => '\u{012f}',
        '\u{0132}' => '\u{0133}',
        '\u{0134}' => '\u{0135}',
        '\u{0136}' => '\u{0137}',
        '\u{0139}' => '\u{013a}',
        '\u{013b}' => '\u{013c}',
        '\u{013d}' => '\u{013e}',
        '\u{013f}' => '\u{0140}',
        '\u{0141}' => '\u{0142}',
        '\u{0143}' => '\u{0144}',
        '\u{0145}' => '\u{0146}',
        '\u{0147}' => '\u{0148}',
        '\u{014a}' => '\u{014b}',
        '\u{014c}' => '\u{014d}',
        '\u{014e}' => '\u{014f}',
        '\u{0150}' => '\u{0151}',
        '\u{0152}' => '\u{0153}',
        '\u{0154}' => '\u{0155}',
        '\u{0156}' => '\u{0157}',
        '\u{0158}' => '\u{0159}',
        '\u{015a}' => '\u{015b}',
        '\u{015c}' => '\u{015d}',
        '\u{015e}' => '\u{015f}',
        '\u{0160}' => '\u{0161}',
        '\u{0162}' => '\u{0163}',
        '\u{0164}' => '\u{0165}',
        '\u{0166}' => '\u{0167}',
        '\u{0168}' => '\u{0169}',
        '\u{016a}' => '\u{016b}',
        '\u{016c}' => '\u{016d}',
        '\u{016e}' => '\u{016f}',
        '\u{0170}' => '\u{0171}',
        '\u{0172}' => '\u{0173}',
        '\u{0174}' => '\u{0175}',
        '\u{0176}' => '\u{0177}',
        '\u{0178}' => '\u{00ff}',
        '\u{0179}' => '\u{017a}',
        '\u{017b}' => '\u{017c}',
        '\u{017d}' => '\u{017e}',
        '\u{0386}' => '\u{03ac}',
        '\u{0388}' => '\u{03ad}',
        '\u{0389}' => '\u{03ae}',
        '\u{038a}' => '\u{03af}',
        '\u{038c}' => '\u{03cc}',
        '\u{038e}' => '\u{03cd}',
        '\u{038f}' => '\u{03ce}',
        '\u{0391}' => '\u{03b1}',
        '\u{0392}' => '\u{03b2}',
        '\u{0393}' => '\u{03b3}',
        '\u{0394}' => '\u{03b4}',
        '\u{0395}' => '\u{03b5}',
        '\u{0396}' => '\u{03b6}',
        '\u{0397}' => '\u{03b7}',
        '\u{0398}' => '\u{03b8}',
        '\u{0399}' => '\u{03b9}',
        '\u{039a}' => '\u{03ba}',
        '\u{039b}' => '\u{03bb}',
        '\u{039c}' => '\u{03bc}',
        '\u{039d}' => '\u{03bd}',
        '\u{039e}' => '\u{03be}',
        '\u{039f}' => '\u{03bf}',
        '\u{03a0}' => '\u{03c0}',
        '\u{03a1}' => '\u{03c1}',
        '\u{03a3}' => '\u{03c3}',
        '\u{03a4}' => '\u{03c4}',
        '\u{03a5}' => '\u{03c5}',
        '\u{03a6}' => '\u{03c6}',
        '\u{03a7}' => '\u{03c7}',
        '\u{03a8}' => '\u{03c8}',
        '\u{03a9}' => '\u{03c9}',
        '\u{03aa}' => '\u{03ca}',
        '\u{03ab}' => '\u{03cb}',
        '\u{0400}' => '\u{0450}',
        '\u{0401}' => '\u{0451}',
        '\u{0402}' => '\u{0452}',
        '\u{0403}' => '\u{0453}',
        '\u{0404}' => '\u{0454}',
        '\u{0405}' => '\u{0455}',
        '\u{0406}' => '\u{0456}',
        '\u{0407}' => '\u{0457}',
        '\u{0408}' => '\u{0458}',
        '\u{0409}' => '\u{0459}',
        '\u{040a}' => '\u{045a}',
        '\u{040b}' => '\u{045b}',
        '\u{040c}' => '\u{045c}',
        '\u{040d}' => '\u{045d}',
        '\u{040e}' => '\u{045e}',
        '\u{040f}' => '\u{045f}',
        '\u{0410}' => '\u{0430}',
        '\u{0411}' => '\u{0431}',
        '\u{0412}' => '\u{0432}',
        '\u{0413}' => '\u{0433}',
        '\u{0414}' => '\u{0434}',
        '\u{0415}' => '\u{0435}',
        '\u{0416}' => '\u{0436}',
        '\u{0417}' => '\u{0437}',
        '\u{0418}' => '\u{0438}',
        '\u{0419}' => '\u{0439}',
        '\u{041a}' => '\u{043a}',
        '\u{041b}' => '\u{043b}',
        '\u{041c}' => '\u{043c}',
        '\u{041d}' => '\u{043d}',
        '\u{041e}' => '\u{043e}',
        '\u{041f}' => '\u{043f}',
        '\u{0420}' => '\u{0440}',
        '\u{0421}' => '\u{0441}',
        '\u{0422}' => '\u{0442}',
        '\u{0423}' => '\u{0443}',
        '\u{0424}' => '\u{0444}',
        '\u{0425}' => '\u{0445}',
        '\u{0426}' => '\u{0446}',
        '\u{0427}' => '\u{0447}',
        '\u{0428}' => '\u{0448}',
        '\u{0429}' => '\u{0449}',
        '\u{042a}' => '\u{044a}',
        '\u{042b}' => '\u{044b}',
        '\u{042c}' => '\u{044c}',
        '\u{042d}' => '\u{044d}',
        '\u{042e}' => '\u{044e}',
        '\u{042f}' => '\u{044f}',
        '\u{0490}' => '\u{0491}',
        _ => c,
    }
}

pub fn to_lower_char(c: char) -> (r: char)
    ensures
        r == lower_char(c),
{
    match c {
        'A' => 'a',
        'B' => 'b',
        'C' => 'c',
        'D' => 'd',
        'E' => 'e',
        'F' => 'f',
        'G' => 'g',
        'H' => 'h',
        'I' => 'i',
        'J' => 'j',
        'K' => 'k',
        'L' => 'l',
        'M' => 'm',
        'N' => 'n',
        'O' => 'o',
        'P' => 'p',
        'Q' => 'q',
        'R' => 'r',
        'S' => 's',
        'T' => 't',
        'U' => 'u',
        'V' => 'v',
        'W' => 'w',
        'X' => 'x',
        'Y' => 'y',
        'Z' => 'z',
        '\u{00c0}' => '\u{00e0}',
        '\u{00c1}' => '\u{00e1}',
        '\u{00c2}' => '\u{00e2}',
        '\u{00c3}' => '\u{00e3}',
        '\u{00c4}' => '\u{00e4}',
        '\u{00c5}' => '\u{00e5}',
        '\u{00c6}' => '\u{00e6}',
        '\u{00c7}' => '\u{00e7}',
        '\u{00c8}' => '\u{00e8}',
        '\u{00c9}' => '\u{00e9}',
        '\u{00ca}' => '\u{00ea}',
        '\u{00cb}' => '\u{00eb}',
        '\u{00cc}' => '\u{00ec}',
        '\u{00cd}' => '\u{00ed}',
        '\u{00ce}' => '\u{00ee}',
        '\u{00cf}' => '\u{00ef}',
        '\u{00d0}' => '\u{00f0}',
        '\u{00d1}' => '\u{00f1}',
        '\u{00d2}' => '\u{00f2}',
        '\u{00d3}' => '\u{00f3}',
        '\u{00d4}' => '\u{00f4}',
        '\u{00d5}' => '\u{00f5}',
        '\u{00d6}' => '\u{00f6}',
        '\u{00d8}' => '\u{00f8}',
        '\u{00d9}' => '\u{00f9}',
        '\u{00da}' => '\u{00fa}',
        '\u{00db}' => '\u{00fb}',
        '\u{00dc}' => '\u{00fc}',
        '\u{00dd}' => '\u{00fd}',
        '\u{00de}' => '\u{00fe}',
        '\u{0100}' => '\u{0101}',
        '\u{0102}' => '\u{0103}',
        '\u{0104}' => '\u{0105}',
        '\u{0106}' => '\u{0107}',
        '\u{0108}' => '\u{0109}',
        '\u{010a}' => '\u{010b}',
        '\u{010c}' => '\u{010d}',
        '\u{010e}' => '\u{010f}',
        '\u{0110}' => '\u{0111}',
        '\u{0112}' => '\u{0113}',
        '\u{0114}' => '\u{0115}',
        '\u{0116}' => '\u{0117}',
        '\u{0118}' => '\u{0119}',
        '\u{011a}' => '\u{011b}',
        '\u{011c}' => '\u{011d}',
        '\u{011e}' => '\u{011f}',
        '\u{0120}' => '\u{0121}',
        '\u{0122}' => '\u{0123}',
        '\u{0124}' => '\u{0125}',
        '\u{0126}' => '\u{0127}',
        '\u{0128}' => '\u{0129}',
        '\u{012a}' => '\u{012b}',
        '\u{012c}' => '\u{012d}',
        '\u{012e}' => '\u{012f}',
        '\u{0132}' => '\u{0133}',
        '\u{0134}' => '\u{0135}',
        '\u{0136}' => '\u{0137}',
        '\u{0139}' => '\u{013a}',
        '\u{013b}' => '\u{013c}',
        '\u{013d}' => '\u{013e}',
        '\u{013f}' => '\u{0140}',
        '\u{0141}' => '\u{0142}',
        '\u{0143}' => '\u{0144}',
        '\u{0145}' => '\u{0146}',
        '\u{0147}' => '\u{0148}',
        '\u{014a}' => '\u{014b}',
        '\u{014c}' => '\u{014d}',
        '\u{014e}' => '\u{014f}',
        '\u{0150}' => '\u{0151}',
        '\u{0152}' => '\u{0153}',
        '\u{0154}' => '\u{0155}',
        '\u{0156}' => '\u{0157}',
        '\u{0158}' => '\u{0159}',
        '\u{015a}' => '\u{015b}',
        '\u{015c}' => '\u{015d}',
        '\u{015e}' => '\u{015f}',
        '\u{0160}' => '\u{0161}',
        '\u{0162}' => '\u{0163}',
        '\u{0164}' => '\u{0165}',
        '\u{0166}' => '\u{0167}',
        '\u{0168}' => '\u{0169}',
        '\u{016a}' => '\u{016b}',
        '\u{016c}' => '\u{016d}',
        '\u{016e}' => '\u{016f}',
        '\u{0170}' => '\u{0171}',
        '\u{0172}' => '\u{0173}',
        '\u{0174}' => '\u{0175}',
        '\u{0176}' => '\u{0177}',
        '\u{0178}' => '\u{00ff}',
        '\u{0179}' => '\u{017a}',
        '\u{017b}' => '\u{017c}',
        '\u{017d}' => '\u{017e}',
        '\u{0386}' => '\u{03ac}',
        '\u{0388}' => '\u{03ad}',
        '\u{0389}' => '\u{03ae}',
        '\u{038a}' => '\u{03af}',
        '\u{038c}' => '\u{03cc}',
        '\u{038e}' => '\u{03cd}',
        '\u{038f}' => '\u{03ce}',
        '\u{0391}' => '\u{03b1}',
        '\u{0392}' => '\u{03b2}',
        '\u{0393}' => '\u{03b3}',
        '\u{0394}' => '\u{03b4}',
        '\u{0395}' => '\u{03b5}',
        '\u{0396}' => '\u{03b6}',
        '\u{0397}' => '\u{03b7}',
        '\u{0398}' => '\u{03b8}',
        '\u{0399}' => '\u{03b9}',
        '\u{039a}' => '\u{03ba}',
        '\u{039b}' => '\u{03bb}',
        '\u{039c}' => '\u{03bc}',
        '\u{039d}' => '\u{03bd}',
        '\u{039e}' => '\u{03be}',
        '\u{039f}' => '\u{03bf}',
        '\u{03a0}' => '\u{03c0}',
        '\u{03a1}' => '\u{03c1}',
        '\u{03a3}' => '\u{03c3}',
        '\u{03a4}' => '\u{03c4}',
        '\u{03a5}' => '\u{03c5}',
        '\u{03a6}' => '\u{03c6}',
        '\u{03a7}' => '\u{03c7}',
        '\u{03a8}' => '\u{03c8}',
        '\u{03a9}' => '\u{03c9}',
        '\u{03aa}' => '\u{03ca}',
        '\u{03ab}' => '\u{03cb}',
        '\u{0400}' => '\u{0450}',
        '\u{0401}' => '\u{0451}',
        '\u{0402}' => '\u{0452}',
        '\u{0403}' => '\u{0453}',
        '\u{0404}' => '\u{0454}',
        '\u{0405}' => '\u{0455}',
        '\u{0406}' => '\u{0456}',
        '\u{0407}' => '\u{0457}',
        '\u{0408}' => '\u{0458}',
        '\u{0409}' => '\u{0459}',
        '\u{040a}' => '\u{045a}',
        '\u{040b}' => '\u{045b}',
        '\u{040c}' => '\u{045c}',
        '\u{040d}' => '\u{045d}',
        '\u{040e}' => '\u{045e}',
        '\u{040f}' => '\u{045f}',
        '\u{0410}' => '\u{0430}',
        '\u{0411}' => '\u{0431}',
        '\u{0412}' => '\u{0432}',
        '\u{0413}' => '\u{0433}',
        '\u{0414}' => '\u{0434}',
        '\u{0415}' => '\u{0435}',
        '\u{0416}' => '\u{0436}',
        '\u{0417}' => '\u{0437}',
        '\u{0418}' => '\u{0438}',
        '\u{0419}' => '\u{0439}',
        '\u{041a}' => '\u{043a}',
        '\u{041b}' => '\u{043b}',
        '\u{041c}' => '\u{043c}',
        '\u{041d}' => '\u{043d}',
        '\u{041e}' => '\u{043e}',
        '\u{041f}' => '\u{043f}',
        '\u{0420}' => '\u{0440}',
        '\u{0421}' => '\u{0441}',
        '\u{0422}' => '\u{0442}',
        '\u{0423}' => '\u{0443}',
        '\u{0424}' => '\u{0444}',
        '\u{0425}' => '\u{0445}',
        '\u{0426}' => '\u{0446}',
        '\u{0427}' => '\u{0447}',
        '\u{0428}' => '\u{0448}',
        '\u{0429}' => '\u{0449}',
        '\u{042a}' => '\u{044a}',
        '\u{042b}' => '\u{044b}',
        '\u{042c}' => '\u{044c}',
        '\u{042d}' => '\u{044d}',
        '\u{042e}' => '\u{044e}',
        '\u{042f}' => '\u{044f}',
        '\u{0490}' => '\u{0491}',
        _ => c,
    }
}

/// Diacritic folding: a lowercase letter of the Latin-1 Supplement or of
/// Latin Extended-A carrying an accent collapses to its base ASCII letter;
/// all other characters (Greek, Cyrillic, CJK, ...) are unchanged.
pub open spec fn fold_char(c: char) -> char {
    match c {
        '\u{00e0}' => 'a',
        '\u{00e1}' => 'a',
        '\u{00e2}' => 'a',
        '\u{00e3}' => 'a',
        '\u{00e4}' => 'a',
        '\u{00e5}' => 'a',
        '\u{00e7}' => 'c',
        '\u{00e8}' => 'e',
        '\u{00e9}' => 'e',
        '\u{00ea}' => 'e',
        '\u{00eb}' => 'e',
        '\u{00ec}' => 'i',
        '\u{00ed}' => 'i',
        '\u{00ee}' => 'i',
        '\u{00ef}' => 'i',
        '\u{00f1}' => 'n',
        '\u{00f2}' => 'o',
        '\u{00f3}' => 'o',
        '\u{00f4}' => 'o',
        '\u{00f5}' => 'o',
        '\u{00f6}' => 'o',
        '\u{00f8}' => 'o',
        '\u{00f9}' => 'u',
        '\u{00fa}' => 'u',
        '\u{00fb}' => 'u',
        '\u{00fc}' => 'u',
        '\u{00fd}' => 'y',
        '\u{00ff}' => 'y',
        '\u{0101}' => 'a',
        '\u{0103}' => 'a',
        '\u{0105}' => 'a',
        '\u{0107}' => 'c',
        '\u{0109}' => 'c',
        '\u{010b}' => 'c',
        '\u{010d}' => 'c',
        '\u{010f}' => 'd',
        '\u{0111}' => 'd',
        '\u{0113}' => 'e',
        '\u{0115}' => 'e',
        '\u{0117}' => 'e',
        '\u{0119}' => 'e',
        '\u{011b}' => 'e',
        '\u{011d}' => 'g',
        '\u{011f}' => 'g',
        '\u{0121}' => 'g',
        '\u{0123}' => 'g',
        '\u{0125}' => 'h',
        '\u{0127}' => 'h',
        '\u{0129}' => 'i',
        '\u{012b}' => 'i',
        '\u{012d}' => 'i',
        '\u{012f}' => 'i',
        '\u{0131}' => 'i',
        '\u{0135}' => 'j',
        '\u{0137}' => 'k',
        '\u{013a}' => 'l',
        '\u{013c}' => 'l',
        '\u{013e}' => 'l',
        '\u{0142}' => 'l',
        '\u{0144}' => 'n',
        '\u{0146}' => 'n',
        '\u{0148}' => 'n',
        '\u{014d}' => 'o',
        '\u{014f}' => 'o',
        '\u{0151}' => 'o',
        '\u{0155}' => 'r',
        '\u{0157}' => 'r',
        '\u{0159}' => 'r',
        '\u{015b}' => 's',
        '\u{015d}' => 's',
        '\u{015f}' => 's',
        '\u{0161}' => 's',
        '\u{0163}' => 't',
        '\u{0165}' => 't',
        '\u{0167}' => 't',
        '\u{0169}' => 'u',
        '\u{016b}' => 'u',
        '\u{016d}' => 'u',
        '\u{016f}' => 'u',
        '\u{0171}' => 'u',
        '\u{0173}' => 'u',
        '\u{0175}' => 'w',
        '\u{0177}' => 'y',
        '\u{017a}' => 'z',
        '\u{017c}' => 'z',
        '\u{017e}' => 'z',
        _ => c,
    }
}

pub fn to_fold_char(c: char) -> (r: char)
    ensures
        r == fold_char(c),
{
    match c {
        '\u{00e0}' => 'a',
        '\u{00e1}' => 'a',
        '\u{00e2}' => 'a',
        '\u{00e3}' => 'a',
        '\u{00e4}' => 'a',
        '\u{00e5}' => 'a',
        '\u{00e7}' => 'c',
        '\u{00e8}' => 'e',
        '\u{00e9}' => 'e',
        '\u{00ea}' => 'e',
        '\u{00eb}' => 'e',
        '\u{00ec}' => 'i',
        '\u{00ed}' => 'i',
        '\u{00ee}' => 'i',
        '\u{00ef}' => 'i',
        '\u{00f1}' => 'n',
        '\u{00f2}' => 'o',
        '\u{00f3}' => 'o',
        '\u{00f4}' => 'o',
        '\u{00f5}' => 'o',
        '\u{00f6}' => 'o',
        '\u{00f8}' => 'o',
        '\u{00f9}' => 'u',
        '\u{00fa}' => 'u',
        '\u{00fb}' => 'u',
        '\u{00fc}' => 'u',
        '\u{00fd}' => 'y',
        '\u{00ff}' => 'y',
        '\u{0101}' => 'a',
        '\u{0103}' => 'a',
        '\u{0105}' => 'a',
        '\u{0107}' => 'c',
        '\u{0109}' => 'c',
        '\u{010b}' => 'c',
        '\u{010d}' => 'c',
        '\u{010f}' => 'd',
        '\u{0111}' => 'd',
        '\u{0113}' => 'e',
        '\u{0115}' => 'e',
        '\u{0117}' => 'e',
        '\u{0119}' => 'e',
        '\u{011b}' => 'e',
        '\u{011d}' => 'g',
        '\u{011f}' => 'g',
        '\u{0121}' => 'g',
        '\u{0123}' => 'g',
        '\u{0125}' => 'h',
        '\u{0127}' => 'h',
        '\u{0129}' => 'i',
        '\u{012b}' => 'i',
        '\u{012d}' => 'i',
        '\u{012f}' => 'i',
        '\u{0131}' => 'i',
        '\u{0135}' => 'j',
        '\u{0137}' => 'k',
        '\u{013a}' => 'l',
        '\u{013c}' => 'l',
        '\u{013e}' => 'l',
        '\u{0142}' => 'l',
        '\u{0144}' => 'n',
        '\u{0146}' => 'n',
        '\u{0148}' => 'n',
        '\u{014d}' => 'o',
        '\u{014f}' => 'o',
        '\u{0151}' => 'o',
        '\u{0155}' => 'r',
        '\u{0157}' => 'r',
        '\u{0159}' => 'r',
        '\u{015b}' => 's',
        '\u{015d}' => 's',
        '\u{015f}' => 's',
        '\u{0161}' => 's',
        '\u{0163}' => 't',
        '\u{0165}' => 't',
        '\u{0167}' => 't',
        '\u{0169}' => 'u',
        '\u{016b}' => 'u',
        '\u{016d}' => 'u',
        '\u{016f}' => 'u',
        '\u{0171}' => 'u',
        '\u{0173}' => 'u',
        '\u{0175}' => 'w',
        '\u{0177}' => 'y',
        '\u{017a}' => 'z',
        '\u{017c}' => 'z',
        '\u{017e}' => 'z',
        _ => c,
    }
}

/// Simple uppercase mapping, the inverse direction of `lower_char`, over
/// the same ranges: Basic Latin, the Latin-1 Supplement, Latin Extended-A,
/// Greek and Cyrillic. A character outside these ranges is unchanged.
pub open spec fn upper_char(c: char) -> char {
    match c {
        'a' => 'A',
        'b' => 'B',
        'c' => 'C',
        'd' => 'D',
        'e' => 'E',
        'f' => 'F',
        'g' => 'G',
        'h' => 'H',
        'i' => 'I',
        'j' => 'J',
        'k' => 'K',
        'l' => 'L',
        'm' => 'M',
        'n' => 'N',
        'o' => 'O',
        'p' => 'P',
        'q' => 'Q',
        'r' => 'R',
        's' => 'S',
        't' => 'T',
        'u' => 'U',
        'v' => 'V',
        'w' => 'W',
        'x' => 'X',
        'y' => 'Y',
        'z' => 'Z',
        '\u{00e0}' => '\u{00c0}',
        '\u{00e1}' => '\u{00c1}',
        '\u{00e2}' => '\u{00c2}',
        '\u{00e3}' => '\u{00c3}',
        '\u{00e4}' => '\u{00c4}',
        '\u{00e5}' => '\u{00c5}',
        '\u{00e6}' => '\u{00c6}',
        '\u{00e7}' => '\u{00c7}',
        '\u{00e8}' => '\u{00c8}',
        '\u{00e9}' => '\u{00c9}',
        '\u{00ea}' => '\u{00ca}',
        '\u{00eb}' => '\u{00cb}',
        '\u{00ec}' => '\u{00cc}',
        '\u{00ed}' => '\u{00cd}',
        '\u{00ee}' => '\u{00ce}',
        '\u{00ef}' => '\u{00cf}',
        '\u{00f0}' => '\u{00d0}',
        '\u{00f1}' => '\u{00d1}',
        '\u{00f2}' => '\u{00d2}',
        '\u{00f3}' => '\u{00d3}',
        '\u{00f4}' => '\u{00d4}',
        '\u{00f5}' => '\u{00d5}',
        '\u{00f6}' => '\u{00d6}',
        '\u{00f8}' => '\u{00d8}',
        '\u{00f9}' => '\u{00d9}',
        '\u{00fa}' => '\u{00da}',
        '\u{00fb}' => '\u{00db}',
        '\u{00fc}' => '\u{00dc}',
        '\u{00fd}' => '\u{00dd}',
        '\u{00fe}' => '\u{00de}',
        '\u{00ff}' => '\u{0178}',
        '\u{0101}' => '\u{0100}',
        '\u{0103}' => '\u{0102}',
        '\u{0105}' => '\u{0104}',
        '\u{0107}' => '\u{0106}',
        '\u{0109}' => '\u{0108}',
        '\u{010b}' => '\u{010a}',
        '\u{010d}' => '\u{010c}',
        '\u{010f}' => '\u{010e}',
        '\u{0111}' => '\u{0110}',
        '\u{0113}' => '\u{0112}',
        '\u{0115}' => '\u{0114}',
        '\u{0117}' => '\u{0116}',
        '\u{0119}' => '\u{0118}',
        '\u{011b}' => '\u{011a}',
        '\u{011d}' => '\u{011c}',
        '\u{011f}' => '\u{011e}',
        '\u{0121}' => '\u{0120}',
        '\u{0123}' => '\u{0122}',
        '\u{0125}' => '\u{0124}',
        '\u{0127}' => '\u{0126}',
        '\u{0129}' => '\u{0128}',
        '\u{012b}' => '\u{012a}',
        '\u{012d}' => '\u{012c}',
        '\u{012f}' => '\u{012e}',
        '\u{0131}' => 'I',
        '\u{0133}' => '\u{0132}',
        '\u{0135}' => '\u{0134}',
        '\u{0137}' => '\u{0136}',
        '\u{013a}' => '\u{0139}',
        '\u{013c}' => '\u{013b}',
        '\u{013e}' => '\u{013d}',
        '\u{0140}' => '\u{013f}',
        '\u{0142}' => '\u{0141}',
        '\u{0144}' => '\u{0143}',
        '\u{0146}' => '\u{0145}',
        '\u{0148}' => '\u{0147}',
        '\u{014b}' => '\u{014a}',
        '\u{014d}' => '\u{014c}',
        '\u{014f}' => '\u{014e}',
        '\u{0151}' => '\u{0150}',
        '\u{0153}' => '\u{0152}',
        '\u{0155}' => '\u{0154}',
        '\u{0157}' => '\u{0156}',
        '\u{0159}' => '\u{0158}',
        '\u{015b}' => '\u{015a}',
        '\u{015d}' => '\u{015c}',
        '\u{015f}' => '\u{015e}',
        '\u{0161}' => '\u{0160}',
        '\u{0163}' => '\u{0162}',
        '\u{0165}' => '\u{0164}',
        '\u{0167}' => '\u{0166}',
        '\u{0169}' => '\u{0168}',
        '\u{016b}' => '\u{016a}',
        '\u{016d}' => '\u{016c}',
        '\u{016f}' => '\u{016e}',
        '\u{0171}' => '\u{0170}',
        '\u{0173}' => '\u{0172}',
        '\u{0175}' => '\u{0174}',
        '\u{0177}' => '\u{0176}',
        '\u{017a}' => '\u{0179}',
        '\u{017c}' => '\u{017b}',
        '\u{017e}' => '\u{017d}',
        '\u{017f}' => 'S',
        '\u{03ac}' => '\u{0386}',
        '\u{03ad}' => '\u{0388}',
        '\u{03ae}' => '\u{0389}',
        '\u{03af}' => '\u{038a}',
        '\u{03b1}' => '\u{0391}',
        '\u{03b2}' => '\u{0392}',
        '\u{03b3}' => '\u{0393}',
        '\u{03b4}' => '\u{0394}',
        '\u{03b5}' => '\u{0395}',
        '\u{03b6}' => '\u{0396}',
        '\u{03b7}' => '\u{0397}',
        '\u{03b8}' => '\u{0398}',
        '\u{03b9}' => '\u{0399}',
        '\u{03ba}' => '\u{039a}',
        '\u{03bb}' => '\u{039b}',
        '\u{03bc}' => '\u{039c}',
        '\u{03bd}' => '\u{039d}',
        '\u{03be}' => '\u{039e}',
        '\u{03bf}' => '\u{039f}',
        '\u{03c0}' => '\u{03a0}',
        '\u{03c1}' => '\u{03a1}',
        '\u{03c2}' => '\u{03a3}',
        '\u{03c3}' => '\u{03a3}',
        '\u{03c4}' => '\u{03a4}',
        '\u{03c5}' => '\u{03a5}',
        '\u{03c6}' => '\u{03a6}',
        '\u{03c7}' => '\u{03a7}',
        '\u{03c8}' => '\u{03a8}',
        '\u{03c9}' => '\u{03a9}',
        '\u{03ca}' => '\u{03aa}',
        '\u{03cb}' => '\u{03ab}',
        '\u{03cc}' => '\u{038c}',
        '\u{03cd}' => '\u{038e}',
        '\u{03ce}' => '\u{038f}',
        '\u{0430}' => '\u{0410}',
        '\u{0431}' => '\u{0411}',
        '\u{0432}' => '\u{0412}',
        '\u{0433}' => '\u{0413}',
        '\u{0434}' => '\u{0414}',
        '\u{0435}' => '\u{0415}',
        '\u{0436}' => '\u{0416}',
        '\u{0437}' => '\u{0417}',
        '\u{0438}' => '\u{0418}',
        '\u{0439}' => '\u{0419}',
        '\u{043a}' => '\u{041a}',
        '\u{043b}' => '\u{041b}',
        '\u{043c}' => '\u{041c}',
        '\u{043d}' => '\u{041d}',
        '\u{043e}' => '\u{041e}',
        '\u{043f}' => '\u{041f}',
        '\u{0440}' => '\u{0420}',
        '\u{0441}' => '\u{0421}',
        '\u{0442}' => '\u{0422}',
        '\u{0443}' => '\u{0423}',
        '\u{0444}' => '\u{0424}',
        '\u{0445}' => '\u{0425}',
        '\u{0446}' => '\u{0426}',
        '\u{0447}' => '\u{0427}',
        '\u{0448}' => '\u{0428}',
        '\u{0449}' => '\u{0429}',
        '\u{044a}' => '\u{042a}',
        '\u{044b}' => '\u{042b}',
        '\u{044c}' => '\u{042c}',
        '\u{044d}' => '\u{042d}',
        '\u{044e}' => '\u{042e}',
        '\u{044f}' => '\u{042f}',
        '\u{0450}' => '\u{0400}',
        '\u{0451}' => '\u{0401}',
        '\u{0452}' => '\u{0402}',
        '\u{0453}' => '\u{0403}',
        '\u{0454}' => '\u{0404}',
        '\u{0455}' => '\u{0405}',
        '\u{0456}' => '\u{0406}',
        '\u{0457}' => '\u{0407}',
        '\u{0458}' => '\u{0408}',
        '\u{0459}' => '\u{0409}',
        '\u{045a}' => '\u{040a}',
        '\u{045b}' => '\u{040b}',
        '\u{045c}' => '\u{040c}',
        '\u{045d}' => '\u{040d}',
        '\u{045e}' => '\u{040e}',
        '\u{045f}' => '\u{040f}',
        '\u{0491}' => '\u{0490}',
        _ => c,
    }
}

pub fn to_upper_char(c: char) -> (r: char)
    ensures
        r == upper_char(c),
{
    match c {
        'a' => 'A',
        'b' => 'B',
        'c' => 'C',
        'd' => 'D',
        'e' => 'E',
        'f' => 'F',
        'g' => 'G',
        'h' => 'H',
        'i' => 'I',
        'j' => 'J',
        'k' => 'K',
        'l' => 'L',
        'm' => 'M',
        'n' => 'N',
        'o' => 'O',
        'p' => 'P',
        'q' => 'Q',
        'r' => 'R',
        's' => 'S',
        't' => 'T',
        'u' => 'U',
        'v' => 'V',
        'w' => 'W',
        'x' => 'X',
        'y' => 'Y',
        'z' => 'Z',
        '\u{00e0}' => '\u{00c0}',
        '\u{00e1}' => '\u{00c1}',
        '\u{00e2}' => '\u{00c2}',
        '\u{00e3}' => '\u{00c3}',
        '\u{00e4}' => '\u{00c4}',
        '\u{00e5}' => '\u{00c5}',
        '\u{00e6}' => '\u{00c6}',
        '\u{00e7}' => '\u{00c7}',
        '\u{00e8}' => '\u{00c8}',
        '\u{00e9}' => '\u{00c9}',
        '\u{00ea}' => '\u{00ca}',
        '\u{00eb}' => '\u{00cb}',
        '\u{00ec}' => '\u{00cc}',
        '\u{00ed}' => '\u{00cd}',
        '\u{00ee}' => '\u{00ce}',
        '\u{00ef}' => '\u{00cf}',
        '\u{00f0}' => '\u{00d0}',
        '\u{00f1}' => '\u{00d1}',
        '\u{00f2}' => '\u{00d2}',
        '\u{00f3}' => '\u{00d3}',
        '\u{00f4}' => '\u{00d4}',
        '\u{00f5}' => '\u{00d5}',
        '\u{00f6}' => '\u{00d6}',
        '\u{00f8}' => '\u{00d8}',
        '\u{00f9}' => '\u{00d9}',
        '\u{00fa}' => '\u{00da}',
        '\u{00fb}' => '\u{00db}',
        '\u{00fc}' => '\u{00dc}',
        '\u{00fd}' => '\u{00dd}',
        '\u{00fe}' => '\u{00de}',
        '\u{00ff}' => '\u{0178}',
        '\u{0101}' => '\u{0100}',
        '\u{0103}' => '\u{0102}',
        '\u{0105}' => '\u{0104}',
        '\u{0107}' => '\u{0106}',
        '\u{0109}' => '\u{0108}',
        '\u{010b}' => '\u{010a}',
        '\u{010d}' => '\u{010c}',
        '\u{010f}' => '\u{010e}',
        '\u{0111}' => '\u{0110}',
        '\u{0113}' => '\u{0112}',
        '\u{0115}' => '\u{0114}',
        '\u{0117}' => '\u{0116}',
        '\u{0119}' => '\u{0118}',
        '\u{011b}' => '\u{011a}',
        '\u{011d}' => '\u{011c}',
        '\u{011f}' => '\u{011e}',
        '\u{0121}' => '\u{0120}',
        '\u{0123}' => '\u{0122}',
        '\u{0125}' => '\u{0124}',
        '\u{0127}' => '\u{0126}',
        '\u{0129}' => '\u{0128}',
        '\u{012b}' => '\u{012a}',
        '\u{012d}' => '\u{012c}',
        '\u{012f}' => '\u{012e}',
        '\u{0131}' => 'I',
        '\u{0133}' => '\u{0132}',
        '\u{0135}' => '\u{0134}',
        '\u{0137}' => '\u{0136}',
        '\u{013a}' => '\u{0139}',
        '\u{013c}' => '\u{013b}',
        '\u{013e}' => '\u{013d}',
        '\u{0140}' => '\u{013f}',
        '\u{0142}' => '\u{0141}',
        '\u{0144}' => '\u{0143}',
        '\u{0146}' => '\u{0145}',
        '\u{0148}' => '\u{0147}',
        '\u{014b}' => '\u{014a}',
        '\u{014d}' => '\u{014c}',
        '\u{014f}' => '\u{014e}',
        '\u{0151}' => '\u{0150}',
        '\u{0153}' => '\u{0152}',
        '\u{0155}' => '\u{0154}',
        '\u{0157}' => '\u{0156}',
        '\u{0159}' => '\u{0158}',
        '\u{015b}' => '\u{015a}',
        '\u{015d}' => '\u{015c}',
        '\u{015f}' => '\u{015e}',
        '\u{0161}' => '\u{0160}',
        '\u{0163}' => '\u{0162}',
        '\u{0165}' => '\u{0164}',
        '\u{0167}' => '\u{0166}',
        '\u{0169}' => '\u{0168}',
        '\u{016b}' => '\u{016a}',
        '\u{016d}' => '\u{016c}',
        '\u{016f}' => '\u{016e}',
        '\u{0171}' => '\u{0170}',
        '\u{0173}' => '\u{0172}',
        '\u{0175}' => '\u{0174}',
        '\u{0177}' => '\u{0176}',
        '\u{017a}' => '\u{0179}',
        '\u{017c}' => '\u{017b}',
        '\u{017e}' => '\u{017d}',
        '\u{017f}' => 'S',
        '\u{03ac}' => '\u{0386}',
        '\u{03ad}' => '\u{0388}',
        '\u{03ae}' => '\u{0389}',
        '\u{03af}' => '\u{038a}',
        '\u{03b1}' => '\u{0391}',
        '\u{03b2}' => '\u{0392}',
        '\u{03b3}' => '\u{0393}',
        '\u{03b4}' => '\u{0394}',
        '\u{03b5}' => '\u{0395}',
        '\u{03b6}' => '\u{0396}',
        '\u{03b7}' => '\u{0397}',
        '\u{03b8}' => '\u{0398}',
        '\u{03b9}' => '\u{0399}',
        '\u{03ba}' => '\u{039a}',
        '\u{03bb}' => '\u{039b}',
        '\u{03bc}' => '\u{039c}',
        '\u{03bd}' => '\u{039d}',
        '\u{03be}' => '\u{039e}',
        '\u{03bf}' => '\u{039f}',
        '\u{03c0}' => '\u{03a0}',
        '\u{03c1}' => '\u{03a1}',
        '\u{03c2}' => '\u{03a3}',
        '\u{03c3}' => '\u{03a3}',
        '\u{03c4}' => '\u{03a4}',
        '\u{03c5}' => '\u{03a5}',
        '\u{03c6}' => '\u{03a6}',
        '\u{03c7}' => '\u{03a7}',
        '\u{03c8}' => '\u{03a8}',
        '\u{03c9}' => '\u{03a9}',
        '\u{03ca}' => '\u{03aa}',
        '\u{03cb}' => '\u{03ab}',
        '\u{03cc}' => '\u{038c}',
        '\u{03cd}' => '\u{038e}',
        '\u{03ce}' => '\u{038f}',
        '\u{0430}' => '\u{0410}',
        '\u{0431}' => '\u{0411}',
        '\u{0432}' => '\u{0412}',
        '\u{0433}' => '\u{0413}',
        '\u{0434}' => '\u{0414}',
        '\u{0435}' => '\u{0415}',
        '\u{0436}' => '\u{0416}',
        '\u{0437}' => '\u{0417}',
        '\u{0438}' => '\u{0418}',
        '\u{0439}' => '\u{0419}',
        '\u{043a}' => '\u{041a}',
        '\u{043b}' => '\u{041b}',
        '\u{043c}' => '\u{041c}',
        '\u{043d}' => '\u{041d}',
        '\u{043e}' => '\u{041e}',
        '\u{043f}' => '\u{041f}',
        '\u{0440}' => '\u{0420}',
        '\u{0441}' => '\u{0421}',
        '\u{0442}' => '\u{0422}',
        '\u{0443}' => '\u{0423}',
        '\u{0444}' => '\u{0424}',
        '\u{0445}' => '\u{0425}',
        '\u{0446}' => '\u{0426}',
        '\u{0447}' => '\u{0427}',
        '\u{0448}' => '\u{0428}',
        '\u{0449}' => '\u{0429}',
        '\u{044a}' => '\u{042a}',
        '\u{044b}' => '\u{042b}',
        '\u{044c}' => '\u{042c}',
        '\u{044d}' => '\u{042d}',
        '\u{044e}' => '\u{042e}',
        '\u{044f}' => '\u{042f}',
        '\u{0450}' => '\u{0400}',
        '\u{0451}' => '\u{0401}',
        '\u{0452}' => '\u{0402}',
        '\u{0453}' => '\u{0403}',
        '\u{0454}' => '\u{0404}',
        '\u{0455}' => '\u{0405}',
        '\u{0456}' => '\u{0406}',
        '\u{0457}' => '\u{0407}',
        '\u{0458}' => '\u{0408}',
        '\u{0459}' => '\u{0409}',
        '\u{045a}' => '\u{040a}',
        '\u{045b}' => '\u{040b}',
        '\u{045c}' => '\u{040c}',
        '\u{045d}' => '\u{040d}',
        '\u{045e}' => '\u{040e}',
        '\u{045f}' => '\u{040f}',
        '\u{0491}' => '\u{0490}',
        _ => c,
    }
}

#[verifier::rlimit(100)]
pub proof fn lemma_lower_char_idempotent(c: char)
    ensures
        lower_char(lower_char(c)) == lower_char(c),
{
}

#[verifier::rlimit(100)]
pub proof fn lemma_fold_char_idempotent(c: char)
    ensures
        fold_char(fold_char(c)) == fold_char(c),
{
}

/// A folded character is already lowercase: folding after lowering yields a
/// character that both maps leave unchanged.
#[verifier::rlimit(100)]
pub proof fn lemma_norm_char_fixed(c: char)
    ensures
        lower_char(fold_char(lower_char(c))) == fold_char(lower_char(c)),
        fold_char(fold_char(lower_char(c))) == fold_char(lower_char(c)),
{
    lemma_lower_char_idempotent(c);
    lemma_fold_char_idempotent(lower_char(c));
}

} // verus!

use crate::strutil::{str_chars, string_from_chars};

verus! {

/// Every character folded to its unaccented form.
pub open spec fn fold_seq(s: Seq<char>) -> Seq<char> {
    s.map_values(|c: char| fold_char(c))
}

/// Normalize the Latin diacritics of a string to base letters; characters
/// of other scripts pass through unchanged.
pub fn diacritics(text: &str) -> (r: String)
    ensures
        r@ == fold_seq(text@),
{
    let v = str_chars(text);
    let mut out: Vec<char> = Vec::new();
    let mut i: usize = 0;
    while i < v.len()
        invariant
            i <= v@.len(),
            v@ == text@,
            out@ =~= fold_seq(text@).take(i as int),
        decreases v@.len() - i,
    {
        out.push(to_fold_char(v[i]));
        proof {
            assert(out@ =~= fold_seq(text@).take(i + 1));
        }
        i = i + 1;
    }
    proof {
        assert(fold_seq(text@).take(text@.len() as int) =~= fold_seq(text@));
    }
    string_from_chars(&out)
}

/// Diacritic folding is idempotent: folding a second time changes nothing.
pub proof fn lemma_fold_seq_idempotent(s: Seq<char>)
    ensures
        fold_seq(fold_seq(s)) =~= fold_seq(s),
{
    assert forall|i: int| 0 <= i < fold_seq(s).len() implies #[trigger] fold_seq(fold_seq(s))[i]
        == fold_seq(s)[i] by {
        lemma_fold_char_idempotent(s[i]);
    }
}

} // verus!
