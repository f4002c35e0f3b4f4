use vstd::prelude::*;
use crate::chars::{lower_char, to_lower_char};
use crate::context::Context;
use crate::strutil::{str_chars, str_eq};
use crate::tokens::{tokenized_views, Tokenized, TokenizedV};

verus! {

pub open spec fn spec_min3(a: int, b: int, c: int) -> int {
    if a <= b && a <= c {
        a
    } else if b <= c {
        b
    } else {
        c
    }
}

fn min3(a: usize, b: usize, c: usize) -> (r: usize)
    ensures
        r == spec_min3(a as int, b as int, c as int),
{
    if a <= b && a <= c {
        a
    } else if b <= c {
        b
    } else {
        c
    }
}

/// The Levenshtein distance between the length-`i` prefix of `a` and the
/// length-`j` prefix of `b`.
pub open spec fn lev(a: Seq<char>, b: Seq<char>, i: int, j: int) -> int
    decreases i + j,
    when 0 <= i <= a.len() && 0 <= j <= b.len()
{
    if i == 0 {
        j
    } else if j == 0 {
        i
    } else {
        let d: int = if a[i - 1] == b[j - 1] {
            0
        } else {
            1
        };
        spec_min3(lev(a, b, i, j - 1) + 1, lev(a, b, i - 1, j) + 1, lev(a, b, i - 1, j - 1) + d)
    }
}

/// The Levenshtein distance between two character sequences.
pub open spec fn spec_distance(a: Seq<char>, b: Seq<char>) -> int {
    lev(a, b, a.len() as int, b.len() as int)
}

pub proof fn lemma_lev_bounds(a: Seq<char>, b: Seq<char>, i: int, j: int)
    requires
        0 <= i <= a.len(),
        0 <= j <= b.len(),
    ensures
        lev(a, b, i, j) >= 0,
        lev(a, b, i, j) <= i + j,
        lev(a, b, i, j) <= if i >= j {
            i
        } else {
            j
        },
    decreases i + j,
{
    if i > 0 && j > 0 {
        lemma_lev_bounds(a, b, i, j - 1);
        lemma_lev_bounds(a, b, i - 1, j);
        lemma_lev_bounds(a, b, i - 1, j - 1);
    }
}

/// Return the Levenshtein distance between two strings, computed over
/// Unicode scalar values.
pub fn distance(a: &str, b: &str) -> (r: usize)
    requires
        a@.len() < usize::MAX,
        b@.len() < usize::MAX,
    ensures
        r == spec_distance(a@, b@),
{
    let v1 = str_chars(a);
    let v2 = str_chars(b);
    let n1 = v1.len();
    let n2 = v2.len();
    if n1 == 0 {
        proof {
            assert(lev(a@, b@, 0, b@.len() as int) == b@.len());
        }
        return n2;
    }
    if n2 == 0 {
        return n1;
    }
    let mut column: Vec<usize> = Vec::new();
    let mut y: usize = 0;
    while y <= n1
        invariant
            y <= n1 + 1,
            n1 < usize::MAX,
            column@.len() == y,
            forall|k: int| 0 <= k < y ==> column@[k] == k,
        decreases n1 + 1 - y,
    {
        column.push(y);
        y = y + 1;
    }
    let mut x: usize = 1;
    while x <= n2
        invariant
            1 <= x <= n2 + 1,
            n1 < usize::MAX,
            n2 < usize::MAX,
            n1 == v1@.len(),
            n2 == v2@.len(),
            v1@ == a@,
            v2@ == b@,
            n1 >= 1,
            column@.len() == n1 + 1,
            forall|k: int| 0 <= k <= n1 ==> column@[k] == lev(a@, b@, k, x - 1),
        decreases n2 + 1 - x,
    {
        proof {
            lemma_lev_bounds(a@, b@, 0, x as int);
        }
        column.set(0, x);
        let mut lastdiag: usize = x - 1;
        let mut y: usize = 1;
        while y <= n1
            invariant
                1 <= y <= n1 + 1,
                1 <= x <= n2,
                n1 < usize::MAX,
                n2 < usize::MAX,
                n1 == v1@.len(),
                n2 == v2@.len(),
                v1@ == a@,
                v2@ == b@,
                column@.len() == n1 + 1,
                lastdiag == lev(a@, b@, y - 1, x - 1),
                forall|k: int| 0 <= k < y ==> column@[k] == lev(a@, b@, k, x as int),
                forall|k: int| y <= k <= n1 ==> column@[k] == lev(a@, b@, k, x - 1),
            decreases n1 + 1 - y,
        {
            let olddiag = column[y];
            proof {
                lemma_lev_bounds(a@, b@, y as int, x as int);
                lemma_lev_bounds(a@, b@, y as int, x - 1);
                lemma_lev_bounds(a@, b@, y - 1, x as int);
                lemma_lev_bounds(a@, b@, y - 1, x - 1);
            }
            let delta: usize = if v1[y - 1] == v2[x - 1] {
                0
            } else {
                1
            };
            let nv = min3(column[y] + 1, column[y - 1] + 1, lastdiag + delta);
            column.set(y, nv);
            lastdiag = olddiag;
            y = y + 1;
        }
        x = x + 1;
    }
    column[n1]
}

/// A less desirable token: a unit-style suffix word.
pub open spec fn undesireable_token(t: Seq<char>) -> bool {
    t == "ext"@ || t == "connector"@ || t == "unit"@ || t == "apt"@ || t == "apts"@ || t
        == "suite"@ || t == "lot"@
}

/// Whether any token is a less desirable unit-style word, as in
/// `US Hwy 125 Ext 1`.
pub open spec fn spec_is_undesireable(tkd: Seq<TokenizedV>) -> bool {
    exists|i: int| 0 <= i < tkd.len() && undesireable_token(#[trigger] tkd[i].token)
}

/// Detects less desirable feature names, e.g. `US Hwy 125 Ext 1`.
pub fn is_undesireable(tokenized: &Vec<Tokenized>) -> (r: bool)
    ensures
        r == spec_is_undesireable(tokenized_views(tokenized@)),
{
    let ghost tkd = tokenized_views(tokenized@);
    let mut i: usize = 0;
    while i < tokenized.len()
        invariant
            i <= tokenized@.len(),
            tkd == tokenized_views(tokenized@),
            forall|j: int| 0 <= j < i ==> !undesireable_token(#[trigger] tkd[j].token),
        decreases tokenized@.len() - i,
    {
        let t = tokenized[i].token.as_str();
        if str_eq(t, "ext") || str_eq(t, "connector") || str_eq(t, "unit") || str_eq(t, "apt")
            || str_eq(t, "apts") || str_eq(t, "suite") || str_eq(t, "lot") {
            proof {
                assert(undesireable_token(tkd[i as int].token));
            }
            return true;
        }
        proof {
            assert(!undesireable_token(tkd[i as int].token));
        }
        i = i + 1;
    }
    false
}

pub open spec fn is_ascii_digit(c: char) -> bool {
    0x30 <= (c as u32) <= 0x39
}

fn ascii_digit(c: char) -> (r: bool)
    ensures
        r == is_ascii_digit(c),
{
    let u = c as u32;
    0x30 <= u && u <= 0x39
}

pub fn ascii_digit_pub(c: char) -> (r: bool)
    ensures
        r == is_ascii_digit(c),
{
    let u = c as u32;
    0x30 <= u && u <= 0x39
}

pub fn ci_check_pub(v: &Vec<char>, i: usize, p: &str) -> (r: bool)
    requires
        i <= v@.len(),
    ensures
        r == ci_at(v@, i as int, p@),
{
    ci_check(v, i, p)
}

/// A case-insensitive occurrence of `p` at position `i` of `s`.
pub open spec fn ci_at(s: Seq<char>, i: int, p: Seq<char>) -> bool {
    &&& 0 <= i
    &&& i + p.len() <= s.len()
    &&& (forall|j: int| 0 <= j < p.len() ==> lower_char(s[i + j]) == p[j])
}

fn ci_check(v: &Vec<char>, i: usize, p: &str) -> (r: bool)
    requires
        i <= v@.len(),
    ensures
        r == ci_at(v@, i as int, p@),
{
    let plen = p.unicode_len();
    if plen > v.len() - i {
        return false;
    }
    let mut j: usize = 0;
    while j < plen
        invariant
            j <= plen,
            plen == p@.len(),
            i + plen <= v@.len(),
            v@.len() <= usize::MAX,
            forall|k: int| 0 <= k < j ==> lower_char(v@[i + k]) == p@[k],
        decreases plen - j,
    {
        if to_lower_char(v[i + j]) != p.get_char(j) {
            proof {
                assert(lower_char(v@[i + j]) != p@[j as int]);
            }
            return false;
        }
        j = j + 1;
    }
    true
}

/// The octothorpe pattern: a highway-type prefix (case-insensitive), then
/// `#`, then a digit. The result is the prefix length, in characters.
pub open spec fn octo_prefix(s: Seq<char>) -> Option<int> {
    if ci_at(s, 0, "hwy "@) {
        Some(4)
    } else if ci_at(s, 0, "highway "@) {
        Some(8)
    } else if ci_at(s, 0, "rte "@) {
        Some(4)
    } else if ci_at(s, 0, "route "@) {
        Some(6)
    } else if ci_at(s, 0, "us "@) {
        Some(3)
    } else {
        None
    }
}

/// Whether `s` is a highway-type prefix, `#`, and a digit run.
pub open spec fn octo_matches(s: Seq<char>) -> bool {
    match octo_prefix(s) {
        None => false,
        Some(p) => p + 1 < s.len() && s[p] == '#' && is_ascii_digit(s[p + 1]),
    }
}

/// The text with the octothorpe removed where the pattern applies, else the
/// text unchanged: `Highway #12 West` becomes `Highway 12 West`.
pub open spec fn spec_str_remove_octo(s: Seq<char>) -> Seq<char> {
    if octo_matches(s) {
        let p = octo_prefix(s)->Some_0;
        s.take(p) + s.skip(p + 1)
    } else {
        s
    }
}

/// Removes the octothorpe from names like `HWY #35` to get `HWY 35`.
pub fn str_remove_octo(text: &String) -> (r: String)
    ensures
        r@ == spec_str_remove_octo(text@),
{
    let v = str_chars(text.as_str());
    let p: usize = if ci_check(&v, 0, "hwy ") {
        4
    } else if ci_check(&v, 0, "highway ") {
        8
    } else if ci_check(&v, 0, "rte ") {
        4
    } else if ci_check(&v, 0, "route ") {
        6
    } else if ci_check(&v, 0, "us ") {
        3
    } else {
        proof {
            reveal_strlit("hwy ");
            reveal_strlit("highway ");
            reveal_strlit("rte ");
            reveal_strlit("route ");
            reveal_strlit("us ");
        }
        return text.clone();
    };
    proof {
        reveal_strlit("hwy ");
        reveal_strlit("highway ");
        reveal_strlit("rte ");
        reveal_strlit("route ");
        reveal_strlit("us ");
        assert(octo_prefix(text@) == Some(p as int));
    }
    if p + 1 < v.len() && v[p] == '#' && ascii_digit(v[p + 1]) {
        let mut out: Vec<char> = Vec::new();
        let mut i: usize = 0;
        while i < v.len()
            invariant
                i <= v@.len(),
                v@ == text@,
                p + 1 < v@.len(),
                i <= p ==> out@ =~= v@.take(i as int),
                i > p ==> out@ =~= v@.take(p as int) + v@.subrange(p + 1, i as int),
            decreases v@.len() - i,
        {
            if i != p {
                out.push(v[i]);
                proof {
                    if i < p {
                        assert(out@ =~= v@.take(i + 1));
                    } else {
                        assert(out@ =~= v@.take(p as int) + v@.subrange(p + 1, i + 1));
                    }
                }
            } else {
                proof {
                    assert(v@.take(p as int) + v@.subrange(p + 1, p + 1) =~= v@.take(p as int));
                }
            }
            i = i + 1;
        }
        proof {
            assert(v@.subrange(p + 1, v@.len() as int) =~= v@.skip(p + 1));
        }
        crate::strutil::string_from_chars(&out)
    } else {
        text.clone()
    }
}

/// A drive-through suffix: `drive`, at most one further character, and one
/// of `in`, `through`, `thru` at the end of the text (case-insensitive).
pub open spec fn drive_suffix(s: Seq<char>) -> bool {
    exists|suf: int, gap: int|
        #![trigger ci_at(s, s.len() - suf - gap - 5, "drive"@), is_gap(s, suf, gap)]
        (suf == 2 || suf == 7 || suf == 4) && (gap == 0 || gap == 1) && s.len() >= suf + gap + 5
            && ci_at(s, s.len() - suf - gap - 5, "drive"@) && is_gap(s, suf, gap) && (if suf == 2 {
            ci_at(s, s.len() - 2, "in"@)
        } else if suf == 7 {
            ci_at(s, s.len() - 7, "through"@)
        } else {
            ci_at(s, s.len() - 4, "thru"@)
        })
}

/// The optional single character between `drive` and the suffix; a newline
/// cannot stand there.
pub open spec fn is_gap(s: Seq<char>, suf: int, gap: int) -> bool {
    gap == 1 ==> (0 <= s.len() - suf - 1 < s.len() && s[s.len() - suf - 1] != '\n')
}

/// A German drive-in suffix: the text ends with ` einfahrt`.
pub open spec fn einfahrt_suffix(s: Seq<char>) -> bool {
    s.len() >= 9 && ci_at(s, s.len() - 9, " einfahrt"@)
}

/// Whether the drive-through rules apply at all in the country.
pub open spec fn drivethrough_country(country: Seq<char>) -> bool {
    country == "US"@ || country == "CA"@ || country == "GB"@ || country == "DE"@ || country
        == "CH"@ || country == "AT"@
}

/// The drive-through decision: a drive-in/through/thru suffix in the listed
/// countries, or an ` einfahrt` suffix in Germany.
pub open spec fn spec_is_drivethrough(s: Seq<char>, country: Seq<char>) -> bool {
    (drivethrough_country(country) && drive_suffix(s)) || (country == "DE"@ && einfahrt_suffix(s))
}

fn drive_suffix_check(v: &Vec<char>, suf: usize, suflit: &str) -> (r: bool)
    requires
        suf == suflit@.len(),
        suf <= 16,
    ensures
        r == exists|gap: int|
            (gap == 0 || gap == 1) && v@.len() >= suf + gap + 5 && ci_at(
                v@,
                v@.len() - suf - gap - 5,
                "drive"@,
            ) && is_gap(v@, suf as int, gap) && ci_at(v@, v@.len() - suf, suflit@),
{
    let n = v.len();
    if n < suf + 5 {
        return false;
    }
    if !ci_check(v, n - suf, suflit) {
        return false;
    }
    if ci_check(v, n - suf - 5, "drive") {
        proof {
            let gap: int = 0;
            assert((gap == 0 || gap == 1) && v@.len() >= suf + gap + 5 && ci_at(
                v@,
                v@.len() - suf - gap - 5,
                "drive"@,
            ) && is_gap(v@, suf as int, gap) && ci_at(v@, v@.len() - suf, suflit@));
        }
        return true;
    }
    if n >= suf + 6 && v[n - suf - 1] != '\n' && ci_check(v, n - suf - 6, "drive") {
        proof {
            let gap: int = 1;
            assert((gap == 0 || gap == 1) && v@.len() >= suf + gap + 5 && ci_at(
                v@,
                v@.len() - suf - gap - 5,
                "drive"@,
            ) && is_gap(v@, suf as int, gap) && ci_at(v@, v@.len() - suf, suflit@));
        }
        return true;
    }
    false
}

/// Detects if the name looks like a driveway.
pub fn is_drivethrough(text: &String, context: &Context) -> (r: bool)
    ensures
        r == spec_is_drivethrough(text@, context.country@),
{
    let v = str_chars(text.as_str());
    let c = context.country.as_str();
    let gated = str_eq(c, "US") || str_eq(c, "CA") || str_eq(c, "GB") || str_eq(c, "DE") || str_eq(
        c,
        "CH",
    ) || str_eq(c, "AT");
    if gated {
        proof {
            reveal_strlit("in");
            reveal_strlit("through");
            reveal_strlit("thru");
        }
        let hit_in = drive_suffix_check(&v, 2, "in");
        let hit_through = drive_suffix_check(&v, 7, "through");
        let hit_thru = drive_suffix_check(&v, 4, "thru");
        if hit_in || hit_through || hit_thru {
            return true;
        }
        proof {
            assert(!drive_suffix(text@)) by {
                if drive_suffix(text@) {
                    let (suf, gap) = choose|suf: int, gap: int|
                        (suf == 2 || suf == 7 || suf == 4) && (gap == 0 || gap == 1) && text@.len()
                            >= suf + gap + 5 && ci_at(text@, text@.len() - suf - gap - 5, "drive"@)
                            && is_gap(text@, suf, gap) && (if suf == 2 {
                            ci_at(text@, text@.len() - 2, "in"@)
                        } else if suf == 7 {
                            ci_at(text@, text@.len() - 7, "through"@)
                        } else {
                            ci_at(text@, text@.len() - 4, "thru"@)
                        });
                }
            }
        }
    }
    if str_eq(c, "DE") {
        let n = v.len();
        if n >= 9 && ci_check(&v, n - 9, " einfahrt") {
            return true;
        }
        proof {
            assert(!einfahrt_suffix(text@));
        }
    }
    false
}

} // verus!

verus! {

use crate::name::Name;

/// A numbered-street token: optional digits, then `1st`, `2nd`, `3rd` or a
/// digit with `th`.
pub open spec fn numbered_token(t: Seq<char>) -> bool {
    t.len() >= 3 && (forall|i: int| 0 <= i < t.len() - 2 ==> is_ascii_digit(#[trigger] t[i])) && (
    (t[t.len() - 2] == 's' && t[t.len() - 1] == 't' && t[t.len() - 3] == '1') || (t[t.len() - 2]
        == 'n' && t[t.len() - 1] == 'd' && t[t.len() - 3] == '2') || (t[t.len() - 2] == 'r'
        && t[t.len() - 1] == 'd' && t[t.len() - 3] == '3') || (t[t.len() - 2] == 't' && t[t.len()
        - 1] == 'h' && is_ascii_digit(t[t.len() - 3])))
}

/// The first numbered-street token, if any.
pub open spec fn first_numbered(tkd: Seq<crate::tokens::TokenizedV>) -> Option<Seq<char>>
    decreases tkd.len(),
{
    if tkd.len() == 0 {
        None
    } else if numbered_token(tkd[0].token) {
        Some(tkd[0].token)
    } else {
        first_numbered(tkd.skip(1))
    }
}

/// A route-number token: one or more digits and nothing else.
pub open spec fn routish_token(t: Seq<char>) -> bool {
    t.len() >= 1 && forall|i: int| 0 <= i < t.len() ==> is_ascii_digit(#[trigger] t[i])
}

/// The first route-number token, if any.
pub open spec fn first_routish(tkd: Seq<crate::tokens::TokenizedV>) -> Option<Seq<char>>
    decreases tkd.len(),
{
    if tkd.len() == 0 {
        None
    } else if routish_token(tkd[0].token) {
        Some(tkd[0].token)
    } else {
        first_routish(tkd.skip(1))
    }
}

fn is_numbered_token(v: &Vec<char>) -> (r: bool)
    ensures
        r == numbered_token(v@),
{
    let n = v.len();
    if n < 3 {
        return false;
    }
    let mut i: usize = 0;
    while i < n - 2
        invariant
            i <= n - 2,
            n == v@.len(),
            3 <= n,
            forall|k: int| 0 <= k < i ==> is_ascii_digit(#[trigger] v@[k]),
        decreases n - 2 - i,
    {
        if !ascii_digit(v[i]) {
            return false;
        }
        i = i + 1;
    }
    (v[n - 2] == 's' && v[n - 1] == 't' && v[n - 3] == '1') || (v[n - 2] == 'n' && v[n - 1] == 'd'
        && v[n - 3] == '2') || (v[n - 2] == 'r' && v[n - 1] == 'd' && v[n - 3] == '3') || (v[n - 2]
        == 't' && v[n - 1] == 'h' && ascii_digit(v[n - 3]))
}

fn is_routish_token(v: &Vec<char>) -> (r: bool)
    ensures
        r == routish_token(v@),
{
    let n = v.len();
    if n < 1 {
        return false;
    }
    let mut i: usize = 0;
    while i < n
        invariant
            i <= n,
            n == v@.len(),
            forall|k: int| 0 <= k < i ==> is_ascii_digit(#[trigger] v@[k]),
        decreases n - i,
    {
        if !ascii_digit(v[i]) {
            return false;
        }
        i = i + 1;
    }
    true
}

/// Return the numbered-street token of a name, e.g. `1st`, `11th`, if any.
pub fn is_numbered(name: &Name) -> (r: Option<String>)
    ensures
        match r {
            Some(t) => first_numbered(name@.tokenized) == Some(t@),
            None => first_numbered(name@.tokenized) is None,
        },
{
    let ghost tkd = name@.tokenized;
    let mut i: usize = 0;
    proof {
        assert(tkd.skip(0) =~= tkd);
    }
    while i < name.tokenized.len()
        invariant
            i <= name.tokenized@.len(),
            tkd == name@.tokenized,
            first_numbered(tkd) == first_numbered(tkd.skip(i as int)),
        decreases name.tokenized@.len() - i,
    {
        proof {
            assert(tkd.skip(i as int)[0] == tkd[i as int]);
            assert(tkd.skip(i as int).skip(1) =~= tkd.skip(i + 1));
        }
        let v = str_chars(name.tokenized[i].token.as_str());
        if is_numbered_token(&v) {
            return Some(name.tokenized[i].token.clone());
        }
        i = i + 1;
    }
    proof {
        assert(tkd.skip(tkd.len() as int) =~= Seq::<crate::tokens::TokenizedV>::empty());
    }
    None
}

/// Return the route-number token of a name, e.g. `50` in `US Route 50`, if
/// any.
pub fn is_routish(name: &Name) -> (r: Option<String>)
    ensures
        match r {
            Some(t) => first_routish(name@.tokenized) == Some(t@),
            None => first_routish(name@.tokenized) is None,
        },
{
    let ghost tkd = name@.tokenized;
    let mut i: usize = 0;
    proof {
        assert(tkd.skip(0) =~= tkd);
    }
    while i < name.tokenized.len()
        invariant
            i <= name.tokenized@.len(),
            tkd == name@.tokenized,
            first_routish(tkd) == first_routish(tkd.skip(i as int)),
        decreases name.tokenized@.len() - i,
    {
        proof {
            assert(tkd.skip(i as int)[0] == tkd[i as int]);
            assert(tkd.skip(i as int).skip(1) =~= tkd.skip(i + 1));
        }
        let v = str_chars(name.tokenized[i].token.as_str());
        if is_routish_token(&v) {
            return Some(name.tokenized[i].token.clone());
        }
        i = i + 1;
    }
    proof {
        assert(tkd.skip(tkd.len() as int) =~= Seq::<crate::tokens::TokenizedV>::empty());
    }
    None
}

} // verus!
