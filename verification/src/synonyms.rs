use vstd::prelude::*;
use crate::chars::lower_char;
use crate::context::Context;
use crate::name::{spec_name_new, Name, NameV, Source};
use crate::strutil::{is_space_char, str_chars, string_from_chars};
use crate::text::{ci_at, is_ascii_digit};
use crate::tokens::ParsedTokenV;

verus! {

/// The priority a generated display form takes: one above a non-negative
/// input priority, and -1 otherwise, so it never outranks an address name.
pub open spec fn display_priority(p: int) -> int {
    if p >= 0 {
        p + 1
    } else {
        -1
    }
}

/// The base for non-display synonyms: the input priority capped at zero.
pub open spec fn priority_offset(p: int) -> int {
    if p < 0 {
        p
    } else {
        0
    }
}

/// The priority bounds under which every generated priority fits in `i8`.
pub open spec fn priority_in_range(p: int) -> bool {
    i8::MIN + 4 <= p <= i8::MAX - 1
}

fn exec_display_priority(p: i8) -> (r: i8)
    requires
        priority_in_range(p as int),
    ensures
        r == display_priority(p as int),
{
    if p >= 0 {
        p + 1
    } else {
        -1
    }
}

fn exec_priority_offset(p: i8) -> (r: i8)
    requires
        priority_in_range(p as int),
    ensures
        r == priority_offset(p as int),
{
    if p < 0 {
        p
    } else {
        0
    }
}

/// Append a string's characters.
fn push_str(v: &mut Vec<char>, s: &str)
    ensures
        final(v)@ == old(v)@ + s@,
{
    let n = s.unicode_len();
    let mut i: usize = 0;
    proof {
        assert(v@ + s@.take(0) =~= v@);
    }
    while i < n
        invariant
            i <= n,
            n == s@.len(),
            v@ == old(v)@ + s@.take(i as int),
        decreases n - i,
    {
        let ghost v0 = v@;
        v.push(s.get_char(i));
        proof {
            assert(old(v)@ + s@.take(i as int).push(s@[i as int]) =~= old(v)@ + s@.take(i + 1));
        }
        i = i + 1;
    }
    proof {
        assert(s@.take(n as int) =~= s@);
    }
}

/// Append a sequence slice's characters.
fn push_range(v: &mut Vec<char>, s: &Vec<char>, from: usize, to: usize)
    requires
        from <= to <= s@.len(),
    ensures
        final(v)@ == old(v)@ + s@.subrange(from as int, to as int),
{
    let mut i: usize = from;
    proof {
        assert(v@ + s@.subrange(from as int, from as int) =~= v@);
    }
    while i < to
        invariant
            from <= i <= to <= s@.len(),
            v@ == old(v)@ + s@.subrange(from as int, i as int),
        decreases to - i,
    {
        v.push(s[i]);
        proof {
            assert(old(v)@ + s@.subrange(from as int, i as int).push(s@[i as int]) =~= old(v)@
                + s@.subrange(from as int, i + 1));
        }
        i = i + 1;
    }
}

/// Build the one-name vector a generator with a single synonym returns.
pub open spec fn one_generated(
    display: Seq<char>,
    priority: int,
    country: Seq<char>,
    table: Seq<(Seq<char>, ParsedTokenV)>,
) -> Seq<NameV> {
    seq![spec_name_new(display, priority, Some(Source::Generated), country, table)]
}

/// The numeric value of a digit sequence, base ten.
pub open spec fn digits_val(s: Seq<char>) -> int
    decreases s.len(),
{
    if s.len() == 0 {
        0
    } else {
        digits_val(s.drop_last()) * 10 + (s[s.len() - 1] as u32 - 0x30)
    }
}

/// All characters are ASCII digits.
pub open spec fn all_digits(s: Seq<char>) -> bool {
    forall|i: int| 0 <= i < s.len() ==> is_ascii_digit(#[trigger] s[i])
}

proof fn lemma_digits_val_bounds(s: Seq<char>)
    requires
        all_digits(s),
    ensures
        digits_val(s) >= 0,
    decreases s.len(),
{
    if s.len() > 0 {
        assert(all_digits(s.drop_last())) by {
            assert(forall|i: int| 0 <= i < s.len() - 1 ==> s.drop_last()[i] == s[i]);
        }
        lemma_digits_val_bounds(s.drop_last());
    }
}

/// Parse a digit run into a number; None where it exceeds `i64::MAX`.
fn parse_digits(v: &Vec<char>, from: usize, to: usize) -> (r: Option<i64>)
    requires
        from <= to <= v@.len(),
        all_digits(v@.subrange(from as int, to as int)),
    ensures
        match r {
            Some(n) => n == digits_val(v@.subrange(from as int, to as int)) && n >= 0,
            None => digits_val(v@.subrange(from as int, to as int)) > i64::MAX,
        },
{
    let ghost sub = v@.subrange(from as int, to as int);
    let mut acc: i64 = 0;
    let mut i: usize = from;
    proof {
        assert(v@.subrange(from as int, from as int) =~= Seq::<char>::empty());
    }
    while i < to
        invariant
            from <= i <= to <= v@.len(),
            sub == v@.subrange(from as int, to as int),
            all_digits(sub),
            acc == digits_val(v@.subrange(from as int, i as int)),
            acc >= 0,
        decreases to - i,
    {
        let c = v[i];
        proof {
            assert(sub[i - from] == v@[i as int]);
            assert(is_ascii_digit(v@[i as int]));
            assert(v@.subrange(from as int, i + 1).drop_last() =~= v@.subrange(
                from as int,
                i as int,
            ));
            assert(v@.subrange(from as int, i + 1)[i + 1 - from - 1] == v@[i as int]);
        }
        let d = (c as u32 - 0x30) as i64;
        if acc > (i64::MAX - d) / 10 {
            proof {
                lemma_digits_larger(v@, from as int, i as int, to as int);
            }
            return None;
        }
        acc = acc * 10 + d;
        i = i + 1;
    }
    Some(acc)
}

/// A longer digit run's value only grows.
proof fn lemma_digits_larger(s: Seq<char>, from: int, i: int, to: int)
    requires
        0 <= from <= i < to <= s.len(),
        all_digits(s.subrange(from, to)),
        digits_val(s.subrange(from, i)) * 10 + (s[i] as u32 - 0x30) > i64::MAX,
    ensures
        digits_val(s.subrange(from, to)) > i64::MAX,
    decreases to - i,
{
    assert(s.subrange(from, i + 1).drop_last() =~= s.subrange(from, i));
    assert(s.subrange(from, i + 1)[i - from] == s[i]);
    assert(digits_val(s.subrange(from, i + 1)) > i64::MAX);
    if i + 1 < to {
        assert(forall|k: int|
            0 <= k < to - from ==> is_ascii_digit(#[trigger] s.subrange(from, to)[k]));
        assert(is_ascii_digit(s.subrange(from, to)[i + 1 - from]));
        assert(digits_val(s.subrange(from, i + 1)) * 10 + (s[i + 1] as u32 - 0x30) > i64::MAX)
            by {
            assert(digits_val(s.subrange(from, i + 1)) * 10 >= digits_val(
                s.subrange(from, i + 1),
            )) by (nonlinear_arith)
                requires
                    digits_val(s.subrange(from, i + 1)) > 0,
            ;
        }
        lemma_digits_larger(s, from, i + 1, to);
    }
}

/// The decimal rendering of a non-negative number.
pub open spec fn dec_str(n: int) -> Seq<char>
    decreases n,
{
    if n <= 0 {
        seq!['0']
    } else if n < 10 {
        seq![digit_char(n)]
    } else {
        dec_str(n / 10).push(digit_char(n % 10))
    }
}

pub open spec fn digit_char(d: int) -> char {
    if d == 0 {
        '0'
    } else if d == 1 {
        '1'
    } else if d == 2 {
        '2'
    } else if d == 3 {
        '3'
    } else if d == 4 {
        '4'
    } else if d == 5 {
        '5'
    } else if d == 6 {
        '6'
    } else if d == 7 {
        '7'
    } else if d == 8 {
        '8'
    } else {
        '9'
    }
}

fn exec_digit_char(d: i64) -> (r: char)
    requires
        0 <= d <= 9,
    ensures
        r == digit_char(d as int),
{
    if d == 0 {
        '0'
    } else if d == 1 {
        '1'
    } else if d == 2 {
        '2'
    } else if d == 3 {
        '3'
    } else if d == 4 {
        '4'
    } else if d == 5 {
        '5'
    } else if d == 6 {
        '6'
    } else if d == 7 {
        '7'
    } else if d == 8 {
        '8'
    } else {
        '9'
    }
}

/// Render a non-negative number in decimal.
fn dec_chars(n: i64) -> (r: Vec<char>)
    requires
        n >= 0,
    ensures
        r@ == dec_str(n as int),
    decreases n,
{
    if n < 10 {
        let mut v: Vec<char> = Vec::new();
        v.push(exec_digit_char(n));
        proof {
            assert(v@ =~= dec_str(n as int));
        }
        v
    } else {
        let mut v = dec_chars(n / 10);
        v.push(exec_digit_char(n % 10));
        v
    }
}

/// The English ordinal suffix for a number: `st`, `nd`, `rd` or `th` with
/// the usual teens rule.
pub open spec fn ordinal_suffix(n: int) -> Seq<char> {
    if 10 <= n % 100 <= 20 {
        "th"@
    } else if n % 10 == 1 {
        "st"@
    } else if n % 10 == 2 {
        "nd"@
    } else if n % 10 == 3 {
        "rd"@
    } else {
        "th"@
    }
}

fn ordinal_suffix_exec(n: i64) -> (r: &'static str)
    requires
        n >= 0,
    ensures
        r@ == ordinal_suffix(n as int),
{
    let m100 = n % 100;
    let m10 = n % 10;
    if 10 <= m100 && m100 <= 20 {
        "th"
    } else if m10 == 1 {
        "st"
    } else if m10 == 2 {
        "nd"
    } else if m10 == 3 {
        "rd"
    } else {
        "th"
    }
}

/// The number-suffix trigger: the display is a digit run, whitespace, and a
/// name part; the pieces are the digit span and the start of the name part.
pub open spec fn number_suffix_split(s: Seq<char>) -> Option<(int, int)> {
    let d = digit_run_end(s, 0);
    let w = space_run_end(s, d);
    if d > 0 && w > d && w < s.len() {
        Some((d, w))
    } else {
        None
    }
}

/// The end of the digit run starting at `i`.
pub open spec fn digit_run_end(s: Seq<char>, i: int) -> int
    decreases s.len() - i,
{
    if 0 <= i < s.len() && is_ascii_digit(s[i]) {
        digit_run_end(s, i + 1)
    } else {
        i
    }
}

/// The end of the whitespace run starting at `i`.
pub open spec fn space_run_end(s: Seq<char>, i: int) -> int
    decreases s.len() - i,
{
    if 0 <= i < s.len() && is_space_char(s[i]) {
        space_run_end(s, i + 1)
    } else {
        i
    }
}

pub proof fn lemma_digit_run_end(s: Seq<char>, i: int)
    requires
        0 <= i <= s.len(),
    ensures
        i <= digit_run_end(s, i) <= s.len(),
        forall|k: int| i <= k < digit_run_end(s, i) ==> is_ascii_digit(s[k]),
        digit_run_end(s, i) < s.len() ==> !is_ascii_digit(s[digit_run_end(s, i)]),
    decreases s.len() - i,
{
    if i < s.len() && is_ascii_digit(s[i]) {
        lemma_digit_run_end(s, i + 1);
    }
}

pub proof fn lemma_space_run_end(s: Seq<char>, i: int)
    requires
        0 <= i <= s.len(),
    ensures
        i <= space_run_end(s, i) <= s.len(),
        forall|k: int| i <= k < space_run_end(s, i) ==> is_space_char(s[k]),
        space_run_end(s, i) < s.len() ==> !is_space_char(s[space_run_end(s, i)]),
    decreases s.len() - i,
{
    if i < s.len() && is_space_char(s[i]) {
        lemma_space_run_end(s, i + 1);
    }
}

fn digit_run_end_exec(v: &Vec<char>, i: usize) -> (r: usize)
    requires
        i <= v@.len(),
    ensures
        r == digit_run_end(v@, i as int),
        i <= r <= v@.len(),
{
    let mut j: usize = i;
    while j < v.len() && crate::text::ascii_digit_pub(v[j])
        invariant
            i <= j <= v@.len(),
            digit_run_end(v@, i as int) == digit_run_end(v@, j as int),
        decreases v@.len() - j,
    {
        j = j + 1;
    }
    j
}

fn space_run_end_exec(v: &Vec<char>, i: usize) -> (r: usize)
    requires
        i <= v@.len(),
    ensures
        r == space_run_end(v@, i as int),
        i <= r <= v@.len(),
{
    let mut j: usize = i;
    while j < v.len() && crate::strutil::is_space(v[j])
        invariant
            i <= j <= v@.len(),
            space_run_end(v@, i as int) == space_run_end(v@, j as int),
        decreases v@.len() - j,
    {
        j = j + 1;
    }
    j
}

/// The result of the number-suffix generator: for a display such as
/// `5 Avenue`, one generated name inserting the English ordinal suffix,
/// `5th Avenue`, at priority -1; nothing where the pattern or the numeric
/// range does not apply.
pub open spec fn spec_syn_number_suffix(
    n: NameV,
    country: Seq<char>,
    table: Seq<(Seq<char>, ParsedTokenV)>,
) -> Seq<NameV> {
    match number_suffix_split(n.display) {
        None => Seq::<NameV>::empty(),
        Some((d, w)) => {
            let num = digits_val(n.display.take(d));
            if num > i64::MAX {
                Seq::<NameV>::empty()
            } else {
                let disp = dec_str(num) + ordinal_suffix(num) + seq![' '] + n.display.skip(w);
                one_generated(disp, -1, country, table)
            }
        },
    }
}

/// Detect displays like `5 Avenue` and return a synonym like `5th Avenue`
/// where possible.
pub fn syn_number_suffix(name: &Name, context: &Context) -> (r: Vec<Name>)
    ensures
        crate::name::name_views(r@) == spec_syn_number_suffix(
            name@,
            context.country@,
            context.tokens@,
        ),
{
    let v = str_chars(name.display.as_str());
    let d = digit_run_end_exec(&v, 0);
    let w = space_run_end_exec(&v, d);
    if d > 0 && w > d && w < v.len() {
        proof {
            assert(number_suffix_split(name@.display) == Some((d as int, w as int)));
            lemma_digit_run_end(v@, 0);
            assert(all_digits(v@.subrange(0, d as int)));
        }
        match parse_digits(&v, 0, d) {
            None => {
                proof {
                    assert(v@.take(d as int) =~= v@.subrange(0, d as int));
                }
                Vec::new()
            },
            Some(num) => {
                proof {
                    assert(v@.take(d as int) =~= v@.subrange(0, d as int));
                }
                let mut disp = dec_chars(num);
                push_str(&mut disp, ordinal_suffix_exec(num));
                disp.push(' ');
                push_range(&mut disp, &v, w, v.len());
                proof {
                    assert(v@.subrange(w as int, v@.len() as int) =~= v@.skip(w as int));
                    assert(dec_str(num as int) + ordinal_suffix(num as int) + seq![' ']
                        + v@.skip(w as int) =~= disp@);
                }
                let ds = string_from_chars(&disp);
                let n = Name::new(ds.as_str(), -1, Some(Source::Generated), context);
                let mut out: Vec<Name> = Vec::new();
                out.push(n);
                proof {
                    assert(crate::name::name_views(out@) =~= spec_syn_number_suffix(
                        name@,
                        context.country@,
                        context.tokens@,
                    ));
                }
                out
            },
        }
    } else {
        proof {
            assert(number_suffix_split(name@.display) is None);
        }
        Vec::new()
    }
}

} // verus!

use crate::name::name_views;
use crate::strutil::{is_space, join_sp, trim_chars, trim_spec};
use crate::tokens::TokenizedV;

verus! {

/// Two generated names: the display form at the display priority and one
/// alias one below the offset.
pub open spec fn two_generated(
    disp: Seq<char>,
    alias: Seq<char>,
    p: int,
    country: Seq<char>,
    table: Seq<(Seq<char>, ParsedTokenV)>,
) -> Seq<NameV> {
    seq![
        spec_name_new(disp, display_priority(p), Some(Source::Generated), country, table),
        spec_name_new(alias, priority_offset(p) - 1, Some(Source::Generated), country, table),
    ]
}

/// The county-road trigger: a `CR ` or `County Road ` prefix and a digit
/// run to the end of the display; the result is the digit run.
pub open spec fn us_cr_num(s: Seq<char>) -> Option<Seq<char>> {
    let p: int = if ci_at(s, 0, "cr "@) {
        3
    } else if ci_at(s, 0, "county road "@) {
        12
    } else {
        -1
    };
    if p >= 0 && p < s.len() && digit_run_end(s, p) == s.len() {
        Some(s.skip(p))
    } else {
        None
    }
}

/// The county-road synonyms: for `CR 123` or `County Road 123`, the display
/// form `County Road 123` and the alias `CR 123`.
pub open spec fn spec_syn_us_cr(
    n: NameV,
    country: Seq<char>,
    table: Seq<(Seq<char>, ParsedTokenV)>,
) -> Seq<NameV> {
    match us_cr_num(n.display) {
        None => Seq::<NameV>::empty(),
        Some(num) => two_generated(
            "County Road "@ + num,
            "CR "@ + num,
            n.priority,
            country,
            table,
        ),
    }
}

/// Generate synonyms for names like `CR 123` => `County Road 123`.
pub fn syn_us_cr(name: &Name, context: &Context) -> (r: Vec<Name>)
    requires
        priority_in_range(name@.priority),
    ensures
        name_views(r@) == spec_syn_us_cr(name@, context.country@, context.tokens@),
{
    let v = str_chars(name.display.as_str());
    let p: usize = if crate::text::ci_check_pub(&v, 0, "cr ") {
        3
    } else if crate::text::ci_check_pub(&v, 0, "county road ") {
        12
    } else {
        proof {
            reveal_strlit("cr ");
            reveal_strlit("county road ");
        }
        return Vec::new();
    };
    proof {
        reveal_strlit("cr ");
        reveal_strlit("county road ");
    }
    if p < v.len() && digit_run_end_exec(&v, p) == v.len() {
        let dp = exec_display_priority(name.priority);
        let off = exec_priority_offset(name.priority);
        let mut d1: Vec<char> = Vec::new();
        push_str(&mut d1, "County Road ");
        push_range(&mut d1, &v, p, v.len());
        let mut d2: Vec<char> = Vec::new();
        push_str(&mut d2, "CR ");
        push_range(&mut d2, &v, p, v.len());
        proof {
            assert(v@.subrange(p as int, v@.len() as int) =~= v@.skip(p as int));
            assert(d1@ =~= "County Road "@ + v@.skip(p as int));
            assert(d2@ =~= "CR "@ + v@.skip(p as int));
        }
        let s1 = string_from_chars(&d1);
        let s2 = string_from_chars(&d2);
        let mut out: Vec<Name> = Vec::new();
        out.push(Name::new(s1.as_str(), dp, Some(Source::Generated), context));
        out.push(Name::new(s2.as_str(), off - 1, Some(Source::Generated), context));
        proof {
            assert(name_views(out@) =~= spec_syn_us_cr(name@, context.country@, context.tokens@));
        }
        out
    } else {
        Vec::new()
    }
}

/// The tokens of a Quebec standalone street-type name: the first token is
/// one of `r`, `ch`, `av`, `bd` and the second is not a French article.
pub open spec fn ca_french_applies(tkd: Seq<TokenizedV>) -> bool {
    tkd.len() > 1 && (tkd[0].token == "r"@ || tkd[0].token == "ch"@ || tkd[0].token == "av"@
        || tkd[0].token == "bd"@) && !(tkd[1].token == "du"@ || tkd[1].token == "des"@
        || tkd[1].token == "de"@)
}

/// The Quebec standalone synonym: the name's tokens with the leading street
/// type dropped, joined, at priority -1.
pub open spec fn spec_syn_ca_french(
    n: NameV,
    country: Seq<char>,
    table: Seq<(Seq<char>, ParsedTokenV)>,
) -> Seq<NameV> {
    if ca_french_applies(n.tokenized) {
        one_generated(
            trim_spec(join_sp(crate::name::token_seqs(n.tokenized.skip(1)))),
            -1,
            country,
            table,
        )
    } else {
        Seq::<NameV>::empty()
    }
}

/// In Quebec simple street names are often searched by their name alone;
/// this creates the less desirable synonym for those cases.
pub fn syn_ca_french(name: &Name, context: &Context) -> (r: Vec<Name>)
    ensures
        name_views(r@) == spec_syn_ca_french(name@, context.country@, context.tokens@),
{
    let ghost tkd = name@.tokenized;
    if name.tokenized.len() <= 1 {
        return Vec::new();
    }
    let t0 = name.tokenized[0].token.as_str();
    let t1 = name.tokenized[1].token.as_str();
    let standalone = crate::strutil::str_eq(t0, "r") || crate::strutil::str_eq(t0, "ch")
        || crate::strutil::str_eq(t0, "av") || crate::strutil::str_eq(t0, "bd");
    let eliminated = crate::strutil::str_eq(t1, "du") || crate::strutil::str_eq(t1, "des")
        || crate::strutil::str_eq(t1, "de");
    if standalone && !eliminated {
        let mut parts: Vec<Vec<char>> = Vec::new();
        let mut i: usize = 1;
        proof {
            assert(crate::strutil::views(parts@) =~= crate::name::token_seqs(
                tkd.skip(1),
            ).take(0));
        }
        while i < name.tokenized.len()
            invariant
                1 <= i <= name.tokenized@.len(),
                tkd == name@.tokenized,
                crate::strutil::views(parts@) =~= crate::name::token_seqs(tkd.skip(1)).take(
                    i - 1,
                ),
            decreases name.tokenized@.len() - i,
        {
            let ghost p0 = parts@;
            parts.push(str_chars(name.tokenized[i].token.as_str()));
            proof {
                let ts = crate::name::token_seqs(tkd.skip(1));
                assert(crate::strutil::views(parts@) =~= crate::strutil::views(p0).push(
                    parts@[parts@.len() - 1]@,
                ));
                assert(tkd.skip(1)[i - 1] == tkd[i as int]);
                assert(parts@[parts@.len() - 1]@ == ts[i - 1]);
                assert(ts.take(i - 1).push(ts[i - 1]) =~= ts.take(i as int));
            }
            i = i + 1;
        }
        proof {
            let ts = crate::name::token_seqs(tkd.skip(1));
            assert(ts.take(ts.len() as int) =~= ts);
        }
        let joined = crate::strutil::join_spaces(&parts);
        let trimmed = trim_chars(&joined);
        let basic = string_from_chars(&trimmed);
        let mut out: Vec<Name> = Vec::new();
        out.push(Name::new(basic.as_str(), -1, Some(Source::Generated), context));
        proof {
            assert(name_views(out@) =~= spec_syn_ca_french(
                name@,
                context.country@,
                context.tokens@,
            ));
        }
        out
    } else {
        Vec::new()
    }
}

/// The Rockaway beach trigger: a `Beach` or `Bch` prefix (never a bare
/// `B`), one space, a digit run with an ordinal suffix, and then either the
/// end or a space. The result is the position right after the prefix.
pub open spec fn beach_rest(s: Seq<char>) -> Option<int> {
    let p: int = if ci_at(s, 0, "beach"@) {
        5
    } else if ci_at(s, 0, "bch"@) {
        3
    } else {
        -1
    };
    if p >= 0 && p < s.len() && is_space_char(s[p]) {
        let d = digit_run_end(s, p + 1);
        if d > p + 1 && ord_suffix_at(s, d) && (d + 2 == s.len() || (d + 2 < s.len()
            && is_space_char(s[d + 2]))) {
            Some(p)
        } else {
            None
        }
    } else {
        None
    }
}

/// One of the ordinal suffixes `st`, `nd`, `rd`, `th` at position `i`.
pub open spec fn ord_suffix_at(s: Seq<char>, i: int) -> bool {
    ci_at(s, i, "st"@) || ci_at(s, i, "nd"@) || ci_at(s, i, "rd"@) || ci_at(s, i, "th"@)
}

/// The Rockaway beach synonyms: for `Beach 31st St` or `Bch 31st St`, the
/// display form `Beach 31st St` and the alias `B 31st St`.
pub open spec fn spec_syn_ny_beach(
    n: NameV,
    country: Seq<char>,
    table: Seq<(Seq<char>, ParsedTokenV)>,
) -> Seq<NameV> {
    match beach_rest(n.display) {
        None => Seq::<NameV>::empty(),
        Some(p) => two_generated(
            "Beach"@ + n.display.skip(p),
            "B"@ + n.display.skip(p),
            n.priority,
            country,
            table,
        ),
    }
}

/// In Rockaway NY, streets named `Beach Nth St` are signed `B Nth St`;
/// generate the canonical and abbreviated synonyms.
pub fn syn_ny_beach(name: &Name, context: &Context) -> (r: Vec<Name>)
    requires
        priority_in_range(name@.priority),
    ensures
        name_views(r@) == spec_syn_ny_beach(name@, context.country@, context.tokens@),
{
    let v = str_chars(name.display.as_str());
    let p: usize = if crate::text::ci_check_pub(&v, 0, "beach") {
        5
    } else if crate::text::ci_check_pub(&v, 0, "bch") {
        3
    } else {
        proof {
            reveal_strlit("beach");
            reveal_strlit("bch");
        }
        return Vec::new();
    };
    proof {
        reveal_strlit("beach");
        reveal_strlit("bch");
    }
    if p < v.len() && is_space(v[p]) {
        let d = digit_run_end_exec(&v, p + 1);
        let suffix_ok = v.len() >= 2 && d <= v.len() - 2 && (crate::text::ci_check_pub(&v, d, "st")
            || crate::text::ci_check_pub(&v, d, "nd") || crate::text::ci_check_pub(&v, d, "rd")
            || crate::text::ci_check_pub(&v, d, "th"));
        proof {
            reveal_strlit("st");
            reveal_strlit("nd");
            reveal_strlit("rd");
            reveal_strlit("th");
            if d as int + 2 > v@.len() {
                assert(!ord_suffix_at(v@, d as int));
            }
        }
        if d > p + 1 && suffix_ok && (d + 2 == v.len() || is_space(v[d + 2])) {
            proof {
                assert(beach_rest(name@.display) == Some(p as int));
            }
            let dp = exec_display_priority(name.priority);
            let off = exec_priority_offset(name.priority);
            let mut d1: Vec<char> = Vec::new();
            push_str(&mut d1, "Beach");
            push_range(&mut d1, &v, p, v.len());
            let mut d2: Vec<char> = Vec::new();
            push_str(&mut d2, "B");
            push_range(&mut d2, &v, p, v.len());
            proof {
                assert(v@.subrange(p as int, v@.len() as int) =~= v@.skip(p as int));
                assert(d1@ =~= "Beach"@ + v@.skip(p as int));
                assert(d2@ =~= "B"@ + v@.skip(p as int));
            }
            let s1 = string_from_chars(&d1);
            let s2 = string_from_chars(&d2);
            let mut out: Vec<Name> = Vec::new();
            out.push(Name::new(s1.as_str(), dp, Some(Source::Generated), context));
            out.push(Name::new(s2.as_str(), off - 1, Some(Source::Generated), context));
            proof {
                assert(name_views(out@) =~= spec_syn_ny_beach(
                    name@,
                    context.country@,
                    context.tokens@,
                ));
            }
            out
        } else {
            proof {
                assert(beach_rest(name@.display) is None);
            }
            Vec::new()
        }
    } else {
        proof {
            assert(beach_rest(name@.display) is None);
        }
        Vec::new()
    }
}

} // verus!

verus! {

/// The length of the United States head of a US-highway display: `US` with
/// optional periods, or the words `United States`; zero where none fits.
pub open spec fn us_head_len(s: Seq<char>) -> int {
    if ci_at(s, 0, "u.s."@) {
        4
    } else if ci_at(s, 0, "u.s"@) {
        3
    } else if ci_at(s, 0, "united states"@) {
        13
    } else if ci_at(s, 0, "us."@) {
        3
    } else if ci_at(s, 0, "us"@) {
        2
    } else {
        0
    }
}

/// The length of an optional route-type word with its trailing space.
pub open spec fn hwy_mid_len(s: Seq<char>, i: int) -> int {
    if ci_at(s, i, "route "@) {
        6
    } else if ci_at(s, i, "rte "@) {
        4
    } else if ci_at(s, i, "highway "@) {
        8
    } else if ci_at(s, i, "hwy "@) {
        4
    } else {
        0
    }
}

/// The US-highway trigger: the United States head, a space or hyphen, an
/// optional route-type word, and a digit run to the end; the result is the
/// digit run.
pub open spec fn us_hwy_num(s: Seq<char>) -> Option<Seq<char>> {
    let h = us_head_len(s);
    if h > 0 && h < s.len() && (is_space_char(s[h]) || s[h] == '-') {
        let start = h + 1 + hwy_mid_len(s, h + 1);
        if start < s.len() && digit_run_end(s, start) == s.len() {
            Some(s.skip(start))
        } else {
            None
        }
    } else {
        None
    }
}

/// The US-highway synonyms: the display form `US Route N` and the aliases
/// `US N`, `US Highway N`, `United States Route N`, `United States
/// Highway N`.
pub open spec fn spec_syn_us_hwy(
    n: NameV,
    country: Seq<char>,
    table: Seq<(Seq<char>, ParsedTokenV)>,
) -> Seq<NameV> {
    match us_hwy_num(n.display) {
        None => Seq::<NameV>::empty(),
        Some(num) => {
            let p = n.priority;
            seq![
                spec_name_new(
                    "US Route "@ + num,
                    display_priority(p),
                    Some(Source::Generated),
                    country,
                    table,
                ),
                spec_name_new(
                    "US "@ + num,
                    priority_offset(p) - 1,
                    Some(Source::Generated),
                    country,
                    table,
                ),
                spec_name_new(
                    "US Highway "@ + num,
                    priority_offset(p) - 1,
                    Some(Source::Generated),
                    country,
                    table,
                ),
                spec_name_new(
                    "United States Route "@ + num,
                    priority_offset(p) - 1,
                    Some(Source::Generated),
                    country,
                    table,
                ),
                spec_name_new(
                    "United States Highway "@ + num,
                    priority_offset(p) - 1,
                    Some(Source::Generated),
                    country,
                    table,
                ),
            ]
        },
    }
}

/// Generate synonyms for names like `US 81` => `US Route 81`.
pub fn syn_us_hwy(name: &Name, context: &Context) -> (r: Vec<Name>)
    requires
        priority_in_range(name@.priority),
    ensures
        name_views(r@) == spec_syn_us_hwy(name@, context.country@, context.tokens@),
{
    let v = str_chars(name.display.as_str());
    proof {
        reveal_strlit("u.s.");
        reveal_strlit("u.s");
        reveal_strlit("united states");
        reveal_strlit("us.");
        reveal_strlit("us");
        reveal_strlit("route ");
        reveal_strlit("rte ");
        reveal_strlit("highway ");
        reveal_strlit("hwy ");
    }
    let h: usize = if crate::text::ci_check_pub(&v, 0, "u.s.") {
        4
    } else if crate::text::ci_check_pub(&v, 0, "u.s") {
        3
    } else if crate::text::ci_check_pub(&v, 0, "united states") {
        13
    } else if crate::text::ci_check_pub(&v, 0, "us.") {
        3
    } else if crate::text::ci_check_pub(&v, 0, "us") {
        2
    } else {
        return Vec::new();
    };
    proof {
        assert(us_head_len(name@.display) == h as int);
    }
    if h < v.len() && (is_space(v[h]) || v[h] == '-') {
        let m: usize = if crate::text::ci_check_pub(&v, h + 1, "route ") {
            6
        } else if crate::text::ci_check_pub(&v, h + 1, "rte ") {
            4
        } else if crate::text::ci_check_pub(&v, h + 1, "highway ") {
            8
        } else if crate::text::ci_check_pub(&v, h + 1, "hwy ") {
            4
        } else {
            0
        };
        proof {
            assert(hwy_mid_len(name@.display, h + 1) == m as int);
        }
        let start = h + 1 + m;
        if start < v.len() && digit_run_end_exec(&v, start) == v.len() {
            let dp = exec_display_priority(name.priority);
            let off = exec_priority_offset(name.priority);
            let mut out: Vec<Name> = Vec::new();
            let mut d1: Vec<char> = Vec::new();
            push_str(&mut d1, "US Route ");
            push_range(&mut d1, &v, start, v.len());
            let s1 = string_from_chars(&d1);
            out.push(Name::new(s1.as_str(), dp, Some(Source::Generated), context));
            let mut d2: Vec<char> = Vec::new();
            push_str(&mut d2, "US ");
            push_range(&mut d2, &v, start, v.len());
            let s2 = string_from_chars(&d2);
            out.push(Name::new(s2.as_str(), off - 1, Some(Source::Generated), context));
            let mut d3: Vec<char> = Vec::new();
            push_str(&mut d3, "US Highway ");
            push_range(&mut d3, &v, start, v.len());
            let s3 = string_from_chars(&d3);
            out.push(Name::new(s3.as_str(), off - 1, Some(Source::Generated), context));
            let mut d4: Vec<char> = Vec::new();
            push_str(&mut d4, "United States Route ");
            push_range(&mut d4, &v, start, v.len());
            let s4 = string_from_chars(&d4);
            out.push(Name::new(s4.as_str(), off - 1, Some(Source::Generated), context));
            let mut d5: Vec<char> = Vec::new();
            push_str(&mut d5, "United States Highway ");
            push_range(&mut d5, &v, start, v.len());
            let s5 = string_from_chars(&d5);
            out.push(Name::new(s5.as_str(), off - 1, Some(Source::Generated), context));
            proof {
                assert(v@.subrange(start as int, v@.len() as int) =~= v@.skip(start as int));
                assert(us_hwy_num(name@.display) == Some(v@.skip(start as int)));
                assert(name_views(out@) =~= spec_syn_us_hwy(
                    name@,
                    context.country@,
                    context.tokens@,
                ));
            }
            out
        } else {
            Vec::new()
        }
    } else {
        Vec::new()
    }
}

/// The written tens word at position `i`, as an index into the list
/// `twenty`, `thirty`, `fourty`, `fifty`, `sixty`, `seventy`, `eighty`,
/// `ninety` (the nonstandard `fourty` spelling is what the data uses).
pub open spec fn tenth_at(s: Seq<char>, i: int) -> Option<int> {
    if ci_at(s, i, "twenty"@) {
        Some(0)
    } else if ci_at(s, i, "thirty"@) {
        Some(1)
    } else if ci_at(s, i, "fourty"@) {
        Some(2)
    } else if ci_at(s, i, "fifty"@) {
        Some(3)
    } else if ci_at(s, i, "sixty"@) {
        Some(4)
    } else if ci_at(s, i, "seventy"@) {
        Some(5)
    } else if ci_at(s, i, "eighty"@) {
        Some(6)
    } else if ci_at(s, i, "ninety"@) {
        Some(7)
    } else {
        None
    }
}

pub open spec fn tenth_len(t: int) -> int {
    if t == 5 {
        7
    } else if t == 3 || t == 4 {
        5
    } else {
        6
    }
}

pub open spec fn tenth_digit(t: int) -> Seq<char> {
    if t == 0 {
        "2"@
    } else if t == 1 {
        "3"@
    } else if t == 2 {
        "4"@
    } else if t == 3 {
        "5"@
    } else if t == 4 {
        "6"@
    } else if t == 5 {
        "7"@
    } else if t == 6 {
        "8"@
    } else {
        "9"@
    }
}

/// The written ordinal word at position `i`, as an index into the list
/// `first` ... `ninth`.
pub open spec fn nth_at(s: Seq<char>, i: int) -> Option<int> {
    if ci_at(s, i, "first"@) {
        Some(0)
    } else if ci_at(s, i, "second"@) {
        Some(1)
    } else if ci_at(s, i, "third"@) {
        Some(2)
    } else if ci_at(s, i, "fourth"@) {
        Some(3)
    } else if ci_at(s, i, "fifth"@) {
        Some(4)
    } else if ci_at(s, i, "sixth"@) {
        Some(5)
    } else if ci_at(s, i, "seventh"@) {
        Some(6)
    } else if ci_at(s, i, "eighth"@) {
        Some(7)
    } else if ci_at(s, i, "ninth"@) {
        Some(8)
    } else {
        None
    }
}

pub open spec fn nth_len(n: int) -> int {
    if n == 0 || n == 2 || n == 4 || n == 5 || n == 8 {
        5
    } else if n == 6 {
        7
    } else {
        6
    }
}

pub open spec fn nth_repl(n: int) -> Seq<char> {
    if n == 0 {
        "1st"@
    } else if n == 1 {
        "2nd"@
    } else if n == 2 {
        "3rd"@
    } else if n == 3 {
        "4th"@
    } else if n == 4 {
        "5th"@
    } else if n == 5 {
        "6th"@
    } else if n == 6 {
        "7th"@
    } else if n == 7 {
        "8th"@
    } else {
        "9th"@
    }
}

/// A written numeric, tens word, hyphen and ordinal word, at position `i`.
pub open spec fn wn_at(s: Seq<char>, i: int) -> Option<(int, int)> {
    match tenth_at(s, i) {
        None => None,
        Some(t) => {
            let hp = i + tenth_len(t);
            if 0 <= hp < s.len() && s[hp] == '-' {
                match nth_at(s, hp + 1) {
                    None => None,
                    Some(n) => Some((t, n)),
                }
            } else {
                None
            }
        },
    }
}

/// The last position at or before `i` where a written numeric occurs.
pub open spec fn last_wn(s: Seq<char>, i: int) -> Option<int>
    decreases i + 1,
{
    if i < 0 {
        None
    } else if wn_at(s, i) is Some {
        Some(i)
    } else {
        last_wn(s, i - 1)
    }
}

/// The written-numeric synonym: the last `Twenty-Third`-style phrase
/// replaced by its digit form `23rd`, at priority -1.
pub open spec fn spec_syn_written_numeric(
    n: NameV,
    country: Seq<char>,
    table: Seq<(Seq<char>, ParsedTokenV)>,
) -> Seq<NameV> {
    let s = n.display;
    match last_wn(s, s.len() - 1) {
        None => Seq::<NameV>::empty(),
        Some(i) => {
            let (t, nn) = wn_at(s, i)->Some_0;
            let disp = s.take(i) + tenth_digit(t) + nth_repl(nn) + s.skip(
                i + tenth_len(t) + 1 + nth_len(nn),
            );
            one_generated(disp, -1, country, table)
        },
    }
}

fn wn_check(v: &Vec<char>, i: usize) -> (r: Option<(usize, usize)>)
    requires
        i <= v@.len(),
    ensures
        match r {
            Some((t, n)) => wn_at(v@, i as int) == Some((t as int, n as int)) && tenth_len(
                t as int,
            ) + 1 + nth_len(n as int) <= v@.len() - i,
            None => wn_at(v@, i as int) is None,
        },
{
    proof {
        reveal_strlit("twenty");
        reveal_strlit("thirty");
        reveal_strlit("fourty");
        reveal_strlit("fifty");
        reveal_strlit("sixty");
        reveal_strlit("seventy");
        reveal_strlit("eighty");
        reveal_strlit("ninety");
        reveal_strlit("first");
        reveal_strlit("second");
        reveal_strlit("third");
        reveal_strlit("fourth");
        reveal_strlit("fifth");
        reveal_strlit("sixth");
        reveal_strlit("seventh");
        reveal_strlit("eighth");
        reveal_strlit("ninth");
    }
    let (t, tl): (usize, usize) = if crate::text::ci_check_pub(v, i, "twenty") {
        (0, 6)
    } else if crate::text::ci_check_pub(v, i, "thirty") {
        (1, 6)
    } else if crate::text::ci_check_pub(v, i, "fourty") {
        (2, 6)
    } else if crate::text::ci_check_pub(v, i, "fifty") {
        (3, 5)
    } else if crate::text::ci_check_pub(v, i, "sixty") {
        (4, 5)
    } else if crate::text::ci_check_pub(v, i, "seventy") {
        (5, 7)
    } else if crate::text::ci_check_pub(v, i, "eighty") {
        (6, 6)
    } else if crate::text::ci_check_pub(v, i, "ninety") {
        (7, 6)
    } else {
        return None;
    };
    let vlen = v.len();
    proof {
        assert(tenth_at(v@, i as int) == Some(t as int));
        assert(tenth_len(t as int) == tl as int);
        assert(i + tl <= vlen);
    }
    let hp = i + tl;
    if !(hp < v.len() && v[hp] == '-') {
        return None;
    }
    let (n, nl): (usize, usize) = if crate::text::ci_check_pub(v, hp + 1, "first") {
        (0, 5)
    } else if crate::text::ci_check_pub(v, hp + 1, "second") {
        (1, 6)
    } else if crate::text::ci_check_pub(v, hp + 1, "third") {
        (2, 5)
    } else if crate::text::ci_check_pub(v, hp + 1, "fourth") {
        (3, 6)
    } else if crate::text::ci_check_pub(v, hp + 1, "fifth") {
        (4, 5)
    } else if crate::text::ci_check_pub(v, hp + 1, "sixth") {
        (5, 5)
    } else if crate::text::ci_check_pub(v, hp + 1, "seventh") {
        (6, 7)
    } else if crate::text::ci_check_pub(v, hp + 1, "eighth") {
        (7, 6)
    } else if crate::text::ci_check_pub(v, hp + 1, "ninth") {
        (8, 5)
    } else {
        return None;
    };
    proof {
        assert(nth_at(v@, hp + 1) == Some(n as int));
        assert(nth_len(n as int) == nl as int);
    }
    Some((t, n))
}

fn nth_repl_exec(n: usize) -> (r: &'static str)
    requires
        n <= 8,
    ensures
        r@ == nth_repl(n as int),
{
    if n == 0 {
        "1st"
    } else if n == 1 {
        "2nd"
    } else if n == 2 {
        "3rd"
    } else if n == 3 {
        "4th"
    } else if n == 4 {
        "5th"
    } else if n == 5 {
        "6th"
    } else if n == 6 {
        "7th"
    } else {
        if n == 7 {
            "8th"
        } else {
            "9th"
        }
    }
}

fn tenth_digit_exec(t: usize) -> (r: &'static str)
    requires
        t <= 7,
    ensures
        r@ == tenth_digit(t as int),
{
    if t == 0 {
        "2"
    } else if t == 1 {
        "3"
    } else if t == 2 {
        "4"
    } else if t == 3 {
        "5"
    } else if t == 4 {
        "6"
    } else if t == 5 {
        "7"
    } else {
        if t == 6 {
            "8"
        } else {
            "9"
        }
    }
}

fn tenth_len_exec(t: usize) -> (r: usize)
    requires
        t <= 7,
    ensures
        r == tenth_len(t as int),
{
    if t == 5 {
        7
    } else if t == 3 || t == 4 {
        5
    } else {
        6
    }
}

fn nth_len_exec(n: usize) -> (r: usize)
    requires
        n <= 8,
    ensures
        r == nth_len(n as int),
{
    if n == 0 || n == 2 || n == 4 || n == 5 || n == 8 {
        5
    } else if n == 6 {
        7
    } else {
        6
    }
}

/// One to twenty are handled as token-level replacements; hyphenated tens
/// like `Twenty-Third` are handled here as a generated synonym.
pub fn syn_written_numeric(name: &Name, context: &Context) -> (r: Vec<Name>)
    ensures
        name_views(r@) == spec_syn_written_numeric(name@, context.country@, context.tokens@),
{
    let v = str_chars(name.display.as_str());
    let mut i: usize = v.len();
    while i > 0
        invariant
            i <= v@.len(),
            v@ == name@.display,
            last_wn(v@, v@.len() - 1) == last_wn(v@, i - 1),
        decreases i,
    {
        i = i - 1;
        match wn_check(&v, i) {
            Some((t, nn)) => {
                proof {
                    assert(last_wn(v@, i as int) == Some(i as int));
                }
                let tl = tenth_len_exec(t);
                let nl = nth_len_exec(nn);
                let mut d: Vec<char> = Vec::new();
                push_range(&mut d, &v, 0, i);
                push_str(&mut d, tenth_digit_exec(t));
                push_str(&mut d, nth_repl_exec(nn));
                push_range(&mut d, &v, i + tl + 1 + nl, v.len());
                proof {
                    assert(v@.subrange(0, i as int) =~= v@.take(i as int));
                    assert(v@.subrange(i as int + tl + 1 + nl, v@.len() as int) =~= v@.skip(
                        i as int + tl + 1 + nl,
                    ));
                    assert(d@ =~= v@.take(i as int) + tenth_digit(t as int) + nth_repl(nn as int)
                        + v@.skip(i as int + tenth_len(t as int) + 1 + nth_len(nn as int)));
                }
                let ds = string_from_chars(&d);
                let mut out: Vec<Name> = Vec::new();
                out.push(Name::new(ds.as_str(), -1, Some(Source::Generated), context));
                proof {
                    assert(name_views(out@) =~= spec_syn_written_numeric(
                        name@,
                        context.country@,
                        context.tokens@,
                    ));
                }
                return out;
            },
            None => {},
        }
    }
    proof {
        assert(last_wn(v@, -1) is None);
    }
    Vec::new()
}

} // verus!

verus! {

/// A valid tail for an optional-suffix group: the end of the text or a
/// whitespace character, where the trailing rest may begin.
pub open spec fn post_ok(s: Seq<char>, e: int) -> bool {
    0 <= e <= s.len() && (e == s.len() || is_space_char(s[e]))
}

/// The end of the `J(ohn) F K(ennedy)` core at position `i`, or -1 where it
/// does not match: each initial may be spelled out or dotted, with at most
/// one space between parts, and a valid tail must follow.
pub open spec fn jfk_end(s: Seq<char>, i: int) -> int {
    if !(0 <= i < s.len() && lower_char(s[i]) == 'j') {
        -1
    } else {
        let a = i + 1;
        let a1: int = if a < s.len() && s[a] == '.' {
            a + 1
        } else if ci_at(s, a, "ohn"@) {
            a + 3
        } else {
            a
        };
        let a2: int = if a1 < s.len() && is_space_char(s[a1]) {
            a1 + 1
        } else {
            a1
        };
        if !(a2 < s.len() && lower_char(s[a2]) == 'f') {
            -1
        } else {
            let b = a2 + 1;
            let b1: int = if b < s.len() && s[b] == '.' {
                b + 1
            } else {
                b
            };
            let b2: int = if b1 < s.len() && is_space_char(s[b1]) {
                b1 + 1
            } else {
                b1
            };
            if !(b2 < s.len() && lower_char(s[b2]) == 'k') {
                -1
            } else {
                let c = b2 + 1;
                let c1: int = if c < s.len() && s[c] == '.' {
                    c + 1
                } else if ci_at(s, c, "ennedy"@) {
                    c + 6
                } else {
                    c
                };
                if post_ok(s, c1) {
                    c1
                } else {
                    -1
                }
            }
        }
    }
}

/// The end of the optional `Jr`/`Junior` group after the King part, or -1
/// where no reading leaves a valid tail.
pub open spec fn mlk_jr_end(s: Seq<char>, k: int) -> int {
    if 0 <= k < s.len() && is_space_char(s[k]) {
        let j0 = k + 1;
        if ci_at(s, j0, "jr"@) {
            if j0 + 2 < s.len() && s[j0 + 2] == '.' && post_ok(s, j0 + 3) {
                j0 + 3
            } else if post_ok(s, j0 + 2) {
                j0 + 2
            } else {
                k
            }
        } else if ci_at(s, j0, "junior"@) {
            if post_ok(s, j0 + 6) {
                j0 + 6
            } else {
                k
            }
        } else if post_ok(s, j0) {
            j0
        } else {
            k
        }
    } else {
        if ci_at(s, k, "jr"@) {
            if k + 2 < s.len() && s[k + 2] == '.' && post_ok(s, k + 3) {
                k + 3
            } else if post_ok(s, k + 2) {
                k + 2
            } else if post_ok(s, k) {
                k
            } else {
                -1
            }
        } else if ci_at(s, k, "junior"@) {
            if post_ok(s, k + 6) {
                k + 6
            } else if post_ok(s, k) {
                k
            } else {
                -1
            }
        } else if post_ok(s, k) {
            k
        } else {
            -1
        }
    }
}

/// The end of the `M(artin) L(uther) K(ing) (Jr|Junior)` core at position
/// `i`, or -1 where it does not match.
pub open spec fn mlk_end(s: Seq<char>, i: int) -> int {
    if !(0 <= i < s.len() && lower_char(s[i]) == 'm') {
        -1
    } else {
        let a = i + 1;
        let a1: int = if a < s.len() && s[a] == '.' {
            a + 1
        } else if ci_at(s, a, "artin"@) {
            a + 5
        } else {
            a
        };
        let a2: int = if a1 < s.len() && is_space_char(s[a1]) {
            a1 + 1
        } else {
            a1
        };
        if !(a2 < s.len() && lower_char(s[a2]) == 'l') {
            -1
        } else {
            let b = a2 + 1;
            let b1: int = if b < s.len() && s[b] == '.' {
                b + 1
            } else if ci_at(s, b, "uther"@) {
                b + 5
            } else {
                b
            };
            let b2: int = if b1 < s.len() && is_space_char(s[b1]) {
                b1 + 1
            } else {
                b1
            };
            if !(b2 < s.len() && lower_char(s[b2]) == 'k') {
                -1
            } else {
                let c = b2 + 1;
                let c1: int = if c < s.len() && s[c] == '.' {
                    c + 1
                } else if ci_at(s, c, "ing"@) {
                    c + 3
                } else {
                    c
                };
                mlk_jr_end(s, c1)
            }
        }
    }
}

/// A valid starting position for the famous-person cores: the start of the
/// text or right after whitespace.
pub open spec fn pre_ok(s: Seq<char>, i: int) -> bool {
    i == 0 || (0 < i <= s.len() && is_space_char(s[i - 1]))
}

/// The last valid position at or before `i` where the JFK core matches.
pub open spec fn last_jfk(s: Seq<char>, i: int) -> Option<int>
    decreases i + 1,
{
    if i < 0 {
        None
    } else if pre_ok(s, i) && jfk_end(s, i) >= 0 {
        Some(i)
    } else {
        last_jfk(s, i - 1)
    }
}

/// The last valid position at or before `i` where the MLK core matches.
pub open spec fn last_mlk(s: Seq<char>, i: int) -> Option<int>
    decreases i + 1,
{
    if i < 0 {
        None
    } else if pre_ok(s, i) && mlk_end(s, i) >= 0 {
        Some(i)
    } else {
        last_mlk(s, i - 1)
    }
}

/// The famous-person synonyms: a John F Kennedy display form with a JFK
/// alias, or a Martin Luther King Jr display form with its five aliases,
/// each keeping the surrounding text.
pub open spec fn spec_syn_us_famous(
    n: NameV,
    country: Seq<char>,
    table: Seq<(Seq<char>, ParsedTokenV)>,
) -> Seq<NameV> {
    let s = n.display;
    let p = n.priority;
    match last_jfk(s, s.len() - 1) {
        Some(i) => {
            let e = jfk_end(s, i);
            two_generated(
                s.take(i) + "John F Kennedy"@ + s.skip(e),
                s.take(i) + "JFK"@ + s.skip(e),
                p,
                country,
                table,
            )
        },
        None => match last_mlk(s, s.len() - 1) {
            None => Seq::<NameV>::empty(),
            Some(i) => {
                let e = mlk_end(s, i);
                seq![
                    spec_name_new(
                        s.take(i) + "Martin Luther King Jr"@ + s.skip(e),
                        display_priority(p),
                        Some(Source::Generated),
                        country,
                        table,
                    ),
                    spec_name_new(
                        s.take(i) + "MLK"@ + s.skip(e),
                        priority_offset(p) - 1,
                        Some(Source::Generated),
                        country,
                        table,
                    ),
                    spec_name_new(
                        s.take(i) + "M L K"@ + s.skip(e),
                        priority_offset(p) - 1,
                        Some(Source::Generated),
                        country,
                        table,
                    ),
                    spec_name_new(
                        s.take(i) + "Martin Luther King"@ + s.skip(e),
                        priority_offset(p) - 1,
                        Some(Source::Generated),
                        country,
                        table,
                    ),
                    spec_name_new(
                        s.take(i) + "MLK Jr"@ + s.skip(e),
                        priority_offset(p) - 1,
                        Some(Source::Generated),
                        country,
                        table,
                    ),
                    spec_name_new(
                        s.take(i) + "M L K Jr"@ + s.skip(e),
                        priority_offset(p) - 1,
                        Some(Source::Generated),
                        country,
                        table,
                    ),
                ]
            },
        },
    }
}

fn exec_post_ok(v: &Vec<char>, e: usize) -> (r: bool)
    ensures
        r == post_ok(v@, e as int),
{
    e <= v.len() && (e == v.len() || is_space(v[e]))
}

fn exec_jfk_end(v: &Vec<char>, i: usize) -> (r: Option<usize>)
    requires
        i <= v@.len(),
    ensures
        match r {
            Some(e) => jfk_end(v@, i as int) == e as int && i <= e <= v@.len(),
            None => jfk_end(v@, i as int) == -1,
        },
{
    proof {
        reveal_strlit("ohn");
        reveal_strlit("ennedy");
    }
    if !(i < v.len() && crate::chars::to_lower_char(v[i]) == 'j') {
        return None;
    }
    let a = i + 1;
    let a1: usize = if a < v.len() && v[a] == '.' {
        a + 1
    } else if crate::text::ci_check_pub(v, a, "ohn") {
        a + 3
    } else {
        a
    };
    let a2: usize = if a1 < v.len() && is_space(v[a1]) {
        a1 + 1
    } else {
        a1
    };
    if !(a2 < v.len() && crate::chars::to_lower_char(v[a2]) == 'f') {
        return None;
    }
    let b = a2 + 1;
    let b1: usize = if b < v.len() && v[b] == '.' {
        b + 1
    } else {
        b
    };
    let b2: usize = if b1 < v.len() && is_space(v[b1]) {
        b1 + 1
    } else {
        b1
    };
    if !(b2 < v.len() && crate::chars::to_lower_char(v[b2]) == 'k') {
        return None;
    }
    let c = b2 + 1;
    let c1: usize = if c < v.len() && v[c] == '.' {
        c + 1
    } else if crate::text::ci_check_pub(v, c, "ennedy") {
        c + 6
    } else {
        c
    };
    if exec_post_ok(v, c1) {
        Some(c1)
    } else {
        None
    }
}

fn exec_mlk_jr_end(v: &Vec<char>, k: usize) -> (r: Option<usize>)
    requires
        k <= v@.len(),
    ensures
        match r {
            Some(e) => mlk_jr_end(v@, k as int) == e as int && e <= v@.len(),
            None => mlk_jr_end(v@, k as int) == -1,
        },
{
    proof {
        reveal_strlit("jr");
        reveal_strlit("junior");
    }
    if k < v.len() && is_space(v[k]) {
        let j0 = k + 1;
        if crate::text::ci_check_pub(v, j0, "jr") {
            if j0 + 2 < v.len() && v[j0 + 2] == '.' && exec_post_ok(v, j0 + 3) {
                Some(j0 + 3)
            } else if exec_post_ok(v, j0 + 2) {
                Some(j0 + 2)
            } else {
                Some(k)
            }
        } else if crate::text::ci_check_pub(v, j0, "junior") {
            if exec_post_ok(v, j0 + 6) {
                Some(j0 + 6)
            } else {
                Some(k)
            }
        } else if exec_post_ok(v, j0) {
            Some(j0)
        } else {
            Some(k)
        }
    } else {
        if crate::text::ci_check_pub(v, k, "jr") {
            if k + 2 < v.len() && v[k + 2] == '.' && exec_post_ok(v, k + 3) {
                Some(k + 3)
            } else if exec_post_ok(v, k + 2) {
                Some(k + 2)
            } else if exec_post_ok(v, k) {
                Some(k)
            } else {
                None
            }
        } else if crate::text::ci_check_pub(v, k, "junior") {
            if exec_post_ok(v, k + 6) {
                Some(k + 6)
            } else if exec_post_ok(v, k) {
                Some(k)
            } else {
                None
            }
        } else if exec_post_ok(v, k) {
            Some(k)
        } else {
            None
        }
    }
}

#[verifier::rlimit(100)]
fn exec_mlk_end(v: &Vec<char>, i: usize) -> (r: Option<usize>)
    requires
        i <= v@.len(),
    ensures
        match r {
            Some(e) => mlk_end(v@, i as int) == e as int && e <= v@.len(),
            None => mlk_end(v@, i as int) == -1,
        },
{
    proof {
        reveal_strlit("artin");
        reveal_strlit("uther");
        reveal_strlit("ing");
    }
    if !(i < v.len() && crate::chars::to_lower_char(v[i]) == 'm') {
        return None;
    }
    let a = i + 1;
    let a1: usize = if a < v.len() && v[a] == '.' {
        a + 1
    } else if crate::text::ci_check_pub(v, a, "artin") {
        a + 5
    } else {
        a
    };
    let a2: usize = if a1 < v.len() && is_space(v[a1]) {
        a1 + 1
    } else {
        a1
    };
    if !(a2 < v.len() && crate::chars::to_lower_char(v[a2]) == 'l') {
        return None;
    }
    let b = a2 + 1;
    let b1: usize = if b < v.len() && v[b] == '.' {
        b + 1
    } else if crate::text::ci_check_pub(v, b, "uther") {
        b + 5
    } else {
        b
    };
    let b2: usize = if b1 < v.len() && is_space(v[b1]) {
        b1 + 1
    } else {
        b1
    };
    if !(b2 < v.len() && crate::chars::to_lower_char(v[b2]) == 'k') {
        return None;
    }
    let c = b2 + 1;
    let c1: usize = if c < v.len() && v[c] == '.' {
        c + 1
    } else if crate::text::ci_check_pub(v, c, "ing") {
        c + 3
    } else {
        c
    };
    exec_mlk_jr_end(v, c1)
}

fn famous_build(
    v: &Vec<char>,
    i: usize,
    e: usize,
    mid: &str,
    priority: i8,
    context: &Context,
) -> (r: Name)
    requires
        i <= e <= v@.len(),
        priority > i8::MIN,
    ensures
        r@ == spec_name_new(
            v@.take(i as int) + mid@ + v@.skip(e as int),
            priority as int,
            Some(Source::Generated),
            context.country@,
            context.tokens@,
        ),
{
    let mut d: Vec<char> = Vec::new();
    push_range(&mut d, v, 0, i);
    push_str(&mut d, mid);
    push_range(&mut d, v, e, v.len());
    proof {
        assert(v@.subrange(0, i as int) =~= v@.take(i as int));
        assert(v@.subrange(e as int, v@.len() as int) =~= v@.skip(e as int));
        assert(d@ =~= v@.take(i as int) + mid@ + v@.skip(e as int));
    }
    let ds = string_from_chars(&d);
    Name::new(ds.as_str(), priority, Some(Source::Generated), context)
}

/// Generate synonyms for names like `MLK` => `Martin Luther King`.
#[verifier::rlimit(100)]
#[verifier::spinoff_prover]
pub fn syn_us_famous(name: &Name, context: &Context) -> (r: Vec<Name>)
    requires
        priority_in_range(name@.priority),
    ensures
        name_views(r@) == spec_syn_us_famous(name@, context.country@, context.tokens@),
{
    let v = str_chars(name.display.as_str());
    let dp = exec_display_priority(name.priority);
    let off = exec_priority_offset(name.priority);
    let mut i: usize = v.len();
    let mut jfk_hit: Option<(usize, usize)> = None;
    while i > 0 && jfk_hit.is_none()
        invariant
            i <= v@.len(),
            v@ == name@.display,
            match jfk_hit {
                Some((p, e)) => last_jfk(v@, v@.len() - 1) == Some(p as int) && jfk_end(
                    v@,
                    p as int,
                ) == e as int && p <= e <= v@.len(),
                None => last_jfk(v@, v@.len() - 1) == last_jfk(v@, i - 1),
            },
        decreases i,
    {
        i = i - 1;
        let pre = i == 0 || is_space(v[i - 1]);
        if pre {
            match exec_jfk_end(&v, i) {
                Some(e) => {
                    proof {
                        assert(pre_ok(v@, i as int));
                        assert(last_jfk(v@, i as int) == Some(i as int));
                    }
                    jfk_hit = Some((i, e));
                },
                None => {
                    proof {
                        assert(!(pre_ok(v@, i as int) && jfk_end(v@, i as int) >= 0));
                    }
                },
            }
        } else {
            proof {
                assert(!pre_ok(v@, i as int));
            }
        }
    }
    match jfk_hit {
        Some((p, e)) => {
            let mut out: Vec<Name> = Vec::new();
            out.push(famous_build(&v, p, e, "John F Kennedy", dp, context));
            out.push(famous_build(&v, p, e, "JFK", off - 1, context));
            proof {
                assert(name_views(out@) =~= spec_syn_us_famous(
                    name@,
                    context.country@,
                    context.tokens@,
                ));
            }
            return out;
        },
        None => {},
    }
    proof {
        assert(last_jfk(v@, -1) is None);
        assert(last_jfk(v@, v@.len() - 1) is None);
    }
    let mut i: usize = v.len();
    let mut mlk_hit: Option<(usize, usize)> = None;
    while i > 0 && mlk_hit.is_none()
        invariant
            i <= v@.len(),
            v@ == name@.display,
            match mlk_hit {
                Some((p, e)) => last_mlk(v@, v@.len() - 1) == Some(p as int) && mlk_end(
                    v@,
                    p as int,
                ) == e as int && p <= e <= v@.len(),
                None => last_mlk(v@, v@.len() - 1) == last_mlk(v@, i - 1),
            },
        decreases i,
    {
        i = i - 1;
        let pre = i == 0 || is_space(v[i - 1]);
        if pre {
            match exec_mlk_end(&v, i) {
                Some(e) => {
                    proof {
                        assert(pre_ok(v@, i as int));
                        assert(last_mlk(v@, i as int) == Some(i as int));
                        assert(i as int <= e as int) by {
                            assert(mlk_end(v@, i as int) == e as int);
                        }
                    }
                    mlk_hit = Some((i, e));
                },
                None => {
                    proof {
                        assert(!(pre_ok(v@, i as int) && mlk_end(v@, i as int) >= 0));
                    }
                },
            }
        } else {
            proof {
                assert(!pre_ok(v@, i as int));
            }
        }
    }
    match mlk_hit {
        Some((p, e)) => {
            let mut out: Vec<Name> = Vec::new();
            out.push(famous_build(&v, p, e, "Martin Luther King Jr", dp, context));
            out.push(famous_build(&v, p, e, "MLK", off - 1, context));
            out.push(famous_build(&v, p, e, "M L K", off - 1, context));
            out.push(famous_build(&v, p, e, "Martin Luther King", off - 1, context));
            out.push(famous_build(&v, p, e, "MLK Jr", off - 1, context));
            out.push(famous_build(&v, p, e, "M L K Jr", off - 1, context));
            proof {
                assert(name_views(out@) =~= spec_syn_us_famous(
                    name@,
                    context.country@,
                    context.tokens@,
                ));
            }
            out
        },
        None => {
            proof {
                assert(last_mlk(v@, -1) is None);
                assert(last_mlk(v@, v@.len() - 1) is None);
            }
            Vec::new()
        },
    }
}

} // verus!

verus! {

pub open spec fn opt_view(o: Option<String>) -> Option<Seq<char>> {
    match o {
        None => None,
        Some(s) => Some(s@),
    }
}

pub open spec fn is_ascii_alpha(c: char) -> bool {
    (0x41 <= (c as u32) <= 0x5a) || (0x61 <= (c as u32) <= 0x7a)
}

/// The start of the maximal digit run that ends right before `j`.
pub open spec fn rev_digit_start(s: Seq<char>, j: int) -> int
    decreases j,
{
    if 0 < j <= s.len() && is_ascii_digit(s[j - 1]) {
        rev_digit_start(s, j - 1)
    } else {
        j
    }
}

fn rev_digit_start_exec(v: &Vec<char>, j: usize) -> (r: usize)
    requires
        j <= v@.len(),
    ensures
        r == rev_digit_start(v@, j as int),
        r <= j,
{
    let mut k: usize = j;
    while k > 0 && crate::text::ascii_digit_pub(v[k - 1])
        invariant
            k <= j <= v@.len(),
            rev_digit_start(v@, j as int) == rev_digit_start(v@, k as int),
        decreases k,
    {
        k = k - 1;
    }
    k
}

/// The start of the trailing number (digits and an optional letter) of a
/// Canadian highway display, or -1 where there is none.
pub open spec fn ca_num_start(s: Seq<char>) -> int {
    if s.len() == 0 {
        -1
    } else {
        let dend: int = if is_ascii_alpha(s[s.len() - 1]) {
            s.len() - 1
        } else {
            s.len() as int
        };
        let st = rev_digit_start(s, dend);
        if st < dend {
            st
        } else {
            -1
        }
    }
}

fn ca_num_start_exec(v: &Vec<char>) -> (r: Option<usize>)
    ensures
        match r {
            Some(st) => ca_num_start(v@) == st as int && st < v@.len(),
            None => ca_num_start(v@) == -1,
        },
{
    if v.len() == 0 {
        return None;
    }
    let u = v[v.len() - 1] as u32;
    let dend: usize = if (0x41 <= u && u <= 0x5a) || (0x61 <= u && u <= 0x7a) {
        v.len() - 1
    } else {
        v.len()
    };
    let st = rev_digit_start_exec(v, dend);
    if st < dend {
        Some(st)
    } else {
        None
    }
}

/// A provincial abbreviation and a hyphen ending right before `st`.
pub open spec fn abbr_dash_end(s: Seq<char>, st: int, a: Seq<char>) -> bool {
    st >= a.len() + 1 && s[st - 1] == '-' && ci_at(s, st - 1 - a.len(), a)
}

fn abbr_dash_end_exec(v: &Vec<char>, st: usize, a: &str) -> (r: bool)
    requires
        st <= v@.len(),
    ensures
        r == abbr_dash_end(v@, st as int, a@),
{
    let n = v.len();
    let al = a.unicode_len();
    st > al && st >= 1 && v[st - 1] == '-' && crate::text::ci_check_pub(v, st - 1 - al, a)
}

/// A route-type word and a space ending right before `st`.
pub open spec fn type_sp_end(s: Seq<char>, st: int) -> bool {
    st <= s.len() && st >= 1 && is_space_char(s[st - 1]) && ((st >= 8 && ci_at(
        s,
        st - 8,
        "highway"@,
    )) || (st >= 4 && ci_at(s, st - 4, "hwy"@)) || (st >= 6 && ci_at(s, st - 6, "route"@)) || (
    st >= 4 && ci_at(s, st - 4, "rte"@)))
}

fn type_sp_end_exec(v: &Vec<char>, st: usize) -> (r: bool)
    requires
        st <= v@.len(),
    ensures
        r == type_sp_end(v@, st as int),
{
    proof {
        reveal_strlit("highway");
        reveal_strlit("hwy");
        reveal_strlit("route");
        reveal_strlit("rte");
    }
    st >= 1 && is_space(v[st - 1]) && ((st >= 8 && crate::text::ci_check_pub(v, st - 8, "highway"))
        || (st >= 4 && crate::text::ci_check_pub(v, st - 4, "hwy")) || (st >= 6
        && crate::text::ci_check_pub(v, st - 6, "route")) || (st >= 4 && crate::text::ci_check_pub(
        v,
        st - 4,
        "rte",
    )))
}

/// The King's Highway form at `i`: `King`, an optional apostrophe,
/// `s Highway `, and a digit.
pub open spec fn kings_hwy_at(s: Seq<char>, i: int) -> bool {
    ci_at(s, i, "king"@) && {
        let j = i + 4;
        let j2: int = if j < s.len() && (s[j] as u32) == 0x27 {
            j + 1
        } else {
            j
        };
        ci_at(s, j2, "s highway "@) && j2 + 10 < s.len() && is_ascii_digit(s[j2 + 10])
    }
}

fn kings_hwy_exec(v: &Vec<char>, i: usize) -> (r: bool)
    requires
        i <= v@.len(),
    ensures
        r == kings_hwy_at(v@, i as int),
{
    proof {
        reveal_strlit("king");
        reveal_strlit("s highway ");
    }
    let n = v.len();
    if !crate::text::ci_check_pub(v, i, "king") {
        return false;
    }
    proof {
        assert(i + 4 <= n);
    }
    let j = i + 4;
    let j2: usize = if j < v.len() && (v[j] as u32) == 0x27 {
        j + 1
    } else {
        j
    };
    crate::text::ci_check_pub(v, j2, "s highway ") && j2 + 10 < v.len()
        && crate::text::ascii_digit_pub(v[j2 + 10])
}

/// The length of a route-type word followed by a space and a digit at `t`,
/// or -1.
pub open spec fn type_sp_digit_at(s: Seq<char>, t: int) -> int {
    let tl: int = if ci_at(s, t, "highway"@) {
        7
    } else if ci_at(s, t, "hwy"@) {
        3
    } else if ci_at(s, t, "route"@) {
        5
    } else if ci_at(s, t, "rte"@) {
        3
    } else {
        -1
    };
    if tl > 0 && t + tl < s.len() && is_space_char(s[t + tl]) && t + tl + 1 < s.len()
        && is_ascii_digit(s[t + tl + 1]) {
        tl
    } else {
        -1
    }
}

fn type_sp_digit_exec(v: &Vec<char>, t: usize) -> (r: bool)
    requires
        t <= v@.len(),
    ensures
        r == (type_sp_digit_at(v@, t as int) >= 0),
{
    proof {
        reveal_strlit("highway");
        reveal_strlit("hwy");
        reveal_strlit("route");
        reveal_strlit("rte");
    }
    let tl: usize = if crate::text::ci_check_pub(v, t, "highway") {
        7
    } else if crate::text::ci_check_pub(v, t, "hwy") {
        3
    } else if crate::text::ci_check_pub(v, t, "route") {
        5
    } else if crate::text::ci_check_pub(v, t, "rte") {
        3
    } else {
        return false;
    };
    let n = v.len();
    proof {
        assert(t + tl <= n);
    }
    t + tl < n && is_space(v[t + tl]) && t + tl + 1 < n && crate::text::ascii_digit_pub(
        v[t + tl + 1],
    )
}

/// A province name, a space, a route-type word, a space and a digit at `i`.
pub open spec fn prov_type_digit_at(s: Seq<char>, i: int, n: Seq<char>) -> bool {
    ci_at(s, i, n) && i + n.len() < s.len() && is_space_char(s[i + n.len()]) && type_sp_digit_at(
        s,
        i + n.len() + 1,
    ) >= 0
}

fn prov_type_digit_exec(v: &Vec<char>, i: usize, n: &str) -> (r: bool)
    requires
        i <= v@.len(),
    ensures
        r == prov_type_digit_at(v@, i as int, n@),
{
    let vn = v.len();
    let nl = n.unicode_len();
    if !crate::text::ci_check_pub(v, i, n) {
        return false;
    }
    proof {
        assert(i + nl <= vn);
    }
    i + nl < vn && is_space(v[i + nl]) && type_sp_digit_exec(v, i + nl + 1)
}

/// One of the province names with a route type and digit at `i`.
pub open spec fn prov_any_at(s: Seq<char>, i: int) -> bool {
    prov_type_digit_at(s, i, "ontario"@)
    || prov_type_digit_at(s, i, "quebec"@)
    || prov_type_digit_at(s, i, "nova scotia"@)
    || prov_type_digit_at(s, i, "new brunswick"@)
    || prov_type_digit_at(s, i, "manitoba"@)
    || prov_type_digit_at(s, i, "british columbia"@)
    || prov_type_digit_at(s, i, "prince edward island"@)
    || prov_type_digit_at(s, i, "saskatchewan"@)
    || prov_type_digit_at(s, i, "alberta"@)
    || prov_type_digit_at(s, i, "newfoundland and labrador"@)
    || prov_type_digit_at(s, i, "northwest territories"@)
    || prov_type_digit_at(s, i, "yukon"@)
    || prov_type_digit_at(s, i, "nunavut"@)
}

fn prov_any_exec(v: &Vec<char>, i: usize) -> (r: bool)
    requires
        i <= v@.len(),
    ensures
        r == prov_any_at(v@, i as int),
{
    prov_type_digit_exec(v, i, "ontario")
        || prov_type_digit_exec(v, i, "quebec")
        || prov_type_digit_exec(v, i, "nova scotia")
        || prov_type_digit_exec(v, i, "new brunswick")
        || prov_type_digit_exec(v, i, "manitoba")
        || prov_type_digit_exec(v, i, "british columbia")
        || prov_type_digit_exec(v, i, "prince edward island")
        || prov_type_digit_exec(v, i, "saskatchewan")
        || prov_type_digit_exec(v, i, "alberta")
        || prov_type_digit_exec(v, i, "newfoundland and labrador")
        || prov_type_digit_exec(v, i, "northwest territories")
        || prov_type_digit_exec(v, i, "yukon")
        || prov_type_digit_exec(v, i, "nunavut")
}

/// One of the provincial abbreviations with a hyphen before `st`.
pub open spec fn ca_abbr_any(s: Seq<char>, st: int) -> bool {
    abbr_dash_end(s, st, "on"@)
        || abbr_dash_end(s, st, "qc"@)
        || abbr_dash_end(s, st, "ns"@)
        || abbr_dash_end(s, st, "nb"@)
        || abbr_dash_end(s, st, "mb"@)
        || abbr_dash_end(s, st, "bc"@)
        || abbr_dash_end(s, st, "pe"@)
        || abbr_dash_end(s, st, "pei"@)
        || abbr_dash_end(s, st, "sk"@)
        || abbr_dash_end(s, st, "ab"@)
        || abbr_dash_end(s, st, "nl"@)
        || abbr_dash_end(s, st, "nt"@)
        || abbr_dash_end(s, st, "yt"@)
        || abbr_dash_end(s, st, "nu"@)
}

fn ca_abbr_any_exec(v: &Vec<char>, st: usize) -> (r: bool)
    requires
        st <= v@.len(),
    ensures
        r == ca_abbr_any(v@, st as int),
{
    abbr_dash_end_exec(v, st, "on")
            || abbr_dash_end_exec(v, st, "qc")
            || abbr_dash_end_exec(v, st, "ns")
            || abbr_dash_end_exec(v, st, "nb")
            || abbr_dash_end_exec(v, st, "mb")
            || abbr_dash_end_exec(v, st, "bc")
            || abbr_dash_end_exec(v, st, "pe")
            || abbr_dash_end_exec(v, st, "pei")
            || abbr_dash_end_exec(v, st, "sk")
            || abbr_dash_end_exec(v, st, "ab")
            || abbr_dash_end_exec(v, st, "nl")
            || abbr_dash_end_exec(v, st, "nt")
            || abbr_dash_end_exec(v, st, "yt")
            || abbr_dash_end_exec(v, st, "nu")
}

/// Whether the display triggers the Canadian provincial-highway synonyms:
/// a bare number, an abbreviation-dash form, a route-type form, a King's
/// Highway form, or a province-name form.
pub open spec fn ca_hwy_matches(s: Seq<char>) -> bool {
    let st = ca_num_start(s);
    ||| st == 0
    ||| (st > 0 && ca_abbr_any(s, st))
    ||| (st > 0 && type_sp_end(s, st))
    ||| (exists|i: int| 0 <= i < s.len() && kings_hwy_at(s, i))
    ||| (exists|i: int| 0 <= i < s.len() && prov_any_at(s, i))
}

/// The Canadian provincial-highway synonyms: the display form
/// `{Province} {Highway|Route} N`, the aliases `Highway N` and `Route N`,
/// and the abbreviation form `{AB} N`; the Trans-Canada `1` is suppressed.
pub open spec fn spec_syn_ca_hwy(
    n: NameV,
    country: Seq<char>,
    region: Option<Seq<char>>,
    table: Seq<(Seq<char>, ParsedTokenV)>,
) -> Seq<NameV> {
    match region {
        None => Seq::<NameV>::empty(),
        Some(rg) => match crate::context::spec_region_name(country + "-"@ + rg) {
            None => Seq::<NameV>::empty(),
            Some(rname) => {
                let s = n.display;
                if s == "1"@ {
                    Seq::<NameV>::empty()
                } else if ca_hwy_matches(s) && ca_num_start(s) >= 0 {
                    let num = s.skip(ca_num_start(s));
                    let hwy_type: Seq<char> = if rg == "NB"@ || rg == "NL"@ || rg == "PE"@ || rg
                        == "QC"@ {
                        "Highway"@
                    } else {
                        "Route"@
                    };
                    let p = n.priority;
                    seq![
                        spec_name_new(
                            rname + seq![' '] + hwy_type + seq![' '] + num,
                            display_priority(p),
                            Some(Source::Generated),
                            country,
                            table,
                        ),
                        spec_name_new(
                            "Highway "@ + num,
                            priority_offset(p) - 1,
                            Some(Source::Generated),
                            country,
                            table,
                        ),
                        spec_name_new(
                            "Route "@ + num,
                            priority_offset(p) - 1,
                            Some(Source::Generated),
                            country,
                            table,
                        ),
                        spec_name_new(
                            rg + seq![' '] + num,
                            priority_offset(p) - 2,
                            Some(Source::Generated),
                            country,
                            table,
                        ),
                    ]
                } else {
                    Seq::<NameV>::empty()
                }
            },
        },
    }
}

/// Adds synonyms to names like `Highway 123` => `NS-123`,
/// `Nova Scotia Highway 123`.
#[verifier::rlimit(100)]
pub fn syn_ca_hwy(name: &Name, context: &Context) -> (r: Vec<Name>)
    requires
        priority_in_range(name@.priority),
    ensures
        name_views(r@) == spec_syn_ca_hwy(
            name@,
            context.country@,
            opt_view(context.region),
            context.tokens@,
        ),
{
    let region: &String = match &context.region {
        None => {
            return Vec::new();
        },
        Some(rg) => rg,
    };
    let rname: String = match context.region_name() {
        None => {
            return Vec::new();
        },
        Some(rn) => rn,
    };
    let v = str_chars(name.display.as_str());
    proof {
        reveal_strlit("1");
    }
    if v.len() == 1 && v[0] == '1' {
        proof {
            assert(name@.display =~= "1"@);
        }
        return Vec::new();
    }
    proof {
        assert(name@.display != "1"@);
    }
    let st_opt = ca_num_start_exec(&v);
    let mut matched = false;
    match st_opt {
        Some(st) => {
            if st == 0 || ca_abbr_any_exec(&v, st) || type_sp_end_exec(&v, st) {
                matched = true;
            }
        },
        None => {},
    }
    if !matched {
        let mut i: usize = 0;
        while i < v.len() && !matched
            invariant
                i <= v@.len(),
                matched ==> ca_hwy_matches(v@),
                !matched ==> forall|j: int|
                    0 <= j < i ==> !kings_hwy_at(v@, j) && !prov_any_at(v@, j),
            decreases v@.len() - i,
        {
            if kings_hwy_exec(&v, i) || prov_any_exec(&v, i) {
                matched = true;
            }
            i = i + 1;
        }
    }
    if !matched {
        proof {
            assert(!ca_hwy_matches(v@));
        }
        return Vec::new();
    }
    let st: usize = match st_opt {
        None => {
            return Vec::new();
        },
        Some(st) => st,
    };
    proof {
        assert(ca_hwy_matches(v@));
        assert(ca_num_start(v@) == st as int);
    }
    let dp = exec_display_priority(name.priority);
    let off = exec_priority_offset(name.priority);
    proof {
        reveal_strlit("NB");
        reveal_strlit("NL");
        reveal_strlit("PE");
        reveal_strlit("QC");
    }
    let hwy_type: &'static str = if crate::strutil::str_eq(region.as_str(), "NB")
        || crate::strutil::str_eq(region.as_str(), "NL") || crate::strutil::str_eq(
        region.as_str(),
        "PE",
    ) || crate::strutil::str_eq(region.as_str(), "QC") {
        "Highway"
    } else {
        "Route"
    };
    let mut out: Vec<Name> = Vec::new();
    let mut d1: Vec<char> = Vec::new();
    push_str(&mut d1, rname.as_str());
    d1.push(' ');
    push_str(&mut d1, hwy_type);
    d1.push(' ');
    push_range(&mut d1, &v, st, v.len());
    let s1 = string_from_chars(&d1);
    out.push(Name::new(s1.as_str(), dp, Some(Source::Generated), context));
    let mut d2: Vec<char> = Vec::new();
    push_str(&mut d2, "Highway ");
    push_range(&mut d2, &v, st, v.len());
    let s2 = string_from_chars(&d2);
    out.push(Name::new(s2.as_str(), off - 1, Some(Source::Generated), context));
    let mut d3: Vec<char> = Vec::new();
    push_str(&mut d3, "Route ");
    push_range(&mut d3, &v, st, v.len());
    let s3 = string_from_chars(&d3);
    out.push(Name::new(s3.as_str(), off - 1, Some(Source::Generated), context));
    let mut d4: Vec<char> = Vec::new();
    push_str(&mut d4, region.as_str());
    d4.push(' ');
    push_range(&mut d4, &v, st, v.len());
    let s4 = string_from_chars(&d4);
    out.push(Name::new(s4.as_str(), off - 2, Some(Source::Generated), context));
    proof {
        let num = v@.skip(st as int);
        assert(v@.subrange(st as int, v@.len() as int) =~= num);
        let rg = context.region->Some_0@;
        assert(d1@ =~= rname@ + seq![' '] + hwy_type@ + seq![' '] + num);
        assert(d2@ =~= "Highway "@ + num);
        assert(d3@ =~= "Route "@ + num);
        assert(d4@ =~= rg + seq![' '] + num);
        assert((rg == "NB"@ || rg == "NL"@ || rg == "PE"@ || rg == "QC"@) ==> hwy_type@
            == "Highway"@);
        assert(name_views(out@) =~= spec_syn_ca_hwy(
            name@,
            context.country@,
            opt_view(context.region),
            context.tokens@,
        ));
    }
    out
}

/// A route-type word and one space filling `pre` exactly from `i` on.
pub open spec fn type_sp_to_end(pre: Seq<char>, i: int) -> bool {
    ||| (ci_at(pre, i, "highway"@) && i + 8 == pre.len() && is_space_char(pre[i + 7]))
    ||| (ci_at(pre, i, "hwy"@) && i + 4 == pre.len() && is_space_char(pre[i + 3]))
    ||| (ci_at(pre, i, "route"@) && i + 6 == pre.len() && is_space_char(pre[i + 5]))
    ||| (ci_at(pre, i, "rte"@) && i + 4 == pre.len() && is_space_char(pre[i + 3]))
}

fn type_sp_to_end_exec(pre: &Vec<char>, i: usize) -> (r: bool)
    requires
        i <= pre@.len(),
    ensures
        r == type_sp_to_end(pre@, i as int),
{
    let n = pre.len();
    proof {
        reveal_strlit("highway");
        reveal_strlit("hwy");
        reveal_strlit("route");
        reveal_strlit("rte");
    }
    (crate::text::ci_check_pub(pre, i, "highway") && n >= 8 && i == n - 8 && is_space(
        pre[n - 1],
    )) || (crate::text::ci_check_pub(pre, i, "hwy") && n >= 4 && i == n - 4 && is_space(
        pre[n - 1],
    )) || (crate::text::ci_check_pub(pre, i, "route") && n >= 6 && i == n - 6 && is_space(
        pre[n - 1],
    )) || (crate::text::ci_check_pub(pre, i, "rte") && n >= 4 && i == n - 4 && is_space(
        pre[n - 1],
    ))
}

/// A state name at the start of `pre`, a space, and optionally a
/// route-type word and space filling the rest.
pub open spec fn state_name_sp(pre: Seq<char>, n: Seq<char>) -> bool {
    ci_at(pre, 0, n) && n.len() < pre.len() && is_space_char(pre[n.len() as int]) && (n.len() as int + 1
        == pre.len() || type_sp_to_end(pre, n.len() as int + 1))
}

fn state_name_sp_exec(pre: &Vec<char>, n: &str) -> (r: bool)
    ensures
        r == state_name_sp(pre@, n@),
{
    let pn = pre.len();
    let nl = n.unicode_len();
    if !crate::text::ci_check_pub(pre, 0, n) {
        return false;
    }
    proof {
        assert(nl <= pn);
    }
    nl < pn && is_space(pre[nl]) && (nl + 1 == pn || type_sp_to_end_exec(pre, nl + 1))
}

/// A state abbreviation at `base`, a space or hyphen, and optionally a
/// route-type word and space filling the rest.
pub open spec fn abbr_sp(pre: Seq<char>, base: int, a: Seq<char>) -> bool {
    ci_at(pre, base, a) && {
        let k = base + a.len();
        k < pre.len() && (pre[k] == '-' || is_space_char(pre[k])) && (k + 1 == pre.len()
            || type_sp_to_end(pre, k + 1))
    }
}

fn abbr_sp_exec(pre: &Vec<char>, base: usize, a: &str) -> (r: bool)
    requires
        base <= pre@.len(),
    ensures
        r == abbr_sp(pre@, base as int, a@),
{
    let n = pre.len();
    let al = a.unicode_len();
    if !crate::text::ci_check_pub(pre, base, a) {
        return false;
    }
    proof {
        assert(base + al <= n);
    }
    let k = base + al;
    k < n && (pre[k] == '-' || is_space(pre[k])) && (k + 1 == n || type_sp_to_end_exec(
        pre,
        k + 1,
    ))
}

/// One of the state names leading `pre`.
pub open spec fn state_name_any(pre: Seq<char>) -> bool {
    state_name_sp(pre, "alabama"@)
    || state_name_sp(pre, "alaska"@)
    || state_name_sp(pre, "arizona"@)
    || state_name_sp(pre, "arkansas"@)
    || state_name_sp(pre, "california"@)
    || state_name_sp(pre, "colorado"@)
    || state_name_sp(pre, "connecticut"@)
    || state_name_sp(pre, "delaware"@)
    || state_name_sp(pre, "florida"@)
    || state_name_sp(pre, "georgia"@)
    || state_name_sp(pre, "hawaii"@)
    || state_name_sp(pre, "idaho"@)
    || state_name_sp(pre, "illinois"@)
    || state_name_sp(pre, "indiana"@)
    || state_name_sp(pre, "iowa"@)
    || state_name_sp(pre, "kansas"@)
    || state_name_sp(pre, "kentucky"@)
    || state_name_sp(pre, "louisiana"@)
    || state_name_sp(pre, "maine"@)
    || state_name_sp(pre, "maryland"@)
    || state_name_sp(pre, "massachusetts"@)
    || state_name_sp(pre, "michigan"@)
    || state_name_sp(pre, "minnesota"@)
    || state_name_sp(pre, "mississippi"@)
    || state_name_sp(pre, "missouri"@)
    || state_name_sp(pre, "montana"@)
    || state_name_sp(pre, "nebraska"@)
    || state_name_sp(pre, "nevada"@)
    || state_name_sp(pre, "new hampshire"@)
    || state_name_sp(pre, "new jersey"@)
    || state_name_sp(pre, "new mexico"@)
    || state_name_sp(pre, "new york"@)
    || state_name_sp(pre, "north carolina"@)
    || state_name_sp(pre, "north dakota"@)
    || state_name_sp(pre, "ohio"@)
    || state_name_sp(pre, "oklahoma"@)
    || state_name_sp(pre, "oregon"@)
    || state_name_sp(pre, "pennsylvania"@)
    || state_name_sp(pre, "rhode island"@)
    || state_name_sp(pre, "south carolina"@)
    || state_name_sp(pre, "south dakota"@)
    || state_name_sp(pre, "tennessee"@)
    || state_name_sp(pre, "texas"@)
    || state_name_sp(pre, "utah"@)
    || state_name_sp(pre, "vermont"@)
    || state_name_sp(pre, "virginia"@)
    || state_name_sp(pre, "washington"@)
    || state_name_sp(pre, "west virginia"@)
    || state_name_sp(pre, "wisconsin"@)
    || state_name_sp(pre, "wyoming"@)
    || state_name_sp(pre, "district of columbia"@)
    || state_name_sp(pre, "american samoa"@)
    || state_name_sp(pre, "guam"@)
    || state_name_sp(pre, "northern mariana islands"@)
    || state_name_sp(pre, "puerto rico"@)
    || state_name_sp(pre, "united states minor outlying islands"@)
    || state_name_sp(pre, "virgin islands"@)
}

fn state_name_any_exec(pre: &Vec<char>) -> (r: bool)
    ensures
        r == state_name_any(pre@),
{
    state_name_sp_exec(pre, "alabama")
        || state_name_sp_exec(pre, "alaska")
        || state_name_sp_exec(pre, "arizona")
        || state_name_sp_exec(pre, "arkansas")
        || state_name_sp_exec(pre, "california")
        || state_name_sp_exec(pre, "colorado")
        || state_name_sp_exec(pre, "connecticut")
        || state_name_sp_exec(pre, "delaware")
        || state_name_sp_exec(pre, "florida")
        || state_name_sp_exec(pre, "georgia")
        || state_name_sp_exec(pre, "hawaii")
        || state_name_sp_exec(pre, "idaho")
        || state_name_sp_exec(pre, "illinois")
        || state_name_sp_exec(pre, "indiana")
        || state_name_sp_exec(pre, "iowa")
        || state_name_sp_exec(pre, "kansas")
        || state_name_sp_exec(pre, "kentucky")
        || state_name_sp_exec(pre, "louisiana")
        || state_name_sp_exec(pre, "maine")
        || state_name_sp_exec(pre, "maryland")
        || state_name_sp_exec(pre, "massachusetts")
        || state_name_sp_exec(pre, "michigan")
        || state_name_sp_exec(pre, "minnesota")
        || state_name_sp_exec(pre, "mississippi")
        || state_name_sp_exec(pre, "missouri")
        || state_name_sp_exec(pre, "montana")
        || state_name_sp_exec(pre, "nebraska")
        || state_name_sp_exec(pre, "nevada")
        || state_name_sp_exec(pre, "new hampshire")
        || state_name_sp_exec(pre, "new jersey")
        || state_name_sp_exec(pre, "new mexico")
        || state_name_sp_exec(pre, "new york")
        || state_name_sp_exec(pre, "north carolina")
        || state_name_sp_exec(pre, "north dakota")
        || state_name_sp_exec(pre, "ohio")
        || state_name_sp_exec(pre, "oklahoma")
        || state_name_sp_exec(pre, "oregon")
        || state_name_sp_exec(pre, "pennsylvania")
        || state_name_sp_exec(pre, "rhode island")
        || state_name_sp_exec(pre, "south carolina")
        || state_name_sp_exec(pre, "south dakota")
        || state_name_sp_exec(pre, "tennessee")
        || state_name_sp_exec(pre, "texas")
        || state_name_sp_exec(pre, "utah")
        || state_name_sp_exec(pre, "vermont")
        || state_name_sp_exec(pre, "virginia")
        || state_name_sp_exec(pre, "washington")
        || state_name_sp_exec(pre, "west virginia")
        || state_name_sp_exec(pre, "wisconsin")
        || state_name_sp_exec(pre, "wyoming")
        || state_name_sp_exec(pre, "district of columbia")
        || state_name_sp_exec(pre, "american samoa")
        || state_name_sp_exec(pre, "guam")
        || state_name_sp_exec(pre, "northern mariana islands")
        || state_name_sp_exec(pre, "puerto rico")
        || state_name_sp_exec(pre, "united states minor outlying islands")
        || state_name_sp_exec(pre, "virgin islands")
}

/// One of the state abbreviations at `base` in `pre`.
pub open spec fn abbr_any(pre: Seq<char>, base: int) -> bool {
    abbr_sp(pre, base, "al"@)
    || abbr_sp(pre, base, "ak"@)
    || abbr_sp(pre, base, "az"@)
    || abbr_sp(pre, base, "ar"@)
    || abbr_sp(pre, base, "ca"@)
    || abbr_sp(pre, base, "co"@)
    || abbr_sp(pre, base, "ct"@)
    || abbr_sp(pre, base, "de"@)
    || abbr_sp(pre, base, "fl"@)
    || abbr_sp(pre, base, "ga"@)
    || abbr_sp(pre, base, "hi"@)
    || abbr_sp(pre, base, "id"@)
    || abbr_sp(pre, base, "il"@)
    || abbr_sp(pre, base, "in"@)
    || abbr_sp(pre, base, "ia"@)
    || abbr_sp(pre, base, "ks"@)
    || abbr_sp(pre, base, "ky"@)
    || abbr_sp(pre, base, "la"@)
    || abbr_sp(pre, base, "me"@)
    || abbr_sp(pre, base, "md"@)
    || abbr_sp(pre, base, "ma"@)
    || abbr_sp(pre, base, "mi"@)
    || abbr_sp(pre, base, "mn"@)
    || abbr_sp(pre, base, "ms"@)
    || abbr_sp(pre, base, "mo"@)
    || abbr_sp(pre, base, "mt"@)
    || abbr_sp(pre, base, "ne"@)
    || abbr_sp(pre, base, "nv"@)
    || abbr_sp(pre, base, "nh"@)
    || abbr_sp(pre, base, "nj"@)
    || abbr_sp(pre, base, "nm"@)
    || abbr_sp(pre, base, "ny"@)
    || abbr_sp(pre, base, "nc"@)
    || abbr_sp(pre, base, "nd"@)
    || abbr_sp(pre, base, "oh"@)
    || abbr_sp(pre, base, "ok"@)
    || abbr_sp(pre, base, "or"@)
    || abbr_sp(pre, base, "pa"@)
    || abbr_sp(pre, base, "ri"@)
    || abbr_sp(pre, base, "sc"@)
    || abbr_sp(pre, base, "sd"@)
    || abbr_sp(pre, base, "tn"@)
    || abbr_sp(pre, base, "tx"@)
    || abbr_sp(pre, base, "ut"@)
    || abbr_sp(pre, base, "vt"@)
    || abbr_sp(pre, base, "va"@)
    || abbr_sp(pre, base, "wa"@)
    || abbr_sp(pre, base, "wv"@)
    || abbr_sp(pre, base, "wi"@)
    || abbr_sp(pre, base, "wy"@)
    || abbr_sp(pre, base, "dc"@)
    || abbr_sp(pre, base, "as"@)
    || abbr_sp(pre, base, "gu"@)
    || abbr_sp(pre, base, "mp"@)
    || abbr_sp(pre, base, "pr"@)
    || abbr_sp(pre, base, "um"@)
    || abbr_sp(pre, base, "vi"@)
    || abbr_sp(pre, base, "sr"@)
}

fn abbr_any_exec(pre: &Vec<char>, base: usize) -> (r: bool)
    requires
        base <= pre@.len(),
    ensures
        r == abbr_any(pre@, base as int),
{
    abbr_sp_exec(pre, base, "al")
        || abbr_sp_exec(pre, base, "ak")
        || abbr_sp_exec(pre, base, "az")
        || abbr_sp_exec(pre, base, "ar")
        || abbr_sp_exec(pre, base, "ca")
        || abbr_sp_exec(pre, base, "co")
        || abbr_sp_exec(pre, base, "ct")
        || abbr_sp_exec(pre, base, "de")
        || abbr_sp_exec(pre, base, "fl")
        || abbr_sp_exec(pre, base, "ga")
        || abbr_sp_exec(pre, base, "hi")
        || abbr_sp_exec(pre, base, "id")
        || abbr_sp_exec(pre, base, "il")
        || abbr_sp_exec(pre, base, "in")
        || abbr_sp_exec(pre, base, "ia")
        || abbr_sp_exec(pre, base, "ks")
        || abbr_sp_exec(pre, base, "ky")
        || abbr_sp_exec(pre, base, "la")
        || abbr_sp_exec(pre, base, "me")
        || abbr_sp_exec(pre, base, "md")
        || abbr_sp_exec(pre, base, "ma")
        || abbr_sp_exec(pre, base, "mi")
        || abbr_sp_exec(pre, base, "mn")
        || abbr_sp_exec(pre, base, "ms")
        || abbr_sp_exec(pre, base, "mo")
        || abbr_sp_exec(pre, base, "mt")
        || abbr_sp_exec(pre, base, "ne")
        || abbr_sp_exec(pre, base, "nv")
        || abbr_sp_exec(pre, base, "nh")
        || abbr_sp_exec(pre, base, "nj")
        || abbr_sp_exec(pre, base, "nm")
        || abbr_sp_exec(pre, base, "ny")
        || abbr_sp_exec(pre, base, "nc")
        || abbr_sp_exec(pre, base, "nd")
        || abbr_sp_exec(pre, base, "oh")
        || abbr_sp_exec(pre, base, "ok")
        || abbr_sp_exec(pre, base, "or")
        || abbr_sp_exec(pre, base, "pa")
        || abbr_sp_exec(pre, base, "ri")
        || abbr_sp_exec(pre, base, "sc")
        || abbr_sp_exec(pre, base, "sd")
        || abbr_sp_exec(pre, base, "tn")
        || abbr_sp_exec(pre, base, "tx")
        || abbr_sp_exec(pre, base, "ut")
        || abbr_sp_exec(pre, base, "vt")
        || abbr_sp_exec(pre, base, "va")
        || abbr_sp_exec(pre, base, "wa")
        || abbr_sp_exec(pre, base, "wv")
        || abbr_sp_exec(pre, base, "wi")
        || abbr_sp_exec(pre, base, "wy")
        || abbr_sp_exec(pre, base, "dc")
        || abbr_sp_exec(pre, base, "as")
        || abbr_sp_exec(pre, base, "gu")
        || abbr_sp_exec(pre, base, "mp")
        || abbr_sp_exec(pre, base, "pr")
        || abbr_sp_exec(pre, base, "um")
        || abbr_sp_exec(pre, base, "vi")
        || abbr_sp_exec(pre, base, "sr")
}

/// Whether `pre` is a valid state-highway prefix: a `St`/`State` type
/// form, a state name, a bare route-type word, or a (possibly
/// `US`-prefixed) state abbreviation form.
pub open spec fn is_state_prefix(pre: Seq<char>) -> bool {
    ||| (ci_at(pre, 0, "st"@) && 2 < pre.len() && is_space_char(pre[2]) && type_sp_to_end(pre, 3))
    ||| (ci_at(pre, 0, "state"@) && 5 < pre.len() && is_space_char(pre[5]) && type_sp_to_end(
        pre,
        6,
    ))
    ||| state_name_any(pre)
    ||| type_sp_to_end(pre, 0)
    ||| abbr_any(pre, 0)
    ||| (ci_at(pre, 0, "us"@) && 2 < pre.len() && (pre[2] == '-' || is_space_char(pre[2]))
        && abbr_any(pre, 3))
}

fn is_state_prefix_exec(pre: &Vec<char>) -> (r: bool)
    ensures
        r == is_state_prefix(pre@),
{
    proof {
        reveal_strlit("st");
        reveal_strlit("state");
        reveal_strlit("us");
    }
    if crate::text::ci_check_pub(pre, 0, "st") && 2 < pre.len() && is_space(pre[2])
        && type_sp_to_end_exec(pre, 3) {
        return true;
    }
    if crate::text::ci_check_pub(pre, 0, "state") && 5 < pre.len() && is_space(pre[5])
        && type_sp_to_end_exec(pre, 6) {
        return true;
    }
    if state_name_any_exec(pre) {
        return true;
    }
    if type_sp_to_end_exec(pre, 0) {
        return true;
    }
    if abbr_any_exec(pre, 0) {
        return true;
    }
    if crate::text::ci_check_pub(pre, 0, "us") && 2 < pre.len() && (pre[2] == '-' || is_space(
        pre[2],
    )) && 3 <= pre.len() && abbr_any_exec(pre, 3) {
        return true;
    }
    false
}

/// The length of an optional trailing route-type suffix (a space and the
/// word) at the end of the display.
pub open spec fn hwy_suffix_len(s: Seq<char>) -> int {
    if s.len() >= 8 && is_space_char(s[s.len() - 8]) && ci_at(s, s.len() - 7, "highway"@) {
        8
    } else if s.len() >= 4 && is_space_char(s[s.len() - 4]) && ci_at(s, s.len() - 3, "hwy"@) {
        4
    } else if s.len() >= 6 && is_space_char(s[s.len() - 6]) && ci_at(s, s.len() - 5, "route"@) {
        6
    } else if s.len() >= 4 && is_space_char(s[s.len() - 4]) && ci_at(s, s.len() - 3, "rte"@) {
        4
    } else {
        0
    }
}

/// The state-highway trigger: after stripping an optional trailing
/// route-type word, the display must end in a digit run preceded by a
/// valid state-highway prefix; the result is the digit run.
pub open spec fn state_hwy_num(s: Seq<char>) -> Option<Seq<char>> {
    let body = s.take(s.len() - hwy_suffix_len(s));
    let st = rev_digit_start(body, body.len() as int);
    if 0 < st < body.len() && is_state_prefix(body.take(st)) {
        Some(body.skip(st))
    } else if st == 0 {
        None
    } else {
        None
    }
}

/// The state-highway synonyms: the display form `{State} Highway N` and
/// the aliases `{AB} N Highway`, `{AB} N`, `Highway N`, `SR N`,
/// `State Highway N` and `State Route N`.
pub open spec fn spec_syn_state_hwy(
    n: NameV,
    country: Seq<char>,
    region: Option<Seq<char>>,
    table: Seq<(Seq<char>, ParsedTokenV)>,
) -> Seq<NameV> {
    match region {
        None => Seq::<NameV>::empty(),
        Some(rg) => match crate::context::spec_region_name(country + "-"@ + rg) {
            None => Seq::<NameV>::empty(),
            Some(rname) => match state_hwy_num(n.display) {
                None => Seq::<NameV>::empty(),
                Some(num) => {
                    let p = n.priority;
                    let up = crate::context::upper_seq(rg);
                    seq![
                        spec_name_new(
                            rname + " Highway "@ + num,
                            display_priority(p),
                            Some(Source::Generated),
                            country,
                            table,
                        ),
                        spec_name_new(
                            up + seq![' '] + num + " Highway"@,
                            priority_offset(p) - 2,
                            Some(Source::Generated),
                            country,
                            table,
                        ),
                        spec_name_new(
                            up + seq![' '] + num,
                            priority_offset(p) - 1,
                            Some(Source::Generated),
                            country,
                            table,
                        ),
                        spec_name_new(
                            "Highway "@ + num,
                            priority_offset(p) - 2,
                            Some(Source::Generated),
                            country,
                            table,
                        ),
                        spec_name_new(
                            "SR "@ + num,
                            priority_offset(p) - 1,
                            Some(Source::Generated),
                            country,
                            table,
                        ),
                        spec_name_new(
                            "State Highway "@ + num,
                            priority_offset(p) - 1,
                            Some(Source::Generated),
                            country,
                            table,
                        ),
                        spec_name_new(
                            "State Route "@ + num,
                            priority_offset(p) - 1,
                            Some(Source::Generated),
                            country,
                            table,
                        ),
                    ]
                },
            },
        },
    }
}

/// Replace names like `NC 1` => `North Carolina Highway 1` and
/// `State Highway 1` => `NC 1`, `North Carolina Highway 1`.
#[verifier::rlimit(100)]
pub fn syn_state_hwy(name: &Name, context: &Context) -> (r: Vec<Name>)
    requires
        priority_in_range(name@.priority),
    ensures
        name_views(r@) == spec_syn_state_hwy(
            name@,
            context.country@,
            opt_view(context.region),
            context.tokens@,
        ),
{
    let region: &String = match &context.region {
        None => {
            return Vec::new();
        },
        Some(rg) => rg,
    };
    let rname: String = match context.region_name() {
        None => {
            return Vec::new();
        },
        Some(rn) => rn,
    };
    let v = str_chars(name.display.as_str());
    proof {
        reveal_strlit("highway");
        reveal_strlit("hwy");
        reveal_strlit("route");
        reveal_strlit("rte");
    }
    let suf: usize = if v.len() >= 8 && is_space(v[v.len() - 8]) && crate::text::ci_check_pub(
        &v,
        v.len() - 7,
        "highway",
    ) {
        8
    } else if v.len() >= 4 && is_space(v[v.len() - 4]) && crate::text::ci_check_pub(
        &v,
        v.len() - 3,
        "hwy",
    ) {
        4
    } else if v.len() >= 6 && is_space(v[v.len() - 6]) && crate::text::ci_check_pub(
        &v,
        v.len() - 5,
        "route",
    ) {
        6
    } else if v.len() >= 4 && is_space(v[v.len() - 4]) && crate::text::ci_check_pub(
        &v,
        v.len() - 3,
        "rte",
    ) {
        4
    } else {
        0
    };
    proof {
        assert(hwy_suffix_len(v@) == suf as int);
    }
    let blen = v.len() - suf;
    let mut body: Vec<char> = Vec::new();
    push_range(&mut body, &v, 0, blen);
    proof {
        assert(body@ =~= v@.take(blen as int));
    }
    let st = rev_digit_start_exec(&body, blen);
    if !(0 < st && st < blen) {
        proof {
            assert(state_hwy_num(name@.display) is None);
        }
        return Vec::new();
    }
    let mut pre: Vec<char> = Vec::new();
    push_range(&mut pre, &body, 0, st);
    proof {
        assert(pre@ =~= body@.take(st as int));
    }
    if !is_state_prefix_exec(&pre) {
        proof {
            assert(state_hwy_num(name@.display) is None);
        }
        return Vec::new();
    }
    proof {
        assert(state_hwy_num(name@.display) == Some(body@.skip(st as int)));
    }
    let dp = exec_display_priority(name.priority);
    let off = exec_priority_offset(name.priority);
    let up = crate::context::upper_string(region);
    let mut out: Vec<Name> = Vec::new();
    let mut d1: Vec<char> = Vec::new();
    push_str(&mut d1, rname.as_str());
    push_str(&mut d1, " Highway ");
    push_range(&mut d1, &body, st, blen);
    let s1 = string_from_chars(&d1);
    out.push(Name::new(s1.as_str(), dp, Some(Source::Generated), context));
    let mut d2: Vec<char> = Vec::new();
    push_str(&mut d2, up.as_str());
    d2.push(' ');
    push_range(&mut d2, &body, st, blen);
    push_str(&mut d2, " Highway");
    let s2 = string_from_chars(&d2);
    out.push(Name::new(s2.as_str(), off - 2, Some(Source::Generated), context));
    let mut d3: Vec<char> = Vec::new();
    push_str(&mut d3, up.as_str());
    d3.push(' ');
    push_range(&mut d3, &body, st, blen);
    let s3 = string_from_chars(&d3);
    out.push(Name::new(s3.as_str(), off - 1, Some(Source::Generated), context));
    let mut d4: Vec<char> = Vec::new();
    push_str(&mut d4, "Highway ");
    push_range(&mut d4, &body, st, blen);
    let s4 = string_from_chars(&d4);
    out.push(Name::new(s4.as_str(), off - 2, Some(Source::Generated), context));
    let mut d5: Vec<char> = Vec::new();
    push_str(&mut d5, "SR ");
    push_range(&mut d5, &body, st, blen);
    let s5 = string_from_chars(&d5);
    out.push(Name::new(s5.as_str(), off - 1, Some(Source::Generated), context));
    let mut d6: Vec<char> = Vec::new();
    push_str(&mut d6, "State Highway ");
    push_range(&mut d6, &body, st, blen);
    let s6 = string_from_chars(&d6);
    out.push(Name::new(s6.as_str(), off - 1, Some(Source::Generated), context));
    let mut d7: Vec<char> = Vec::new();
    push_str(&mut d7, "State Route ");
    push_range(&mut d7, &body, st, blen);
    let s7 = string_from_chars(&d7);
    out.push(Name::new(s7.as_str(), off - 1, Some(Source::Generated), context));
    proof {
        let rg = context.region->Some_0@;
        let num = body@.skip(st as int);
        assert(body@.subrange(st as int, blen as int) =~= num);
        assert(d1@ =~= rname@ + " Highway "@ + num);
        assert(d2@ =~= crate::context::upper_seq(rg) + seq![' '] + num + " Highway"@);
        assert(d3@ =~= crate::context::upper_seq(rg) + seq![' '] + num);
        assert(d4@ =~= "Highway "@ + num);
        assert(d5@ =~= "SR "@ + num);
        assert(d6@ =~= "State Highway "@ + num);
        assert(d7@ =~= "State Route "@ + num);
        assert(name_views(out@) =~= spec_syn_state_hwy(
            name@,
            context.country@,
            opt_view(context.region),
            context.tokens@,
        ));
    }
    out
}

} // verus!
