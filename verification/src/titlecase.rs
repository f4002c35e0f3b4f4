use vstd::prelude::*;
use crate::chars::{lower_char, to_lower_char, to_upper_char, upper_char};
use crate::context::{upper_seq, Context};
use crate::strutil::{
    all_clean, clean_char, collapse_chars, collapse_go, collapse_ws, is_space, is_space_char,
    str_chars, str_eq, string_from_chars, trim_chars, trim_left, trim_right, trim_spec,
};

verus! {

/// The boundary class of the titlecaser: whitespace and a fixed punctuation
/// set, excluding the hyphen and the apostrophe, which a word keeps inside.
pub open spec fn is_tc_boundary(c: char) -> bool {
    let u = c as u32;
    is_space_char(c) || (0x2000 <= u && u <= 0x206f) || (0x2e00 <= u && u <= 0x2e7f) || u == 0x5c
        || u == 0x21 || u == 0x23 || u == 0x24 || u == 0x25 || u == 0x26 || u == 0x28 || u == 0x29
        || u == 0x22 || u == 0x2a || u == 0x2b || u == 0x2c || u == 0x2e || u == 0x2f
        || u == 0x3a || u == 0x3b || u == 0x3c || u == 0x3d || u == 0x3e || u == 0x3f || u == 0x40
        || u == 0x5b || u == 0x5d || u == 0x5e || u == 0x5f || u == 0x7b || u == 0x7c || u == 0x7d
        || u == 0x7e
}

pub fn tc_boundary(c: char) -> (r: bool)
    ensures
        r == is_tc_boundary(c),
{
    let u = c as u32;
    is_space(c) || (0x2000 <= u && u <= 0x206f) || (0x2e00 <= u && u <= 0x2e7f) || u == 0x5c || u
        == 0x21 || u == 0x23 || u == 0x24 || u == 0x25 || u == 0x26 || u == 0x28 || u == 0x29 || u
        == 0x22 || u == 0x2a || u == 0x2b || u == 0x2c || u == 0x2e || u == 0x2f || u
        == 0x3a || u == 0x3b || u == 0x3c || u == 0x3d || u == 0x3e || u == 0x3f || u == 0x40 || u
        == 0x5b || u == 0x5d || u == 0x5e || u == 0x5f || u == 0x7b || u == 0x7c || u == 0x7d || u
        == 0x7e
}

/// The English minor words that stay lowercase after the first position.
pub open spec fn is_minor_en(w: Seq<char>) -> bool {
    w == "a"@ || w == "an"@ || w == "and"@ || w == "as"@ || w == "at"@ || w == "but"@ || w == "by"@ || w == "en"@ || w == "for"@ || w == "from"@ || w == "how"@ || w == "if"@ || w == "in"@ || w == "neither"@ || w == "nor"@ || w == "of"@ || w == "on"@ || w == "only"@ || w == "onto"@ || w == "out"@ || w == "or"@ || w == "per"@ || w == "so"@ || w == "than"@ || w == "that"@ || w == "the"@ || w == "to"@ || w == "until"@ || w == "up"@ || w == "upon"@ || w == "v"@ || w == "v."@ || w == "versus"@ || w == "vs"@ || w == "vs."@ || w == "via"@ || w == "when"@ || w == "with"@ || w == "without"@ || w == "yet"@
}

fn minor_en(w: &str) -> (r: bool)
    ensures
        r == is_minor_en(w@),
{
    str_eq(w, "a") || str_eq(w, "an") || str_eq(w, "and") || str_eq(w, "as") || str_eq(w, "at") || str_eq(w, "but") || str_eq(w, "by") || str_eq(w, "en") || str_eq(w, "for") || str_eq(w, "from") || str_eq(w, "how") || str_eq(w, "if") || str_eq(w, "in") || str_eq(w, "neither") || str_eq(w, "nor") || str_eq(w, "of") || str_eq(w, "on") || str_eq(w, "only") || str_eq(w, "onto") || str_eq(w, "out") || str_eq(w, "or") || str_eq(w, "per") || str_eq(w, "so") || str_eq(w, "than") || str_eq(w, "that") || str_eq(w, "the") || str_eq(w, "to") || str_eq(w, "until") || str_eq(w, "up") || str_eq(w, "upon") || str_eq(w, "v") || str_eq(w, "v.") || str_eq(w, "versus") || str_eq(w, "vs") || str_eq(w, "vs.") || str_eq(w, "via") || str_eq(w, "when") || str_eq(w, "with") || str_eq(w, "without") || str_eq(w, "yet")
}

/// Whether the country applies the English titlecase exceptions.
pub open spec fn is_us_ca(country: Seq<char>) -> bool {
    country == "US"@ || country == "CA"@
}

/// The Unicode uppercase mapping of a character, one or more characters.
pub uninterp spec fn upper_of(c: char) -> Seq<char>;

/// Relies on char::to_uppercase: the uppercase mapping of the Unicode
/// character database, a function of the character alone, yielded as one or
/// more characters. The database maps characters only to cased letters and
/// combining marks, so whitespace, the double quote and the comma occur in
/// a mapping only as the mapping of themselves.
#[verifier::external_body]
fn uppercase_char(c: char) -> (r: Vec<char>)
    ensures
        r@ == upper_of(c),
        r@.len() >= 1,
        !is_space_char(c) ==> (forall|i: int| 0 <= i < r@.len() ==> !is_space_char(#[trigger] r@[i])),
        clean_char(c) ==> (forall|i: int| 0 <= i < r@.len() ==> clean_char(#[trigger] r@[i])),
{
    c.to_uppercase().collect()
}

/// One word capitalized: the English major words are uppercased whole, minor
/// words after the first stay lowercase, the German "du" after the first
/// stays lowercase, and otherwise the first character takes its Unicode
/// uppercase mapping. Combining marks have no mapping of their own, so this
/// capitalizes exactly the word's first grapheme.
pub open spec fn cap_word(w: Seq<char>, count: int, country: Seq<char>) -> Seq<char> {
    if is_us_ca(country) && (w == "us"@ || w == "dc"@) {
        upper_seq(w)
    } else if count > 1 && is_us_ca(country) && is_minor_en(w) {
        w
    } else if count > 1 && country == "DE"@ && w == "du"@ {
        w
    } else if w.len() == 0 {
        w
    } else {
        upper_of(w[0]) + w.skip(1)
    }
}

fn cap_word_exec(word: &Vec<char>, count: usize, country: &String) -> (r: Vec<char>)
    ensures
        r@ == cap_word(word@, count as int, country@),
        word@.len() > 0 ==> r@.len() > 0,
        (forall|k: int| 0 <= k < word@.len() ==> !is_space_char(#[trigger] word@[k])) ==> (forall|
            k: int,
        | 0 <= k < r@.len() ==> !is_space_char(#[trigger] r@[k])),
        all_clean(word@) ==> all_clean(r@),
{
    let w = string_from_chars(word);
    let usca = str_eq(country.as_str(), "US") || str_eq(country.as_str(), "CA");
    if usca && (str_eq(w.as_str(), "us") || str_eq(w.as_str(), "dc")) {
        let mut out: Vec<char> = Vec::new();
        let mut i: usize = 0;
        while i < word.len()
            invariant
                i <= word@.len(),
                out@ =~= upper_seq(word@).take(i as int),
            decreases word@.len() - i,
        {
            out.push(to_upper_char(word[i]));
            proof {
                assert(out@ =~= upper_seq(word@).take(i + 1));
            }
            i = i + 1;
        }
        proof {
            assert(upper_seq(word@).take(word@.len() as int) =~= upper_seq(word@));
            assert forall|k: int| 0 <= k < out@.len() implies out@[k] == upper_char(
                word@[k],
            ) && (is_space_char(out@[k]) == is_space_char(word@[k])) && (clean_char(word@[k])
                ==> clean_char(out@[k])) by {
                lemma_case_space(word@[k]);
                lemma_case_clean(word@[k]);
            }
        }
        out
    } else if count > 1 && usca && minor_en(w.as_str()) {
        let mut out: Vec<char> = Vec::new();
        let mut i: usize = 0;
        while i < word.len()
            invariant
                i <= word@.len(),
                out@ =~= word@.take(i as int),
            decreases word@.len() - i,
        {
            out.push(word[i]);
            proof {
                assert(out@ =~= word@.take(i + 1));
            }
            i = i + 1;
        }
        proof {
            assert(word@.take(word@.len() as int) =~= word@);
        }
        out
    } else if count > 1 && str_eq(country.as_str(), "DE") && str_eq(w.as_str(), "du") {
        let mut out: Vec<char> = Vec::new();
        let mut i: usize = 0;
        while i < word.len()
            invariant
                i <= word@.len(),
                out@ =~= word@.take(i as int),
            decreases word@.len() - i,
        {
            out.push(word[i]);
            proof {
                assert(out@ =~= word@.take(i + 1));
            }
            i = i + 1;
        }
        proof {
            assert(word@.take(word@.len() as int) =~= word@);
        }
        out
    } else if word.len() == 0 {
        Vec::new()
    } else {
        let mut out: Vec<char> = uppercase_char(word[0]);
        proof {
            assert(out@ =~= upper_of(word@[0]) + word@.subrange(1, 1));
        }
        let mut i: usize = 1;
        while i < word.len()
            invariant
                1 <= i <= word@.len(),
                word@.len() > 0,
                out@ =~= upper_of(word@[0]) + word@.subrange(1, i as int),
            decreases word@.len() - i,
        {
            out.push(word[i]);
            proof {
                assert(out@ =~= upper_of(word@[0]) + word@.subrange(1, i + 1));
            }
            i = i + 1;
        }
        proof {
            assert(word@.subrange(1, word@.len() as int) =~= word@.skip(1));
            let up = upper_of(word@[0]);
            assert(out@ =~= up + word@.skip(1));
            if forall|k: int| 0 <= k < word@.len() ==> !is_space_char(#[trigger] word@[k]) {
                assert(!is_space_char(word@[0]));
                assert forall|k: int| 0 <= k < out@.len() implies !is_space_char(
                    #[trigger] out@[k],
                ) by {
                    if k < up.len() {
                        assert(out@[k] == up[k]);
                    } else {
                        assert(out@[k] == word@.skip(1)[k - up.len()]);
                        assert(word@.skip(1)[k - up.len()] == word@[k - up.len() + 1]);
                    }
                }
            }
            if all_clean(word@) {
                assert(clean_char(word@[0]));
                assert forall|k: int| 0 <= k < out@.len() implies clean_char(
                    #[trigger] out@[k],
                ) by {
                    if k < up.len() {
                        assert(out@[k] == up[k]);
                    } else {
                        assert(out@[k] == word@.skip(1)[k - up.len()]);
                        assert(word@.skip(1)[k - up.len()] == word@[k - up.len() + 1]);
                    }
                }
            }
        }
        out
    }
}

/// Capitalize one word under the country rules; `word_count` is its
/// one-based position in the text.
pub fn capitalize(word: &str, word_count: usize, context: &Context) -> (r: String)
    ensures
        r@ == cap_word(word@, word_count as int, context.country@),
{
    let v = str_chars(word);
    let capped = cap_word_exec(&v, word_count, &context.country);
    string_from_chars(&capped)
}

/// The position right after the word that starts at `i`: the first boundary
/// character at or past `i`, or the end of the text.
pub open spec fn word_end(s: Seq<char>, i: int) -> int
    decreases s.len() - i,
{
    if i < 0 || i >= s.len() {
        i
    } else if is_tc_boundary(s[i]) {
        i
    } else {
        word_end(s, i + 1)
    }
}

pub proof fn lemma_word_end(s: Seq<char>, i: int)
    requires
        0 <= i <= s.len(),
    ensures
        i <= word_end(s, i) <= s.len(),
        forall|j: int| i <= j < word_end(s, i) ==> !is_tc_boundary(s[j]),
        word_end(s, i) < s.len() ==> is_tc_boundary(s[word_end(s, i)]),
    decreases s.len() - i,
{
    if i < s.len() && !is_tc_boundary(s[i]) {
        lemma_word_end(s, i + 1);
    }
}

/// The word pass from position `i` on, with `count` words already seen:
/// boundary characters are copied, and each word run is capitalized with its
/// one-based position.
pub open spec fn word_pass(s: Seq<char>, i: int, count: int, country: Seq<char>) -> Seq<char>
    decreases s.len() - i,
    when 0 <= i <= s.len()
    via word_pass_decreases
{
    if i >= s.len() {
        Seq::<char>::empty()
    } else if is_tc_boundary(s[i]) {
        seq![s[i]] + word_pass(s, i + 1, count, country)
    } else {
        let j = word_end(s, i);
        cap_word(s.subrange(i, j), count + 1, country) + word_pass(s, j, count + 1, country)
    }
}

#[via_fn]
proof fn word_pass_decreases(s: Seq<char>, i: int, count: int, country: Seq<char>) {
    if 0 <= i < s.len() && !is_tc_boundary(s[i]) {
        lemma_word_end(s, i);
        assert(word_end(s, i) > i);
    }
}

/// The cardinal surface forms that are normalized, in preference order.
pub open spec fn card_pats() -> Seq<Seq<char>> {
    seq!["n.w."@, "nw"@, "n.e."@, "ne"@, "s.w."@, "sw"@, "s.e."@, "se"@]
}

/// A case-insensitive occurrence of pattern `p` at position `i`, delimited by
/// whitespace or the text's ends.
pub open spec fn card_ci_at(s: Seq<char>, i: int, p: Seq<char>) -> bool {
    &&& 0 <= i
    &&& i + p.len() <= s.len()
    &&& (forall|j: int| 0 <= j < p.len() ==> lower_char(s[i + j]) == p[j])
    &&& (i == 0 || is_space_char(s[i - 1]))
    &&& (i + p.len() == s.len() || is_space_char(s[i + p.len()]))
}

/// The first pattern, in preference order, that occurs at position `i`.
pub open spec fn card_match_at(s: Seq<char>, i: int) -> Option<int> {
    if card_ci_at(s, i, "n.w."@) {
        Some(0)
    } else     if card_ci_at(s, i, "nw"@) {
        Some(1)
    } else     if card_ci_at(s, i, "n.e."@) {
        Some(2)
    } else     if card_ci_at(s, i, "ne"@) {
        Some(3)
    } else     if card_ci_at(s, i, "s.w."@) {
        Some(4)
    } else     if card_ci_at(s, i, "sw"@) {
        Some(5)
    } else     if card_ci_at(s, i, "s.e."@) {
        Some(6)
    } else     if card_ci_at(s, i, "se"@) {
        Some(7)
    } else     {
        None
    }
}

fn card_try(v: &Vec<char>, i: usize, p: &str) -> (r: bool)
    requires
        i <= v@.len(),
    ensures
        r == card_ci_at(v@, i as int, p@),
{
    let plen = p.unicode_len();
    if plen > v.len() - i {
        return false;
    }
    if !(i == 0 || is_space(v[i - 1])) {
        return false;
    }
    if !(i + plen == v.len() || is_space(v[i + plen])) {
        return false;
    }
    let mut j: usize = 0;
    while j < plen
        invariant
            j <= plen,
            plen == p@.len(),
            i + plen <= v@.len(),
            v@.len() <= usize::MAX,
            forall|k: int| 0 <= k < j ==> lower_char(v@[i + k]) == p@[k],
        decreases plen - j,
    {
        if to_lower_char(v[i + j]) != p.get_char(j) {
            proof {
                assert(lower_char(v@[i + j]) != p@[j as int]);
            }
            return false;
        }
        j = j + 1;
    }
    true
}

fn card_match(v: &Vec<char>, i: usize) -> (r: Option<usize>)
    requires
        i <= v@.len(),
    ensures
        match r {
            Some(k) => card_match_at(v@, i as int) == Some(k as int),
            None => card_match_at(v@, i as int) is None,
        },
{
    if card_try(v, i, "n.w.") {
        proof {
            assert(card_pats()[0] == "n.w."@);
        }
        return Some(0);
    }
    if card_try(v, i, "nw") {
        proof {
            assert(card_pats()[1] == "nw"@);
        }
        return Some(1);
    }
    if card_try(v, i, "n.e.") {
        proof {
            assert(card_pats()[2] == "n.e."@);
        }
        return Some(2);
    }
    if card_try(v, i, "ne") {
        proof {
            assert(card_pats()[3] == "ne"@);
        }
        return Some(3);
    }
    if card_try(v, i, "s.w.") {
        proof {
            assert(card_pats()[4] == "s.w."@);
        }
        return Some(4);
    }
    if card_try(v, i, "sw") {
        proof {
            assert(card_pats()[5] == "sw"@);
        }
        return Some(5);
    }
    if card_try(v, i, "s.e.") {
        proof {
            assert(card_pats()[6] == "s.e."@);
        }
        return Some(6);
    }
    if card_try(v, i, "se") {
        proof {
            assert(card_pats()[7] == "se"@);
        }
        return Some(7);
    }
    None
}

/// The position of the first normalizable cardinal at or past `i`.
pub open spec fn first_card(s: Seq<char>, i: int) -> Option<int>
    decreases s.len() - i,
{
    if i < 0 || i >= s.len() {
        None
    } else if card_match_at(s, i) is Some {
        Some(i)
    } else {
        first_card(s, i + 1)
    }
}

/// The dot characters removed.
pub open spec fn remove_dots(s: Seq<char>) -> Seq<char>
    decreases s.len(),
{
    if s.len() == 0 {
        Seq::<char>::empty()
    } else if s[0] == '.' {
        remove_dots(s.skip(1))
    } else {
        seq![s[0]] + remove_dots(s.skip(1))
    }
}

/// The first whitespace-delimited cardinal (`nw`, `n.w.`, ... in either
/// case) replaced by its uppercase, dot-free form; the rest is unchanged.
pub open spec fn spec_normalize_cardinals(s: Seq<char>) -> Seq<char> {
    match first_card(s, 0) {
        None => s,
        Some(i) => {
            let k = card_match_at(s, i)->Some_0;
            let len = card_pats()[k].len() as int;
            s.take(i) + upper_seq(remove_dots(s.subrange(i, i + len))) + s.skip(i + len)
        },
    }
}

fn remove_dots_exec(v: &Vec<char>, from: usize, to: usize) -> (r: Vec<char>)
    requires
        from <= to <= v@.len(),
    ensures
        r@ == remove_dots(v@.subrange(from as int, to as int)),
{
    let ghost sub = v@.subrange(from as int, to as int);
    let mut r: Vec<char> = Vec::new();
    let mut i: usize = from;
    proof {
        assert(sub.skip(0) =~= sub);
        assert(r@ + remove_dots(sub) =~= remove_dots(sub));
    }
    while i < to
        invariant
            from <= i <= to <= v@.len(),
            sub == v@.subrange(from as int, to as int),
            remove_dots(sub) == r@ + remove_dots(sub.skip(i - from)),
        decreases to - i,
    {
        proof {
            assert(sub.skip(i - from)[0] == v@[i as int]);
            assert(sub.skip(i - from).skip(1) =~= sub.skip(i + 1 - from));
        }
        let ghost r0 = r@;
        let c = v[i];
        if c != '.' {
            r.push(c);
            proof {
                assert(r0.push(c) + remove_dots(sub.skip(i + 1 - from)) =~= r0 + (seq![c]
                    + remove_dots(sub.skip(i + 1 - from))));
            }
        }
        i = i + 1;
    }
    proof {
        assert(sub.skip(to - from) =~= Seq::<char>::empty());
        assert(r@ + Seq::<char>::empty() =~= r@);
    }
    r
}

fn normalize_cardinals_chars(v: &Vec<char>) -> (r: Vec<char>)
    ensures
        r@ == spec_normalize_cardinals(v@),
{
    let mut i: usize = 0;
    while i < v.len()
        invariant
            i <= v@.len(),
            first_card(v@, 0) == first_card(v@, i as int),
            forall|j: int| 0 <= j < i ==> card_match_at(v@, j) is None,
        decreases v@.len() - i,
    {
        match card_match(v, i) {
            Some(k) => {
                let plen = match k {
                    0 => 4,
                    1 => 2,
                    2 => 4,
                    3 => 2,
                    4 => 4,
                    5 => 2,
                    6 => 4,
                    _ => 2,
                };
                proof {
                    assert(card_pats()[k as int].len() == plen) by {
                        reveal_strlit("n.w.");
                        reveal_strlit("nw");
                        reveal_strlit("n.e.");
                        reveal_strlit("ne");
                        reveal_strlit("s.w.");
                        reveal_strlit("sw");
                        reveal_strlit("s.e.");
                        reveal_strlit("se");
                    }
                    assert(i + plen <= v@.len());
                }
                let mids = remove_dots_exec(v, i, i + plen);
                let mut out: Vec<char> = Vec::new();
                let mut a: usize = 0;
                while a < i
                    invariant
                        a <= i <= v@.len(),
                        out@ =~= v@.take(a as int),
                    decreases i - a,
                {
                    out.push(v[a]);
                    proof {
                        assert(out@ =~= v@.take(a + 1));
                    }
                    a = a + 1;
                }
                let ghost pre = out@;
                let mut b: usize = 0;
                while b < mids.len()
                    invariant
                        b <= mids@.len(),
                        out@ =~= pre + upper_seq(mids@).take(b as int),
                    decreases mids@.len() - b,
                {
                    out.push(to_upper_char(mids[b]));
                    proof {
                        assert(out@ =~= pre + upper_seq(mids@).take(b + 1));
                    }
                    b = b + 1;
                }
                proof {
                    assert(upper_seq(mids@).take(mids@.len() as int) =~= upper_seq(mids@));
                }
                let ghost mid = out@;
                let mut cpos: usize = i + plen;
                while cpos < v.len()
                    invariant
                        i + plen <= cpos <= v@.len(),
                        out@ =~= mid + v@.subrange(i + plen, cpos as int),
                    decreases v@.len() - cpos,
                {
                    out.push(v[cpos]);
                    proof {
                        assert(out@ =~= mid + v@.subrange(i + plen, cpos + 1));
                    }
                    cpos = cpos + 1;
                }
                proof {
                    assert(first_card(v@, i as int) == Some(i as int));
                    assert(v@.subrange(i + plen, v@.len() as int) =~= v@.skip(i + plen));
                    assert(out@ =~= v@.take(i as int) + upper_seq(remove_dots(
                        v@.subrange(i as int, i + plen),
                    )) + v@.skip(i + plen));
                }
                return out;
            },
            None => {},
        }
        i = i + 1;
    }
    proof {
        assert(first_card(v@, v@.len() as int) is None);
    }
    let mut out: Vec<char> = Vec::new();
    let mut a: usize = 0;
    while a < v.len()
        invariant
            a <= v@.len(),
            out@ =~= v@.take(a as int),
        decreases v@.len() - a,
    {
        out.push(v[a]);
        proof {
            assert(out@ =~= v@.take(a + 1));
        }
        a = a + 1;
    }
    proof {
        assert(v@.take(v@.len() as int) =~= v@);
    }
    out
}

/// The cardinal normalization pass on a string.
pub fn normalize_cardinals(text: &str) -> (r: String)
    ensures
        r@ == spec_normalize_cardinals(text@),
{
    let v = str_chars(text);
    let out = normalize_cardinals_chars(&v);
    string_from_chars(&out)
}

/// The titlecased form of a display string: trimmed, whitespace collapsed,
/// lowercased, each word capitalized under the country's rules, and, in the
/// US and Canada, the first cardinal normalized.
pub open spec fn spec_titlecase(s: Seq<char>, country: Seq<char>) -> Seq<char> {
    let t = collapse_ws(trim_spec(s).map_values(|c: char| lower_char(c)));
    let u = word_pass(t, 0, 0, country);
    if is_us_ca(country) {
        spec_normalize_cardinals(u)
    } else {
        u
    }
}

/// Produce display-form capitalization under the context's country rules.
/// The result is tidy — no edge whitespace and no internal run of spaces —
/// and introduces no double quote or comma the input did not hold.
pub fn titlecase(text: &String, context: &Context) -> (r: String)
    ensures
        r@ == spec_titlecase(text@, context.country@),
        tidy(r@),
        all_clean(text@) ==> all_clean(r@),
{
    let raw = str_chars(text.as_str());
    let trimmed = trim_chars(&raw);
    let mut lowered: Vec<char> = Vec::new();
    let mut i: usize = 0;
    while i < trimmed.len()
        invariant
            i <= trimmed@.len(),
            trimmed@ == trim_spec(text@),
            lowered@ =~= trimmed@.map_values(|c: char| lower_char(c)).take(i as int),
        decreases trimmed@.len() - i,
    {
        lowered.push(to_lower_char(trimmed[i]));
        proof {
            assert(lowered@ =~= trimmed@.map_values(|c: char| lower_char(c)).take(i + 1));
        }
        i = i + 1;
    }
    proof {
        let m = trimmed@.map_values(|c: char| lower_char(c));
        assert(m.take(m.len() as int) =~= m);
    }
    let t = collapse_chars(&lowered);
    let ghost tv = t@;
    proof {
        lemma_pre_pass(text@);
        assert(tidy(tv));
    }
    let mut out: Vec<char> = Vec::new();
    let mut count: usize = 0;
    let mut i: usize = 0;
    proof {
        assert(out@ + word_pass(tv, 0, 0, context.country@) =~= word_pass(
            tv,
            0,
            0,
            context.country@,
        ));
    }
    while i < t.len()
        invariant
            i <= tv.len(),
            tv == t@,
            count <= i,
            word_pass(tv, 0, 0, context.country@) == out@ + word_pass(
                tv,
                i as int,
                count as int,
                context.country@,
            ),
            tidy(tv),
            (out@.len() == 0) == (i == 0),
            forall|k: int|
                0 <= k < out@.len() ==> (is_space_char(#[trigger] out@[k]) ==> out@[k] == ' '),
            forall|k: int|
                0 <= k < out@.len() - 1 ==> !((#[trigger] out@[k]) == ' ' && out@[k + 1] == ' '),
            out@.len() > 0 ==> !is_space_char(out@[0]),
            (out@.len() > 0 && is_space_char(out@[out@.len() - 1])) ==> (i >= 1 && is_space_char(
                tv[i - 1],
            )),
            all_clean(tv) ==> all_clean(out@),
        decreases tv.len() - i,
    {
        let c = t[i];
        if tc_boundary(c) {
            let ghost o0 = out@;
            proof {
                if o0.len() > 0 && is_space_char(o0[o0.len() - 1]) && is_space_char(c) {
                    assert(is_space_char(tv[i - 1]));
                    assert(tv[i - 1] == ' ');
                    assert(tv[i as int] == ' ');
                    assert(!((tv[i - 1]) == ' ' && tv[i - 1 + 1] == ' '));
                    assert(false);
                }
            }
            out.push(c);
            proof {
                assert(o0.push(c) + word_pass(tv, i + 1, count as int, context.country@) =~= o0 + (
                seq![c] + word_pass(tv, i + 1, count as int, context.country@)));
                assert(is_space_char(' '));
                assert forall|k: int| 0 <= k < out@.len() implies (is_space_char(
                    #[trigger] out@[k],
                ) ==> out@[k] == ' ') by {
                    if k < o0.len() {
                        assert(out@[k] == o0[k]);
                    } else {
                        assert(out@[k] == c);
                        assert(c == tv[i as int]);
                    }
                }
                assert forall|k: int| 0 <= k < out@.len() - 1 implies !((#[trigger] out@[k]) == ' '
                    && out@[k + 1] == ' ') by {
                    if k < o0.len() - 1 {
                        assert(out@[k] == o0[k] && out@[k + 1] == o0[k + 1]);
                    } else {
                        assert(out@[k] == o0[o0.len() - 1] && out@[k + 1] == c);
                    }
                }
                if o0.len() == 0 {
                    assert(i == 0);
                    assert(!is_space_char(tv[0]));
                    assert(out@[0] == c);
                } else {
                    assert(out@[0] == o0[0]);
                }
                if all_clean(tv) {
                    assert forall|k: int| 0 <= k < out@.len() implies clean_char(
                        #[trigger] out@[k],
                    ) by {
                        if k < o0.len() {
                            assert(out@[k] == o0[k]);
                        } else {
                            assert(out@[k] == c);
                            assert(c == tv[i as int]);
                        }
                    }
                }
            }
            i = i + 1;
        } else {
            let mut j: usize = i;
            while j < t.len() && !tc_boundary(t[j])
                invariant
                    i <= j <= tv.len(),
                    tv == t@,
                    forall|k: int| i <= k < j ==> !is_tc_boundary(tv[k]),
                decreases tv.len() - j,
            {
                j = j + 1;
            }
            proof {
                lemma_word_end(tv, i as int);
                assert(word_end(tv, i as int) == j as int) by {
                    let we = word_end(tv, i as int);
                    if we < j as int {
                        assert(!is_tc_boundary(tv[we]));
                    } else if we > j as int {
                        assert(j < tv.len() && is_tc_boundary(tv[j as int]));
                        assert(!is_tc_boundary(tv[j as int]));
                    }
                }
                assert(j as int > i as int) by {
                    assert(!is_tc_boundary(tv[i as int]));
                    lemma_word_end(tv, i + 1);
                }
            }
            let mut word: Vec<char> = Vec::new();
            let mut k: usize = i;
            while k < j
                invariant
                    i <= k <= j <= tv.len(),
                    tv == t@,
                    word@ =~= tv.subrange(i as int, k as int),
                decreases j - k,
            {
                word.push(t[k]);
                proof {
                    assert(word@ =~= tv.subrange(i as int, k + 1));
                }
                k = k + 1;
            }
            count = count + 1;
            let capped = cap_word_exec(&word, count, &context.country);
            let ghost o0 = out@;
            let mut b: usize = 0;
            while b < capped.len()
                invariant
                    b <= capped@.len(),
                    out@ =~= o0 + capped@.take(b as int),
                decreases capped@.len() - b,
            {
                out.push(capped[b]);
                proof {
                    assert(out@ =~= o0 + capped@.take(b + 1));
                }
                b = b + 1;
            }
            proof {
                assert(capped@.take(capped@.len() as int) =~= capped@);
                assert(out@ =~= o0 + cap_word(
                    tv.subrange(i as int, j as int),
                    count as int,
                    context.country@,
                ));
                assert(o0 + (cap_word(tv.subrange(i as int, j as int), count as int, context.country@)
                    + word_pass(tv, j as int, count as int, context.country@)) =~= out@ + word_pass(
                    tv,
                    j as int,
                    count as int,
                    context.country@,
                ));
                let wv = tv.subrange(i as int, j as int);
                assert(word@ == wv);
                assert forall|k: int| 0 <= k < wv.len() implies !is_space_char(
                    #[trigger] wv[k],
                ) by {
                    assert(wv[k] == tv[i + k]);
                    assert(!is_tc_boundary(tv[i + k]));
                }
                assert(capped@.len() > 0);
                assert(forall|k: int|
                    0 <= k < capped@.len() ==> !is_space_char(#[trigger] capped@[k]));
                lemma_acc_append_word(o0, capped@);
                assert(out@ =~= o0 + capped@);
                assert(!is_space_char(out@[out@.len() - 1]));
                if all_clean(tv) {
                    assert(all_clean(wv)) by {
                        assert forall|k: int| 0 <= k < wv.len() implies clean_char(
                            #[trigger] wv[k],
                        ) by {
                            assert(wv[k] == tv[i + k]);
                        }
                    }
                    assert(all_clean(capped@));
                    lemma_all_clean_append(o0, capped@);
                }
            }
            i = j;
        }
    }
    proof {
        assert(word_pass(tv, tv.len() as int, count as int, context.country@)
            =~= Seq::<char>::empty());
        assert(out@ + Seq::<char>::empty() =~= out@);
        assert(tidy(out@)) by {
            if out@.len() > 0 && is_space_char(out@[out@.len() - 1]) {
                assert(is_space_char(tv[i - 1]));
                assert(i as int == tv.len());
                assert(!is_space_char(tv[tv.len() - 1]));
            }
        }
        assert(all_clean(text@) ==> all_clean(out@));
    }
    if str_eq(context.country.as_str(), "US") || str_eq(context.country.as_str(), "CA") {
        proof {
            lemma_normcard_tidy(out@);
            if all_clean(text@) {
                lemma_normcard_clean(out@);
            }
        }
        let normed = normalize_cardinals_chars(&out);
        string_from_chars(&normed)
    } else {
        string_from_chars(&out)
    }
}

} // verus!

verus! {

/// A tidy text: no leading or trailing whitespace and no run of more than
/// one internal space, with every whitespace character a single space.
pub open spec fn tidy(s: Seq<char>) -> bool {
    &&& forall|i: int| 0 <= i < s.len() ==> (is_space_char(#[trigger] s[i]) ==> s[i] == ' ')
    &&& forall|i: int| 0 <= i < s.len() - 1 ==> !((#[trigger] s[i]) == ' ' && s[i + 1] == ' ')
    &&& (s.len() > 0 ==> !is_space_char(s[0]))
    &&& (s.len() > 0 ==> !is_space_char(s[s.len() - 1]))
}

#[verifier::rlimit(100)]
proof fn lemma_case_space(c: char)
    ensures
        is_space_char(lower_char(c)) == is_space_char(c),
        is_space_char(upper_char(c)) == is_space_char(c),
{
}

proof fn lemma_trim_left_props(s: Seq<char>)
    ensures
        trim_left(s).len() > 0 ==> !is_space_char(trim_left(s)[0]),
        trim_left(s).len() > 0 ==> trim_left(s)[trim_left(s).len() - 1] == s[s.len() - 1],
        trim_left(s).len() <= s.len(),
        forall|k: int| 0 <= k < trim_left(s).len() ==> trim_left(s)[k] == s[s.len()
            - trim_left(s).len() + k],
    decreases s.len(),
{
    if s.len() > 0 && is_space_char(s[0]) {
        lemma_trim_left_props(s.skip(1));
        assert(forall|k: int| 0 <= k < s.len() - 1 ==> s.skip(1)[k] == s[k + 1]);
    }
}

proof fn lemma_trim_right_props(s: Seq<char>)
    ensures
        trim_right(s).len() > 0 ==> !is_space_char(trim_right(s)[trim_right(s).len() - 1]),
        trim_right(s).len() <= s.len(),
        forall|k: int| 0 <= k < trim_right(s).len() ==> trim_right(s)[k] == s[k],
    decreases s.len(),
{
    if s.len() > 0 && is_space_char(s[s.len() - 1]) {
        lemma_trim_right_props(s.drop_last());
        assert(forall|k: int| 0 <= k < s.len() - 1 ==> s.drop_last()[k] == s[k]);
    }
}

/// The collapsed form of a text without edge whitespace is tidy.
proof fn lemma_collapse_tidy(s: Seq<char>, prev: bool)
    ensures
        ({
            let o = collapse_go(s, prev);
            &&& forall|i: int| 0 <= i < o.len() ==> (is_space_char(#[trigger] o[i]) ==> o[i] == ' ')
            &&& forall|i: int| 0 <= i < o.len() - 1 ==> !((#[trigger] o[i]) == ' ' && o[i + 1]
                == ' ')
            &&& (prev ==> (o.len() == 0 || o[0] != ' '))
            &&& ((s.len() > 0 && !is_space_char(s[0])) ==> o.len() > 0 && o[0] == s[0])
            &&& ((s.len() > 0 && !is_space_char(s[s.len() - 1])) ==> o.len() > 0 && !is_space_char(
                o[o.len() - 1],
            ))
        }),
    decreases s.len(),
{
    if s.len() > 0 {
        lemma_collapse_tidy(s.skip(1), is_space_char(s[0]));
        let rest = collapse_go(s.skip(1), is_space_char(s[0]));
        assert(s.skip(1).len() == s.len() - 1);
        assert(s.len() > 1 ==> s.skip(1)[0] == s[1]);
        assert(s.len() > 1 ==> s.skip(1)[s.len() - 2] == s[s.len() - 1]);
        if is_space_char(s[0]) {
            if !prev {
                let o = seq![' '] + rest;
                assert forall|i: int| 0 <= i < o.len() implies (is_space_char(#[trigger] o[i])
                    ==> o[i] == ' ') by {
                    if i > 0 {
                        assert(o[i] == rest[i - 1]);
                    }
                }
                assert forall|i: int| 0 <= i < o.len() - 1 implies !((#[trigger] o[i]) == ' ' && o[i
                    + 1] == ' ') by {
                    if i == 0 {
                        assert(o[1] == rest[0]);
                        assert(rest.len() == 0 || rest[0] != ' ');
                    } else {
                        assert(o[i] == rest[i - 1] && o[i + 1] == rest[i]);
                    }
                }
                if s.len() > 0 && !is_space_char(s[s.len() - 1]) {
                    assert(s.len() > 1);
                    assert(o[o.len() - 1] == rest[rest.len() - 1]);
                }
            }
        } else {
            let o = seq![s[0]] + rest;
            assert forall|i: int| 0 <= i < o.len() implies (is_space_char(#[trigger] o[i]) ==> o[i]
                == ' ') by {
                if i > 0 {
                    assert(o[i] == rest[i - 1]);
                }
            }
            assert forall|i: int| 0 <= i < o.len() - 1 implies !((#[trigger] o[i]) == ' ' && o[i
                + 1] == ' ') by {
                if i == 0 {
                    assert(!is_space_char(o[0]));
                } else {
                    assert(o[i] == rest[i - 1] && o[i + 1] == rest[i]);
                }
            }
            if !is_space_char(s[s.len() - 1]) {
                if s.len() == 1 {
                    assert(o[o.len() - 1] == s[0]);
                } else {
                    assert(o[o.len() - 1] == rest[rest.len() - 1]);
                }
            }
        }
    }
}

#[verifier::rlimit(100)]
proof fn lemma_case_clean(c: char)
    ensures
        clean_char(c) ==> clean_char(lower_char(c)),
        clean_char(c) ==> clean_char(upper_char(c)),
{
}

proof fn lemma_all_clean_append(a: Seq<char>, b: Seq<char>)
    requires
        all_clean(a),
        all_clean(b),
    ensures
        all_clean(a + b),
{
    assert forall|k: int| 0 <= k < (a + b).len() implies clean_char(#[trigger] (a + b)[k]) by {
        if k < a.len() {
            assert((a + b)[k] == a[k]);
        } else {
            assert((a + b)[k] == b[k - a.len()]);
        }
    }
}

/// Appending a nonempty whitespace-free piece keeps an accumulated text's
/// space discipline and leaves it ending in a non-space.
proof fn lemma_acc_append_word(a: Seq<char>, b: Seq<char>)
    requires
        forall|k: int| 0 <= k < a.len() ==> (is_space_char(#[trigger] a[k]) ==> a[k] == ' '),
        forall|k: int| 0 <= k < a.len() - 1 ==> !((#[trigger] a[k]) == ' ' && a[k + 1] == ' '),
        a.len() > 0 ==> !is_space_char(a[0]),
        b.len() > 0,
        forall|k: int| 0 <= k < b.len() ==> !is_space_char(#[trigger] b[k]),
    ensures
        forall|k: int|
            0 <= k < (a + b).len() ==> (is_space_char(#[trigger] (a + b)[k]) ==> (a + b)[k]
                == ' '),
        forall|k: int|
            0 <= k < (a + b).len() - 1 ==> !((#[trigger] (a + b)[k]) == ' ' && (a + b)[k + 1]
                == ' '),
        !is_space_char((a + b)[0]),
        !is_space_char((a + b)[(a + b).len() - 1]),
{
    let o = a + b;
    assert(is_space_char(' '));
    assert forall|k: int| 0 <= k < o.len() implies (is_space_char(#[trigger] o[k]) ==> o[k]
        == ' ') by {
        if k < a.len() {
            assert(o[k] == a[k]);
        } else {
            assert(o[k] == b[k - a.len()]);
        }
    }
    assert forall|k: int| 0 <= k < o.len() - 1 implies !((#[trigger] o[k]) == ' ' && o[k + 1]
        == ' ') by {
        if k + 1 < a.len() {
            assert(o[k] == a[k] && o[k + 1] == a[k + 1]);
        } else if k < a.len() {
            assert(o[k + 1] == b[k + 1 - a.len()]);
            assert(!is_space_char(o[k + 1]));
        } else {
            assert(o[k] == b[k - a.len()]);
            assert(!is_space_char(o[k]));
        }
    }
    if a.len() > 0 {
        assert(o[0] == a[0]);
    } else {
        assert(o[0] == b[0]);
    }
    assert(o[o.len() - 1] == b[b.len() - 1]);
}

/// The pre-pass of the titlecaser — trim, lowercase, collapse — yields a
/// tidy text and introduces no double quote or comma.
proof fn lemma_pre_pass(s: Seq<char>)
    ensures
        tidy(collapse_ws(trim_spec(s).map_values(|c: char| lower_char(c)))),
        all_clean(s) ==> all_clean(
            collapse_ws(trim_spec(s).map_values(|c: char| lower_char(c))),
        ),
{
    let t0 = trim_spec(s);
    lemma_trim_left_props(s);
    lemma_trim_right_props(trim_left(s));
    let t1 = t0.map_values(|c: char| lower_char(c));
    assert(t1.len() == t0.len());
    assert forall|k: int| 0 <= k < t1.len() implies is_space_char(#[trigger] t1[k])
        == is_space_char(t0[k]) by {
        assert(t1[k] == lower_char(t0[k]));
        lemma_case_space(t0[k]);
    }
    lemma_collapse_tidy(t1, false);
    let t2 = collapse_ws(t1);
    assert(tidy(t2)) by {
        if t1.len() > 0 {
            assert(!is_space_char(t0[0]));
            assert(!is_space_char(t0[t0.len() - 1]));
        }
    }
    if all_clean(s) {
        lemma_trim_clean(s);
        assert(all_clean(t1)) by {
            assert forall|k: int| 0 <= k < t1.len() implies clean_char(#[trigger] t1[k]) by {
                assert(t1[k] == lower_char(t0[k]));
                lemma_case_clean(t0[k]);
            }
        }
        lemma_collapse_clean(t1, false);
    }
}

proof fn lemma_trim_clean(s: Seq<char>)
    requires
        all_clean(s),
    ensures
        all_clean(trim_spec(s)),
{
    lemma_trim_left_clean(s);
    lemma_trim_right_clean(trim_left(s));
}

proof fn lemma_trim_left_clean(s: Seq<char>)
    requires
        all_clean(s),
    ensures
        all_clean(trim_left(s)),
    decreases s.len(),
{
    if s.len() > 0 && is_space_char(s[0]) {
        assert(all_clean(s.skip(1))) by {
            assert(forall|i: int| 0 <= i < s.len() - 1 ==> s.skip(1)[i] == s[i + 1]);
        }
        lemma_trim_left_clean(s.skip(1));
    }
}

proof fn lemma_trim_right_clean(s: Seq<char>)
    requires
        all_clean(s),
    ensures
        all_clean(trim_right(s)),
    decreases s.len(),
{
    if s.len() > 0 && is_space_char(s[s.len() - 1]) {
        assert(all_clean(s.drop_last())) by {
            assert(forall|i: int| 0 <= i < s.len() - 1 ==> s.drop_last()[i] == s[i]);
        }
        lemma_trim_right_clean(s.drop_last());
    }
}

proof fn lemma_collapse_clean(s: Seq<char>, prev: bool)
    requires
        all_clean(s),
    ensures
        all_clean(collapse_go(s, prev)),
    decreases s.len(),
{
    if s.len() > 0 {
        assert(all_clean(s.skip(1))) by {
            assert(forall|i: int| 0 <= i < s.len() - 1 ==> s.skip(1)[i] == s[i + 1]);
        }
        lemma_collapse_clean(s.skip(1), is_space_char(s[0]));
        let rest = collapse_go(s.skip(1), is_space_char(s[0]));
        if is_space_char(s[0]) {
            if !prev {
                let out = seq![' '] + rest;
                assert forall|i: int| 0 <= i < out.len() implies clean_char(#[trigger] out[i]) by {
                    if i > 0 {
                        assert(out[i] == rest[i - 1]);
                    }
                }
            }
        } else {
            let out = seq![s[0]] + rest;
            assert forall|i: int| 0 <= i < out.len() implies clean_char(#[trigger] out[i]) by {
                if i > 0 {
                    assert(out[i] == rest[i - 1]);
                }
            }
        }
    }
}

proof fn lemma_remove_dots_clean(s: Seq<char>)
    requires
        all_clean(s),
    ensures
        all_clean(remove_dots(s)),
    decreases s.len(),
{
    if s.len() > 0 {
        assert(all_clean(s.skip(1))) by {
            assert(forall|i: int| 0 <= i < s.len() - 1 ==> s.skip(1)[i] == s[i + 1]);
        }
        lemma_remove_dots_clean(s.skip(1));
        if s[0] != '.' {
            let out = seq![s[0]] + remove_dots(s.skip(1));
            assert forall|i: int| 0 <= i < out.len() implies clean_char(#[trigger] out[i]) by {
                if i > 0 {
                    assert(out[i] == remove_dots(s.skip(1))[i - 1]);
                }
            }
        }
    }
}

/// Cardinal normalization introduces no double quote or comma.
proof fn lemma_normcard_clean(s: Seq<char>)
    requires
        all_clean(s),
    ensures
        all_clean(spec_normalize_cardinals(s)),
{
    match first_card(s, 0) {
        None => {},
        Some(i) => {
            lemma_first_card_somewhere(s, 0);
            let k = card_match_at(s, i)->Some_0;
            let len = card_pats()[k].len() as int;
            let sub = s.subrange(i, i + len);
            assert(all_clean(sub)) by {
                assert(forall|m: int| 0 <= m < len ==> sub[m] == s[i + m]);
            }
            lemma_remove_dots_clean(sub);
            let repl = upper_seq(remove_dots(sub));
            assert(all_clean(repl)) by {
                assert forall|m: int| 0 <= m < repl.len() implies clean_char(
                    #[trigger] repl[m],
                ) by {
                    assert(repl[m] == upper_char(remove_dots(sub)[m]));
                    lemma_case_clean(remove_dots(sub)[m]);
                }
            }
            let out = s.take(i) + repl + s.skip(i + len);
            assert forall|m: int| 0 <= m < out.len() implies clean_char(#[trigger] out[m]) by {
                if m < i {
                    assert(out[m] == s[m]);
                } else if m < i + repl.len() {
                    assert(out[m] == repl[m - i]);
                } else {
                    assert(out[m] == s.skip(i + len)[m - i - repl.len()]);
                }
            }
        },
    }
}

/// Cardinal normalization keeps the text tidy: the replaced span holds no
/// whitespace and its replacement is nonempty and whitespace-free.
#[verifier::rlimit(100)]
proof fn lemma_normcard_tidy(s: Seq<char>)
    requires
        tidy(s),
    ensures
        tidy(spec_normalize_cardinals(s)),
{
    match first_card(s, 0) {
        None => {},
        Some(i) => {
            lemma_first_card_somewhere(s, 0);
            let k = card_match_at(s, i)->Some_0;
            let p = card_pats()[k];
            let len = p.len() as int;
            proof_card_pat_facts();
            assert(card_ci_at(s, i, p));
            let sub = s.subrange(i, i + len);
            assert(forall|m: int| 0 <= m < len ==> sub[m] == s[i + m]);
            assert forall|m: int| 0 <= m < len implies !is_space_char(#[trigger] sub[m]) by {
                assert(lower_char(s[i + m]) == p[m]);
                lemma_case_space(s[i + m]);
                assert(!is_space_char(p[m]));
            }
            let nd = crate::titlecase::remove_dots(sub);
            lemma_remove_dots_no_space(sub);
            assert(nd.len() > 0) by {
                assert(lower_char(sub[0]) == p[0]);
                assert(p[0] == 'n' || p[0] == 's');
                assert(sub[0] != '.') by {
                    lemma_dot_lower();
                }
                assert(nd == seq![sub[0]] + crate::titlecase::remove_dots(sub.skip(1)));
            }
            let repl = crate::context::upper_seq(nd);
            assert(repl.len() == nd.len());
            assert forall|m: int| 0 <= m < repl.len() implies !is_space_char(
                #[trigger] repl[m],
            ) by {
                assert(repl[m] == upper_char(nd[m]));
                lemma_case_space(nd[m]);
            }
            let o = s.take(i) + repl + s.skip(i + len);
            let rl = repl.len() as int;
            assert forall|m: int| 0 <= m < o.len() implies (is_space_char(#[trigger] o[m]) ==> o[m]
                == ' ') by {
                if m < i {
                    assert(o[m] == s[m]);
                } else if m < i + rl {
                    assert(o[m] == repl[m - i]);
                } else {
                    assert(o[m] == s[m - rl + len]);
                }
            }
            assert forall|m: int| 0 <= m < o.len() - 1 implies !((#[trigger] o[m]) == ' ' && o[m
                + 1] == ' ') by {
                if m + 1 < i {
                    assert(o[m] == s[m] && o[m + 1] == s[m + 1]);
                } else if m + 1 == i {
                    assert(o[m + 1] == repl[0] && !is_space_char(repl[0]));
                } else if m < i + rl {
                    if m >= i {
                        assert(o[m] == repl[m - i] && !is_space_char(repl[m - i]));
                    }
                } else {
                    assert(o[m] == s[m - rl + len] && o[m + 1] == s[m + 1 - rl + len]);
                }
            }
            if o.len() > 0 {
                assert(!is_space_char(o[0])) by {
                    if i > 0 {
                        assert(o[0] == s[0]);
                    } else {
                        assert(o[0] == repl[0]);
                    }
                }
                assert(!is_space_char(o[o.len() - 1])) by {
                    if i + len < s.len() {
                        assert(o[o.len() - 1] == s[s.len() - 1]);
                    } else {
                        assert(o[o.len() - 1] == repl[rl - 1]);
                    }
                }
            }
        },
    }
}

proof fn lemma_dot_lower()
    ensures
        forall|c: char| #[trigger] lower_char(c) == '.' ==> c == '.',
{
    assert forall|c: char| #[trigger] lower_char(c) == '.' implies c == '.' by {
        if c != '.' {
            assert(lower_char(c) != '.');
        }
    }
}

proof fn lemma_remove_dots_no_space(s: Seq<char>)
    requires
        forall|m: int| 0 <= m < s.len() ==> !is_space_char(#[trigger] s[m]),
    ensures
        forall|m: int|
            0 <= m < crate::titlecase::remove_dots(s).len() ==> !is_space_char(
                #[trigger] crate::titlecase::remove_dots(s)[m],
            ),
    decreases s.len(),
{
    if s.len() > 0 {
        assert(forall|m: int| 0 <= m < s.len() - 1 ==> s.skip(1)[m] == s[m + 1]);
        lemma_remove_dots_no_space(s.skip(1));
        if s[0] != '.' {
            let o = seq![s[0]] + crate::titlecase::remove_dots(s.skip(1));
            assert forall|m: int| 0 <= m < o.len() implies !is_space_char(#[trigger] o[m]) by {
                if m > 0 {
                    assert(o[m] == crate::titlecase::remove_dots(s.skip(1))[m - 1]);
                }
            }
        }
    }
}

proof fn proof_card_pat_facts()
    ensures
        forall|k: int, m: int|
            0 <= k < card_pats().len() && 0 <= m < card_pats()[k].len() ==> !is_space_char(
                #[trigger] card_pats()[k][m],
            ),
        forall|k: int| 0 <= k < card_pats().len() ==> (#[trigger] card_pats()[k]).len() > 0,
        forall|k: int|
            0 <= k < card_pats().len() ==> ((#[trigger] card_pats()[k])[0] == 'n'
                || card_pats()[k][0] == 's'),
{
    reveal_strlit("n.w.");
    reveal_strlit("nw");
    reveal_strlit("n.e.");
    reveal_strlit("ne");
    reveal_strlit("s.w.");
    reveal_strlit("sw");
    reveal_strlit("s.e.");
    reveal_strlit("se");
    assert(card_pats().len() == 8);
    assert(forall|m: int| 0 <= m < 4 ==> !is_space_char(#[trigger] "n.w."@[m]));
    assert(forall|m: int| 0 <= m < 2 ==> !is_space_char(#[trigger] "nw"@[m]));
    assert(forall|m: int| 0 <= m < 4 ==> !is_space_char(#[trigger] "n.e."@[m]));
    assert(forall|m: int| 0 <= m < 2 ==> !is_space_char(#[trigger] "ne"@[m]));
    assert(forall|m: int| 0 <= m < 4 ==> !is_space_char(#[trigger] "s.w."@[m]));
    assert(forall|m: int| 0 <= m < 2 ==> !is_space_char(#[trigger] "sw"@[m]));
    assert(forall|m: int| 0 <= m < 4 ==> !is_space_char(#[trigger] "s.e."@[m]));
    assert(forall|m: int| 0 <= m < 2 ==> !is_space_char(#[trigger] "se"@[m]));
    assert forall|k: int, m: int|
        0 <= k < card_pats().len() && 0 <= m < card_pats()[k].len() implies !is_space_char(
        #[trigger] card_pats()[k][m],
    ) by {
        if k == 0 {
            assert(card_pats()[k] == "n.w."@);
        } else if k == 1 {
            assert(card_pats()[k] == "nw"@);
        } else if k == 2 {
            assert(card_pats()[k] == "n.e."@);
        } else if k == 3 {
            assert(card_pats()[k] == "ne"@);
        } else if k == 4 {
            assert(card_pats()[k] == "s.w."@);
        } else if k == 5 {
            assert(card_pats()[k] == "sw"@);
        } else if k == 6 {
            assert(card_pats()[k] == "s.e."@);
        } else {
            assert(card_pats()[k] == "se"@);
        }
    }
}

proof fn lemma_first_card_somewhere(s: Seq<char>, i: int)
    requires
        0 <= i,
        first_card(s, i) is Some,
    ensures
        ({
            let p = first_card(s, i)->Some_0;
            i <= p < s.len() && card_match_at(s, p) is Some && card_ci_at(
                s,
                p,
                card_pats()[card_match_at(s, p)->Some_0],
            ) && 0 <= card_match_at(s, p)->Some_0 < card_pats().len()
        }),
    decreases s.len() - i,
{
    if i < s.len() && !(card_match_at(s, i) is Some) {
        lemma_first_card_somewhere(s, i + 1);
    }
}

} // verus!
