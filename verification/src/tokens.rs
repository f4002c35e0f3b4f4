use vstd::prelude::*;
use geocoder_abbreviations::TokenType as AbbrTokenType;
use crate::chars::{fold_char, lower_char, to_fold_char, to_lower_char};
use crate::strutil::{
    collapse_chars, collapse_ws, split_sp, split_spaces, str_eq, string_from_chars, str_chars,
    views,
};

verus! {

/// The closed set of token categories an abbreviation table can assign.
#[derive(Debug, Clone, Copy, PartialEq, Eq, Structural)]
pub enum TokenType {
    PostalBox,
    Cardinal,
    Number,
    Ordinal,
    Unit,
    Way,
    Determiner,
}

/// Characters the tokenizer deletes outright: carets, apostrophes
/// (ASCII and typographic) and periods, so that `st.` and `st` collapse.
pub open spec fn is_del_char(c: char) -> bool {
    let u = c as u32;
    u == 0x5e || u == 0x27 || u == 0x2e || u == 0x2018 || u == 0x2019 || u == 0x02bc || u
        == 0x02bb || u == 0xff07
}

pub fn is_del(c: char) -> (r: bool)
    ensures
        r == is_del_char(c),
{
    let u = c as u32;
    u == 0x5e || u == 0x27 || u == 0x2e || u == 0x2018 || u == 0x2019 || u == 0x02bc || u == 0x02bb
        || u == 0xff07
}

/// Punctuation the tokenizer turns into a space: ASCII punctuation except
/// the deleted characters, plus the Unicode general-punctuation blocks;
/// hyphen-minus is exempt, so hyphenated words stay whole.
pub open spec fn is_break_char(c: char) -> bool {
    let u = c as u32;
    (0x2000 <= u && u <= 0x206f) || (0x2e00 <= u && u <= 0x2e7f) || u == 0x5c || u == 0x27 || u
        == 0x21 || u == 0x22 || u == 0x24 || u == 0x23 || u == 0x25 || u == 0x26 || u == 0x28 || u
        == 0x29 || u == 0x2a || u == 0x2b || u == 0x2c || u == 0x2e || u == 0x2f || u == 0x3a || u
        == 0x3b || u == 0x3c || u == 0x3d || u == 0x3e || u == 0x3f || u == 0x40 || u == 0x5b || u
        == 0x5d || u == 0x5e || u == 0x5f || u == 0x60 || u == 0x7b || u == 0x7c || u == 0x7d || u
        == 0x7e
}

pub fn is_break(c: char) -> (r: bool)
    ensures
        r == is_break_char(c),
{
    let u = c as u32;
    (0x2000 <= u && u <= 0x206f) || (0x2e00 <= u && u <= 0x2e7f) || u == 0x5c || u == 0x27 || u
        == 0x21 || u == 0x22 || u == 0x24 || u == 0x23 || u == 0x25 || u == 0x26 || u == 0x28 || u
        == 0x29 || u == 0x2a || u == 0x2b || u == 0x2c || u == 0x2e || u == 0x2f || u == 0x3a || u
        == 0x3b || u == 0x3c || u == 0x3d || u == 0x3e || u == 0x3f || u == 0x40 || u == 0x5b || u
        == 0x5d || u == 0x5e || u == 0x5f || u == 0x60 || u == 0x7b || u == 0x7c || u == 0x7d || u
        == 0x7e
}

/// A character after lowercasing and diacritic folding.
pub open spec fn norm_char(c: char) -> char {
    fold_char(lower_char(c))
}

/// One pass of per-character normalization: lowercase, fold, delete the
/// deleted class, and turn the punctuation class into spaces.
pub open spec fn scrub(s: Seq<char>) -> Seq<char>
    decreases s.len(),
{
    if s.len() == 0 {
        Seq::<char>::empty()
    } else {
        let c = norm_char(s[0]);
        let rest = scrub(s.skip(1));
        if is_del_char(c) {
            rest
        } else if is_break_char(c) {
            seq![' '] + rest
        } else {
            seq![c] + rest
        }
    }
}

/// The raw token sequence of a display string: normalize each character,
/// collapse whitespace, and split into the nonempty space-separated parts.
pub open spec fn spec_tokenize(s: Seq<char>) -> Seq<Seq<char>> {
    split_sp(collapse_ws(scrub(s)))
}

fn scrub_chars(v: &Vec<char>) -> (r: Vec<char>)
    ensures
        r@ == scrub(v@),
{
    let mut r: Vec<char> = Vec::new();
    let mut i: usize = 0;
    proof {
        assert(v@.skip(0) =~= v@);
        assert(r@ + scrub(v@) =~= scrub(v@));
    }
    while i < v.len()
        invariant
            i <= v@.len(),
            scrub(v@) == r@ + scrub(v@.skip(i as int)),
        decreases v@.len() - i,
    {
        proof {
            assert(v@.skip(i as int)[0] == v@[i as int]);
            assert(v@.skip(i as int).skip(1) =~= v@.skip(i + 1));
        }
        let c = to_fold_char(to_lower_char(v[i]));
        let ghost r0 = r@;
        if is_del(c) {
        } else if is_break(c) {
            r.push(' ');
            proof {
                assert(r0.push(' ') + scrub(v@.skip(i + 1)) =~= r0 + (seq![' '] + scrub(
                    v@.skip(i + 1),
                )));
            }
        } else {
            r.push(c);
            proof {
                assert(r0.push(c) + scrub(v@.skip(i + 1)) =~= r0 + (seq![c] + scrub(
                    v@.skip(i + 1),
                )));
            }
        }
        i = i + 1;
    }
    proof {
        assert(v@.skip(v@.len() as int) =~= Seq::<char>::empty());
        assert(r@ + Seq::<char>::empty() =~= r@);
    }
    r
}

/// Split a display string into its raw tokens, as character vectors.
pub fn tokenize_chars(v: &Vec<char>) -> (r: Vec<Vec<char>>)
    ensures
        views(r@) == spec_tokenize(v@),
{
    let scrubbed = scrub_chars(v);
    let collapsed = collapse_chars(&scrubbed);
    split_spaces(&collapsed)
}

/// The views of a sequence of strings.
pub open spec fn string_views(s: Seq<String>) -> Seq<Seq<char>> {
    s.map_values(|x: String| x@)
}

/// Split a display string into its raw tokens.
pub fn tokenize(text: &str) -> (r: Vec<String>)
    ensures
        string_views(r@) == spec_tokenize(text@),
{
    let v = str_chars(text);
    let parts = tokenize_chars(&v);
    let mut r: Vec<String> = Vec::new();
    let mut i: usize = 0;
    while i < parts.len()
        invariant
            i <= parts@.len(),
            string_views(r@) =~= views(parts@).take(i as int),
        decreases parts@.len() - i,
    {
        let ghost r0 = r@;
        let s = string_from_chars(&parts[i]);
        r.push(s);
        proof {
            assert(string_views(r@) =~= string_views(r0).push(s@));
            assert(views(parts@).take(i as int).push(views(parts@)[i as int]) =~= views(
                parts@,
            ).take(i + 1));
        }
        i = i + 1;
    }
    proof {
        assert(views(parts@).take(parts@.len() as int) =~= views(parts@));
    }
    r
}

/// Per-character normalization: lowercase, then diacritic fold.
pub open spec fn norm_seq(s: Seq<char>) -> Seq<char> {
    s.map_values(|c: char| norm_char(c))
}

/// A sequence every character of which normalization leaves unchanged.
pub open spec fn is_norm_seq(s: Seq<char>) -> bool {
    forall|i: int| 0 <= i < s.len() ==> norm_char(#[trigger] s[i]) == s[i]
}

pub proof fn lemma_norm_seq_is_norm(s: Seq<char>)
    ensures
        is_norm_seq(norm_seq(s)),
{
    assert forall|i: int| 0 <= i < norm_seq(s).len() implies norm_char(#[trigger] norm_seq(s)[i])
        == norm_seq(s)[i] by {
        crate::chars::lemma_norm_char_fixed(s[i]);
    }
}

/// Normalize every character of a string.
pub fn norm_string(s: &String) -> (r: String)
    ensures
        r@ == norm_seq(s@),
{
    let v = str_chars(s.as_str());
    let mut out: Vec<char> = Vec::new();
    let mut i: usize = 0;
    while i < v.len()
        invariant
            i <= v@.len(),
            v@ == s@,
            out@ =~= norm_seq(s@).take(i as int),
        decreases v@.len() - i,
    {
        out.push(to_fold_char(to_lower_char(v[i])));
        proof {
            assert(out@ =~= norm_seq(s@).take(i + 1));
        }
        i = i + 1;
    }
    proof {
        assert(norm_seq(s@).take(s@.len() as int) =~= norm_seq(s@));
    }
    string_from_chars(&out)
}

/// The ghost value of a canonicalized token.
pub ghost struct TokenizedV {
    pub token: Seq<char>,
    pub category: Option<TokenType>,
}

/// A canonicalized token together with its category, if the abbreviation
/// table assigned one.
#[derive(Debug, Clone, PartialEq)]
pub struct Tokenized {
    pub token: String,
    pub token_type: Option<TokenType>,
}

impl View for Tokenized {
    type V = TokenizedV;

    open spec fn view(&self) -> TokenizedV {
        TokenizedV { token: self.token@, category: self.token_type }
    }
}

impl Tokenized {
    pub fn new(token: String, token_type: Option<TokenType>) -> (r: Tokenized)
        ensures
            r@ == (TokenizedV { token: token@, category: token_type }),
    {
        Tokenized { token, token_type }
    }

    pub fn duplicate(&self) -> (r: Tokenized)
        ensures
            r@ == self@,
    {
        Tokenized { token: self.token.clone(), token_type: self.token_type }
    }
}

/// The views of a sequence of canonicalized tokens.
pub open spec fn tokenized_views(s: Seq<Tokenized>) -> Seq<TokenizedV> {
    s.map_values(|t: Tokenized| t@)
}

/// The ghost value of one abbreviation-table entry.
pub ghost struct ParsedTokenV {
    pub canonical: Seq<char>,
    pub category: Option<TokenType>,
}

/// The canonical replacement an abbreviation table maps a surface form to.
#[derive(Debug, Clone, PartialEq)]
pub struct ParsedToken {
    pub canonical: String,
    pub token_type: Option<TokenType>,
}

impl View for ParsedToken {
    type V = ParsedTokenV;

    open spec fn view(&self) -> ParsedTokenV {
        ParsedTokenV { canonical: self.canonical@, category: self.token_type }
    }
}

impl ParsedToken {
    pub fn new(canonical: String, token_type: Option<TokenType>) -> (r: ParsedToken)
        ensures
            r@ == (ParsedTokenV { canonical: canonical@, category: token_type }),
    {
        ParsedToken { canonical, token_type }
    }

    pub fn duplicate(&self) -> (r: ParsedToken)
        ensures
            r@ == self@,
    {
        ParsedToken { canonical: self.canonical.clone(), token_type: self.token_type }
    }
}

/// An abbreviation table: surface form to canonical token and category.
/// A later entry for the same surface form shadows an earlier one.
#[derive(Debug, Clone, PartialEq)]
pub struct Tokens {
    entries: Vec<(String, ParsedToken)>,
}

impl View for Tokens {
    type V = Seq<(Seq<char>, ParsedTokenV)>;

    closed spec fn view(&self) -> Seq<(Seq<char>, ParsedTokenV)> {
        self.entries@.map_values(|e: (String, ParsedToken)| (e.0@, e.1@))
    }
}

/// The entry a surface form maps to: the last entry with that key, if any.
pub open spec fn spec_lookup(table: Seq<(Seq<char>, ParsedTokenV)>, key: Seq<char>) -> Option<
    ParsedTokenV,
>
    decreases table.len(),
{
    if table.len() == 0 {
        None
    } else if table[table.len() - 1].0 == key {
        Some(table[table.len() - 1].1)
    } else {
        spec_lookup(table.drop_last(), key)
    }
}

/// Canonicalize each raw token through the table; a token the table does not
/// know passes through with no category.
pub open spec fn spec_canonicalize(
    raw: Seq<Seq<char>>,
    table: Seq<(Seq<char>, ParsedTokenV)>,
) -> Seq<TokenizedV> {
    Seq::new(
        raw.len(),
        |i: int|
            match spec_lookup(table, raw[i]) {
                Some(p) => TokenizedV { token: p.canonical, category: p.category },
                None => TokenizedV { token: raw[i], category: None },
            },
    )
}

/// The index of the last canonicalized token that reads "st".
pub open spec fn last_st_index(tkd: Seq<TokenizedV>) -> int
    decreases tkd.len(),
{
    if tkd.len() == 0 {
        -1
    } else if tkd[tkd.len() - 1].token == "st"@ {
        tkd.len() - 1
    } else {
        last_st_index(tkd.drop_last())
    }
}

/// Whether some token other than "st" carries the Way category.
pub open spec fn has_other_way(tkd: Seq<TokenizedV>) -> bool {
    exists|j: int|
        0 <= j < tkd.len() && tkd[j].token != "st"@ && tkd[j].category == Some(TokenType::Way)
}

/// The US "st" disambiguation: when the raw tokens contain "st", all its
/// canonical occurrences but the last lose their category; the last one is
/// Way ("Street") unless another Way token is present, in which case it has
/// no category ("Saint").
pub open spec fn spec_type_us_st(raw: Seq<Seq<char>>, tkd: Seq<TokenizedV>) -> Seq<TokenizedV> {
    if raw.contains("st"@) && (exists|i: int| 0 <= i < tkd.len() && tkd[i].token == "st"@) {
        let last = last_st_index(tkd);
        let way = has_other_way(tkd);
        Seq::new(
            tkd.len(),
            |i: int|
                if tkd[i].token == "st"@ {
                    if i == last && !way {
                        TokenizedV { token: tkd[i].token, category: Some(TokenType::Way) }
                    } else {
                        TokenizedV { token: tkd[i].token, category: None }
                    }
                } else {
                    tkd[i]
                },
        )
    } else {
        tkd
    }
}

/// Everything the last "st" token is or is not: helper facts for the index.
proof fn lemma_last_st_index(tkd: Seq<TokenizedV>)
    requires
        exists|i: int| 0 <= i < tkd.len() && tkd[i].token == "st"@,
    ensures
        0 <= last_st_index(tkd) < tkd.len(),
        tkd[last_st_index(tkd)].token == "st"@,
        forall|j: int| last_st_index(tkd) < j < tkd.len() ==> tkd[j].token != "st"@,
    decreases tkd.len(),
{
    if tkd.len() > 0 && tkd[tkd.len() - 1].token != "st"@ {
        let i = choose|i: int| 0 <= i < tkd.len() && tkd[i].token == "st"@;
        assert(0 <= i < tkd.len() - 1 && tkd.drop_last()[i].token == "st"@);
        lemma_last_st_index(tkd.drop_last());
        assert forall|j: int| last_st_index(tkd) < j < tkd.len() implies tkd[j].token != "st"@ by {
            if j < tkd.len() - 1 {
                assert(tkd.drop_last()[j] == tkd[j]);
            }
        }
    }
}

/// Apply the US "st" disambiguation to a canonicalized token vector.
pub fn type_us_st(tokens: &Vec<String>, tokenized: Vec<Tokenized>) -> (r: Vec<Tokenized>)
    ensures
        tokenized_views(r@) == spec_type_us_st(string_views(tokens@), tokenized_views(
            tokenized@,
        )),
{
    let ghost raw = string_views(tokens@);
    let ghost tkd = tokenized_views(tokenized@);
    let mut has_raw_st = false;
    let mut i: usize = 0;
    while i < tokens.len()
        invariant
            i <= tokens@.len(),
            raw == string_views(tokens@),
            has_raw_st <==> exists|j: int| 0 <= j < i && raw[j] == "st"@,
        decreases tokens@.len() - i,
    {
        if str_eq(tokens[i].as_str(), "st") {
            proof {
                assert(raw[i as int] == "st"@);
            }
            has_raw_st = true;
        }
        i = i + 1;
    }
    let mut st_last: usize = 0;
    let mut has_st = false;
    let mut way_tokens = false;
    let mut i: usize = 0;
    while i < tokenized.len()
        invariant
            i <= tokenized@.len(),
            tkd == tokenized_views(tokenized@),
            has_st <==> exists|j: int| 0 <= j < i && tkd[j].token == "st"@,
            has_st ==> st_last < i && tkd[st_last as int].token == "st"@ && forall|j: int|
                st_last < j < i ==> tkd[j].token != "st"@,
            way_tokens <==> exists|j: int|
                0 <= j < i && tkd[j].token != "st"@ && tkd[j].category == Some(TokenType::Way),
        decreases tokenized@.len() - i,
    {
        if str_eq(tokenized[i].token.as_str(), "st") {
            proof {
                assert(tkd[i as int].token == "st"@);
            }
            st_last = i;
            has_st = true;
        } else {
            proof {
                assert(tkd[i as int].token != "st"@);
            }
            if match tokenized[i].token_type {
                Some(TokenType::Way) => true,
                _ => false,
            } {
                way_tokens = true;
            }
        }
        i = i + 1;
    }
    if !(has_raw_st && has_st) {
        proof {
            assert(tokenized_views(tokenized@) == spec_type_us_st(raw, tkd));
        }
        return tokenized;
    }
    proof {
        lemma_last_st_index(tkd);
        assert(st_last as int == last_st_index(tkd)) by {
            let l = last_st_index(tkd);
            if l < st_last as int {
                assert(tkd[st_last as int].token == "st"@);
            } else if l > st_last as int {
                assert(tkd[l].token != "st"@);
            }
        }
        assert(way_tokens == has_other_way(tkd));
    }
    let mut r: Vec<Tokenized> = Vec::new();
    let ghost out = spec_type_us_st(raw, tkd);
    let mut i: usize = 0;
    while i < tokenized.len()
        invariant
            i <= tokenized@.len(),
            tkd == tokenized_views(tokenized@),
            out == spec_type_us_st(raw, tkd),
            out.len() == tkd.len(),
            st_last as int == last_st_index(tkd),
            way_tokens == has_other_way(tkd),
            raw.contains("st"@),
            exists|j: int| 0 <= j < tkd.len() && tkd[j].token == "st"@,
            tokenized_views(r@) =~= out.take(i as int),
        decreases tokenized@.len() - i,
    {
        let ghost r0 = r@;
        let t = &tokenized[i];
        if str_eq(t.token.as_str(), "st") {
            if i == st_last && !way_tokens {
                r.push(Tokenized { token: t.token.clone(), token_type: Some(TokenType::Way) });
            } else {
                r.push(Tokenized { token: t.token.clone(), token_type: None });
            }
        } else {
            proof {
                assert(tkd[i as int].token != "st"@);
            }
            r.push(t.duplicate());
        }
        proof {
            assert(tokenized_views(r@) =~= tokenized_views(r0).push(r@[r@.len() - 1]@));
            assert(out.take(i as int).push(out[i as int]) =~= out.take(i + 1));
            assert(r@[r@.len() - 1]@ == out[i as int]);
        }
        i = i + 1;
    }
    proof {
        assert(out.take(out.len() as int) =~= out);
    }
    r
}

impl Tokens {
    /// Build a table from surface-form/replacement pairs; a later pair for
    /// the same surface form shadows an earlier one.
    pub fn new(tokens: Vec<(String, ParsedToken)>) -> (r: Tokens)
        ensures
            r@ == tokens@.map_values(|e: (String, ParsedToken)| (e.0@, e.1@)),
    {
        Tokens { entries: tokens }
    }

    fn lookup(&self, key: &str) -> (r: Option<ParsedToken>)
        ensures
            match r {
                Some(p) => spec_lookup(self@, key@) == Some(p@),
                None => spec_lookup(self@, key@) is None,
            },
    {
        let ghost table = self@;
        let mut j: usize = self.entries.len();
        proof {
            assert(table.take(j as int) =~= table);
        }
        while j > 0
            invariant
                j <= self.entries@.len(),
                table == self@,
                spec_lookup(table, key@) == spec_lookup(table.take(j as int), key@),
            decreases j,
        {
            proof {
                let pre = table.take(j as int);
                assert(pre[pre.len() - 1] == table[j - 1]);
                assert(pre.drop_last() =~= table.take(j - 1));
            }
            j = j - 1;
            if str_eq(self.entries[j].0.as_str(), key) {
                proof {
                    assert(table[j as int].0 == key@);
                }
                return Some(self.entries[j].1.duplicate());
            }
            proof {
                assert(table[j as int].0 != key@);
            }
        }
        proof {
            assert(table.take(0) =~= Seq::<(Seq<char>, ParsedTokenV)>::empty());
        }
        None
    }

    /// Tokenize a display string and canonicalize each token through the
    /// table; in the US the "st" disambiguation runs afterwards.
    pub fn process(&self, text: &String, country: &String) -> (r: Vec<Tokenized>)
        ensures
            tokenized_views(r@) == spec_process(text@, self@, country@),
    {
        let v = str_chars(text.as_str());
        let raw_chars = tokenize_chars(&v);
        let ghost raw = spec_tokenize(text@);
        let mut raw_strings: Vec<String> = Vec::new();
        let mut tokenized: Vec<Tokenized> = Vec::new();
        let mut i: usize = 0;
        while i < raw_chars.len()
            invariant
                i <= raw_chars@.len(),
                views(raw_chars@) == raw,
                string_views(raw_strings@) =~= raw.take(i as int),
                tokenized_views(tokenized@) =~= spec_canonicalize(raw, self@).take(i as int),
            decreases raw_chars@.len() - i,
        {
            let ghost rs0 = raw_strings@;
            let ghost tk0 = tokenized@;
            let s = string_from_chars(&raw_chars[i]);
            match self.lookup(s.as_str()) {
                None => {
                    tokenized.push(Tokenized { token: s.clone(), token_type: None });
                },
                Some(p) => {
                    tokenized.push(
                        Tokenized { token: p.canonical, token_type: p.token_type },
                    );
                },
            }
            raw_strings.push(s);
            proof {
                assert(string_views(raw_strings@) =~= string_views(rs0).push(raw[i as int]));
                assert(raw.take(i as int).push(raw[i as int]) =~= raw.take(i + 1));
                assert(tokenized_views(tokenized@) =~= tokenized_views(tk0).push(
                    tokenized@[tokenized@.len() - 1]@,
                ));
                assert(spec_canonicalize(raw, self@).take(i as int).push(
                    spec_canonicalize(raw, self@)[i as int],
                ) =~= spec_canonicalize(raw, self@).take(i + 1));
                assert(tokenized@[tokenized@.len() - 1]@ == spec_canonicalize(raw, self@)[i as int]);
            }
            i = i + 1;
        }
        proof {
            assert(raw.take(raw.len() as int) =~= raw);
            assert(spec_canonicalize(raw, self@).take(raw.len() as int) =~= spec_canonicalize(
                raw,
                self@,
            ));
            assert(string_views(raw_strings@) =~= raw);
        }
        if str_eq(country.as_str(), "US") {
            type_us_st(&raw_strings, tokenized)
        } else {
            tokenized
        }
    }
}

/// The ghost value of one abbreviation group of the embedded table.
pub ghost struct AbbrGroupV {
    pub surfaces: Seq<Seq<char>>,
    pub canonical: Seq<char>,
    pub regex: bool,
    pub category: Option<TokenType>,
}

/// One abbreviation group of the embedded table, as plain values: its
/// surface forms, its canonical form, whether it is a regex group, and its
/// category.
pub struct AbbrGroup {
    pub surfaces: Vec<String>,
    pub canonical: String,
    pub regex: bool,
    pub category: Option<TokenType>,
}

impl View for AbbrGroup {
    type V = AbbrGroupV;

    open spec fn view(&self) -> AbbrGroupV {
        AbbrGroupV {
            surfaces: string_views(self.surfaces@),
            canonical: self.canonical@,
            regex: self.regex,
            category: self.category,
        }
    }
}

/// The views of a sequence of abbreviation groups.
pub open spec fn group_views(s: Seq<AbbrGroup>) -> Seq<AbbrGroupV> {
    s.map_values(|g: AbbrGroup| g@)
}

/// The abbreviation groups the embedded table defines for a language code,
/// in file order, or None where the code is not supported. The table is
/// constant data compiled into the abbreviation crate, so the groups are a
/// function of the code alone.
pub uninterp spec fn abbr_groups_of(lang: Seq<char>) -> Option<Seq<AbbrGroupV>>;

/// Relies on geocoder_abbreviations::config and the public fields of its
/// Token: the embedded abbreviation groups of one language code, as plain
/// values, with the category enum mapped variant for variant.
#[verifier::external_body]
fn config_language(lang: &String) -> (r: Option<Vec<AbbrGroup>>)
    ensures
        match r {
            Some(gs) => abbr_groups_of(lang@) == Some(group_views(gs@)),
            None => abbr_groups_of(lang@) is None,
        },
{
    let mut m = match geocoder_abbreviations::config(vec![lang.clone()]) { Ok(m) => m, Err(_) => return None };
    Some(m.remove(lang)?.into_iter().map(|t| AbbrGroup {
        surfaces: t.tokens,
        canonical: t.canonical,
        regex: t.regex,
        category: t.token_type.map(|c| match c {
            AbbrTokenType::PostalBox => TokenType::PostalBox,
            AbbrTokenType::Cardinal => TokenType::Cardinal,
            AbbrTokenType::Number => TokenType::Number,
            AbbrTokenType::Ordinal => TokenType::Ordinal,
            AbbrTokenType::Unit => TokenType::Unit,
            AbbrTokenType::Way => TokenType::Way,
            AbbrTokenType::Determiner => TokenType::Determiner,
        }),
    }).collect())
}

/// The table entries one group contributes: nothing for a regex group, and
/// otherwise one entry per surface form, the surface and the canonical form
/// both normalized, carrying the group's category.
pub open spec fn spec_entries_of_group(g: AbbrGroupV) -> Seq<(Seq<char>, ParsedTokenV)> {
    if g.regex {
        Seq::<(Seq<char>, ParsedTokenV)>::empty()
    } else {
        Seq::new(
            g.surfaces.len(),
            |i: int|
                (
                    norm_seq(g.surfaces[i]),
                    ParsedTokenV { canonical: norm_seq(g.canonical), category: g.category },
                ),
        )
    }
}

/// The table entries of a language's groups, in file order.
pub open spec fn spec_entries_of_groups(gs: Seq<AbbrGroupV>) -> Seq<(Seq<char>, ParsedTokenV)>
    decreases gs.len(),
{
    if gs.len() == 0 {
        Seq::<(Seq<char>, ParsedTokenV)>::empty()
    } else {
        spec_entries_of_group(gs[0]) + spec_entries_of_groups(gs.skip(1))
    }
}

/// The table `Tokens::generate` loads: the entries of each requested
/// language's embedded groups, concatenated in the given language order; an
/// unsupported code contributes nothing.
pub open spec fn spec_generate(langs: Seq<Seq<char>>) -> Seq<(Seq<char>, ParsedTokenV)>
    decreases langs.len(),
{
    if langs.len() == 0 {
        Seq::<(Seq<char>, ParsedTokenV)>::empty()
    } else {
        (match abbr_groups_of(langs[0]) {
            None => Seq::<(Seq<char>, ParsedTokenV)>::empty(),
            Some(gs) => spec_entries_of_groups(gs),
        }) + spec_generate(langs.skip(1))
    }
}

/// Every surface key and every canonical form in the table is normalized:
/// lowercase and diacritic-folded.
pub open spec fn table_normalized(t: Seq<(Seq<char>, ParsedTokenV)>) -> bool {
    forall|i: int|
        0 <= i < t.len() ==> is_norm_seq(#[trigger] t[i].0) && is_norm_seq(t[i].1.canonical)
}

proof fn lemma_entries_of_group_normalized(g: AbbrGroupV)
    ensures
        table_normalized(spec_entries_of_group(g)),
{
    let es = spec_entries_of_group(g);
    assert forall|i: int| 0 <= i < es.len() implies is_norm_seq(#[trigger] es[i].0) && is_norm_seq(
        es[i].1.canonical,
    ) by {
        lemma_norm_seq_is_norm(g.surfaces[i]);
        lemma_norm_seq_is_norm(g.canonical);
    }
}

proof fn lemma_entries_of_groups_normalized(gs: Seq<AbbrGroupV>)
    ensures
        table_normalized(spec_entries_of_groups(gs)),
    decreases gs.len(),
{
    if gs.len() > 0 {
        lemma_entries_of_group_normalized(gs[0]);
        lemma_entries_of_groups_normalized(gs.skip(1));
        let es = spec_entries_of_groups(gs);
        let hd = spec_entries_of_group(gs[0]);
        let tl = spec_entries_of_groups(gs.skip(1));
        assert forall|i: int| 0 <= i < es.len() implies is_norm_seq(#[trigger] es[i].0)
            && is_norm_seq(es[i].1.canonical) by {
            if i < hd.len() {
                assert(es[i] == hd[i]);
            } else {
                assert(es[i] == tl[i - hd.len()]);
            }
        }
    }
}

/// Every table the loader builds is normalized.
pub proof fn lemma_generate_normalized(langs: Seq<Seq<char>>)
    ensures
        table_normalized(spec_generate(langs)),
    decreases langs.len(),
{
    if langs.len() > 0 {
        lemma_generate_normalized(langs.skip(1));
        let hd: Seq<(Seq<char>, ParsedTokenV)> = match abbr_groups_of(langs[0]) {
            None => Seq::<(Seq<char>, ParsedTokenV)>::empty(),
            Some(gs) => spec_entries_of_groups(gs),
        };
        match abbr_groups_of(langs[0]) {
            None => {},
            Some(gs) => {
                lemma_entries_of_groups_normalized(gs);
            },
        }
        let es = spec_generate(langs);
        let tl = spec_generate(langs.skip(1));
        assert forall|i: int| 0 <= i < es.len() implies is_norm_seq(#[trigger] es[i].0)
            && is_norm_seq(es[i].1.canonical) by {
            if i < hd.len() {
                assert(es[i] == hd[i]);
            } else {
                assert(es[i] == tl[i - hd.len()]);
            }
        }
    }
}

/// The view of the entry vector the loader accumulates.
pub open spec fn entry_views(es: Seq<(String, ParsedToken)>) -> Seq<(Seq<char>, ParsedTokenV)> {
    es.map_values(|e: (String, ParsedToken)| (e.0@, e.1@))
}

impl Tokens {
    /// Load the abbreviation table for the given languages: the entries of
    /// each language's embedded groups in order. Only the plain, non-regex
    /// groups are loaded; every surface form maps to the group's canonical
    /// form and category, both lowercased and diacritic-folded. A language
    /// code the embedded table does not know contributes nothing.
    pub fn generate(languages: Vec<String>) -> (r: Tokens)
        ensures
            r@ == spec_generate(string_views(languages@)),
            table_normalized(r@),
    {
        let ghost lv = string_views(languages@);
        let mut entries: Vec<(String, ParsedToken)> = Vec::new();
        let mut li: usize = 0;
        proof {
            assert(lv.skip(0) =~= lv);
            assert(entry_views(entries@) =~= Seq::<(Seq<char>, ParsedTokenV)>::empty());
            assert(entry_views(entries@) + spec_generate(lv) =~= spec_generate(lv));
        }
        while li < languages.len()
            invariant
                li <= languages@.len(),
                lv == string_views(languages@),
                spec_generate(lv) == entry_views(entries@) + spec_generate(lv.skip(li as int)),
            decreases languages@.len() - li,
        {
            proof {
                assert(lv.skip(li as int)[0] == lv[li as int]);
                assert(lv.skip(li as int).skip(1) =~= lv.skip(li + 1));
            }
            let ghost base = entry_views(entries@);
            match config_language(&languages[li]) {
                None => {
                    proof {
                        assert(base + (Seq::<(Seq<char>, ParsedTokenV)>::empty() + spec_generate(
                            lv.skip(li + 1),
                        )) =~= base + spec_generate(lv.skip(li + 1)));
                    }
                },
                Some(groups) => {
                    let ghost gv = group_views(groups@);
                    let mut gi: usize = 0;
                    proof {
                        assert(gv.skip(0) =~= gv);
                        assert(base + spec_entries_of_groups(gv) =~= base + (
                        spec_entries_of_groups(gv) + Seq::<(Seq<char>, ParsedTokenV)>::empty()));
                    }
                    while gi < groups.len()
                        invariant
                            gi <= groups@.len(),
                            gv == group_views(groups@),
                            base + spec_entries_of_groups(gv) == entry_views(entries@)
                                + spec_entries_of_groups(gv.skip(gi as int)),
                        decreases groups@.len() - gi,
                    {
                        proof {
                            assert(gv.skip(gi as int)[0] == gv[gi as int]);
                            assert(gv.skip(gi as int).skip(1) =~= gv.skip(gi + 1));
                        }
                        let ghost g = gv[gi as int];
                        let ghost mid = entry_views(entries@);
                        if !groups[gi].regex {
                            let canon = norm_string(&groups[gi].canonical);
                            let cat = groups[gi].category;
                            let mut si: usize = 0;
                            while si < groups[gi].surfaces.len()
                                invariant
                                    gi < groups@.len(),
                                    gv == group_views(groups@),
                                    g == gv[gi as int],
                                    si <= groups@[gi as int].surfaces@.len(),
                                    canon@ == norm_seq(g.canonical),
                                    cat == g.category,
                                    !g.regex,
                                    entry_views(entries@) =~= mid + spec_entries_of_group(
                                        g,
                                    ).take(si as int),
                                decreases groups@[gi as int].surfaces@.len() - si,
                            {
                                let ghost e0 = entries@;
                                let key = norm_string(&groups[gi].surfaces[si]);
                                entries.push((key, ParsedToken::new(canon.clone(), cat)));
                                proof {
                                    let eg = spec_entries_of_group(g);
                                    assert(entry_views(entries@) =~= entry_views(e0).push(
                                        (entries@[entries@.len() - 1].0@, entries@[entries@.len()
                                            - 1].1@),
                                    ));
                                    assert(g.surfaces[si as int] == groups@[gi as int].surfaces@[
                                    si as int]@);
                                    assert((entries@[entries@.len() - 1].0@, entries@[entries@.len()
                                        - 1].1@) == eg[si as int]);
                                    assert(eg.take(si as int).push(eg[si as int]) =~= eg.take(
                                        si + 1,
                                    ));
                                }
                                si = si + 1;
                            }
                            proof {
                                let eg = spec_entries_of_group(g);
                                assert(eg.take(eg.len() as int) =~= eg);
                                assert(mid + eg + spec_entries_of_groups(gv.skip(gi + 1)) =~= mid
                                    + (eg + spec_entries_of_groups(gv.skip(gi + 1))));
                            }
                        } else {
                            proof {
                                assert(spec_entries_of_group(g)
                                    =~= Seq::<(Seq<char>, ParsedTokenV)>::empty());
                                assert(mid + spec_entries_of_groups(gv.skip(gi + 1)) =~= mid + (
                                spec_entries_of_group(g) + spec_entries_of_groups(
                                    gv.skip(gi + 1),
                                )));
                            }
                        }
                        gi = gi + 1;
                    }
                    proof {
                        assert(gv.skip(gv.len() as int)
                            =~= Seq::<AbbrGroupV>::empty());
                        assert(spec_entries_of_groups(Seq::<AbbrGroupV>::empty())
                            =~= Seq::<(Seq<char>, ParsedTokenV)>::empty());
                        assert(entry_views(entries@) + Seq::<(Seq<char>, ParsedTokenV)>::empty()
                            =~= entry_views(entries@));
                        assert(base + (spec_entries_of_groups(gv) + spec_generate(lv.skip(li + 1)))
                            =~= entry_views(entries@) + spec_generate(lv.skip(li + 1)));
                    }
                },
            }
            li = li + 1;
        }
        proof {
            assert(lv.skip(lv.len() as int) =~= Seq::<Seq<char>>::empty());
            assert(entry_views(entries@) + Seq::<(Seq<char>, ParsedTokenV)>::empty()
                =~= entry_views(entries@));
            lemma_generate_normalized(lv);
        }
        Tokens { entries }
    }
}

/// The canonicalized tokens of a display string under a table, with the US
/// "st" disambiguation where the country is the United States.
pub open spec fn spec_process(
    s: Seq<char>,
    table: Seq<(Seq<char>, ParsedTokenV)>,
    country: Seq<char>,
) -> Seq<TokenizedV> {
    let raw = spec_tokenize(s);
    let tkd = spec_canonicalize(raw, table);
    if country == "US"@ {
        spec_type_us_st(raw, tkd)
    } else {
        tkd
    }
}

} // verus!

use crate::context::Context;

verus! {

/// Tokenize a name under the context's table and country.
pub fn tokenize_name(name: String, context: Context) -> (r: Vec<Tokenized>)
    ensures
        tokenized_views(r@) == spec_process(name@, context.tokens@, context.country@),
{
    context.tokens.process(&name, &context.country)
}

} // verus!

verus! {

/// A character the tokenizer passes through unchanged: normalization leaves
/// it alone and it is neither deleted nor turned into a space.
pub open spec fn plain_char(c: char) -> bool {
    norm_char(c) == c && !is_del_char(c) && !is_break_char(c)
}

pub open spec fn all_plain(s: Seq<char>) -> bool {
    forall|i: int| 0 <= i < s.len() ==> plain_char(#[trigger] s[i])
}

/// A finished token: nonempty, with only plain, non-whitespace characters.
pub open spec fn good_token(t: Seq<char>) -> bool {
    t.len() > 0 && forall|i: int|
        0 <= i < t.len() ==> plain_char(#[trigger] t[i]) && !crate::strutil::is_space_char(t[i])
}

proof fn lemma_scrub_chars_plain(s: Seq<char>)
    ensures
        all_plain(scrub(s)),
    decreases s.len(),
{
    if s.len() > 0 {
        lemma_scrub_chars_plain(s.skip(1));
        let c = norm_char(s[0]);
        crate::chars::lemma_norm_char_fixed(s[0]);
        if is_del_char(c) {
        } else if is_break_char(c) {
            let out = seq![' '] + scrub(s.skip(1));
            assert forall|i: int| 0 <= i < out.len() implies plain_char(#[trigger] out[i]) by {
                if i > 0 {
                    assert(out[i] == scrub(s.skip(1))[i - 1]);
                }
            }
        } else {
            let out = seq![c] + scrub(s.skip(1));
            assert forall|i: int| 0 <= i < out.len() implies plain_char(#[trigger] out[i]) by {
                if i > 0 {
                    assert(out[i] == scrub(s.skip(1))[i - 1]);
                }
            }
        }
    }
}

/// Whitespace in a collapsed sequence is always the single space character,
/// and plainness carries over.
proof fn lemma_collapse_chars_plain(s: Seq<char>, prev: bool)
    requires
        all_plain(s),
    ensures
        all_plain(crate::strutil::collapse_go(s, prev)),
        forall|i: int|
            0 <= i < crate::strutil::collapse_go(s, prev).len() ==> (crate::strutil::is_space_char(
                #[trigger] crate::strutil::collapse_go(s, prev)[i],
            ) ==> crate::strutil::collapse_go(s, prev)[i] == ' '),
    decreases s.len(),
{
    if s.len() > 0 {
        assert(all_plain(s.skip(1))) by {
            assert(forall|i: int| 0 <= i < s.len() - 1 ==> s.skip(1)[i] == s[i + 1]);
        }
        lemma_collapse_chars_plain(s.skip(1), crate::strutil::is_space_char(s[0]));
        let rest = crate::strutil::collapse_go(s.skip(1), crate::strutil::is_space_char(s[0]));
        if crate::strutil::is_space_char(s[0]) {
            if !prev {
                let out = seq![' '] + rest;
                assert(plain_char(' ')) by {
                    crate::chars::lemma_norm_char_fixed(' ');
                }
                assert forall|i: int| 0 <= i < out.len() implies plain_char(#[trigger] out[i]) && (
                crate::strutil::is_space_char(out[i]) ==> out[i] == ' ') by {
                    if i > 0 {
                        assert(out[i] == rest[i - 1]);
                    }
                }
            }
        } else {
            let out = seq![s[0]] + rest;
            assert forall|i: int| 0 <= i < out.len() implies plain_char(#[trigger] out[i]) && (
            crate::strutil::is_space_char(out[i]) ==> out[i] == ' ') by {
                if i > 0 {
                    assert(out[i] == rest[i - 1]);
                }
            }
        }
    }
}

/// Every token the splitter produces from such a sequence is a good token.
proof fn lemma_split_good(s: Seq<char>, cur: Seq<char>)
    requires
        all_plain(s),
        forall|i: int|
            0 <= i < s.len() ==> (crate::strutil::is_space_char(#[trigger] s[i]) ==> s[i] == ' '),
        forall|i: int|
            0 <= i < cur.len() ==> plain_char(#[trigger] cur[i]) && !crate::strutil::is_space_char(
                cur[i],
            ),
    ensures
        forall|k: int|
            0 <= k < crate::strutil::split_go(s, cur).len() ==> good_token(
                #[trigger] crate::strutil::split_go(s, cur)[k],
            ),
    decreases s.len(),
{
    if s.len() == 0 {
        if cur.len() > 0 {
            assert(good_token(cur));
            assert(crate::strutil::split_go(s, cur) =~= seq![cur]);
        }
    } else {
        assert(all_plain(s.skip(1)) && forall|i: int|
            0 <= i < s.skip(1).len() ==> (crate::strutil::is_space_char(#[trigger] s.skip(1)[i])
                ==> s.skip(1)[i] == ' ')) by {
            assert(forall|i: int| 0 <= i < s.len() - 1 ==> s.skip(1)[i] == s[i + 1]);
        }
        if s[0] == ' ' {
            lemma_split_good(s.skip(1), Seq::<char>::empty());
            if cur.len() > 0 {
                assert(good_token(cur));
                let out = seq![cur] + crate::strutil::split_go(s.skip(1), Seq::<char>::empty());
                assert(crate::strutil::split_go(s, cur) == out);
                assert forall|k: int| 0 <= k < out.len() implies good_token(#[trigger] out[k]) by {
                    if k > 0 {
                        assert(out[k] == crate::strutil::split_go(
                            s.skip(1),
                            Seq::<char>::empty(),
                        )[k - 1]);
                    }
                }
            } else {
                assert(crate::strutil::split_go(s, cur) == crate::strutil::split_go(
                    s.skip(1),
                    Seq::<char>::empty(),
                ));
            }
        } else {
            assert(!crate::strutil::is_space_char(s[0]));
            assert forall|i: int| 0 <= i < cur.push(s[0]).len() implies plain_char(
                #[trigger] cur.push(s[0])[i],
            ) && !crate::strutil::is_space_char(cur.push(s[0])[i]) by {
                if i < cur.len() {
                    assert(cur.push(s[0])[i] == cur[i]);
                } else {
                    assert(cur.push(s[0])[i] == s[0]);
                }
            }
            lemma_split_good(s.skip(1), cur.push(s[0]));
            assert(crate::strutil::split_go(s, cur) == crate::strutil::split_go(
                s.skip(1),
                cur.push(s[0]),
            ));
        }
    }
}

/// Every token the tokenizer produces is a good token.
pub proof fn lemma_tokenize_good(s: Seq<char>)
    ensures
        forall|k: int|
            0 <= k < spec_tokenize(s).len() ==> good_token(#[trigger] spec_tokenize(s)[k]),
{
    lemma_scrub_chars_plain(s);
    lemma_collapse_chars_plain(scrub(s), false);
    lemma_split_good(crate::strutil::collapse_ws(scrub(s)), Seq::<char>::empty());
}

/// Scrubbing a sequence of plain characters changes nothing.
proof fn lemma_scrub_plain_id(s: Seq<char>)
    requires
        all_plain(s),
    ensures
        scrub(s) == s,
    decreases s.len(),
{
    if s.len() > 0 {
        assert(all_plain(s.skip(1))) by {
            assert(forall|i: int| 0 <= i < s.len() - 1 ==> s.skip(1)[i] == s[i + 1]);
        }
        lemma_scrub_plain_id(s.skip(1));
        assert(seq![s[0]] + s.skip(1) =~= s);
    }
}

/// Collapsing changes nothing when every whitespace character is a single
/// space with non-space neighbours.
proof fn lemma_collapse_id(s: Seq<char>, prev: bool)
    requires
        forall|i: int|
            0 <= i < s.len() ==> (crate::strutil::is_space_char(#[trigger] s[i]) ==> s[i] == ' '),
        forall|i: int| 0 <= i < s.len() - 1 ==> !((#[trigger] s[i]) == ' ' && s[i + 1] == ' '),
        prev ==> (s.len() == 0 || s[0] != ' '),
    ensures
        crate::strutil::collapse_go(s, prev) == s,
    decreases s.len(),
{
    if s.len() > 0 {
        assert(forall|i: int| 0 <= i < s.len() - 1 ==> s.skip(1)[i] == s[i + 1]);
        lemma_collapse_id(s.skip(1), crate::strutil::is_space_char(s[0]));
        if crate::strutil::is_space_char(s[0]) {
            assert(s[0] == ' ');
            assert(seq![' '] + s.skip(1) =~= s);
        } else {
            assert(seq![s[0]] + s.skip(1) =~= s);
        }
    }
}

/// Splitting consumes a spaceless run into the current token.
proof fn lemma_split_run(t: Seq<char>, rest: Seq<char>, cur: Seq<char>)
    requires
        forall|i: int| 0 <= i < t.len() ==> (#[trigger] t[i]) != ' ',
    ensures
        crate::strutil::split_go(t + rest, cur) == crate::strutil::split_go(rest, cur + t),
    decreases t.len(),
{
    if t.len() == 0 {
        assert(t + rest =~= rest);
        assert(cur + t =~= cur);
    } else {
        assert((t + rest)[0] == t[0]);
        assert((t + rest).skip(1) =~= t.skip(1) + rest);
        assert(cur.push(t[0]) + t.skip(1) =~= cur + t);
        assert(forall|i: int| 0 <= i < t.len() - 1 ==> t.skip(1)[i] == t[i + 1]);
        lemma_split_run(t.skip(1), rest, cur.push(t[0]));
    }
}

/// Splitting the space-joined tail of good tokens after a finished token
/// yields that token and the tail's tokens.
proof fn lemma_split_join_tail(parts: Seq<Seq<char>>, cur: Seq<char>)
    requires
        cur.len() > 0,
        forall|k: int| 0 <= k < parts.len() ==> good_token(#[trigger] parts[k]),
    ensures
        crate::strutil::split_go(crate::strutil::join_tail(parts), cur) == seq![cur] + parts,
    decreases parts.len(),
{
    if parts.len() == 0 {
        assert(seq![cur] + parts =~= seq![cur]);
    } else {
        let jt = crate::strutil::join_tail(parts);
        assert(jt == seq![' '] + parts[0] + crate::strutil::join_tail(parts.skip(1)));
        assert(jt[0] == ' ');
        assert(jt.skip(1) =~= parts[0] + crate::strutil::join_tail(parts.skip(1)));
        assert(forall|i: int| 0 <= i < parts[0].len() ==> (#[trigger] parts[0][i]) != ' ') by {
            assert(good_token(parts[0]));
            assert(forall|i: int|
                0 <= i < parts[0].len() ==> !crate::strutil::is_space_char(
                    #[trigger] parts[0][i],
                ));
        }
        lemma_split_run(parts[0], crate::strutil::join_tail(parts.skip(1)), Seq::<char>::empty());
        assert(Seq::<char>::empty() + parts[0] =~= parts[0]);
        assert(forall|k: int| 0 <= k < parts.len() - 1 ==> parts.skip(1)[k] == parts[k + 1]);
        lemma_split_join_tail(parts.skip(1), parts[0]);
        assert(seq![cur] + (seq![parts[0]] + parts.skip(1)) =~= seq![cur] + parts);
    }
}

/// Splitting the space-joined form of good tokens gives the tokens back.
proof fn lemma_split_join(parts: Seq<Seq<char>>)
    requires
        forall|k: int| 0 <= k < parts.len() ==> good_token(#[trigger] parts[k]),
    ensures
        crate::strutil::split_sp(crate::strutil::join_sp(parts)) == parts,
{
    if parts.len() == 0 {
    } else {
        let j = crate::strutil::join_sp(parts);
        assert(j == parts[0] + crate::strutil::join_tail(parts.skip(1)));
        assert(forall|i: int| 0 <= i < parts[0].len() ==> (#[trigger] parts[0][i]) != ' ') by {
            assert(good_token(parts[0]));
        }
        lemma_split_run(parts[0], crate::strutil::join_tail(parts.skip(1)), Seq::<char>::empty());
        assert(Seq::<char>::empty() + parts[0] =~= parts[0]);
        assert(forall|k: int| 0 <= k < parts.len() - 1 ==> parts.skip(1)[k] == parts[k + 1]);
        lemma_split_join_tail(parts.skip(1), parts[0]);
        assert(seq![parts[0]] + parts.skip(1) =~= parts);
    }
}

/// The joined form of good tokens is plain with single spaces between
/// non-space runs.
proof fn lemma_join_plain(parts: Seq<Seq<char>>)
    requires
        forall|k: int| 0 <= k < parts.len() ==> good_token(#[trigger] parts[k]),
    ensures
        all_plain(crate::strutil::join_sp(parts)),
        forall|i: int|
            0 <= i < crate::strutil::join_sp(parts).len() ==> (crate::strutil::is_space_char(
                #[trigger] crate::strutil::join_sp(parts)[i],
            ) ==> crate::strutil::join_sp(parts)[i] == ' '),
        forall|i: int|
            0 <= i < crate::strutil::join_sp(parts).len() - 1 ==> !((#[trigger] crate::strutil::join_sp(
                parts,
            )[i]) == ' ' && crate::strutil::join_sp(parts)[i + 1] == ' '),
        crate::strutil::join_sp(parts).len() > 0 ==> crate::strutil::join_sp(parts)[0] != ' ',
        crate::strutil::join_sp(parts).len() > 0 ==> crate::strutil::join_sp(parts)[
            crate::strutil::join_sp(parts).len() - 1] != ' ',
    decreases parts.len(),
{
    assert(plain_char(' ')) by {
        crate::chars::lemma_norm_char_fixed(' ');
    }
    if parts.len() > 0 {
        assert(forall|k: int| 0 <= k < parts.len() - 1 ==> parts.skip(1)[k] == parts[k + 1]);
        lemma_join_plain(parts.skip(1));
        let t = parts[0];
        let rest = crate::strutil::join_sp(parts.skip(1));
        assert(good_token(t));
        if parts.len() == 1 {
            assert(crate::strutil::join_tail(parts.skip(1)) =~= Seq::<char>::empty());
            assert(crate::strutil::join_sp(parts) =~= t);
        } else {
            assert(parts.skip(1).len() > 0);
            assert(crate::strutil::join_tail(parts.skip(1)) =~= seq![' '] + rest) by {
                assert(crate::strutil::join_tail(parts.skip(1)) == seq![' '] + parts.skip(1)[0]
                    + crate::strutil::join_tail(parts.skip(1).skip(1)));
                assert(rest == parts.skip(1)[0] + crate::strutil::join_tail(
                    parts.skip(1).skip(1),
                ));
            }
            assert(crate::strutil::join_sp(parts) =~= t + seq![' '] + rest);
            let out = t + seq![' '] + rest;
            assert(rest.len() > 0) by {
                assert(good_token(parts.skip(1)[0]));
                assert(rest == parts.skip(1)[0] + crate::strutil::join_tail(
                    parts.skip(1).skip(1),
                ));
            }
            assert forall|i: int| 0 <= i < out.len() implies plain_char(#[trigger] out[i]) && (
            crate::strutil::is_space_char(out[i]) ==> out[i] == ' ') by {
                if i < t.len() {
                    assert(out[i] == t[i]);
                } else if i == t.len() {
                    assert(out[i] == ' ');
                } else {
                    assert(out[i] == rest[i - t.len() - 1]);
                }
            }
            assert forall|i: int| 0 <= i < out.len() - 1 implies !((#[trigger] out[i]) == ' ' && out[i
                + 1] == ' ') by {
                if i < t.len() {
                    if i + 1 < t.len() {
                        assert(out[i] == t[i] && !crate::strutil::is_space_char(t[i]));
                    } else if i + 1 == t.len() {
                        assert(out[i] == t[i] && !crate::strutil::is_space_char(t[i]));
                    } else {
                        assert(out[i] == t[i]);
                    }
                } else if i == t.len() {
                    assert(out[i + 1] == rest[0] && rest[0] != ' ');
                } else {
                    assert(out[i] == rest[i - t.len() - 1] && out[i + 1] == rest[i - t.len()]);
                }
            }
            assert(out[0] == t[0] && !crate::strutil::is_space_char(t[0]));
            assert(out[out.len() - 1] == rest[rest.len() - 1]);
        }
    }
}

/// Tokenizing the space-joined form of a tokenization gives the same
/// tokens: the tokenizer is idempotent through its display form.
pub proof fn lemma_tokenize_idempotent(s: Seq<char>)
    ensures
        spec_tokenize(crate::strutil::join_sp(spec_tokenize(s))) == spec_tokenize(s),
{
    let parts = spec_tokenize(s);
    lemma_tokenize_good(s);
    let j = crate::strutil::join_sp(parts);
    lemma_join_plain(parts);
    lemma_scrub_plain_id(j);
    lemma_collapse_id(j, false);
    lemma_split_join(parts);
}

} // verus!
