use vstd::prelude::*;
use crate::context::Context;
use crate::strutil::{
    all_clean, clean_char, join_sp, str_chars, string_from_chars, trim_chars, trim_spec, views,
};
use crate::text::{is_undesireable, spec_is_undesireable, spec_str_remove_octo, str_remove_octo};
use crate::titlecase::{is_us_ca, spec_titlecase, titlecase};
use crate::tokens::{spec_process, tokenized_views, ParsedTokenV, Tokenized, TokenizedV, TokenType};

verus! {

/// Provenance of a name: address point, road network, or generated synonym.
#[derive(Debug, Clone, Copy, PartialEq, Eq, Structural)]
pub enum Source {
    Address,
    Network,
    Generated,
}

/// The ghost value of a street name.
pub ghost struct NameV {
    pub display: Seq<char>,
    pub priority: int,
    pub source: Option<Source>,
    pub tokenized: Seq<TokenizedV>,
    pub freq: int,
}

/// A single street-name value: display string, priority, provenance,
/// tokenization, and frequency.
#[derive(Debug, Clone, PartialEq)]
pub struct Name {
    /// Street name
    pub display: String,
    /// When choosing which street name is primary, order by priority
    pub priority: i8,
    /// Geometry type of a given name (network/address/generated)
    pub source: Option<Source>,
    /// Full token structure the tokenless form is derived from
    pub tokenized: Vec<Tokenized>,
    /// Frequency of the given name
    pub freq: i64,
}

impl View for Name {
    type V = NameV;

    open spec fn view(&self) -> NameV {
        NameV {
            display: self.display@,
            priority: self.priority as int,
            source: self.source,
            tokenized: tokenized_views(self.tokenized@),
            freq: self.freq as int,
        }
    }
}

/// The views of a sequence of names.
pub open spec fn name_views(s: Seq<Name>) -> Seq<NameV> {
    s.map_values(|n: Name| n@)
}

/// The double quotes and commas removed: commas delimit synonyms on output,
/// so neither may stay in a display string.
pub open spec fn strip_dq_commas(s: Seq<char>) -> Seq<char>
    decreases s.len(),
{
    if s.len() == 0 {
        Seq::<char>::empty()
    } else if s[0] == '"' || s[0] == ',' {
        strip_dq_commas(s.skip(1))
    } else {
        seq![s[0]] + strip_dq_commas(s.skip(1))
    }
}

fn strip_dq_commas_exec(v: &Vec<char>) -> (r: Vec<char>)
    ensures
        r@ == strip_dq_commas(v@),
{
    let mut r: Vec<char> = Vec::new();
    let mut i: usize = 0;
    proof {
        assert(v@.skip(0) =~= v@);
        assert(r@ + strip_dq_commas(v@) =~= strip_dq_commas(v@));
    }
    while i < v.len()
        invariant
            i <= v@.len(),
            strip_dq_commas(v@) == r@ + strip_dq_commas(v@.skip(i as int)),
        decreases v@.len() - i,
    {
        proof {
            assert(v@.skip(i as int)[0] == v@[i as int]);
            assert(v@.skip(i as int).skip(1) =~= v@.skip(i + 1));
        }
        let ghost r0 = r@;
        let c = v[i];
        if !(c == '"' || c == ',') {
            r.push(c);
            proof {
                assert(r0.push(c) + strip_dq_commas(v@.skip(i + 1)) =~= r0 + (seq![c]
                    + strip_dq_commas(v@.skip(i + 1))));
            }
        }
        i = i + 1;
    }
    proof {
        assert(v@.skip(v@.len() as int) =~= Seq::<char>::empty());
        assert(r@ + Seq::<char>::empty() =~= r@);
    }
    r
}

/// The value `Name::new` constructs: quotes and commas stripped, titlecased
/// unless generated, tokenized through the table, and under the US/Canada
/// rules the octothorpe removed and undesirable names penalized one point.
pub open spec fn spec_name_new(
    display: Seq<char>,
    priority: int,
    source: Option<Source>,
    country: Seq<char>,
    table: Seq<(Seq<char>, ParsedTokenV)>,
) -> NameV {
    let d0 = strip_dq_commas(display);
    let d1 = if source != Some(Source::Generated) {
        spec_titlecase(d0, country)
    } else {
        d0
    };
    let tok = spec_process(d1, table, country);
    let d2 = if is_us_ca(country) {
        spec_str_remove_octo(d1)
    } else {
        d1
    };
    let pr = if is_us_ca(country) && spec_is_undesireable(tok) {
        priority - 1
    } else {
        priority
    };
    NameV { display: d2, priority: pr, source, tokenized: tok, freq: 1 }
}

impl Name {
    /// Returns a representation of a street name, built under the context's
    /// country rules from a display string such as `Main St`. The display
    /// of the result never holds a double quote or a comma: the constructor
    /// strips them and no later stage introduces one.
    pub fn new(display: &str, priority: i8, source: Option<Source>, context: &Context) -> (r:
        Name)
        requires
            priority > i8::MIN,
        ensures
            r@ == spec_name_new(
                display@,
                priority as int,
                source,
                context.country@,
                context.tokens@,
            ),
            all_clean(r@.display),
    {
        let v = str_chars(display);
        let stripped = strip_dq_commas_exec(&v);
        proof {
            lemma_strip_clean(display@);
        }
        let d1: String = match source {
            Some(Source::Generated) => string_from_chars(&stripped),
            _ => {
                let s0 = string_from_chars(&stripped);
                titlecase(&s0, context)
            },
        };
        proof {
            assert(all_clean(d1@));
        }
        let tokenized = context.tokens.process(&d1, &context.country);
        let us_ca = crate::strutil::str_eq(context.country.as_str(), "US")
            || crate::strutil::str_eq(context.country.as_str(), "CA");
        let d2: String = if us_ca {
            proof {
                lemma_octo_clean(d1@);
            }
            str_remove_octo(&d1)
        } else {
            d1
        };
        let pr: i8 = if us_ca && is_undesireable(&tokenized) {
            priority - 1
        } else {
            priority
        };
        Name { display: d2, priority: pr, source, tokenized, freq: 1 }
    }

    /// Builder-style source setter; can be chained.
    pub fn set_source(self, source: Option<Source>) -> (r: Name)
        ensures
            r@ == (NameV { source, ..self@ }),
    {
        Name { source, ..self }
    }

    /// Builder-style frequency setter; can be chained.
    pub fn set_freq(self, freq: i64) -> (r: Name)
        ensures
            r@ == (NameV { freq: freq as int, ..self@ }),
    {
        Name { freq, ..self }
    }

    /// Clone a name; the copy carries the same value.
    pub fn duplicate(&self) -> (r: Name)
        ensures
            r@ == self@,
    {
        let mut tokenized: Vec<Tokenized> = Vec::new();
        let mut i: usize = 0;
        while i < self.tokenized.len()
            invariant
                i <= self.tokenized@.len(),
                tokenized_views(tokenized@) =~= tokenized_views(self.tokenized@).take(i as int),
            decreases self.tokenized@.len() - i,
        {
            let ghost t0 = tokenized@;
            tokenized.push(self.tokenized[i].duplicate());
            proof {
                let tv = tokenized_views(self.tokenized@);
                assert(tokenized_views(tokenized@) =~= tokenized_views(t0).push(
                    tokenized@[tokenized@.len() - 1]@,
                ));
                assert(tokenized@[tokenized@.len() - 1]@ == tv[i as int]);
                assert(tv.take(i as int).push(tv[i as int]) =~= tv.take(i + 1));
            }
            i = i + 1;
        }
        proof {
            let tv = tokenized_views(self.tokenized@);
            assert(tv.take(tv.len() as int) =~= tv);
        }
        Name {
            display: self.display.clone(),
            priority: self.priority,
            source: self.source,
            tokenized,
            freq: self.freq,
        }
    }
}

/// The token strings of a tokenized sequence.
pub open spec fn token_seqs(tkd: Seq<TokenizedV>) -> Seq<Seq<char>> {
    tkd.map_values(|t: TokenizedV| t.token)
}

/// The token strings joined with single spaces and trimmed: the
/// deduplication key of a name.
pub open spec fn spec_tokenized_string(tkd: Seq<TokenizedV>) -> Seq<char> {
    trim_spec(join_sp(token_seqs(tkd)))
}

/// The tokens whose category is not the given one.
pub open spec fn without_category(tkd: Seq<TokenizedV>, cat: Option<TokenType>) -> Seq<
    TokenizedV,
>
    decreases tkd.len(),
{
    if tkd.len() == 0 {
        Seq::<TokenizedV>::empty()
    } else if tkd[0].category == cat {
        without_category(tkd.skip(1), cat)
    } else {
        seq![tkd[0]] + without_category(tkd.skip(1), cat)
    }
}

/// The tokens that carry no category at all, joined: the distinctive part
/// of a name, e.g. `N Main St` gives `main`.
pub open spec fn spec_tokenless_string(tkd: Seq<TokenizedV>) -> Seq<char> {
    trim_spec(join_sp(token_seqs(keep_none_category(tkd))))
}

/// The tokens whose category is absent.
pub open spec fn keep_none_category(tkd: Seq<TokenizedV>) -> Seq<TokenizedV>
    decreases tkd.len(),
{
    if tkd.len() == 0 {
        Seq::<TokenizedV>::empty()
    } else if tkd[0].category is None {
        seq![tkd[0]] + keep_none_category(tkd.skip(1))
    } else {
        keep_none_category(tkd.skip(1))
    }
}

/// Whether some token carries the given category.
pub open spec fn spec_has_type(tkd: Seq<TokenizedV>, cat: Option<TokenType>) -> bool {
    exists|i: int| 0 <= i < tkd.len() && (#[trigger] tkd[i].category) == cat
}

pub fn cat_eq(a: Option<TokenType>, b: Option<TokenType>) -> (r: bool)
    ensures
        r == (a == b),
{
    match (a, b) {
        (None, None) => true,
        (Some(x), Some(y)) => x == y,
        _ => false,
    }
}

fn join_trim_tokens(parts: &Vec<Vec<char>>) -> (r: String)
    ensures
        r@ == trim_spec(join_sp(views(parts@))),
{
    let joined = crate::strutil::join_spaces(parts);
    let trimmed = trim_chars(&joined);
    string_from_chars(&trimmed)
}

impl Name {
    /// The name's tokenized form as a single string.
    pub fn tokenized_string(&self) -> (r: String)
        ensures
            r@ == spec_tokenized_string(self@.tokenized),
    {
        let mut parts: Vec<Vec<char>> = Vec::new();
        let mut i: usize = 0;
        while i < self.tokenized.len()
            invariant
                i <= self.tokenized@.len(),
                views(parts@) =~= token_seqs(tokenized_views(self.tokenized@)).take(i as int),
            decreases self.tokenized@.len() - i,
        {
            let ghost p0 = parts@;
            parts.push(str_chars(self.tokenized[i].token.as_str()));
            proof {
                let ts = token_seqs(tokenized_views(self.tokenized@));
                assert(views(parts@) =~= views(p0).push(parts@[parts@.len() - 1]@));
                assert(parts@[parts@.len() - 1]@ == ts[i as int]);
                assert(ts.take(i as int).push(ts[i as int]) =~= ts.take(i + 1));
            }
            i = i + 1;
        }
        proof {
            let ts = token_seqs(tokenized_views(self.tokenized@));
            assert(ts.take(ts.len() as int) =~= ts);
        }
        join_trim_tokens(&parts)
    }

    /// The name's tokenless form: the tokens with no category, joined.
    pub fn tokenless_string(&self) -> (r: String)
        ensures
            r@ == spec_tokenless_string(self@.tokenized),
    {
        let ghost tkd = tokenized_views(self.tokenized@);
        let mut parts: Vec<Vec<char>> = Vec::new();
        let mut i: usize = 0;
        proof {
            assert(tkd.skip(0) =~= tkd);
            assert(views(parts@) + token_seqs(keep_none_category(tkd)) =~= token_seqs(
                keep_none_category(tkd),
            ));
        }
        while i < self.tokenized.len()
            invariant
                i <= self.tokenized@.len(),
                tkd == tokenized_views(self.tokenized@),
                token_seqs(keep_none_category(tkd)) == views(parts@) + token_seqs(
                    keep_none_category(tkd.skip(i as int)),
                ),
            decreases self.tokenized@.len() - i,
        {
            proof {
                assert(tkd.skip(i as int)[0] == tkd[i as int]);
                assert(tkd.skip(i as int).skip(1) =~= tkd.skip(i + 1));
            }
            let ghost p0 = parts@;
            match self.tokenized[i].token_type {
                None => {
                    parts.push(str_chars(self.tokenized[i].token.as_str()));
                    proof {
                        assert(token_seqs(
                            seq![tkd[i as int]] + keep_none_category(tkd.skip(i + 1)),
                        ) =~= seq![tkd[i as int].token] + token_seqs(
                            keep_none_category(tkd.skip(i + 1)),
                        ));
                        assert(views(parts@) =~= views(p0).push(tkd[i as int].token));
                        assert(views(p0).push(tkd[i as int].token) + token_seqs(
                            keep_none_category(tkd.skip(i + 1)),
                        ) =~= views(p0) + (seq![tkd[i as int].token] + token_seqs(
                            keep_none_category(tkd.skip(i + 1)),
                        )));
                    }
                },
                Some(_) => {
                    proof {
                        assert(tkd[i as int].category is Some);
                    }
                },
            }
            i = i + 1;
        }
        proof {
            assert(tkd.skip(tkd.len() as int) =~= Seq::<TokenizedV>::empty());
            assert(token_seqs(keep_none_category(Seq::<TokenizedV>::empty()))
                =~= Seq::<Seq<char>>::empty());
            assert(views(parts@) + Seq::<Seq<char>>::empty() =~= views(parts@));
        }
        join_trim_tokens(&parts)
    }

    /// The tokens that do not carry the given category, joined.
    pub fn remove_type_string(&self, token_type: Option<TokenType>) -> (r: String)
        ensures
            r@ == trim_spec(
                join_sp(token_seqs(without_category(self@.tokenized, token_type))),
            ),
    {
        let ghost tkd = tokenized_views(self.tokenized@);
        let mut parts: Vec<Vec<char>> = Vec::new();
        let mut i: usize = 0;
        proof {
            assert(tkd.skip(0) =~= tkd);
            assert(views(parts@) + token_seqs(without_category(tkd, token_type)) =~= token_seqs(
                without_category(tkd, token_type),
            ));
        }
        while i < self.tokenized.len()
            invariant
                i <= self.tokenized@.len(),
                tkd == tokenized_views(self.tokenized@),
                token_seqs(without_category(tkd, token_type)) == views(parts@) + token_seqs(
                    without_category(tkd.skip(i as int), token_type),
                ),
            decreases self.tokenized@.len() - i,
        {
            proof {
                assert(tkd.skip(i as int)[0] == tkd[i as int]);
                assert(tkd.skip(i as int).skip(1) =~= tkd.skip(i + 1));
            }
            let ghost p0 = parts@;
            if !cat_eq(self.tokenized[i].token_type, token_type) {
                parts.push(str_chars(self.tokenized[i].token.as_str()));
                proof {
                    assert(token_seqs(
                        seq![tkd[i as int]] + without_category(tkd.skip(i + 1), token_type),
                    ) =~= seq![tkd[i as int].token] + token_seqs(
                        without_category(tkd.skip(i + 1), token_type),
                    ));
                    assert(views(parts@) =~= views(p0).push(tkd[i as int].token));
                    assert(views(p0).push(tkd[i as int].token) + token_seqs(
                        without_category(tkd.skip(i + 1), token_type),
                    ) =~= views(p0) + (seq![tkd[i as int].token] + token_seqs(
                        without_category(tkd.skip(i + 1), token_type),
                    )));
                }
            }
            i = i + 1;
        }
        proof {
            assert(tkd.skip(tkd.len() as int) =~= Seq::<TokenizedV>::empty());
            assert(token_seqs(without_category(Seq::<TokenizedV>::empty(), token_type))
                =~= Seq::<Seq<char>>::empty());
            assert(views(parts@) + Seq::<Seq<char>>::empty() =~= views(parts@));
        }
        join_trim_tokens(&parts)
    }

    /// Whether the name contains a token of the given category.
    pub fn has_type(&self, token_type: Option<TokenType>) -> (r: bool)
        ensures
            r == spec_has_type(self@.tokenized, token_type),
    {
        let ghost tkd = tokenized_views(self.tokenized@);
        let mut i: usize = 0;
        while i < self.tokenized.len()
            invariant
                i <= self.tokenized@.len(),
                tkd == tokenized_views(self.tokenized@),
                forall|j: int| 0 <= j < i ==> (#[trigger] tkd[j].category) != token_type,
            decreases self.tokenized@.len() - i,
        {
            if cat_eq(self.tokenized[i].token_type, token_type) {
                proof {
                    assert(tkd[i as int].category == token_type);
                }
                return true;
            }
            i = i + 1;
        }
        false
    }
}

} // verus!

use crate::strutil::str_eq;
use crate::synonyms::{
    opt_view, priority_in_range, spec_syn_ca_french, spec_syn_ca_hwy, spec_syn_ny_beach,
    spec_syn_number_suffix, spec_syn_state_hwy, spec_syn_us_cr, spec_syn_us_famous,
    spec_syn_us_hwy, spec_syn_written_numeric, syn_ca_french, syn_ca_hwy, syn_ny_beach,
    syn_number_suffix, syn_state_hwy, syn_us_cr, syn_us_famous, syn_us_hwy, syn_written_numeric,
};
use vstd::utf8::encode_utf8;

verus! {

/// The UTF-8 byte length of a display string.
pub open spec fn byte_len(s: Seq<char>) -> int {
    encode_utf8(s).len() as usize as int
}

/// An ordered collection of street names.
#[derive(Debug, Clone, PartialEq)]
pub struct Names {
    pub names: Vec<Name>,
}

impl View for Names {
    type V = Seq<NameV>;

    open spec fn view(&self) -> Seq<NameV> {
        name_views(self.names@)
    }
}

/// The names whose trimmed display is nonempty.
pub open spec fn spec_prune(s: Seq<NameV>) -> Seq<NameV>
    decreases s.len(),
{
    if s.len() == 0 {
        Seq::<NameV>::empty()
    } else if trim_spec(s[0].display).len() == 0 {
        spec_prune(s.skip(1))
    } else {
        seq![s[0]] + spec_prune(s.skip(1))
    }
}

/// Whether `a` must stand strictly before `b`: higher priority first,
/// higher frequency as the tiebreak.
pub open spec fn strictly_before(a: NameV, b: NameV) -> bool {
    a.priority > b.priority || (a.priority == b.priority && a.freq > b.freq)
}

/// `x` inserted into the sorted sequence `s` after every entry it does not
/// strictly precede, which keeps the sort stable.
pub open spec fn spec_sorted_insert(s: Seq<NameV>, x: NameV) -> Seq<NameV>
    decreases s.len(),
{
    if s.len() == 0 {
        seq![x]
    } else if strictly_before(x, s[0]) {
        seq![x] + s
    } else {
        seq![s[0]] + spec_sorted_insert(s.skip(1), x)
    }
}

/// The stable sort of `s` by priority then frequency, both descending.
pub open spec fn spec_sort(s: Seq<NameV>) -> Seq<NameV>
    decreases s.len(),
{
    if s.len() == 0 {
        Seq::<NameV>::empty()
    } else {
        spec_sorted_insert(spec_sort(s.drop_last()), s.last())
    }
}

/// The position of the first kept name with the given tokenized key.
pub open spec fn first_key_index(kept: Seq<NameV>, key: Seq<char>) -> Option<int>
    decreases kept.len(),
{
    if kept.len() == 0 {
        None
    } else if spec_tokenized_string(kept[0].tokenized) == key {
        Some(0)
    } else {
        match first_key_index(kept.skip(1), key) {
            None => None,
            Some(i) => Some(i + 1),
        }
    }
}

/// One deduplication step: a later name with a kept key is dropped when the
/// kept entry is generated, replaces the kept entry's display, source and
/// tokenization (keeping its priority and frequency) when it is generated
/// itself or has a longer display, and is dropped otherwise.
pub open spec fn dedupe_go(s: Seq<NameV>, kept: Seq<NameV>) -> Seq<NameV>
    decreases s.len(),
{
    if s.len() == 0 {
        kept
    } else {
        let x = s[0];
        let key = spec_tokenized_string(x.tokenized);
        match first_key_index(kept, key) {
            None => dedupe_go(s.skip(1), kept.push(x)),
            Some(i) => {
                let d = kept[i];
                if d.source == Some(Source::Generated) {
                    dedupe_go(s.skip(1), kept)
                } else if x.source == Some(Source::Generated) || byte_len(x.display) > byte_len(
                    d.display,
                ) {
                    dedupe_go(
                        s.skip(1),
                        kept.update(
                            i,
                            NameV {
                                display: x.display,
                                source: x.source,
                                tokenized: x.tokenized,
                                priority: d.priority,
                                freq: d.freq,
                            },
                        ),
                    )
                } else {
                    dedupe_go(s.skip(1), kept)
                }
            },
        }
    }
}

/// The deduplication of `s` by tokenized key, first-seen order kept.
pub open spec fn spec_dedupe(s: Seq<NameV>) -> Seq<NameV> {
    dedupe_go(s, Seq::<NameV>::empty())
}

/// The synonyms one name contributes under the context.
pub open spec fn spec_synonyms_of(
    n: NameV,
    country: Seq<char>,
    region: Option<Seq<char>>,
    table: Seq<(Seq<char>, ParsedTokenV)>,
) -> Seq<NameV> {
    if country == "US"@ && n.source == Some(Source::Network) {
        spec_syn_number_suffix(n, country, table) + spec_syn_written_numeric(n, country, table)
            + spec_syn_state_hwy(n, country, region, table) + spec_syn_us_hwy(n, country, table)
            + spec_syn_us_cr(n, country, table) + spec_syn_us_famous(n, country, table) + (
        if region == Some("NY"@) {
            spec_syn_ny_beach(n, country, table)
        } else {
            Seq::<NameV>::empty()
        })
    } else if country == "CA"@ && n.source == Some(Source::Network) {
        spec_syn_ca_hwy(n, country, region, table) + (if region == Some("QC"@) {
            spec_syn_ca_french(n, country, table)
        } else {
            Seq::<NameV>::empty()
        })
    } else {
        Seq::<NameV>::empty()
    }
}

/// The synonyms all names contribute, in order.
pub open spec fn spec_synonyms(
    s: Seq<NameV>,
    country: Seq<char>,
    region: Option<Seq<char>>,
    table: Seq<(Seq<char>, ParsedTokenV)>,
) -> Seq<NameV>
    decreases s.len(),
{
    if s.len() == 0 {
        Seq::<NameV>::empty()
    } else {
        spec_synonyms_of(s[0], country, region, table) + spec_synonyms(
            s.skip(1),
            country,
            region,
            table,
        )
    }
}

/// What `Names::new` builds: the input plus the generated synonyms, with
/// blank names pruned, sorted by priority and frequency, and deduplicated
/// by tokenized key; an empty input stays empty.
pub open spec fn spec_names_new(
    s: Seq<NameV>,
    country: Seq<char>,
    region: Option<Seq<char>>,
    table: Seq<(Seq<char>, ParsedTokenV)>,
) -> Seq<NameV> {
    if s.len() == 0 {
        s
    } else {
        spec_dedupe(spec_sort(spec_prune(s + spec_synonyms(s, country, region, table))))
    }
}

/// Whether some name in `s` has the given tokenized key.
pub open spec fn has_key(s: Seq<NameV>, key: Seq<char>) -> bool {
    exists|i: int| 0 <= i < s.len() && spec_tokenized_string(#[trigger] s[i].tokenized) == key
}

impl Names {
    /// Remove every name whose display is blank.
    pub fn empty(&mut self)
        ensures
            final(self)@ == spec_prune(old(self)@),
    {
        let ghost s0 = self@;
        let mut out: Vec<Name> = Vec::new();
        let mut i: usize = 0;
        proof {
            assert(s0.skip(0) =~= s0);
            assert(name_views(out@) + spec_prune(s0) =~= spec_prune(s0));
        }
        while i < self.names.len()
            invariant
                i <= self.names@.len(),
                s0 == name_views(self.names@),
                spec_prune(s0) == name_views(out@) + spec_prune(s0.skip(i as int)),
            decreases self.names@.len() - i,
        {
            proof {
                assert(s0.skip(i as int)[0] == s0[i as int]);
                assert(s0.skip(i as int).skip(1) =~= s0.skip(i + 1));
            }
            let ghost o0 = out@;
            let v = str_chars(self.names[i].display.as_str());
            let t = crate::strutil::trim_chars(&v);
            if t.len() > 0 {
                out.push(self.names[i].duplicate());
                proof {
                    assert(name_views(out@) =~= name_views(o0).push(s0[i as int]));
                    assert(name_views(o0).push(s0[i as int]) + spec_prune(s0.skip(i + 1)) =~= name_views(
                        o0,
                    ) + (seq![s0[i as int]] + spec_prune(s0.skip(i + 1))));
                }
            }
            i = i + 1;
        }
        proof {
            assert(s0.skip(s0.len() as int) =~= Seq::<NameV>::empty());
            assert(name_views(out@) + Seq::<NameV>::empty() =~= name_views(out@));
        }
        self.names = out;
    }

    /// Stable-sort the names by priority then frequency, both descending.
    pub fn sort(&mut self)
        ensures
            final(self)@ == spec_sort(old(self)@),
    {
        let ghost s0 = self@;
        let mut out: Vec<Name> = Vec::new();
        let mut i: usize = 0;
        while i < self.names.len()
            invariant
                i <= self.names@.len(),
                s0 == name_views(self.names@),
                name_views(out@) == spec_sort(s0.take(i as int)),
            decreases self.names@.len() - i,
        {
            let x = self.names[i].duplicate();
            let ghost xv = x@;
            let ghost k0 = name_views(out@);
            let mut j: usize = 0;
            while j < out.len() && !(x.priority > out[j].priority || (x.priority == out[j].priority
                && x.freq > out[j].freq))
                invariant
                    j <= out@.len(),
                    k0 == name_views(out@),
                    xv == x@,
                    forall|k: int| 0 <= k < j ==> !strictly_before(xv, k0[k]),
                decreases out@.len() - j,
            {
                proof {
                    assert(!strictly_before(xv, k0[j as int]));
                }
                j = j + 1;
            }
            proof {
                if j < out@.len() {
                    assert(strictly_before(xv, k0[j as int]));
                }
            }
            out.insert(j, x);
            proof {
                assert(name_views(out@) =~= k0.take(j as int) + seq![xv] + k0.skip(j as int));
                lemma_sorted_insert_at(k0, xv, j as int);
                assert(s0.take(i + 1).drop_last() =~= s0.take(i as int));
                assert(s0.take(i + 1).last() == s0[i as int]);
            }
            i = i + 1;
        }
        proof {
            assert(s0.take(s0.len() as int) =~= s0);
        }
        self.names = out;
    }

    /// Deduplicate by the tokenized key, preferring generated entries and
    /// longer displays, keeping first-seen order, priority and frequency.
    pub fn dedupe(&mut self)
        ensures
            final(self)@ == spec_dedupe(old(self)@),
    {
        let ghost s0 = self@;
        let mut kept: Vec<Name> = Vec::new();
        let mut keys: Vec<String> = Vec::new();
        let mut i: usize = 0;
        proof {
            assert(s0.skip(0) =~= s0);
            assert(name_views(kept@) =~= Seq::<NameV>::empty());
        }
        while i < self.names.len()
            invariant
                i <= self.names@.len(),
                s0 == name_views(self.names@),
                keys@.len() == kept@.len(),
                forall|k: int|
                    0 <= k < kept@.len() ==> keys@[k]@ == spec_tokenized_string(
                        #[trigger] name_views(kept@)[k].tokenized,
                    ),
                spec_dedupe(s0) == dedupe_go(s0.skip(i as int), name_views(kept@)),
            decreases self.names@.len() - i,
        {
            proof {
                assert(s0.skip(i as int)[0] == s0[i as int]);
                assert(s0.skip(i as int).skip(1) =~= s0.skip(i + 1));
            }
            let x = &self.names[i];
            let key = x.tokenized_string();
            let ghost kv = name_views(kept@);
            let mut j: usize = 0;
            let mut found: Option<usize> = None;
            while j < keys.len() && found.is_none()
                invariant
                    j <= keys@.len(),
                    keys@.len() == kept@.len(),
                    kv == name_views(kept@),
                    key@ == spec_tokenized_string(s0[i as int].tokenized),
                    forall|k: int|
                        0 <= k < kept@.len() ==> keys@[k]@ == spec_tokenized_string(
                            #[trigger] name_views(kept@)[k].tokenized,
                        ),
                    match found {
                        Some(f) => first_key_index(kv, key@) == Some(f as int) && f < kept@.len(),
                        None => forall|k: int|
                            0 <= k < j ==> spec_tokenized_string(
                                #[trigger] kv[k].tokenized,
                            ) != key@,
                    },
                decreases keys@.len() - j,
            {
                if str_eq(keys[j].as_str(), key.as_str()) {
                    proof {
                        assert(spec_tokenized_string(kv[j as int].tokenized) == key@);
                        lemma_first_key_index(kv, key@, j as int);
                    }
                    found = Some(j);
                } else {
                    proof {
                        assert(spec_tokenized_string(kv[j as int].tokenized) != key@);
                    }
                }
                j = j + 1;
            }
            match found {
                None => {
                    proof {
                        lemma_no_key_index(kv, key@);
                        assert(first_key_index(kv, key@) is None);
                    }
                    kept.push(x.duplicate());
                    keys.push(key);
                    proof {
                        assert(name_views(kept@) =~= kv.push(s0[i as int]));
                        assert(forall|k: int|
                            0 <= k < kv.len() ==> name_views(kept@)[k] == kv[k]);
                    }
                },
                Some(f) => {
                    let d_generated = match kept[f].source {
                        Some(Source::Generated) => true,
                        _ => false,
                    };
                    if d_generated {
                        proof {
                            assert(kv[f as int].source == Some(Source::Generated));
                            assert(name_views(kept@) =~= kv);
                        }
                    } else {
                        let x_generated = match x.source {
                            Some(Source::Generated) => true,
                            _ => false,
                        };
                        let xlen = x.display.as_str().len();
                        let dlen = kept[f].display.as_str().len();
                        if x_generated || xlen > dlen {
                            let mut nd = x.duplicate();
                            nd.priority = kept[f].priority;
                            nd.freq = kept[f].freq;
                            kept.set(f, nd);
                            let ghost xv = s0[i as int];
                            proof {
                                lemma_first_key_index_props(kv, key@);
                                assert(keys@[f as int]@ == spec_tokenized_string(
                                    kv[f as int].tokenized,
                                ));
                                assert(keys@[f as int]@ == key@);
                                assert(name_views(kept@) =~= kv.update(
                                    f as int,
                                    NameV {
                                        display: xv.display,
                                        source: xv.source,
                                        tokenized: xv.tokenized,
                                        priority: kv[f as int].priority,
                                        freq: kv[f as int].freq,
                                    },
                                ));
                                assert(forall|k: int|
                                    0 <= k < kept@.len() && k != f ==> name_views(kept@)[k]
                                        == kv[k]);
                                assert(spec_tokenized_string(
                                    name_views(kept@)[f as int].tokenized,
                                ) == key@);
                            }
                        } else {
                            proof {
                                assert(name_views(kept@) =~= kv);
                            }
                        }
                    }
                },
            }
            i = i + 1;
        }
        proof {
            assert(s0.skip(s0.len() as int) =~= Seq::<NameV>::empty());
        }
        self.names = kept;
    }

    /// Concatenate another collection's names; no deduplication happens.
    pub fn concat(&mut self, new_names: Names)
        ensures
            final(self)@ == old(self)@ + new_names@,
    {
        let ghost s0 = self@;
        let mut incoming = new_names;
        let mut i: usize = 0;
        proof {
            assert(self@ =~= s0 + name_views(incoming.names@).take(0));
        }
        while i < incoming.names.len()
            invariant
                i <= incoming.names@.len(),
                name_views(incoming.names@) == new_names@,
                self@ == s0 + new_names@.take(i as int),
            decreases incoming.names@.len() - i,
        {
            let ghost cur = self@;
            self.names.push(incoming.names[i].duplicate());
            proof {
                assert(self@ =~= cur.push(new_names@[i as int]));
                assert(s0 + new_names@.take(i as int + 1) =~= cur.push(new_names@[i as int]));
            }
            i = i + 1;
        }
        proof {
            assert(new_names@.take(new_names@.len() as int) =~= new_names@);
        }
    }

    /// Whether the other collection has a tokenized key this one lacks.
    pub fn has_diff(&self, names: &Names) -> (r: bool)
        ensures
            r == exists|j: int|
                0 <= j < names@.len() && !has_key(
                    self@,
                    spec_tokenized_string(#[trigger] names@[j].tokenized),
                ),
    {
        let mut j: usize = 0;
        while j < names.names.len()
            invariant
                j <= names.names@.len(),
                forall|k: int|
                    0 <= k < j ==> has_key(
                        self@,
                        spec_tokenized_string(#[trigger] names@[k].tokenized),
                    ),
            decreases names.names@.len() - j,
        {
            let key = names.names[j].tokenized_string();
            let mut i: usize = 0;
            let mut present = false;
            while i < self.names.len() && !present
                invariant
                    i <= self.names@.len(),
                    key@ == spec_tokenized_string(names@[j as int].tokenized),
                    present ==> has_key(self@, key@),
                    !present ==> forall|k: int|
                        0 <= k < i ==> spec_tokenized_string(#[trigger] self@[k].tokenized)
                            != key@,
                decreases self.names@.len() - i,
            {
                let mine = self.names[i].tokenized_string();
                if str_eq(mine.as_str(), key.as_str()) {
                    proof {
                        assert(spec_tokenized_string(self@[i as int].tokenized) == key@);
                    }
                    present = true;
                } else {
                    proof {
                        assert(spec_tokenized_string(self@[i as int].tokenized) != key@);
                    }
                }
                i = i + 1;
            }
            if !present {
                proof {
                    assert(!has_key(self@, key@));
                }
                return true;
            }
            j = j + 1;
        }
        false
    }

    /// Set the given source on every name that has none yet.
    pub fn set_source(&mut self, source: Option<Source>)
        ensures
            final(self)@.len() == old(self)@.len(),
            forall|i: int|
                0 <= i < old(self)@.len() ==> final(self)@[i] == (NameV {
                    source: if old(self)@[i].source is None {
                        source
                    } else {
                        old(self)@[i].source
                    },
                    ..old(self)@[i]
                }),
    {
        let ghost s0 = self@;
        let mut i: usize = 0;
        while i < self.names.len()
            invariant
                i <= self.names@.len(),
                self.names@.len() == s0.len(),
                forall|k: int|
                    i <= k < s0.len() ==> name_views(self.names@)[k] == s0[k],
                forall|k: int|
                    0 <= k < i ==> name_views(self.names@)[k] == (NameV {
                        source: if s0[k].source is None {
                            source
                        } else {
                            s0[k].source
                        },
                        ..s0[k]
                    }),
            decreases self.names@.len() - i,
        {
            let is_none = match self.names[i].source {
                None => true,
                Some(_) => false,
            };
            let ghost pre = name_views(self.names@);
            if is_none {
                let mut nd = self.names[i].duplicate();
                nd.source = source;
                self.names.set(i, nd);
                proof {
                    assert(name_views(self.names@) =~= pre.update(
                        i as int,
                        (NameV { source, ..s0[i as int] }),
                    ));
                }
            }
            i = i + 1;
        }
    }
}

pub proof fn lemma_first_key_index_bounds(kept: Seq<NameV>, key: Seq<char>)
    requires
        first_key_index(kept, key) is Some,
    ensures
        0 <= first_key_index(kept, key)->Some_0 < kept.len(),
        spec_tokenized_string(kept[first_key_index(kept, key)->Some_0].tokenized) == key,
{
    lemma_first_key_index_props(kept, key);
}

/// A key absent from every entry has no first index.
pub proof fn lemma_no_key_implies(kept: Seq<NameV>, key: Seq<char>)
    requires
        first_key_index(kept, key) is None,
    ensures
        forall|k: int|
            0 <= k < kept.len() ==> spec_tokenized_string(#[trigger] kept[k].tokenized) != key,
    decreases kept.len(),
{
    if kept.len() > 0 {
        assert(spec_tokenized_string(kept[0].tokenized) != key);
        lemma_no_key_implies(kept.skip(1), key);
        assert(forall|k: int|
            1 <= k < kept.len() ==> kept[k] == kept.skip(1)[k - 1]);
    }
}

proof fn lemma_first_key_index_props(kept: Seq<NameV>, key: Seq<char>)
    requires
        first_key_index(kept, key) is Some,
    ensures
        0 <= first_key_index(kept, key)->Some_0 < kept.len(),
        spec_tokenized_string(kept[first_key_index(kept, key)->Some_0].tokenized) == key,
    decreases kept.len(),
{
    if kept.len() > 0 && spec_tokenized_string(kept[0].tokenized) != key {
        lemma_first_key_index_props(kept.skip(1), key);
        assert(kept.skip(1)[first_key_index(kept.skip(1), key)->Some_0] == kept[first_key_index(
            kept,
            key,
        )->Some_0]);
    }
}

proof fn lemma_first_key_index(kept: Seq<NameV>, key: Seq<char>, j: int)
    requires
        0 <= j < kept.len(),
        spec_tokenized_string(kept[j].tokenized) == key,
        forall|k: int| 0 <= k < j ==> spec_tokenized_string(#[trigger] kept[k].tokenized) != key,
    ensures
        first_key_index(kept, key) == Some(j),
    decreases kept.len(),
{
    if j > 0 {
        assert(spec_tokenized_string(kept[0].tokenized) != key);
        assert(forall|k: int|
            0 <= k < j - 1 ==> kept.skip(1)[k] == kept[k + 1]);
        lemma_first_key_index(kept.skip(1), key, j - 1);
    }
}

proof fn lemma_no_key_index(kept: Seq<NameV>, key: Seq<char>)
    requires
        forall|k: int|
            0 <= k < kept.len() ==> spec_tokenized_string(#[trigger] kept[k].tokenized) != key,
    ensures
        first_key_index(kept, key) is None,
    decreases kept.len(),
{
    if kept.len() > 0 {
        assert(forall|k: int|
            0 <= k < kept.len() - 1 ==> kept.skip(1)[k] == kept[k + 1]);
        lemma_no_key_index(kept.skip(1), key);
    }
}

proof fn lemma_sorted_insert_at(s: Seq<NameV>, x: NameV, j: int)
    requires
        0 <= j <= s.len(),
        forall|k: int| 0 <= k < j ==> !strictly_before(x, s[k]),
        j < s.len() ==> strictly_before(x, s[j]),
    ensures
        spec_sorted_insert(s, x) == s.take(j) + seq![x] + s.skip(j),
    decreases s.len(),
{
    if s.len() == 0 {
        assert(s.take(0) + seq![x] + s.skip(0) =~= seq![x]);
    } else if j == 0 {
        assert(strictly_before(x, s[0]));
        assert(s.take(0) + seq![x] + s.skip(0) =~= seq![x] + s);
    } else {
        assert(!strictly_before(x, s[0]));
        assert(forall|k: int| 0 <= k < j - 1 ==> s.skip(1)[k] == s[k + 1]);
        lemma_sorted_insert_at(s.skip(1), x, j - 1);
        assert(s.skip(1).take(j - 1) =~= s.take(j).skip(1));
        assert(seq![s[0]] + (s.take(j).skip(1) + seq![x] + s.skip(1).skip(j - 1)) =~= s.take(j)
            + seq![x] + s.skip(j));
        assert(s.skip(1).skip(j - 1) =~= s.skip(j));
    }
}

} // verus!

verus! {

/// A raw name used to serialize a names array into `Names`.
#[derive(Debug, Clone, PartialEq)]
pub struct InputName {
    /// Street name
    pub display: String,
    /// When choosing which street name is primary, order by priority
    pub priority: i8,
}

impl InputName {
    /// The raw form of a constructed name.
    pub fn from_name(name: Name) -> (r: InputName)
        ensures
            r.display@ == name@.display,
            r.priority as int == name@.priority,
    {
        InputName { display: name.display, priority: name.priority }
    }
}

/// The views of raw input names: display and priority.
pub open spec fn input_views(s: Seq<InputName>) -> Seq<(Seq<char>, int)> {
    s.map_values(|n: InputName| (n.display@, n.priority as int))
}

/// Priorities for which name construction and synonym generation stay in
/// `i8` range.
pub open spec fn input_priority_ok(p: int) -> bool {
    i8::MIN + 5 <= p <= i8::MAX - 1
}

fn append_names(dst: &mut Vec<Name>, src: Vec<Name>)
    ensures
        name_views(final(dst)@) == name_views(old(dst)@) + name_views(src@),
{
    let mut i: usize = 0;
    proof {
        assert(name_views(dst@) + name_views(src@).take(0) =~= name_views(dst@));
    }
    while i < src.len()
        invariant
            i <= src@.len(),
            name_views(dst@) =~= name_views(old(dst)@) + name_views(src@).take(i as int),
        decreases src@.len() - i,
    {
        let ghost d0 = name_views(dst@);
        dst.push(src[i].duplicate());
        proof {
            assert(name_views(dst@) =~= d0.push(name_views(src@)[i as int]));
            assert(name_views(old(dst)@) + name_views(src@).take(i + 1) =~= d0.push(
                name_views(src@)[i as int],
            ));
        }
        i = i + 1;
    }
    proof {
        assert(name_views(src@).take(src@.len() as int) =~= name_views(src@));
    }
}

impl Names {
    /// Build a normalized name collection: network names contribute their
    /// generated synonyms under the context's country and region, blank
    /// names are pruned, and the result is sorted and deduplicated.
    #[verifier::rlimit(100)]
    pub fn new(names: Vec<Name>, context: &Context) -> (r: Names)
        requires
            forall|i: int|
                0 <= i < names@.len() ==> priority_in_range(
                    #[trigger] name_views(names@)[i].priority,
                ),
        ensures
            r@ == spec_names_new(
                name_views(names@),
                context.country@,
                opt_view(context.region),
                context.tokens@,
            ),
    {
        if names.len() == 0 {
            proof {
                assert(name_views(names@) =~= Seq::<NameV>::empty());
            }
            return Names { names };
        }
        let ghost s0 = name_views(names@);
        let ghost country = context.country@;
        let ghost region = opt_view(context.region);
        let ghost table = context.tokens@;
        let is_us = str_eq(context.country.as_str(), "US");
        let is_ca = str_eq(context.country.as_str(), "CA");
        let is_ny = match &context.region {
            Some(rg) => str_eq(rg.as_str(), "NY"),
            None => false,
        };
        let is_qc = match &context.region {
            Some(rg) => str_eq(rg.as_str(), "QC"),
            None => false,
        };
        proof {
            assert(is_ny == (region == Some("NY"@)));
            assert(is_qc == (region == Some("QC"@)));
        }
        let mut synonyms: Vec<Name> = Vec::new();
        let mut i: usize = 0;
        proof {
            assert(s0.skip(0) =~= s0);
            assert(name_views(synonyms@) + spec_synonyms(s0, country, region, table)
                =~= spec_synonyms(s0, country, region, table));
        }
        while i < names.len()
            invariant
                i <= names@.len(),
                s0 == name_views(names@),
                country == context.country@,
                region == opt_view(context.region),
                table == context.tokens@,
                is_us == (country == "US"@),
                is_ca == (country == "CA"@),
                is_ny == (region == Some("NY"@)),
                is_qc == (region == Some("QC"@)),
                forall|k: int|
                    0 <= k < names@.len() ==> priority_in_range(
                        #[trigger] name_views(names@)[k].priority,
                    ),
                spec_synonyms(s0, country, region, table) == name_views(synonyms@)
                    + spec_synonyms(s0.skip(i as int), country, region, table),
            decreases names@.len() - i,
        {
            proof {
                assert(s0.skip(i as int)[0] == s0[i as int]);
                assert(s0.skip(i as int).skip(1) =~= s0.skip(i + 1));
            }
            let ghost syn0 = name_views(synonyms@);
            let is_network = match names[i].source {
                Some(Source::Network) => true,
                _ => false,
            };
            if is_us && is_network {
                let mut one = syn_number_suffix(&names[i], context);
                append_names(&mut one, syn_written_numeric(&names[i], context));
                append_names(&mut one, syn_state_hwy(&names[i], context));
                append_names(&mut one, syn_us_hwy(&names[i], context));
                append_names(&mut one, syn_us_cr(&names[i], context));
                append_names(&mut one, syn_us_famous(&names[i], context));
                if is_ny {
                    append_names(&mut one, syn_ny_beach(&names[i], context));
                } else {
                    proof {
                        assert(name_views(one@) + Seq::<NameV>::empty() =~= name_views(one@));
                    }
                }
                proof {
                    assert(name_views(one@) == spec_synonyms_of(
                        s0[i as int],
                        country,
                        region,
                        table,
                    ));
                }
                append_names(&mut synonyms, one);
            } else if is_ca && is_network {
                let mut one = syn_ca_hwy(&names[i], context);
                if is_qc {
                    append_names(&mut one, syn_ca_french(&names[i], context));
                } else {
                    proof {
                        assert(name_views(one@) + Seq::<NameV>::empty() =~= name_views(one@));
                    }
                }
                proof {
                    assert(name_views(one@) == spec_synonyms_of(
                        s0[i as int],
                        country,
                        region,
                        table,
                    ));
                }
                append_names(&mut synonyms, one);
            } else {
                proof {
                    assert(spec_synonyms_of(s0[i as int], country, region, table)
                        =~= Seq::<NameV>::empty());
                    assert(name_views(synonyms@) =~= syn0 + spec_synonyms_of(
                        s0[i as int],
                        country,
                        region,
                        table,
                    ));
                }
            }
            proof {
                assert(syn0 + (spec_synonyms_of(s0[i as int], country, region, table)
                    + spec_synonyms(s0.skip(i + 1), country, region, table)) =~= (syn0
                    + spec_synonyms_of(s0[i as int], country, region, table)) + spec_synonyms(
                    s0.skip(i + 1),
                    country,
                    region,
                    table,
                ));
            }
            i = i + 1;
        }
        proof {
            assert(s0.skip(s0.len() as int) =~= Seq::<NameV>::empty());
            assert(name_views(synonyms@) + Seq::<NameV>::empty() =~= name_views(synonyms@));
        }
        let mut all = names;
        append_names(&mut all, synonyms);
        let mut out = Names { names: all };
        out.empty();
        out.sort();
        out.dedupe();
        out
    }

    /// Build a collection from raw names, all without a source.
    pub fn from_input(names: Vec<InputName>, context: &Context) -> (r: Names)
        requires
            forall|i: int|
                0 <= i < names@.len() ==> input_priority_ok(
                    #[trigger] input_views(names@)[i].1,
                ),
        ensures
            r@ == spec_names_new(
                input_views(names@).map_values(
                    |p: (Seq<char>, int)|
                        spec_name_new(p.0, p.1, None, context.country@, context.tokens@),
                ),
                context.country@,
                opt_view(context.region),
                context.tokens@,
            ),
    {
        let ghost iv = input_views(names@);
        let ghost mapped = iv.map_values(
            |p: (Seq<char>, int)|
                spec_name_new(p.0, p.1, None, context.country@, context.tokens@),
        );
        let mut full: Vec<Name> = Vec::new();
        let mut i: usize = 0;
        while i < names.len()
            invariant
                i <= names@.len(),
                iv == input_views(names@),
                mapped == iv.map_values(
                    |p: (Seq<char>, int)|
                        spec_name_new(p.0, p.1, None, context.country@, context.tokens@),
                ),
                forall|k: int| 0 <= k < names@.len() ==> input_priority_ok(#[trigger] iv[k].1),
                name_views(full@) =~= mapped.take(i as int),
            decreases names@.len() - i,
        {
            let ghost f0 = name_views(full@);
            proof {
                assert(iv[i as int].1 == names@[i as int].priority as int);
            }
            full.push(
                Name::new(names[i].display.as_str(), names[i].priority, None, context),
            );
            proof {
                assert(name_views(full@) =~= f0.push(mapped[i as int]));
                assert(mapped.take(i as int).push(mapped[i as int]) =~= mapped.take(i + 1));
            }
            i = i + 1;
        }
        proof {
            assert(mapped.take(mapped.len() as int) =~= mapped);
            assert(forall|k: int|
                0 <= k < name_views(full@).len() ==> priority_in_range(
                    #[trigger] name_views(full@)[k].priority,
                ));
        }
        Names::new(full, context)
    }

    /// Build a collection from an optional raw-name list with a common
    /// source. Address names all drop one priority point. A network feature
    /// with several names must give its first two distinct priorities: that
    /// is the caller's precondition.
    pub fn from_value(
        value: Option<Vec<InputName>>,
        source: Option<Source>,
        context: &Context,
    ) -> (r: Names)
        requires
            (match value {
                Some(ins) => (source == Some(Source::Network) && ins@.len() > 1
                    ==> ins@[0].priority != ins@[1].priority) && forall|i: int|
                    0 <= i < ins@.len() ==> input_priority_ok(
                        #[trigger] input_views(ins@)[i].1 - 1,
                    ) && input_priority_ok(input_views(ins@)[i].1),
                None => true,
            }),
        ensures
            r@ == (match value {
                None => Seq::<NameV>::empty(),
                Some(ins) => spec_names_new(
                    input_views(ins@).map_values(
                        |p: (Seq<char>, int)|
                            spec_name_new(
                                p.0,
                                if source == Some(Source::Address) {
                                    p.1 - 1
                                } else {
                                    p.1
                                },
                                source,
                                context.country@,
                                context.tokens@,
                            ),
                    ),
                    context.country@,
                    opt_view(context.region),
                    context.tokens@,
                ),
            }),
    {
        let ins = match value {
            None => {
                let empty_names: Vec<Name> = Vec::new();
                proof {
                    assert(name_views(empty_names@) =~= Seq::<NameV>::empty());
                }
                return Names { names: empty_names };
            },
            Some(ins) => ins,
        };
        let ghost iv = input_views(ins@);
        let ghost mapped = iv.map_values(
            |p: (Seq<char>, int)|
                spec_name_new(
                    p.0,
                    if source == Some(Source::Address) {
                        p.1 - 1
                    } else {
                        p.1
                    },
                    source,
                    context.country@,
                    context.tokens@,
                ),
        );
        let is_address = match source {
            Some(Source::Address) => true,
            _ => false,
        };
        let mut full: Vec<Name> = Vec::new();
        let mut i: usize = 0;
        while i < ins.len()
            invariant
                i <= ins@.len(),
                iv == input_views(ins@),
                is_address == (source == Some(Source::Address)),
                mapped == iv.map_values(
                    |p: (Seq<char>, int)|
                        spec_name_new(
                            p.0,
                            if source == Some(Source::Address) {
                                p.1 - 1
                            } else {
                                p.1
                            },
                            source,
                            context.country@,
                            context.tokens@,
                        ),
                ),
                forall|k: int|
                    0 <= k < ins@.len() ==> input_priority_ok(#[trigger] iv[k].1 - 1)
                        && input_priority_ok(iv[k].1),
                name_views(full@) =~= mapped.take(i as int),
            decreases ins@.len() - i,
        {
            let ghost f0 = name_views(full@);
            proof {
                assert(iv[i as int].1 == ins@[i as int].priority as int);
            }
            let pr: i8 = if is_address {
                ins[i].priority - 1
            } else {
                ins[i].priority
            };
            full.push(Name::new(ins[i].display.as_str(), pr, source, context));
            proof {
                assert(name_views(full@) =~= f0.push(mapped[i as int]));
                assert(mapped.take(i as int).push(mapped[i as int]) =~= mapped.take(i + 1));
            }
            i = i + 1;
        }
        proof {
            assert(mapped.take(mapped.len() as int) =~= mapped);
            assert(forall|k: int|
                0 <= k < name_views(full@).len() ==> priority_in_range(
                    #[trigger] name_views(full@)[k].priority,
                ));
        }
        Names::new(full, context)
    }
}

} // verus!

verus! {

proof fn lemma_strip_clean(s: Seq<char>)
    ensures
        all_clean(strip_dq_commas(s)),
    decreases s.len(),
{
    if s.len() > 0 {
        lemma_strip_clean(s.skip(1));
        if !(s[0] == '"' || s[0] == ',') {
            let out = seq![s[0]] + strip_dq_commas(s.skip(1));
            assert forall|i: int| 0 <= i < out.len() implies clean_char(#[trigger] out[i]) by {
                if i > 0 {
                    assert(out[i] == strip_dq_commas(s.skip(1))[i - 1]);
                }
            }
        }
    }
}

/// The octothorpe removal keeps a display free of double quotes and
/// commas: it only drops a character.
proof fn lemma_octo_clean(s: Seq<char>)
    requires
        all_clean(s),
    ensures
        all_clean(crate::text::spec_str_remove_octo(s)),
{
    if crate::text::octo_matches(s) {
        let d2 = crate::text::spec_str_remove_octo(s);
        let p = crate::text::octo_prefix(s)->Some_0;
        assert(0 <= p <= s.len()) by {
            reveal_strlit("hwy ");
            reveal_strlit("highway ");
            reveal_strlit("rte ");
            reveal_strlit("route ");
            reveal_strlit("us ");
        }
        assert(all_clean(d2)) by {
            assert forall|m: int| 0 <= m < d2.len() implies clean_char(#[trigger] d2[m]) by {
                if m < p {
                    assert(d2[m] == s[m]);
                } else {
                    assert(d2[m] == s.skip(p + 1)[m - p]);
                }
            }
        }
    }
}

} // verus!
