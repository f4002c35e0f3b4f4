use vstd::prelude::*;
use crate::linker::{
    best_idx_go, exactish, exact_j_for_a, first_exact, lemma_exact_j_at, lemma_first_exact_at,
    max_over_anames, max_over_bnames, pair_contrib, pot_max, spec_linker, LinkV,
};
use crate::name::{
    dedupe_go, first_key_index, spec_dedupe, spec_names_new, spec_prune, spec_sort,
    spec_sorted_insert, spec_synonyms_of, spec_tokenized_string, spec_tokenless_string, NameV,
};
use crate::strutil::trim_spec;
use crate::synonyms::{
    display_priority, priority_offset, spec_syn_ca_french, spec_syn_ca_hwy, spec_syn_ny_beach,
    spec_syn_number_suffix, spec_syn_state_hwy, spec_syn_us_cr, spec_syn_us_famous,
    spec_syn_us_hwy, spec_syn_written_numeric,
};
use crate::tokens::ParsedTokenV;

verus! {

/// Every name has a nonblank trimmed display.
pub open spec fn all_nonblank(s: Seq<NameV>) -> bool {
    forall|i: int| 0 <= i < s.len() ==> trim_spec(#[trigger] s[i].display).len() > 0
}

proof fn lemma_prune_nonblank(s: Seq<NameV>)
    ensures
        all_nonblank(spec_prune(s)),
    decreases s.len(),
{
    if s.len() > 0 {
        lemma_prune_nonblank(s.skip(1));
        if trim_spec(s[0].display).len() != 0 {
            let out = seq![s[0]] + spec_prune(s.skip(1));
            assert forall|i: int| 0 <= i < out.len() implies trim_spec(
                #[trigger] out[i].display,
            ).len() > 0 by {
                if i > 0 {
                    assert(out[i] == spec_prune(s.skip(1))[i - 1]);
                }
            }
        }
    }
}

proof fn lemma_insert_nonblank(s: Seq<NameV>, x: NameV)
    requires
        all_nonblank(s),
        trim_spec(x.display).len() > 0,
    ensures
        all_nonblank(spec_sorted_insert(s, x)),
    decreases s.len(),
{
    if s.len() > 0 && !crate::name::strictly_before(x, s[0]) {
        assert(all_nonblank(s.skip(1)));
        lemma_insert_nonblank(s.skip(1), x);
        let out = seq![s[0]] + spec_sorted_insert(s.skip(1), x);
        assert forall|i: int| 0 <= i < out.len() implies trim_spec(
            #[trigger] out[i].display,
        ).len() > 0 by {
            if i > 0 {
                assert(out[i] == spec_sorted_insert(s.skip(1), x)[i - 1]);
            }
        }
    }
}

proof fn lemma_sort_nonblank(s: Seq<NameV>)
    requires
        all_nonblank(s),
    ensures
        all_nonblank(spec_sort(s)),
    decreases s.len(),
{
    if s.len() > 0 {
        assert(all_nonblank(s.drop_last()));
        lemma_sort_nonblank(s.drop_last());
        lemma_insert_nonblank(spec_sort(s.drop_last()), s.last());
    }
}

proof fn lemma_dedupe_nonblank(s: Seq<NameV>, kept: Seq<NameV>)
    requires
        all_nonblank(s),
        all_nonblank(kept),
    ensures
        all_nonblank(dedupe_go(s, kept)),
    decreases s.len(),
{
    if s.len() > 0 {
        let x = s[0];
        assert(trim_spec(x.display).len() > 0);
        assert(all_nonblank(s.skip(1)));
        let key = spec_tokenized_string(x.tokenized);
        match first_key_index(kept, key) {
            None => {
                assert(all_nonblank(kept.push(x)));
                lemma_dedupe_nonblank(s.skip(1), kept.push(x));
            },
            Some(i) => {
                let d = kept[i];
                if d.source == Some(crate::name::Source::Generated) {
                    lemma_dedupe_nonblank(s.skip(1), kept);
                } else if x.source == Some(crate::name::Source::Generated) || crate::name::byte_len(
                    x.display,
                ) > crate::name::byte_len(d.display) {
                    crate::name::lemma_first_key_index_bounds(kept, key);
                    let nk = kept.update(
                        i,
                        NameV {
                            display: x.display,
                            source: x.source,
                            tokenized: x.tokenized,
                            priority: d.priority,
                            freq: d.freq,
                        },
                    );
                    assert(all_nonblank(nk));
                    lemma_dedupe_nonblank(s.skip(1), nk);
                } else {
                    lemma_dedupe_nonblank(s.skip(1), kept);
                }
            },
        }
    }
}

/// After construction no name in the collection has a blank trimmed
/// display: the empty-prune holds of every `Names::new` result.
pub proof fn lemma_names_new_no_blank(
    s: Seq<NameV>,
    country: Seq<char>,
    region: Option<Seq<char>>,
    table: Seq<(Seq<char>, ParsedTokenV)>,
)
    requires
        s.len() > 0,
    ensures
        all_nonblank(spec_names_new(s, country, region, table)),
{
    let with_syn = s + crate::name::spec_synonyms(s, country, region, table);
    lemma_prune_nonblank(with_syn);
    lemma_sort_nonblank(spec_prune(with_syn));
    lemma_dedupe_nonblank(spec_sort(spec_prune(with_syn)), Seq::<NameV>::empty());
}

/// No two names share the tokenized join key.
pub open spec fn unique_keys(s: Seq<NameV>) -> bool {
    forall|i: int, j: int|
        0 <= i < j < s.len() ==> spec_tokenized_string(#[trigger] s[i].tokenized)
            != spec_tokenized_string(#[trigger] s[j].tokenized)
}

proof fn lemma_dedupe_unique(s: Seq<NameV>, kept: Seq<NameV>)
    requires
        unique_keys(kept),
    ensures
        unique_keys(dedupe_go(s, kept)),
    decreases s.len(),
{
    if s.len() > 0 {
        let x = s[0];
        let key = spec_tokenized_string(x.tokenized);
        match first_key_index(kept, key) {
            None => {
                crate::name::lemma_no_key_implies(kept, key);
                let nk = kept.push(x);
                assert forall|i: int, j: int| 0 <= i < j < nk.len() implies spec_tokenized_string(
                    #[trigger] nk[i].tokenized,
                ) != spec_tokenized_string(#[trigger] nk[j].tokenized) by {
                    if j == nk.len() - 1 {
                        assert(nk[i] == kept[i]);
                        assert(spec_tokenized_string(kept[i].tokenized) != key);
                    }
                }
                lemma_dedupe_unique(s.skip(1), nk);
            },
            Some(i) => {
                let d = kept[i];
                if d.source == Some(crate::name::Source::Generated) {
                    lemma_dedupe_unique(s.skip(1), kept);
                } else if x.source == Some(crate::name::Source::Generated) || crate::name::byte_len(
                    x.display,
                ) > crate::name::byte_len(d.display) {
                    crate::name::lemma_first_key_index_bounds(kept, key);
                    let nk = kept.update(
                        i,
                        NameV {
                            display: x.display,
                            source: x.source,
                            tokenized: x.tokenized,
                            priority: d.priority,
                            freq: d.freq,
                        },
                    );
                    assert(spec_tokenized_string(nk[i].tokenized) == spec_tokenized_string(
                        kept[i].tokenized,
                    ));
                    assert(unique_keys(nk)) by {
                        assert(forall|k: int| 0 <= k < nk.len() ==> spec_tokenized_string(
                            (#[trigger] nk[k]).tokenized,
                        ) == spec_tokenized_string(kept[k].tokenized));
                    }
                    lemma_dedupe_unique(s.skip(1), nk);
                } else {
                    lemma_dedupe_unique(s.skip(1), kept);
                }
            },
        }
    }
}

/// After construction no two names of a collection share the tokenized
/// join key: deduplication leaves pairwise distinct keys.
pub proof fn lemma_names_new_unique_keys(
    s: Seq<NameV>,
    country: Seq<char>,
    region: Option<Seq<char>>,
    table: Seq<(Seq<char>, ParsedTokenV)>,
)
    ensures
        unique_keys(spec_names_new(s, country, region, table)),
{
    if s.len() == 0 {
        assert(unique_keys(s));
    } else {
        lemma_dedupe_unique(
            spec_sort(
                spec_prune(s + crate::name::spec_synonyms(s, country, region, table)),
            ),
            Seq::<NameV>::empty(),
        );
    }
}

/// Every synonym's priority stays at or below the display-form bound
/// `max(priority + 1, -1)`, and every synonym past the display form sits
/// strictly below both the source priority and zero.
pub open spec fn priority_bounded(out: Seq<NameV>, p: int) -> bool {
    &&& forall|i: int| 0 <= i < out.len() ==> (#[trigger] out[i]).priority <= display_priority(p)
    &&& forall|i: int| 1 <= i < out.len() ==> (#[trigger] out[i]).priority < p && out[i].priority
        < 0
}

proof fn lemma_name_new_priority(
    display: Seq<char>,
    pr: int,
    source: Option<crate::name::Source>,
    country: Seq<char>,
    table: Seq<(Seq<char>, ParsedTokenV)>,
)
    ensures
        pr - 1 <= crate::name::spec_name_new(display, pr, source, country, table).priority <= pr,
{
}

/// The number-suffix synonym obeys the generated-priority bound.
pub proof fn lemma_syn_number_suffix_priority(
    n: NameV,
    country: Seq<char>,
    table: Seq<(Seq<char>, ParsedTokenV)>,
)
    ensures
        priority_bounded(spec_syn_number_suffix(n, country, table), n.priority),
{
    let out = spec_syn_number_suffix(n, country, table);
    assert forall|i: int| 0 <= i < out.len() implies (#[trigger] out[i]).priority
        <= display_priority(n.priority) by {
        lemma_name_new_priority(out_display(out, i), -1, Some(crate::name::Source::Generated), country, table);
        assert(out[i].priority <= -1);
    }
}

/// The display string of one synonym: a helper for priority reasoning.
pub open spec fn out_display(out: Seq<NameV>, i: int) -> Seq<char> {
    out[i].display
}

/// A primary name whose tokenized form equals a candidate's matches that
/// candidate immediately at a score of 100.00, in either mode.
pub proof fn lemma_linker_trivial_equal(a: NameV, b: NameV, bid: int, strict: bool)
    requires
        a.tokenized == b.tokenized,
    ensures
        spec_linker(seq![a], seq![(LinkV { id: bid, names: seq![b] })], strict) == Some(
            (bid, 10000int),
        ),
{
    let pots = seq![(LinkV { id: bid, names: seq![b] })];
    assert(exactish(a, pots[0].names[0], strict));
    assert(exists|k: int|
        0 <= k < pots[0].names.len() && exactish(a, #[trigger] pots[0].names[k], strict));
    assert(exact_j_for_a(a, pots, strict) == Some(0int));
    assert(seq![a][0] == a);
    assert(first_exact(seq![a], pots, strict) == Some(0int));
}

/// A primary name whose tokenized form equals some name of a candidate
/// matches immediately at a score of 100.00, in either mode: the first
/// primary name that has an exactish partner decides, at the first
/// candidate in scan order that holds one.
pub proof fn lemma_linker_exact_equal(
    an: Seq<NameV>,
    pots: Seq<LinkV>,
    strict: bool,
    i: int,
    j: int,
    k: int,
)
    requires
        0 <= i < an.len(),
        0 <= j < pots.len(),
        0 <= k < pots[j].names.len(),
        an[i].tokenized == pots[j].names[k].tokenized,
        forall|ip: int| 0 <= ip < i ==> exact_j_for_a(#[trigger] an[ip], pots, strict) is None,
        forall|jp: int, kp: int|
            0 <= jp < j && 0 <= kp < pots[jp].names.len() ==> !exactish(
                an[i],
                #[trigger] pots[jp].names[kp],
                strict,
            ),
    ensures
        spec_linker(an, pots, strict) == Some((pots[j].id, 10000int)),
{
    assert(exactish(an[i], pots[j].names[k], strict));
    assert(exists|kk: int|
        0 <= kk < pots[j].names.len() && exactish(an[i], #[trigger] pots[j].names[kk], strict));
    lemma_exact_j_at(an[i], pots, strict, j);
    lemma_first_exact_at(an, pots, strict, i, j);
}

/// Two names whose tokenless forms are nonempty and begin with different
/// characters cannot match, as long as neither immediate-match path applies
/// to the pair.
pub proof fn lemma_first_letter_gate(a: NameV, b: NameV, bid: int, strict: bool)
    requires
        spec_tokenless_string(a.tokenized).len() > 0,
        spec_tokenless_string(b.tokenized).len() > 0,
        spec_tokenless_string(a.tokenized)[0] != spec_tokenless_string(b.tokenized)[0],
        !exactish(a, b, strict),
    ensures
        spec_linker(seq![a], seq![(LinkV { id: bid, names: seq![b] })], strict) is None,
{
    let pots = seq![(LinkV { id: bid, names: seq![b] })];
    assert(forall|k: int|
        0 <= k < pots[0].names.len() ==> !exactish(a, #[trigger] pots[0].names[k], strict));
    assert(exact_j_for_a(a, pots.skip(1), strict) is None) by {
        assert(pots.skip(1).len() == 0);
    }
    assert(exact_j_for_a(a, pots, strict) is None);
    assert(first_exact(seq![a].skip(1), pots, strict) is None) by {
        assert(seq![a].skip(1).len() == 0);
    }
    assert(seq![a][0] == a);
    assert(first_exact(seq![a], pots, strict) is None);
    assert(pair_contrib(a, b, strict) is None);
    let bn = seq![b];
    assert(bn.skip(1).len() == 0);
    assert(max_over_bnames(a, bn.skip(1), strict, (0int, 1int)) == (0int, 1int));
    assert(max_over_bnames(a, bn, strict, (0int, 1int)) == (0int, 1int));
    let an = seq![a];
    assert(an.skip(1).len() == 0);
    assert(max_over_anames(an.skip(1), bn, strict, (0int, 1int)) == (0int, 1int));
    assert(pot_max(an, bn, strict) == (0int, 1int));
    assert(best_idx_go(an, pots, strict, 1, Some((0int, (0int, 1int)))) == Some(
        (0int, (0int, 1int)),
    ));
    assert(best_idx_go(an, pots, strict, 0, None) == Some((0int, (0int, 1int))));
}

/// The written-numeric synonym obeys the generated-priority bound.
pub proof fn lemma_syn_written_numeric_priority(
    n: NameV,
    country: Seq<char>,
    table: Seq<(Seq<char>, ParsedTokenV)>,
)
    ensures
        priority_bounded(spec_syn_written_numeric(n, country, table), n.priority),
{
}

/// The Quebec standalone synonym obeys the generated-priority bound.
pub proof fn lemma_syn_ca_french_priority(
    n: NameV,
    country: Seq<char>,
    table: Seq<(Seq<char>, ParsedTokenV)>,
)
    ensures
        priority_bounded(spec_syn_ca_french(n, country, table), n.priority),
{
}

/// The county-road synonyms obey the generated-priority bound.
pub proof fn lemma_syn_us_cr_priority(
    n: NameV,
    country: Seq<char>,
    table: Seq<(Seq<char>, ParsedTokenV)>,
)
    ensures
        priority_bounded(spec_syn_us_cr(n, country, table), n.priority),
{
}

/// The beach synonyms obey the generated-priority bound.
pub proof fn lemma_syn_ny_beach_priority(
    n: NameV,
    country: Seq<char>,
    table: Seq<(Seq<char>, ParsedTokenV)>,
)
    ensures
        priority_bounded(spec_syn_ny_beach(n, country, table), n.priority),
{
}

/// The US-highway synonyms obey the generated-priority bound.
#[verifier::rlimit(100)]
pub proof fn lemma_syn_us_hwy_priority(
    n: NameV,
    country: Seq<char>,
    table: Seq<(Seq<char>, ParsedTokenV)>,
)
    ensures
        priority_bounded(spec_syn_us_hwy(n, country, table), n.priority),
{
}

/// The famous-person synonyms obey the generated-priority bound.
#[verifier::rlimit(100)]
pub proof fn lemma_syn_us_famous_priority(
    n: NameV,
    country: Seq<char>,
    table: Seq<(Seq<char>, ParsedTokenV)>,
)
    ensures
        priority_bounded(spec_syn_us_famous(n, country, table), n.priority),
{
}

/// The Canadian provincial-highway synonyms obey the generated-priority
/// bound.
#[verifier::rlimit(100)]
pub proof fn lemma_syn_ca_hwy_priority(
    n: NameV,
    country: Seq<char>,
    region: Option<Seq<char>>,
    table: Seq<(Seq<char>, ParsedTokenV)>,
)
    ensures
        priority_bounded(spec_syn_ca_hwy(n, country, region, table), n.priority),
{
}

/// The state-highway synonyms obey the generated-priority bound.
#[verifier::rlimit(100)]
pub proof fn lemma_syn_state_hwy_priority(
    n: NameV,
    country: Seq<char>,
    region: Option<Seq<char>>,
    table: Seq<(Seq<char>, ParsedTokenV)>,
)
    ensures
        priority_bounded(spec_syn_state_hwy(n, country, region, table), n.priority),
{
}

} // verus!
