use vstd::prelude::*;
use vstd::utf8::{encode_scalar, encode_utf8};
use crate::name::{
    byte_len, spec_has_type, spec_tokenized_string, spec_tokenless_string, without_category,
    token_seqs, Name, NameV, Names,
};
use crate::strutil::{join_sp, str_eq, trim_spec};
use crate::text::{first_numbered, first_routish, is_numbered, is_routish, spec_distance};
use crate::tokens::{TokenType, TokenizedV};

verus! {

/// The size cap under which the matcher's score arithmetic stays exact in
/// machine integers: token counts and string lengths of every name.
pub const NAME_LIMIT: usize = 0x100000;

/// A name within the matcher's size cap.
pub open spec fn name_sized(n: NameV) -> bool {
    &&& n.tokenized.len() <= NAME_LIMIT
    &&& spec_tokenized_string(n.tokenized).len() <= NAME_LIMIT
    &&& spec_tokenless_string(n.tokenized).len() <= NAME_LIMIT
}

/// The ghost value of a link: an identifier and its name set.
pub ghost struct LinkV {
    pub id: int,
    pub names: Seq<NameV>,
}

/// A candidate for the matcher: an identifier and its name set.
#[derive(Debug)]
pub struct Link<'a> {
    pub id: i64,
    pub names: &'a Names,
}

impl<'a> View for Link<'a> {
    type V = LinkV;

    open spec fn view(&self) -> LinkV {
        LinkV { id: self.id as int, names: self.names@ }
    }
}

impl<'a> Link<'a> {
    pub fn new(id: i64, names: &'a Names) -> (r: Link<'a>)
        ensures
            r@ == (LinkV { id: id as int, names: names@ }),
    {
        Link { id, names }
    }
}

/// The matcher's result: the matched identifier and the score in
/// hundredths, so 10000 stands for a score of 100.00.
#[derive(Debug, Clone, PartialEq)]
pub struct LinkResult {
    pub id: i64,
    pub score: i64,
}

impl LinkResult {
    pub fn new(id: i64, score: i64) -> (r: LinkResult)
        ensures
            r.id == id,
            r.score == score,
    {
        LinkResult { id, score }
    }
}

/// The views of a link sequence.
pub open spec fn link_views(s: Seq<Link>) -> Seq<LinkV> {
    s.map_values(|l: Link| l@)
}

/// An immediate match: equal tokenized forms, or, outside strict mode, the
/// primary name with its cardinals dropped equals the candidate that has
/// none.
pub open spec fn exactish(a: NameV, b: NameV, strict: bool) -> bool {
    a.tokenized == b.tokenized || (!strict && spec_has_type(
        a.tokenized,
        Some(TokenType::Cardinal),
    ) && !spec_has_type(b.tokenized, Some(TokenType::Cardinal)) && trim_spec(
        join_sp(token_seqs(without_category(a.tokenized, Some(TokenType::Cardinal)))),
    ) == spec_tokenized_string(b.tokenized))
}

/// The strict-mode gate: every Cardinal or Way token of the primary name
/// must appear in the candidate whenever the candidate carries that
/// category at all.
pub open spec fn strict_gate_ok(a: NameV, b: NameV) -> bool {
    forall|i: int|
        0 <= i < a.tokenized.len() ==> {
            let tk = #[trigger] a.tokenized[i];
            &&& (tk.category == Some(TokenType::Cardinal) ==> !(spec_has_type(
                b.tokenized,
                Some(TokenType::Cardinal),
            ) && !b.tokenized.contains(tk)))
            &&& (tk.category == Some(TokenType::Way) ==> !(spec_has_type(
                b.tokenized,
                Some(TokenType::Way),
            ) && !b.tokenized.contains(tk)))
        }
}

/// The number of tokens of `a` matched against a consuming copy of `b`.
pub open spec fn overlap_count(a: Seq<Seq<char>>, b: Seq<Seq<char>>) -> int
    decreases a.len(),
{
    if a.len() == 0 {
        0
    } else {
        match first_seq_index(b, a[0]) {
            None => overlap_count(a.skip(1), b),
            Some(i) => 1 + overlap_count(a.skip(1), b.remove(i)),
        }
    }
}

/// The first position of `x` in `b`.
pub open spec fn first_seq_index(b: Seq<Seq<char>>, x: Seq<char>) -> Option<int>
    decreases b.len(),
{
    if b.len() == 0 {
        None
    } else if b[0] == x {
        Some(0)
    } else {
        match first_seq_index(b.skip(1), x) {
            None => None,
            Some(i) => Some(i + 1),
        }
    }
}

/// The edit-distance part of a pair's score, as a fraction: a weighted
/// average where both tokenless forms exist, the plain distance where one
/// does, and a token-overlap ratio (or the plain distance) where neither
/// does.
pub open spec fn pair_lev(a: NameV, b: NameV) -> (int, int) {
    let ta = spec_tokenized_string(a.tokenized);
    let tb = spec_tokenized_string(b.tokenized);
    let la = spec_tokenless_string(a.tokenized);
    let lb = spec_tokenless_string(b.tokenized);
    if la.len() > 0 && lb.len() > 0 {
        (spec_distance(ta, tb) + 3 * spec_distance(la, lb), 4)
    } else if la.len() > 0 || lb.len() > 0 {
        (spec_distance(ta, tb), 1)
    } else {
        let matched = overlap_count(token_seqs(a.tokenized), token_seqs(b.tokenized));
        let nt = b.tokenized.len() as int;
        if nt > 0 && 100 * matched > 66 * nt {
            (matched, nt)
        } else {
            (spec_distance(ta, tb), 1)
        }
    }
}

/// One pair's score contribution: None where a gate skips the pair or the
/// joined forms are empty, else the score `100 - 200*lev/len` as an exact
/// fraction with positive denominator.
pub open spec fn pair_contrib(a: NameV, b: NameV, strict: bool) -> Option<(int, int)> {
    let ta = spec_tokenized_string(a.tokenized);
    let tb = spec_tokenized_string(b.tokenized);
    let la = spec_tokenless_string(a.tokenized);
    let lb = spec_tokenless_string(b.tokenized);
    if strict && !strict_gate_ok(a, b) {
        None
    } else if lb.len() > 0 && la.len() > 0 && lb[0] != la[0] {
        None
    } else if (first_numbered(a.tokenized) is Some && first_numbered(a.tokenized)
        != first_numbered(b.tokenized)) || (first_routish(a.tokenized) is Some && first_routish(
        a.tokenized,
    ) != first_routish(b.tokenized)) {
        None
    } else {
        let (p, q) = pair_lev(a, b);
        let len = byte_len(tb) + byte_len(ta);
        if len * q > 0 {
            Some((100 * len * q - 200 * p, len * q))
        } else {
            None
        }
    }
}

/// Whether the fraction `n1/d1` exceeds `n2/d2`; denominators positive.
pub open spec fn rat_gt(n1: int, d1: int, n2: int, d2: int) -> bool {
    n1 * d2 > n2 * d1
}

/// The running maximum folded over one candidate's names.
pub open spec fn max_over_bnames(a: NameV, bn: Seq<NameV>, strict: bool, cur: (int, int)) -> (
    int,
    int,
)
    decreases bn.len(),
{
    if bn.len() == 0 {
        cur
    } else {
        let nc = match pair_contrib(a, bn[0], strict) {
            Some(c) => if rat_gt(c.0, c.1, cur.0, cur.1) {
                c
            } else {
                cur
            },
            None => cur,
        };
        max_over_bnames(a, bn.skip(1), strict, nc)
    }
}

/// The running maximum folded over the primary names and one candidate's
/// names.
pub open spec fn max_over_anames(an: Seq<NameV>, bn: Seq<NameV>, strict: bool, cur: (int, int)) -> (
    int,
    int,
)
    decreases an.len(),
{
    if an.len() == 0 {
        cur
    } else {
        max_over_anames(an.skip(1), bn, strict, max_over_bnames(an[0], bn, strict, cur))
    }
}

/// One candidate's best score against the primary, starting from zero.
pub open spec fn pot_max(an: Seq<NameV>, bn: Seq<NameV>, strict: bool) -> (int, int) {
    max_over_anames(an, bn, strict, (0, 1))
}

/// The first candidate index an immediate match of `a` occurs at.
pub open spec fn exact_j_for_a(a: NameV, pots: Seq<LinkV>, strict: bool) -> Option<int>
    decreases pots.len(),
{
    if pots.len() == 0 {
        None
    } else if exists|k: int| 0 <= k < pots[0].names.len() && exactish(a, #[trigger] pots[0].names[k], strict) {
        Some(0)
    } else {
        match exact_j_for_a(a, pots.skip(1), strict) {
            None => None,
            Some(j) => Some(j + 1),
        }
    }
}

/// The candidate index of the first immediate match, scanning the primary
/// names in order.
pub open spec fn first_exact(an: Seq<NameV>, pots: Seq<LinkV>, strict: bool) -> Option<int>
    decreases an.len(),
{
    if an.len() == 0 {
        None
    } else {
        match exact_j_for_a(an[0], pots, strict) {
            Some(j) => Some(j),
            None => first_exact(an.skip(1), pots, strict),
        }
    }
}

/// The index of the earliest candidate with the strictly highest best
/// score.
pub open spec fn best_idx_go(
    an: Seq<NameV>,
    pots: Seq<LinkV>,
    strict: bool,
    j: int,
    cur: Option<(int, (int, int))>,
) -> Option<(int, (int, int))>
    decreases pots.len() - j,
{
    if j < 0 || j >= pots.len() {
        cur
    } else {
        let m = pot_max(an, pots[j].names, strict);
        let nc = match cur {
            None => Some((j, m)),
            Some((bj, bm)) => if rat_gt(m.0, m.1, bm.0, bm.1) {
                Some((j, m))
            } else {
                Some((bj, bm))
            },
        };
        best_idx_go(an, pots, strict, j + 1, nc)
    }
}

/// The score in hundredths, rounded half away from zero; operands positive.
pub open spec fn round_x100(n: int, d: int) -> int {
    (200 * n + d) / (2 * d)
}

/// The matcher's result: an immediate match returns the first matching
/// candidate at 100.00; otherwise the best-scoring candidate is returned
/// where its score exceeds 70, rounded to hundredths.
pub open spec fn spec_linker(an: Seq<NameV>, pots: Seq<LinkV>, strict: bool) -> Option<(int, int)> {
    match first_exact(an, pots, strict) {
        Some(j) => Some((pots[j].id, 10000)),
        None => match best_idx_go(an, pots, strict, 0, None) {
            None => None,
            Some((bj, bm)) => if bm.0 > 70 * bm.1 {
                Some((pots[bj].id, round_x100(bm.0, bm.1)))
            } else {
                None
            },
        },
    }
}

} // verus!

verus! {

use crate::name::cat_eq;
use crate::tokens::Tokenized;
use crate::tokens::tokenized_views;

fn tokenized_eq(x: &Vec<Tokenized>, y: &Vec<Tokenized>) -> (r: bool)
    ensures
        r == (tokenized_views(x@) == tokenized_views(y@)),
{
    let ghost xv = tokenized_views(x@);
    let ghost yv = tokenized_views(y@);
    if x.len() != y.len() {
        proof {
            assert(xv.len() != yv.len());
        }
        return false;
    }
    let mut i: usize = 0;
    while i < x.len()
        invariant
            i <= x@.len(),
            x@.len() == y@.len(),
            xv == tokenized_views(x@),
            yv == tokenized_views(y@),
            forall|k: int| 0 <= k < i ==> xv[k] == yv[k],
        decreases x@.len() - i,
    {
        if !str_eq(x[i].token.as_str(), y[i].token.as_str()) {
            proof {
                assert(xv[i as int].token != yv[i as int].token);
            }
            return false;
        }
        if !cat_eq(x[i].token_type, y[i].token_type) {
            proof {
                assert(xv[i as int].category != yv[i as int].category);
            }
            return false;
        }
        proof {
            assert(xv[i as int] == yv[i as int]);
        }
        i = i + 1;
    }
    proof {
        assert(xv =~= yv);
    }
    true
}

fn exact_with(a: &Name, b: &Name, strict: bool) -> (r: bool)
    ensures
        r == exactish(a@, b@, strict),
{
    if tokenized_eq(&a.tokenized, &b.tokenized) {
        return true;
    }
    if !strict && a.has_type(Some(TokenType::Cardinal)) && !b.has_type(Some(TokenType::Cardinal)) {
        let removed = a.remove_type_string(Some(TokenType::Cardinal));
        let bt = b.tokenized_string();
        if str_eq(removed.as_str(), bt.as_str()) {
            return true;
        }
    }
    false
}

fn tokens_contain(b: &Vec<Tokenized>, tk: &Tokenized) -> (r: bool)
    ensures
        r == tokenized_views(b@).contains(tk@),
{
    let ghost bv = tokenized_views(b@);
    let mut i: usize = 0;
    while i < b.len()
        invariant
            i <= b@.len(),
            bv == tokenized_views(b@),
            forall|k: int| 0 <= k < i ==> bv[k] != tk@,
        decreases b@.len() - i,
    {
        if str_eq(b[i].token.as_str(), tk.token.as_str()) && cat_eq(b[i].token_type, tk.token_type)
        {
            proof {
                assert(bv[i as int] == tk@);
            }
            return true;
        }
        proof {
            assert(bv[i as int] != tk@);
        }
        i = i + 1;
    }
    proof {
        assert(!bv.contains(tk@));
    }
    false
}

fn strict_gate(a: &Name, b: &Name) -> (r: bool)
    ensures
        r == strict_gate_ok(a@, b@),
{
    let b_card = b.has_type(Some(TokenType::Cardinal));
    let b_way = b.has_type(Some(TokenType::Way));
    let ghost av = a@.tokenized;
    let mut i: usize = 0;
    while i < a.tokenized.len()
        invariant
            i <= a.tokenized@.len(),
            av == a@.tokenized,
            b_card == spec_has_type(b@.tokenized, Some(TokenType::Cardinal)),
            b_way == spec_has_type(b@.tokenized, Some(TokenType::Way)),
            forall|k: int|
                0 <= k < i ==> {
                    let tk = #[trigger] av[k];
                    &&& (tk.category == Some(TokenType::Cardinal) ==> !(spec_has_type(
                        b@.tokenized,
                        Some(TokenType::Cardinal),
                    ) && !b@.tokenized.contains(tk)))
                    &&& (tk.category == Some(TokenType::Way) ==> !(spec_has_type(
                        b@.tokenized,
                        Some(TokenType::Way),
                    ) && !b@.tokenized.contains(tk)))
                },
        decreases a.tokenized@.len() - i,
    {
        let is_card = cat_eq(a.tokenized[i].token_type, Some(TokenType::Cardinal));
        let is_way = cat_eq(a.tokenized[i].token_type, Some(TokenType::Way));
        if is_card && b_card {
            if !tokens_contain(&b.tokenized, &a.tokenized[i]) {
                proof {
                    let tk = av[i as int];
                    assert(tk.category == Some(TokenType::Cardinal));
                    assert(spec_has_type(b@.tokenized, Some(TokenType::Cardinal))
                        && !b@.tokenized.contains(tk));
                    assert(!strict_gate_ok(a@, b@));
                }
                return false;
            }
        }
        if is_way && b_way {
            if !tokens_contain(&b.tokenized, &a.tokenized[i]) {
                proof {
                    let tk = av[i as int];
                    assert(tk.category == Some(TokenType::Way));
                    assert(spec_has_type(b@.tokenized, Some(TokenType::Way))
                        && !b@.tokenized.contains(tk));
                    assert(!strict_gate_ok(a@, b@));
                }
                return false;
            }
        }
        i = i + 1;
    }
    true
}

proof fn lemma_overlap_bounds(a: Seq<Seq<char>>, b: Seq<Seq<char>>)
    ensures
        0 <= overlap_count(a, b) <= a.len(),
    decreases a.len(),
{
    if a.len() > 0 {
        match first_seq_index(b, a[0]) {
            None => {
                lemma_overlap_bounds(a.skip(1), b);
            },
            Some(i) => {
                lemma_first_seq_index_props(b, a[0]);
                lemma_overlap_bounds(a.skip(1), b.remove(i));
            },
        }
    }
}

proof fn lemma_first_seq_index_props(b: Seq<Seq<char>>, x: Seq<char>)
    ensures
        match first_seq_index(b, x) {
            Some(i) => 0 <= i < b.len() && b[i] == x,
            None => !b.contains(x),
        },
    decreases b.len(),
{
    if b.len() > 0 && b[0] != x {
        lemma_first_seq_index_props(b.skip(1), x);
        match first_seq_index(b.skip(1), x) {
            Some(i) => {
                assert(b.skip(1)[i] == b[i + 1]);
            },
            None => {
                assert(forall|k: int| 0 <= k < b.skip(1).len() ==> b.skip(1)[k] != x);
                assert(forall|k: int| 1 <= k < b.len() ==> b[k] == b.skip(1)[k - 1]);
            },
        }
    }
}

proof fn lemma_first_seq_index_at(b: Seq<Seq<char>>, x: Seq<char>, j: int)
    requires
        0 <= j < b.len(),
        b[j] == x,
        forall|k: int| 0 <= k < j ==> b[k] != x,
    ensures
        first_seq_index(b, x) == Some(j),
    decreases b.len(),
{
    if j > 0 {
        assert(forall|k: int| 0 <= k < j - 1 ==> b.skip(1)[k] == b[k + 1]);
        lemma_first_seq_index_at(b.skip(1), x, j - 1);
    }
}

proof fn lemma_first_seq_index_none(b: Seq<Seq<char>>, x: Seq<char>)
    requires
        forall|k: int| 0 <= k < b.len() ==> b[k] != x,
    ensures
        first_seq_index(b, x) is None,
    decreases b.len(),
{
    if b.len() > 0 {
        assert(forall|k: int| 0 <= k < b.len() - 1 ==> b.skip(1)[k] == b[k + 1]);
        lemma_first_seq_index_none(b.skip(1), x);
    }
}

/// Token strings of a name as owned values.
fn token_strings(n: &Name) -> (r: Vec<String>)
    ensures
        crate::tokens::string_views(r@) == token_seqs(n@.tokenized),
{
    let mut r: Vec<String> = Vec::new();
    let mut i: usize = 0;
    while i < n.tokenized.len()
        invariant
            i <= n.tokenized@.len(),
            crate::tokens::string_views(r@) =~= token_seqs(n@.tokenized).take(i as int),
        decreases n.tokenized@.len() - i,
    {
        let ghost r0 = r@;
        r.push(n.tokenized[i].token.clone());
        proof {
            let ts = token_seqs(n@.tokenized);
            assert(crate::tokens::string_views(r@) =~= crate::tokens::string_views(r0).push(
                r@[r@.len() - 1]@,
            ));
            assert(r@[r@.len() - 1]@ == ts[i as int]);
            assert(ts.take(i as int).push(ts[i as int]) =~= ts.take(i + 1));
        }
        i = i + 1;
    }
    proof {
        let ts = token_seqs(n@.tokenized);
        assert(ts.take(ts.len() as int) =~= ts);
    }
    r
}

/// The matched-token count of the token-overlap fallback.
fn overlap_exec(a: &Name, b: &Name) -> (r: usize)
    requires
        a@.tokenized.len() <= NAME_LIMIT,
    ensures
        r == overlap_count(token_seqs(a@.tokenized), token_seqs(b@.tokenized)),
        r <= a@.tokenized.len(),
{
    let atoks = token_strings(a);
    let mut ntoks = token_strings(b);
    let ghost av = token_seqs(a@.tokenized);
    let mut matched: usize = 0;
    let mut i: usize = 0;
    proof {
        assert(av.skip(0) =~= av);
        lemma_overlap_bounds(av, crate::tokens::string_views(ntoks@));
    }
    while i < atoks.len()
        invariant
            i <= atoks@.len(),
            atoks@.len() == av.len(),
            av == token_seqs(a@.tokenized),
            av.len() <= NAME_LIMIT,
            crate::tokens::string_views(atoks@) == av,
            matched <= i,
            matched + overlap_count(av.skip(i as int), crate::tokens::string_views(ntoks@))
                == overlap_count(av, token_seqs(b@.tokenized)),
        decreases atoks@.len() - i,
    {
        proof {
            assert(av.skip(i as int)[0] == av[i as int]);
            assert(av.skip(i as int).skip(1) =~= av.skip(i + 1));
            lemma_overlap_bounds(av.skip(i + 1), crate::tokens::string_views(ntoks@));
        }
        let ghost nv = crate::tokens::string_views(ntoks@);
        let mut j: usize = 0;
        let mut pos: Option<usize> = None;
        while j < ntoks.len() && pos.is_none()
            invariant
                j <= ntoks@.len(),
                nv == crate::tokens::string_views(ntoks@),
                i < atoks@.len(),
                crate::tokens::string_views(atoks@) == av,
                match pos {
                    Some(p) => first_seq_index(nv, av[i as int]) == Some(p as int) && p
                        < ntoks@.len(),
                    None => forall|k: int| 0 <= k < j ==> nv[k] != av[i as int],
                },
            decreases ntoks@.len() - j,
        {
            if str_eq(ntoks[j].as_str(), atoks[i].as_str()) {
                proof {
                    assert(nv[j as int] == av[i as int]);
                    lemma_first_seq_index_at(nv, av[i as int], j as int);
                }
                pos = Some(j);
            } else {
                proof {
                    assert(nv[j as int] != av[i as int]);
                }
            }
            j = j + 1;
        }
        match pos {
            Some(p) => {
                ntoks.remove(p);
                proof {
                    assert(crate::tokens::string_views(ntoks@) =~= nv.remove(p as int));
                    lemma_overlap_bounds(av.skip(i + 1), nv.remove(p as int));
                }
                matched = matched + 1;
            },
            None => {
                proof {
                    lemma_first_seq_index_none(nv, av[i as int]);
                }
            },
        }
        i = i + 1;
    }
    proof {
        assert(av.skip(av.len() as int) =~= Seq::<Seq<char>>::empty());
    }
    matched
}

} // verus!

verus! {

/// Bound under which the score fraction's parts stay well inside `i128`.
pub open spec fn contrib_bounded(n: int, d: int) -> bool {
    -0x4000000000000 <= n <= 100 * d && 0 < d <= 0x100000000000
}

proof fn lemma_encode_len(s: Seq<char>)
    ensures
        s.len() <= encode_utf8(s).len() <= 4 * s.len(),
    decreases s.len(),
{
    if s.len() > 0 {
        assert(1 <= encode_scalar(s[0] as u32).len() <= 4);
        lemma_encode_len(s.drop_first());
    }
}

/// The score fraction from the lev fraction and the two byte lengths.
pub open spec fn contrib_formula(p: int, q: int, bl_a: int, bl_b: int) -> Option<(int, int)> {
    let len = bl_a + bl_b;
    if len * q > 0 {
        Some((100 * len * q - 200 * p, len * q))
    } else {
        None
    }
}

fn contrib_finish(p: i128, q: i128, bl_a: usize, bl_b: usize) -> (r: Option<(i128, i128)>)
    requires
        0 <= p <= 0x400000,
        1 <= q <= 0x100000,
        bl_a <= 0x400000,
        bl_b <= 0x400000,
    ensures
        match r {
            Some((n, d)) => contrib_formula(p as int, q as int, bl_a as int, bl_b as int) == Some(
                (n as int, d as int),
            ) && contrib_bounded(n as int, d as int),
            None => contrib_formula(p as int, q as int, bl_a as int, bl_b as int) is None,
        },
{
    let len: i128 = bl_a as i128 + bl_b as i128;
    proof {
        assert(0 <= len * q <= 0x80000000000) by (nonlinear_arith)
            requires
                0 <= len <= 0x800000,
                1 <= q <= 0x100000,
        ;
    }
    if len * q > 0 {
        let den = len * q;
        let num = 100 * den - 200 * p;
        proof {
            assert(100 * (len as int * q as int) == 100 * (len as int) * (q as int))
                by (nonlinear_arith);
            assert(contrib_bounded(num as int, den as int));
        }
        Some((num, den))
    } else {
        None
    }
}

fn pair_contrib_exec(a: &Name, b: &Name, strict: bool) -> (r: Option<(i128, i128)>)
    requires
        name_sized(a@),
        name_sized(b@),
    ensures
        match r {
            Some((n, d)) => pair_contrib(a@, b@, strict) == Some((n as int, d as int))
                && contrib_bounded(n as int, d as int),
            None => pair_contrib(a@, b@, strict) is None,
        },
{
    if strict {
        if !strict_gate(a, b) {
            return None;
        }
    }
    let la_s = a.tokenless_string();
    let lb_s = b.tokenless_string();
    let la = crate::strutil::str_chars(la_s.as_str());
    let lb = crate::strutil::str_chars(lb_s.as_str());
    if lb.len() > 0 && la.len() > 0 {
        if lb[0] != la[0] {
            return None;
        }
    }
    let an = is_numbered(a);
    let bn = is_numbered(b);
    let numbered_block: bool = match (&an, &bn) {
        (Some(x), Some(y)) => !str_eq(x.as_str(), y.as_str()),
        (Some(_), None) => true,
        _ => false,
    };
    if numbered_block {
        proof {
            assert(first_numbered(a@.tokenized) is Some && first_numbered(a@.tokenized)
                != first_numbered(b@.tokenized));
        }
        return None;
    }
    let ar = is_routish(a);
    let br = is_routish(b);
    let routish_block: bool = match (&ar, &br) {
        (Some(x), Some(y)) => !str_eq(x.as_str(), y.as_str()),
        (Some(_), None) => true,
        _ => false,
    };
    if routish_block {
        proof {
            assert(first_routish(a@.tokenized) is Some && first_routish(a@.tokenized)
                != first_routish(b@.tokenized));
        }
        return None;
    }
    proof {
        assert(!(first_numbered(a@.tokenized) is Some && first_numbered(a@.tokenized)
            != first_numbered(b@.tokenized)));
        assert(!(first_routish(a@.tokenized) is Some && first_routish(a@.tokenized)
            != first_routish(b@.tokenized)));
    }
    let ta = a.tokenized_string();
    let tb = b.tokenized_string();
    proof {
        lemma_encode_len(ta@);
        lemma_encode_len(tb@);
    }
    let bl_a = ta.as_str().len();
    let bl_b = tb.as_str().len();
    let ghost lev = pair_lev(a@, b@);
    let p: i128;
    let q: i128;
    if la.len() > 0 && lb.len() > 0 {
        let d1 = crate::text::distance(ta.as_str(), tb.as_str());
        let d2 = crate::text::distance(la_s.as_str(), lb_s.as_str());
        proof {
            crate::text::lemma_lev_bounds(ta@, tb@, ta@.len() as int, tb@.len() as int);
            crate::text::lemma_lev_bounds(la_s@, lb_s@, la_s@.len() as int, lb_s@.len() as int);
        }
        p = d1 as i128 + 3 * (d2 as i128);
        q = 4;
        let r = contrib_finish(p, q, bl_a, bl_b);
        proof {
            assert((p as int, q as int) == lev);
        }
        return r;
    } else if la.len() > 0 || lb.len() > 0 {
        let d1 = crate::text::distance(ta.as_str(), tb.as_str());
        proof {
            crate::text::lemma_lev_bounds(ta@, tb@, ta@.len() as int, tb@.len() as int);
        }
        p = d1 as i128;
        q = 1;
        let r = contrib_finish(p, q, bl_a, bl_b);
        proof {
            assert((p as int, q as int) == lev);
        }
        return r;
    } else {
        let matched = overlap_exec(a, b);
        let nt = b.tokenized.len();
        if nt > 0 && 100 * (matched as i128) > 66 * (nt as i128) {
            p = matched as i128;
            q = nt as i128;
            proof {
                lemma_overlap_bounds(token_seqs(a@.tokenized), token_seqs(b@.tokenized));
            }
            let r = contrib_finish(p, q, bl_a, bl_b);
            proof {
                assert((p as int, q as int) == lev);
            }
            return r;
        } else {
            let d1 = crate::text::distance(ta.as_str(), tb.as_str());
            proof {
                crate::text::lemma_lev_bounds(ta@, tb@, ta@.len() as int, tb@.len() as int);
                lemma_overlap_bounds(token_seqs(a@.tokenized), token_seqs(b@.tokenized));
            }
            p = d1 as i128;
            q = 1;
            let r = contrib_finish(p, q, bl_a, bl_b);
            proof {
                assert((p as int, q as int) == lev);
            }
            return r;
        }
    }
}

/// The running maximum over one candidate, as the exec fold computes it.
pub open spec fn opt_best_view(b: Option<(usize, (i128, i128))>) -> Option<(int, (int, int))> {
    match b {
        None => None,
        Some((j, (n, d))) => Some((j as int, (n as int, d as int))),
    }
}

fn pot_max_exec(primary: &Link, pot: &Link, strict: bool) -> (r: (i128, i128))
    requires
        forall|i: int| 0 <= i < primary@.names.len() ==> name_sized(#[trigger] primary@.names[i]),
        forall|k: int| 0 <= k < pot@.names.len() ==> name_sized(#[trigger] pot@.names[k]),
    ensures
        (r.0 as int, r.1 as int) == pot_max(primary@.names, pot@.names, strict),
        contrib_bounded(r.0 as int, r.1 as int) || (r.0 == 0 && r.1 == 1),
{
    let ghost av = primary@.names;
    let ghost bv = pot@.names;
    let mut curn: i128 = 0;
    let mut curd: i128 = 1;
    let mut i: usize = 0;
    proof {
        assert(av.skip(0) =~= av);
    }
    while i < primary.names.names.len()
        invariant
            i <= primary.names.names@.len(),
            av == primary@.names,
            bv == pot@.names,
            forall|k: int| 0 <= k < av.len() ==> name_sized(#[trigger] av[k]),
            forall|k: int| 0 <= k < bv.len() ==> name_sized(#[trigger] bv[k]),
            contrib_bounded(curn as int, curd as int) || (curn == 0 && curd == 1),
            pot_max(av, bv, strict) == max_over_anames(
                av.skip(i as int),
                bv,
                strict,
                (curn as int, curd as int),
            ),
        decreases primary.names.names@.len() - i,
    {
        proof {
            assert(av.skip(i as int)[0] == av[i as int]);
            assert(av.skip(i as int).skip(1) =~= av.skip(i + 1));
            assert(bv.skip(0) =~= bv);
        }
        let ghost cur0 = (curn as int, curd as int);
        let mut k: usize = 0;
        while k < pot.names.names.len()
            invariant
                k <= pot.names.names@.len(),
                i < primary.names.names@.len(),
                av == primary@.names,
                bv == pot@.names,
                forall|m: int| 0 <= m < av.len() ==> name_sized(#[trigger] av[m]),
                forall|m: int| 0 <= m < bv.len() ==> name_sized(#[trigger] bv[m]),
                contrib_bounded(curn as int, curd as int) || (curn == 0 && curd == 1),
                max_over_bnames(av[i as int], bv, strict, cur0) == max_over_bnames(
                    av[i as int],
                    bv.skip(k as int),
                    strict,
                    (curn as int, curd as int),
                ),
            decreases pot.names.names@.len() - k,
        {
            proof {
                assert(bv.skip(k as int)[0] == bv[k as int]);
                assert(bv.skip(k as int).skip(1) =~= bv.skip(k + 1));
            }
            match pair_contrib_exec(&primary.names.names[i], &pot.names.names[k], strict) {
                Some((n, d)) => {
                    proof {
                        assert(n * curd <= 0x100000000000000000000000000 && n * curd
                            >= -0x100000000000000000000000000 && curn * d
                            <= 0x100000000000000000000000000 && curn * d
                            >= -0x100000000000000000000000000) by (nonlinear_arith)
                            requires
                                -0x4000000000000 <= n <= 100 * d,
                                0 < d <= 0x100000000000,
                                (contrib_bounded(curn as int, curd as int) || (curn == 0 && curd
                                    == 1)),
                        ;
                    }
                    if n * curd > curn * d {
                        curn = n;
                        curd = d;
                    }
                },
                None => {},
            }
            k = k + 1;
        }
        proof {
            assert(bv.skip(bv.len() as int) =~= Seq::<NameV>::empty());
            assert(max_over_bnames(av[i as int], bv, strict, cur0) == (
            curn as int,
            curd as int,
            ));
        }
        i = i + 1;
    }
    proof {
        assert(av.skip(av.len() as int) =~= Seq::<NameV>::empty());
    }
    (curn, curd)
}

} // verus!

verus! {

/// The first candidate that holds an exactish partner for `a` is the one
/// `exact_j_for_a` picks.
pub proof fn lemma_exact_j_at(a: NameV, pots: Seq<LinkV>, strict: bool, j: int)
    requires
        0 <= j < pots.len(),
        exists|k: int| 0 <= k < pots[j].names.len() && exactish(a, #[trigger] pots[j].names[k], strict),
        forall|jp: int, k: int|
            0 <= jp < j && 0 <= k < pots[jp].names.len() ==> !exactish(
                a,
                #[trigger] pots[jp].names[k],
                strict,
            ),
    ensures
        exact_j_for_a(a, pots, strict) == Some(j),
    decreases pots.len(),
{
    if j > 0 {
        assert(forall|k: int|
            0 <= k < pots[0].names.len() ==> !exactish(a, #[trigger] pots[0].names[k], strict));
        assert(forall|jp: int| 0 <= jp < j - 1 ==> pots.skip(1)[jp] == pots[jp + 1]);
        assert(pots.skip(1)[j - 1] == pots[j]);
        lemma_exact_j_at(a, pots.skip(1), strict, j - 1);
    }
}

proof fn lemma_exact_j_none(a: NameV, pots: Seq<LinkV>, strict: bool)
    requires
        forall|jp: int, k: int|
            0 <= jp < pots.len() && 0 <= k < pots[jp].names.len() ==> !exactish(
                a,
                #[trigger] pots[jp].names[k],
                strict,
            ),
    ensures
        exact_j_for_a(a, pots, strict) is None,
    decreases pots.len(),
{
    if pots.len() > 0 {
        assert(forall|jp: int| 0 <= jp < pots.len() - 1 ==> pots.skip(1)[jp] == pots[jp + 1]);
        lemma_exact_j_none(a, pots.skip(1), strict);
    }
}

/// The first primary name with an exactish partner decides `first_exact`.
pub proof fn lemma_first_exact_at(an: Seq<NameV>, pots: Seq<LinkV>, strict: bool, i: int, j: int)
    requires
        0 <= i < an.len(),
        forall|ip: int| 0 <= ip < i ==> exact_j_for_a(#[trigger] an[ip], pots, strict) is None,
        exact_j_for_a(an[i], pots, strict) == Some(j),
    ensures
        first_exact(an, pots, strict) == Some(j),
    decreases i,
{
    if i > 0 {
        assert(forall|ip: int| 0 <= ip < i - 1 ==> an.skip(1)[ip] == an[ip + 1]);
        assert(an.skip(1)[i - 1] == an[i]);
        lemma_first_exact_at(an.skip(1), pots, strict, i - 1, j);
    }
}

proof fn lemma_first_exact_none(an: Seq<NameV>, pots: Seq<LinkV>, strict: bool)
    requires
        forall|ip: int| 0 <= ip < an.len() ==> exact_j_for_a(#[trigger] an[ip], pots, strict) is None,
    ensures
        first_exact(an, pots, strict) is None,
    decreases an.len(),
{
    if an.len() > 0 {
        assert(forall|ip: int| 0 <= ip < an.len() - 1 ==> an.skip(1)[ip] == an[ip + 1]);
        lemma_first_exact_none(an.skip(1), pots, strict);
    }
}

/// Every name in the primary and every candidate is within the size cap.
pub open spec fn links_sized(an: Seq<NameV>, pots: Seq<LinkV>) -> bool {
    &&& (forall|i: int| 0 <= i < an.len() ==> name_sized(#[trigger] an[i]))
    &&& (forall|j: int, k: int|
        0 <= j < pots.len() && 0 <= k < pots[j].names.len() ==> name_sized(
            #[trigger] pots[j].names[k],
        ))
}

/// Determine whether any name of the primary set matches any name of a
/// candidate set. The candidates should be ordered from most proximal to
/// least. In strict mode Cardinal and Way tokens must agree; otherwise
/// exact matches still win first and close matches may fall back. The
/// score is returned in hundredths.
pub fn linker(primary: Link, potentials: Vec<Link>, strict: bool) -> (r: Option<LinkResult>)
    requires
        links_sized(primary@.names, link_views(potentials@)),
    ensures
        match r {
            Some(lr) => spec_linker(primary@.names, link_views(potentials@), strict) == Some(
                (lr.id as int, lr.score as int),
            ) && 7000 <= lr.score <= 10000,
            None => spec_linker(primary@.names, link_views(potentials@), strict) is None,
        },
{
    let ghost an = primary@.names;
    let ghost pv = link_views(potentials@);
    let mut i: usize = 0;
    while i < primary.names.names.len()
        invariant
            i <= primary.names.names@.len(),
            an == primary@.names,
            pv == link_views(potentials@),
            links_sized(an, pv),
            forall|ip: int| 0 <= ip < i ==> exact_j_for_a(#[trigger] an[ip], pv, strict) is None,
        decreases primary.names.names@.len() - i,
    {
        let a = &primary.names.names[i];
        let mut j: usize = 0;
        while j < potentials.len()
            invariant
                j <= potentials@.len(),
                i < primary.names.names@.len(),
                an == primary@.names,
                pv == link_views(potentials@),
                a@ == an[i as int],
                forall|jp: int, k: int|
                    0 <= jp < j && 0 <= k < pv[jp].names.len() ==> !exactish(
                        an[i as int],
                        #[trigger] pv[jp].names[k],
                        strict,
                    ),
                forall|ip: int|
                    0 <= ip < i ==> exact_j_for_a(#[trigger] an[ip], pv, strict) is None,
            decreases potentials@.len() - j,
        {
            let pot = &potentials[j];
            let mut k: usize = 0;
            while k < pot.names.names.len()
                invariant
                    k <= pot.names.names@.len(),
                    j < potentials@.len(),
                    i < primary.names.names@.len(),
                    an == primary@.names,
                    pv == link_views(potentials@),
                    a@ == an[i as int],
                    pot@ == pv[j as int],
                    forall|kp: int|
                        0 <= kp < k ==> !exactish(
                            an[i as int],
                            #[trigger] pv[j as int].names[kp],
                            strict,
                        ),
                    forall|jp: int, kp: int|
                        0 <= jp < j && 0 <= kp < pv[jp].names.len() ==> !exactish(
                            an[i as int],
                            #[trigger] pv[jp].names[kp],
                            strict,
                        ),
                    forall|ip: int|
                        0 <= ip < i ==> exact_j_for_a(#[trigger] an[ip], pv, strict) is None,
                decreases pot.names.names@.len() - k,
            {
                if exact_with(a, &pot.names.names[k], strict) {
                    proof {
                        assert(exactish(an[i as int], pv[j as int].names[k as int], strict));
                        lemma_exact_j_at(an[i as int], pv, strict, j as int);
                        lemma_first_exact_at(an, pv, strict, i as int, j as int);
                    }
                    return Some(LinkResult::new(pot.id, 10000));
                }
                proof {
                    assert(!exactish(an[i as int], pv[j as int].names[k as int], strict));
                }
                k = k + 1;
            }
            j = j + 1;
        }
        proof {
            lemma_exact_j_none(an[i as int], pv, strict);
        }
        i = i + 1;
    }
    proof {
        lemma_first_exact_none(an, pv, strict);
    }
    let mut best: Option<(usize, (i128, i128))> = None;
    let mut j: usize = 0;
    while j < potentials.len()
        invariant
            j <= potentials@.len(),
            an == primary@.names,
            pv == link_views(potentials@),
            links_sized(an, pv),
            first_exact(an, pv, strict) is None,
            match best {
                None => j == 0,
                Some((bj, (n, d))) => bj < potentials@.len() && (contrib_bounded(
                    n as int,
                    d as int,
                ) || (n == 0 && d == 1)),
            },
            best_idx_go(an, pv, strict, 0, None) == best_idx_go(
                an,
                pv,
                strict,
                j as int,
                opt_best_view(best),
            ),
        decreases potentials@.len() - j,
    {
        let m = pot_max_exec(&primary, &potentials[j], strict);
        proof {
            assert(pot_max(an, pv[j as int].names, strict) == (m.0 as int, m.1 as int));
        }
        match best {
            None => {
                best = Some((j, m));
            },
            Some((bj, (bn, bd))) => {
                proof {
                    assert(m.0 * bd <= 0x100000000000000000000000000 && m.0 * bd
                        >= -0x100000000000000000000000000 && bn * m.1
                        <= 0x100000000000000000000000000 && bn * m.1
                        >= -0x100000000000000000000000000) by (nonlinear_arith)
                        requires
                            (contrib_bounded(m.0 as int, m.1 as int) || (m.0 == 0 && m.1 == 1)),
                            (contrib_bounded(bn as int, bd as int) || (bn == 0 && bd == 1)),
                    ;
                }
                if m.0 * bd > bn * m.1 {
                    best = Some((j, m));
                }
            },
        }
        j = j + 1;
    }
    match best {
        None => {
            proof {
                assert(pv.len() == 0);
            }
            None
        },
        Some((bj, (n, d))) => {
            proof {
                assert(70 * d <= 0x1000000000000000) by (nonlinear_arith)
                    requires
                        (contrib_bounded(n as int, d as int) || (n == 0 && d == 1)),
                ;
            }
            if n > 70 * d {
                let score128 = (200 * n + d) / (2 * d);
                proof {
                    assert(best_idx_go(an, pv, strict, 0, None) == Some(
                        (bj as int, (n as int, d as int)),
                    ));
                    assert(7000 <= score128 <= 10000 && score128 == round_x100(n as int, d as int))
                        by (nonlinear_arith)
                        requires
                            score128 == (200 * n + d) / (2 * d),
                            70 * d < n <= 100 * d,
                            0 < d <= 0x100000000000,
                    ;
                }
                Some(LinkResult::new(potentials[bj].id, score128 as i64))
            } else {
                None
            }
        },
    }
}

} // verus!
