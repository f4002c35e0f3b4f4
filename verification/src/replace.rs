use vstd::prelude::*;

verus! {

#[verifier::external_type_specification]
#[verifier::external_body]
pub struct ExRegex(fancy_regex::Regex);

/// Relies on fancy_regex::Regex::find: the byte span of the first match
/// lies within the text; None on no match, a backtracking error, or text
/// that is not UTF-8.
#[verifier::external_body]
fn re_find(re: &fancy_regex::Regex, text: &Vec<u8>) -> (r: Option<(usize, usize)>)
    ensures
        match r {
            Some((s, e)) => s <= e <= text@.len(),
            None => true,
        },
{
    let t = match std::str::from_utf8(text.as_slice()) {
        Ok(t) => t,
        Err(_) => return None,
    };
    match re.find(t) {
        Ok(Some(m)) => Some((m.start(), m.end())),
        _ => None,
    }
}

/// Relies on fancy_regex::Regex::captures and Captures::get: the byte span
/// of capture group `i` of the first match, within the text; None where the
/// group is absent, out of range, or the match fails.
#[verifier::external_body]
fn re_caps_span(re: &fancy_regex::Regex, text: &Vec<u8>, i: usize) -> (r: Option<(usize, usize)>)
    ensures
        match r {
            Some((s, e)) => s <= e <= text@.len(),
            None => true,
        },
{
    let t = match std::str::from_utf8(text.as_slice()) {
        Ok(t) => t,
        Err(_) => return None,
    };
    match re.captures(t) {
        Ok(Some(c)) => c.get(i).map(|m| (m.start(), m.end())),
        _ => None,
    }
}

/// Relies on fancy_regex::Regex::captures_len: the number of capture
/// groups, the whole match included.
#[verifier::external_body]
fn re_caps_len(re: &fancy_regex::Regex) -> (r: usize) {
    re.captures_len()
}

/// Relies on memchr::memchr: the first index of the byte in the haystack.
#[verifier::external_body]
fn memchr_byte(needle: u8, hay: &Vec<u8>) -> (r: Option<usize>)
    ensures
        match r {
            Some(i) => i < hay@.len() && hay@[i as int] == needle && forall|j: int|
                0 <= j < i ==> hay@[j] != needle,
            None => forall|j: int| 0 <= j < hay@.len() ==> hay@[j] != needle,
        },
{
    memchr::memchr(needle, hay.as_slice())
}

/// A reference to a numbered capture group in a replacement string, e.g.
/// `$2`: the group number and the byte length of the reference.
#[derive(Clone, Copy, Debug, Eq, PartialEq, Structural)]
pub struct CaptureRef {
    pub cap: usize,
    pub end: usize,
}

pub open spec fn is_digit_byte(b: u8) -> bool {
    0x30 <= b <= 0x39
}

/// Returns true if and only if the byte is allowed in a capture name; only
/// numbered capture groups are supported.
pub fn is_valid_cap(b: &u8) -> (r: bool)
    ensures
        r == is_digit_byte(*b),
{
    0x30 <= *b && *b <= 0x39
}

/// The end of the digit run starting at `i`.
pub open spec fn byte_digit_end(s: Seq<u8>, i: int) -> int
    decreases s.len() - i,
{
    if 0 <= i < s.len() && is_digit_byte(s[i]) {
        byte_digit_end(s, i + 1)
    } else {
        i
    }
}

/// The numeric value of a byte digit run.
pub open spec fn byte_digits_val(s: Seq<u8>) -> int
    decreases s.len(),
{
    if s.len() == 0 {
        0
    } else {
        byte_digits_val(s.drop_last()) * 10 + (s[s.len() - 1] - 0x30)
    }
}

/// The capture reference a replacement starts with: a dollar sign, then a
/// digit run whose value fits in `u32`.
pub open spec fn spec_find_cap_ref(rep: Seq<u8>) -> Option<CaptureRef> {
    if rep.len() <= 1 || rep[0] != 0x24 {
        None
    } else {
        let e = byte_digit_end(rep, 1);
        if e == 1 || e > usize::MAX {
            None
        } else if byte_digits_val(rep.subrange(1, e)) > u32::MAX {
            None
        } else {
            Some(CaptureRef { cap: byte_digits_val(rep.subrange(1, e)) as usize, end: e as usize })
        }
    }
}

#[via_fn]
proof fn spec_expand_dec(caps: Seq<Option<Seq<u8>>>, rep: Seq<u8>) {
    if rep.len() > 0 && rep[0] == 0x24 && !(rep.len() >= 2 && rep[1] == 0x24) {
        match spec_find_cap_ref(rep) {
            Some(cr) => {
                lemma_byte_digit_end(rep, 1);
            },
            None => {},
        }
    }
}

proof fn lemma_byte_digit_end(s: Seq<u8>, i: int)
    requires
        0 <= i <= s.len(),
    ensures
        i <= byte_digit_end(s, i) <= s.len(),
        forall|k: int| i <= k < byte_digit_end(s, i) ==> is_digit_byte(s[k]),
        byte_digit_end(s, i) < s.len() ==> !is_digit_byte(s[byte_digit_end(s, i)]),
    decreases s.len() - i,
{
    if i < s.len() && is_digit_byte(s[i]) {
        lemma_byte_digit_end(s, i + 1);
    }
}

proof fn lemma_byte_digits_larger(s: Seq<u8>, from: int, i: int, to: int)
    requires
        0 <= from <= i < to <= s.len(),
        forall|k: int| from <= k < to ==> is_digit_byte(s[k]),
        byte_digits_val(s.subrange(from, i)) * 10 + (s[i] - 0x30) > u32::MAX,
        byte_digits_val(s.subrange(from, i)) >= 0,
    ensures
        byte_digits_val(s.subrange(from, to)) > u32::MAX,
    decreases to - i,
{
    assert(s.subrange(from, i + 1).drop_last() =~= s.subrange(from, i));
    assert(s.subrange(from, i + 1)[i - from] == s[i]);
    if i + 1 < to {
        assert(byte_digits_val(s.subrange(from, i + 1)) * 10 >= byte_digits_val(
            s.subrange(from, i + 1),
        )) by (nonlinear_arith)
            requires
                byte_digits_val(s.subrange(from, i + 1)) > 0,
        ;
        lemma_byte_digits_larger(s, from, i + 1, to);
    }
}

/// Parse a possible reference to a capture group at the start of the
/// replacement; None where no valid reference stands there.
pub fn find_cap_ref(replacement: &[u8]) -> (r: Option<CaptureRef>)
    ensures
        r == spec_find_cap_ref(replacement@),
{
    let n = replacement.len();
    if n <= 1 || replacement[0] != 0x24 {
        return None;
    }
    let mut cap_end: usize = 1;
    let mut val: u64 = 0;
    let mut overflow = false;
    while cap_end < n && is_valid_cap(&replacement[cap_end])
        invariant
            1 <= cap_end <= n,
            n == replacement@.len(),
            byte_digit_end(replacement@, 1) == byte_digit_end(replacement@, cap_end as int),
            forall|k: int| 1 <= k < cap_end ==> is_digit_byte(replacement@[k]),
            !overflow ==> val == byte_digits_val(replacement@.subrange(1, cap_end as int))
                && val <= u32::MAX as u64,
            overflow ==> byte_digits_val(replacement@.subrange(1, cap_end as int)) > u32::MAX,
        decreases n - cap_end,
    {
        let b = replacement[cap_end];
        proof {
            assert(replacement@.subrange(1, cap_end + 1).drop_last() =~= replacement@.subrange(
                1,
                cap_end as int,
            ));
            assert(replacement@.subrange(1, cap_end + 1)[cap_end - 1] == replacement@[
                cap_end as int]);
        }
        if !overflow {
            let d = (b - 0x30) as u64;
            let nv = val * 10 + d;
            if nv > u32::MAX as u64 {
                proof {
                    lemma_byte_digit_end(replacement@, 1);
                }
                overflow = true;
            } else {
                val = nv;
            }
        } else {
            proof {
                let pre = replacement@.subrange(1, cap_end as int);
                assert(byte_digits_val(replacement@.subrange(1, cap_end + 1)) == byte_digits_val(
                    pre,
                ) * 10 + (replacement@[cap_end as int] - 0x30));
                assert(byte_digits_val(pre) * 10 > u32::MAX) by (nonlinear_arith)
                    requires
                        byte_digits_val(pre) > u32::MAX,
                ;
            }
        }
        cap_end = cap_end + 1;
    }
    proof {
        assert(byte_digit_end(replacement@, cap_end as int) == cap_end as int);
    }
    if cap_end == 1 {
        return None;
    }
    if overflow {
        return None;
    }
    Some(CaptureRef { cap: val as usize, end: cap_end })
}

fn push_bytes(dst: &mut Vec<u8>, src: &Vec<u8>, from: usize, to: usize)
    requires
        from <= to <= src@.len(),
    ensures
        final(dst)@ == old(dst)@ + src@.subrange(from as int, to as int),
{
    let mut i: usize = from;
    proof {
        assert(dst@ + src@.subrange(from as int, from as int) =~= dst@);
    }
    while i < to
        invariant
            from <= i <= to <= src@.len(),
            dst@ == old(dst)@ + src@.subrange(from as int, i as int),
        decreases to - i,
    {
        dst.push(src[i]);
        proof {
            assert(old(dst)@ + src@.subrange(from as int, i as int).push(src@[i as int]) =~= old(
                dst,
            )@ + src@.subrange(from as int, i + 1));
        }
        i = i + 1;
    }
}

/// The expansion of a replacement against captured group texts: literal
/// bytes are copied, `$$` gives a dollar sign, `$N` gives group `N`'s text
/// (empty where the group is absent), and a lone `$` is literal.
pub open spec fn spec_expand(caps: Seq<Option<Seq<u8>>>, rep: Seq<u8>) -> Seq<u8>
    decreases rep.len(),
    via spec_expand_dec
{
    if rep.len() == 0 {
        Seq::<u8>::empty()
    } else if rep[0] != 0x24 {
        seq![rep[0]] + spec_expand(caps, rep.skip(1))
    } else if rep.len() >= 2 && rep[1] == 0x24 {
        seq![0x24u8] + spec_expand(caps, rep.skip(2))
    } else {
        match spec_find_cap_ref(rep) {
            None => seq![0x24u8] + spec_expand(caps, rep.skip(1)),
            Some(cr) => (if cr.cap < caps.len() {
                match caps[cr.cap as int] {
                    Some(t) => t,
                    None => Seq::<u8>::empty(),
                }
            } else {
                Seq::<u8>::empty()
            }) + spec_expand(caps, rep.skip(cr.end as int)),
        }
    }
}

/// Append the expansion of a replacement string against captured group
/// texts.
pub fn expand_str(caps: &Vec<Option<Vec<u8>>>, replacement: &Vec<u8>, dst: &mut Vec<u8>)
    ensures
        final(dst)@ == old(dst)@ + spec_expand(
            caps@.map_values(
                |o: Option<Vec<u8>>|
                    match o {
                        Some(v) => Some(v@),
                        None => None,
                    },
            ),
            replacement@,
        ),
{
    let ghost cv = caps@.map_values(
        |o: Option<Vec<u8>>|
            match o {
                Some(v) => Some(v@),
                None => None,
            },
    );
    let mut i: usize = 0;
    let n = replacement.len();
    proof {
        assert(replacement@.skip(0) =~= replacement@);
        assert(dst@ + Seq::<u8>::empty() =~= dst@);
    }
    while i < n
        invariant
            i <= n,
            n == replacement@.len(),
            cv == caps@.map_values(
                |o: Option<Vec<u8>>|
                    match o {
                        Some(v) => Some(v@),
                        None => None,
                    },
            ),
            old(dst)@ + spec_expand(cv, replacement@) == dst@ + spec_expand(
                cv,
                replacement@.skip(i as int),
            ),
        decreases n - i,
    {
        proof {
            assert(replacement@.skip(i as int)[0] == replacement@[i as int]);
            assert(replacement@.skip(i as int).skip(1) =~= replacement@.skip(i + 1));
        }
        let ghost d0 = dst@;
        let b = replacement[i];
        if b != 0x24 {
            dst.push(b);
            proof {
                assert(d0.push(b) + spec_expand(cv, replacement@.skip(i + 1)) =~= d0 + (seq![b]
                    + spec_expand(cv, replacement@.skip(i + 1))));
            }
            i = i + 1;
        } else if i + 1 < n && replacement[i + 1] == 0x24 {
            proof {
                assert(replacement@.skip(i as int)[1] == replacement@[i + 1]);
                assert(replacement@.skip(i as int).skip(2) =~= replacement@.skip(i + 2));
            }
            dst.push(0x24);
            proof {
                assert(d0.push(0x24u8) + spec_expand(cv, replacement@.skip(i + 2)) =~= d0 + (seq![
                    0x24u8,
                ] + spec_expand(cv, replacement@.skip(i + 2))));
            }
            i = i + 2;
        } else {
            proof {
                if replacement@.skip(i as int).len() >= 2 {
                    assert(replacement@.skip(i as int)[1] == replacement@[i + 1]);
                }
            }
            let mut tail: Vec<u8> = Vec::new();
            push_bytes(&mut tail, replacement, i, n);
            proof {
                assert(tail@ =~= replacement@.skip(i as int));
            }
            match find_cap_ref(tail.as_slice()) {
                None => {
                    dst.push(0x24);
                    proof {
                        assert(d0.push(0x24u8) + spec_expand(cv, replacement@.skip(i + 1)) =~= d0
                            + (seq![0x24u8] + spec_expand(cv, replacement@.skip(i + 1))));
                    }
                    i = i + 1;
                },
                Some(cr) => {
                    proof {
                        assert(1 <= cr.end <= replacement@.skip(i as int).len()) by {
                            lemma_byte_digit_end(replacement@.skip(i as int), 1);
                        }
                        assert(replacement@.skip(i as int).skip(cr.end as int)
                            =~= replacement@.skip(i + cr.end));
                    }
                    if cr.cap < caps.len() {
                        match &caps[cr.cap] {
                            Some(t) => {
                                let ghost t0 = dst@;
                                push_bytes(dst, t, 0, t.len());
                                proof {
                                    assert(t@.subrange(0, t@.len() as int) =~= t@);
                                    assert(cv[cr.cap as int] == Some(t@));
                                    assert(dst@ =~= t0 + t@);
                                }
                            },
                            None => {
                                proof {
                                    assert(cv[cr.cap as int] is None);
                                    assert(d0 + Seq::<u8>::empty() =~= d0);
                                }
                            },
                        }
                    } else {
                        proof {
                            assert(d0 + Seq::<u8>::empty() =~= d0);
                        }
                    }
                    proof {
                        let piece: Seq<u8> = if cr.cap < cv.len() {
                            match cv[cr.cap as int] {
                                Some(t) => t,
                                None => Seq::<u8>::empty(),
                            }
                        } else {
                            Seq::<u8>::empty()
                        };
                        assert(dst@ =~= d0 + piece);
                        assert(d0 + (piece + spec_expand(cv, replacement@.skip(i + cr.end))) =~= (
                        d0 + piece) + spec_expand(cv, replacement@.skip(i + cr.end)));
                    }
                    i = i + cr.end;
                },
            }
        }
    }
    proof {
        assert(replacement@.skip(n as int) =~= Seq::<u8>::empty());
        assert(dst@ + Seq::<u8>::empty() =~= dst@);
    }
}

/// Relies on String::from_utf8: the bytes as a string where they are valid
/// UTF-8, and None otherwise.
#[verifier::external_body]
fn bytes_to_string(v: Vec<u8>) -> (r: Option<String>)
    ensures
        match r {
            Some(s) => vstd::utf8::encode_utf8(s@) == v@,
            None => true,
        },
{
    String::from_utf8(v).ok()
}

/// One recorded round of the replacement scan: the span of the match in
/// the text still to be scanned, and the captured group texts of that
/// match.
pub ghost struct SpliceStep {
    pub s: int,
    pub e: int,
    pub caps: Seq<Option<Seq<u8>>>,
}

/// Whether a run of recorded rounds fits the input: each round's span lies
/// in its residual text and consumes at least one byte, and each captured
/// group is a contiguous subrange of that residual text.
pub open spec fn splice_wf(input: Seq<u8>, steps: Seq<SpliceStep>) -> bool
    decreases steps.len(),
{
    steps.len() == 0 || {
        let st = steps[0];
        &&& 0 <= st.s <= st.e <= input.len()
        &&& 1 <= st.e
        &&& (forall|g: int|
            0 <= g < st.caps.len() ==> match #[trigger] st.caps[g] {
                Some(t) => exists|gs: int, ge: int|
                    0 <= gs <= ge <= input.len() && t == input.subrange(gs, ge),
                None => true,
            })
        &&& splice_wf(input.skip(st.e), steps.skip(1))
    }
}

/// The text after a run of recorded rounds: each round copies the residual
/// text up to its match, appends the expansion of the replacement against
/// its captures, and continues past the match; what no round reaches is
/// copied whole.
pub open spec fn splice_out(input: Seq<u8>, rep: Seq<u8>, steps: Seq<SpliceStep>) -> Seq<u8>
    decreases steps.len(),
{
    if steps.len() == 0 {
        input
    } else {
        let st = steps[0];
        input.take(st.s) + spec_expand(st.caps, rep) + splice_out(
            input.skip(st.e),
            rep,
            steps.skip(1),
        )
    }
}

/// Extending a scan by one recorded round keeps every continuation of the
/// residual text reachable from the original text.
proof fn lemma_splice_extend(
    tb: Seq<u8>,
    repb: Seq<u8>,
    input0: Seq<u8>,
    o0: Seq<u8>,
    outn: Seq<u8>,
    s: int,
    e: int,
    capsv: Seq<Option<Seq<u8>>>,
)
    requires
        0 <= s <= e <= input0.len(),
        1 <= e,
        forall|g: int|
            0 <= g < capsv.len() ==> match #[trigger] capsv[g] {
                Some(t) => exists|gs: int, ge: int|
                    0 <= gs <= ge <= input0.len() && t == input0.subrange(gs, ge),
                None => true,
            },
        outn == o0 + input0.subrange(0, s) + spec_expand(capsv, repb),
        forall|steps: Seq<SpliceStep>|
            #[trigger] splice_wf(input0, steps) ==> exists|steps2: Seq<SpliceStep>|
                #[trigger] splice_wf(tb, steps2) && o0 + splice_out(input0, repb, steps)
                    == splice_out(tb, repb, steps2),
    ensures
        forall|steps: Seq<SpliceStep>|
            #[trigger] splice_wf(input0.skip(e), steps) ==> exists|steps2: Seq<SpliceStep>|
                #[trigger] splice_wf(tb, steps2) && outn + splice_out(input0.skip(e), repb, steps)
                    == splice_out(tb, repb, steps2),
{
    assert forall|steps: Seq<SpliceStep>| #[trigger] splice_wf(
        input0.skip(e),
        steps,
    ) implies exists|steps2: Seq<SpliceStep>|
        #[trigger] splice_wf(tb, steps2) && outn + splice_out(input0.skip(e), repb, steps)
            == splice_out(tb, repb, steps2) by {
        let st0 = (SpliceStep { s: s, e: e, caps: capsv });
        let steps1 = seq![st0] + steps;
        assert(steps1[0] == st0);
        assert(steps1.skip(1) =~= steps);
        assert(splice_wf(input0, steps1));
        assert(splice_out(input0, repb, steps1) == input0.take(s) + spec_expand(capsv, repb)
            + splice_out(input0.skip(e), repb, steps));
        let steps2 = choose|steps2: Seq<SpliceStep>|
            #[trigger] splice_wf(tb, steps2) && o0 + splice_out(input0, repb, steps1)
                == splice_out(tb, repb, steps2);
        assert(o0 + splice_out(input0, repb, steps1) =~= outn + splice_out(
            input0.skip(e),
            repb,
            steps,
        )) by {
            assert(input0.take(s) == input0.subrange(0, s));
        }
        assert(splice_wf(tb, steps2) && outn + splice_out(input0.skip(e), repb, steps)
            == splice_out(tb, repb, steps2));
    }
}

/// A replacement without a dollar sign expands to itself, whatever was
/// captured.
pub proof fn lemma_expand_no_dollar(caps: Seq<Option<Seq<u8>>>, rep: Seq<u8>)
    requires
        forall|j: int| 0 <= j < rep.len() ==> rep[j] != 0x24,
    ensures
        spec_expand(caps, rep) == rep,
    decreases rep.len(),
{
    if rep.len() > 0 {
        assert(forall|j: int| 0 <= j < rep.skip(1).len() ==> rep.skip(1)[j] == rep[j + 1]);
        lemma_expand_no_dollar(caps, rep.skip(1));
        assert(seq![rep[0]] + rep.skip(1) =~= rep);
    }
}

/// Replace every non-overlapping match of the pattern in the text with the
/// replacement, expanding numbered capture references such as `$1` where
/// the replacement contains a dollar sign. An empty match ends the scan
/// with the rest of the text copied; a failed search or an expansion that
/// is not UTF-8 gives None. Whatever spans the pattern matched, a returned
/// string is the text with each matched span replaced by the expansion of
/// the replacement against that match's captured groups.
pub fn replace_all(re: &fancy_regex::Regex, text: &str, rep: &str) -> (r: Option<String>)
    ensures
        r matches Some(o) ==> exists|steps: Seq<SpliceStep>|
            #[trigger] splice_wf(vstd::utf8::encode_utf8(text@), steps) && vstd::utf8::encode_utf8(
                o@,
            ) == splice_out(
                vstd::utf8::encode_utf8(text@),
                vstd::utf8::encode_utf8(rep@),
                steps,
            ),
{
    let mut input: Vec<u8> = text.as_bytes_vec();
    let rep_bytes: Vec<u8> = rep.as_bytes_vec();
    let ghost tb = input@;
    let ghost repb = rep_bytes@;
    let mut out: Vec<u8> = Vec::new();
    let has_dollar = match memchr_byte(0x24, &rep_bytes) {
        Some(_) => true,
        None => false,
    };
    proof {
        assert forall|steps: Seq<SpliceStep>| #[trigger] splice_wf(input@, steps) implies exists|
            steps2: Seq<SpliceStep>,
        |
            #[trigger] splice_wf(tb, steps2) && out@ + splice_out(input@, repb, steps)
                == splice_out(tb, repb, steps2) by {
            assert(out@ + splice_out(tb, repb, steps) =~= splice_out(tb, repb, steps));
        }
        if input@.len() == 0 {
            assert(splice_wf(tb, Seq::<SpliceStep>::empty()));
            assert(out@ =~= splice_out(tb, repb, Seq::<SpliceStep>::empty()));
        }
    }
    let ghost mut fuel: int = input@.len() as int + 1;
    while input.len() > 0
        invariant_except_break
            fuel >= 0,
            input@.len() <= fuel,
            repb == rep_bytes@,
            !has_dollar ==> (forall|j: int| 0 <= j < repb.len() ==> repb[j] != 0x24),
            forall|steps: Seq<SpliceStep>|
                #[trigger] splice_wf(input@, steps) ==> exists|steps2: Seq<SpliceStep>|
                    #[trigger] splice_wf(tb, steps2) && out@ + splice_out(input@, repb, steps)
                        == splice_out(tb, repb, steps2),
            input@.len() == 0 ==> exists|steps2: Seq<SpliceStep>|
                #[trigger] splice_wf(tb, steps2) && out@ == splice_out(tb, repb, steps2),
        ensures
            exists|steps2: Seq<SpliceStep>|
                #[trigger] splice_wf(tb, steps2) && out@ == splice_out(tb, repb, steps2),
        decreases fuel,
    {
        let ghost o0 = out@;
        let ghost input0 = input@;
        proof {
            assert(splice_wf(input0, Seq::<SpliceStep>::empty()));
        }
        if has_dollar {
            match re_caps_span(re, &input, 0) {
                None => {
                    push_bytes(&mut out, &input, 0, input.len());
                    proof {
                        assert(input0.subrange(0, input0.len() as int) =~= input0);
                        assert(out@ == o0 + splice_out(input0, repb, Seq::<SpliceStep>::empty()));
                    }
                    break ;
                },
                Some((s, e)) => {
                    push_bytes(&mut out, &input, 0, s);
                    if e == 0 {
                        proof {
                            assert(input0.subrange(0, 0) =~= Seq::<u8>::empty());
                            assert(o0 + Seq::<u8>::empty() =~= o0);
                        }
                        push_bytes(&mut out, &input, 0, input.len());
                        proof {
                            assert(input0.subrange(0, input0.len() as int) =~= input0);
                            assert(out@ =~= o0 + splice_out(
                                input0,
                                repb,
                                Seq::<SpliceStep>::empty(),
                            ));
                        }
                        break ;
                    }
                    let ngroups = re_caps_len(re);
                    let mut caps: Vec<Option<Vec<u8>>> = Vec::new();
                    let mut g: usize = 0;
                    while g < ngroups
                        invariant
                            input0 == input@,
                            forall|gi: int|
                                0 <= gi < caps@.len() ==> match #[trigger] caps@[gi] {
                                    Some(t) => exists|gs: int, ge: int|
                                        0 <= gs <= ge <= input0.len() && t@ == input0.subrange(
                                            gs,
                                            ge,
                                        ),
                                    None => true,
                                },
                        decreases ngroups - g,
                    {
                        match re_caps_span(re, &input, g) {
                            None => caps.push(None),
                            Some((gs, ge)) => {
                                let mut t: Vec<u8> = Vec::new();
                                push_bytes(&mut t, &input, gs, ge);
                                proof {
                                    assert(t@ == input0.subrange(gs as int, ge as int));
                                }
                                caps.push(Some(t));
                            },
                        }
                        g = g + 1;
                    }
                    expand_str(&caps, &rep_bytes, &mut out);
                    let ghost capsv = caps@.map_values(
                        |o: Option<Vec<u8>>|
                            match o {
                                Some(v) => Some(v@),
                                None => None,
                            },
                    );
                    let mut rest: Vec<u8> = Vec::new();
                    push_bytes(&mut rest, &input, e, input.len());
                    proof {
                        fuel = fuel - e;
                        assert(rest@.len() == input@.len() - e);
                        assert(rest@ =~= input0.skip(e as int));
                        lemma_splice_extend(
                            tb,
                            repb,
                            input0,
                            o0,
                            out@,
                            s as int,
                            e as int,
                            capsv,
                        );
                        if rest@.len() == 0 {
                            assert(splice_wf(input0.skip(e as int), Seq::<SpliceStep>::empty()));
                            assert(out@ + input0.skip(e as int) =~= out@);
                        }
                    }
                    input = rest;
                },
            }
        } else {
            match re_find(re, &input) {
                None => {
                    push_bytes(&mut out, &input, 0, input.len());
                    proof {
                        assert(input0.subrange(0, input0.len() as int) =~= input0);
                        assert(out@ == o0 + splice_out(input0, repb, Seq::<SpliceStep>::empty()));
                    }
                    break ;
                },
                Some((s, e)) => {
                    push_bytes(&mut out, &input, 0, s);
                    if e == 0 {
                        proof {
                            assert(input0.subrange(0, 0) =~= Seq::<u8>::empty());
                            assert(o0 + Seq::<u8>::empty() =~= o0);
                        }
                        push_bytes(&mut out, &input, 0, input.len());
                        proof {
                            assert(input0.subrange(0, input0.len() as int) =~= input0);
                            assert(out@ =~= o0 + splice_out(
                                input0,
                                repb,
                                Seq::<SpliceStep>::empty(),
                            ));
                        }
                        break ;
                    }
                    push_bytes(&mut out, &rep_bytes, 0, rep_bytes.len());
                    let mut rest: Vec<u8> = Vec::new();
                    push_bytes(&mut rest, &input, e, input.len());
                    proof {
                        fuel = fuel - e;
                        assert(rest@.len() == input@.len() - e);
                        assert(rest@ =~= input0.skip(e as int));
                        let capsv = Seq::<Option<Seq<u8>>>::empty();
                        lemma_expand_no_dollar(capsv, repb);
                        assert(rep_bytes@.subrange(0, rep_bytes@.len() as int) =~= repb);
                        assert(out@ == o0 + input0.subrange(0, s as int) + spec_expand(
                            capsv,
                            repb,
                        ));
                        lemma_splice_extend(
                            tb,
                            repb,
                            input0,
                            o0,
                            out@,
                            s as int,
                            e as int,
                            capsv,
                        );
                        if rest@.len() == 0 {
                            assert(splice_wf(input0.skip(e as int), Seq::<SpliceStep>::empty()));
                            assert(out@ + input0.skip(e as int) =~= out@);
                        }
                    }
                    input = rest;
                },
            }
        }
    }
    proof {
        assert(tb == vstd::utf8::encode_utf8(text@));
        assert(repb == vstd::utf8::encode_utf8(rep@));
    }
    bytes_to_string(out)
}

} // verus!
