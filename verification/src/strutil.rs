use vstd::prelude::*;

verus! {

/// Unicode whitespace, the set that trimming, whitespace collapsing and
/// word splitting recognize.
pub open spec fn is_space_char(c: char) -> bool {
    let u = c as u32;
    u == 0x20 || (0x09 <= u && u <= 0x0d) || u == 0x85 || u == 0xa0 || u == 0x1680 || (0x2000
        <= u && u <= 0x200a) || u == 0x2028 || u == 0x2029 || u == 0x202f || u == 0x205f || u
        == 0x3000
}

pub fn is_space(c: char) -> (r: bool)
    ensures
        r == is_space_char(c),
{
    let u = c as u32;
    u == 0x20 || (0x09 <= u && u <= 0x0d) || u == 0x85 || u == 0xa0 || u == 0x1680 || (0x2000 <= u
        && u <= 0x200a) || u == 0x2028 || u == 0x2029 || u == 0x202f || u == 0x205f || u == 0x3000
}

/// A character allowed in a constructed display: commas delimit synonyms on
/// output and double quotes would break them, so neither may appear.
pub open spec fn clean_char(c: char) -> bool {
    c != '"' && c != ','
}

pub open spec fn all_clean(s: Seq<char>) -> bool {
    forall|i: int| 0 <= i < s.len() ==> clean_char(#[trigger] s[i])
}

/// Relies on str::chars / unicode_len and str::get_char as specified by vstd:
/// collects the characters of a string slice.
pub fn str_chars(s: &str) -> (v: Vec<char>)
    ensures
        v@ == s@,
{
    let n = s.unicode_len();
    let mut v: Vec<char> = Vec::new();
    let mut i: usize = 0;
    while i < n
        invariant
            i <= n,
            n == s@.len(),
            v@ == s@.take(i as int),
        decreases n - i,
    {
        let c = s.get_char(i);
        v.push(c);
        proof {
            assert(s@.take(i as int).push(s@[i as int]) =~= s@.take(i + 1));
        }
        i = i + 1;
    }
    proof {
        assert(s@.take(n as int) =~= s@);
    }
    v
}

/// Relies on String::push: appends exactly one character at the end.
#[verifier::external_body]
fn push_char(s: &mut String, c: char)
    ensures
        final(s)@ == old(s)@.push(c),
{
    s.push(c);
}

pub fn string_from_chars(v: &Vec<char>) -> (s: String)
    ensures
        s@ == v@,
{
    let mut s = String::new();
    let mut i: usize = 0;
    while i < v.len()
        invariant
            i <= v@.len(),
            s@ == v@.take(i as int),
        decreases v@.len() - i,
    {
        push_char(&mut s, v[i]);
        proof {
            assert(v@.take(i as int).push(v@[i as int]) =~= v@.take(i + 1));
        }
        i = i + 1;
    }
    proof {
        assert(v@.take(v@.len() as int) =~= v@);
    }
    s
}

/// Character-by-character string comparison.
pub fn str_eq(a: &str, b: &str) -> (r: bool)
    ensures
        r == (a@ == b@),
{
    let na = a.unicode_len();
    let nb = b.unicode_len();
    if na != nb {
        proof {
            assert(a@ != b@);
        }
        return false;
    }
    let mut i: usize = 0;
    while i < na
        invariant
            i <= na,
            na == a@.len(),
            na == b@.len(),
            forall|j: int| 0 <= j < i ==> a@[j] == b@[j],
        decreases na - i,
    {
        if a.get_char(i) != b.get_char(i) {
            proof {
                assert(a@[i as int] != b@[i as int]);
            }
            return false;
        }
        i = i + 1;
    }
    proof {
        assert(a@ =~= b@);
    }
    true
}

/// The sequence with its leading whitespace removed.
pub open spec fn trim_left(s: Seq<char>) -> Seq<char>
    decreases s.len(),
{
    if s.len() > 0 && is_space_char(s[0]) {
        trim_left(s.skip(1))
    } else {
        s
    }
}

/// The sequence with its trailing whitespace removed.
pub open spec fn trim_right(s: Seq<char>) -> Seq<char>
    decreases s.len(),
{
    if s.len() > 0 && is_space_char(s[s.len() - 1]) {
        trim_right(s.drop_last())
    } else {
        s
    }
}

/// The sequence with leading and trailing whitespace removed.
pub open spec fn trim_spec(s: Seq<char>) -> Seq<char> {
    trim_right(trim_left(s))
}

proof fn lemma_trim_left_skip(s: Seq<char>, i: int)
    requires
        0 <= i <= s.len(),
        forall|j: int| 0 <= j < i ==> is_space_char(s[j]),
    ensures
        trim_left(s) == trim_left(s.skip(i)),
    decreases i,
{
    if i > 0 {
        assert(is_space_char(s[0]));
        assert(s.skip(1).skip(i - 1) =~= s.skip(i));
        lemma_trim_left_skip(s.skip(1), i - 1);
    } else {
        assert(s.skip(0) =~= s);
    }
}

proof fn lemma_trim_right_take(s: Seq<char>, i: int)
    requires
        0 <= i <= s.len(),
        forall|j: int| i <= j < s.len() ==> is_space_char(s[j]),
    ensures
        trim_right(s) == trim_right(s.take(i)),
    decreases s.len() - i,
{
    if i < s.len() {
        assert(is_space_char(s[s.len() - 1]));
        assert(s.drop_last().take(i) =~= s.take(i));
        lemma_trim_right_take(s.drop_last(), i);
    } else {
        assert(s.take(i) =~= s);
    }
}

pub fn trim_chars(v: &Vec<char>) -> (r: Vec<char>)
    ensures
        r@ == trim_spec(v@),
{
    let mut start: usize = 0;
    while start < v.len() && is_space(v[start])
        invariant
            start <= v@.len(),
            forall|j: int| 0 <= j < start ==> is_space_char(v@[j]),
        decreases v@.len() - start,
    {
        start = start + 1;
    }
    let mut end: usize = v.len();
    while end > start && is_space(v[end - 1])
        invariant
            start <= end <= v@.len(),
            forall|j: int| 0 <= j < start ==> is_space_char(v@[j]),
            forall|j: int| end <= j < v@.len() ==> is_space_char(v@[j]),
        decreases end,
    {
        end = end - 1;
    }
    let mut r: Vec<char> = Vec::new();
    let mut i: usize = start;
    while i < end
        invariant
            start <= i <= end <= v@.len(),
            r@ == v@.subrange(start as int, i as int),
        decreases end - i,
    {
        r.push(v[i]);
        proof {
            assert(v@.subrange(start as int, i as int).push(v@[i as int]) =~= v@.subrange(
                start as int,
                i + 1,
            ));
        }
        i = i + 1;
    }
    proof {
        lemma_trim_left_skip(v@, start as int);
        let sk = v@.skip(start as int);
        if start < end {
            assert(!is_space_char(v@[start as int]));
            assert(sk[0] == v@[start as int]);
            assert(trim_left(sk) == sk);
        } else {
            assert(start == end);
            assert(forall|j: int| 0 <= j < sk.len() ==> is_space_char(sk[j]));
            lemma_trim_left_all_spaces(sk);
            assert(r@ =~= Seq::<char>::empty());
            assert(trim_right(Seq::<char>::empty()) =~= Seq::<char>::empty());
        }
        if start < end {
            lemma_trim_right_take(sk, end - start);
            let tk = sk.take(end - start);
            assert(!is_space_char(v@[end - 1]));
            assert(tk.len() == end - start);
            assert(tk[tk.len() - 1] == v@[end - 1]);
            assert(trim_right(tk) == tk);
            assert(r@ =~= tk);
        }
    }
    r
}

proof fn lemma_trim_left_all_spaces(s: Seq<char>)
    requires
        forall|j: int| 0 <= j < s.len() ==> is_space_char(s[j]),
    ensures
        trim_left(s) =~= Seq::<char>::empty(),
    decreases s.len(),
{
    if s.len() > 0 {
        lemma_trim_left_all_spaces(s.skip(1));
    }
}

/// Whitespace runs collapsed to single spaces; `prev_space` records whether the
/// character just before `s` was whitespace.
pub open spec fn collapse_go(s: Seq<char>, prev_space: bool) -> Seq<char>
    decreases s.len(),
{
    if s.len() == 0 {
        Seq::<char>::empty()
    } else {
        let c = s[0];
        let rest = collapse_go(s.skip(1), is_space_char(c));
        if is_space_char(c) {
            if prev_space {
                rest
            } else {
                seq![' '] + rest
            }
        } else {
            seq![c] + rest
        }
    }
}

/// Every whitespace run replaced by a single space character.
pub open spec fn collapse_ws(s: Seq<char>) -> Seq<char> {
    collapse_go(s, false)
}

pub fn collapse_chars(v: &Vec<char>) -> (r: Vec<char>)
    ensures
        r@ == collapse_ws(v@),
{
    let mut r: Vec<char> = Vec::new();
    let mut prev_space = false;
    let mut i: usize = 0;
    proof {
        assert(v@.skip(0) =~= v@);
        assert(r@ + collapse_go(v@, false) =~= collapse_go(v@, false));
    }
    while i < v.len()
        invariant
            i <= v@.len(),
            collapse_ws(v@) == r@ + collapse_go(v@.skip(i as int), prev_space),
        decreases v@.len() - i,
    {
        let c = v[i];
        proof {
            assert(v@.skip(i as int)[0] == v@[i as int]);
            assert(v@.skip(i as int).skip(1) =~= v@.skip(i + 1));
        }
        let ghost r0 = r@;
        if is_space(c) {
            if !prev_space {
                r.push(' ');
                proof {
                    assert(r0.push(' ') + collapse_go(v@.skip(i + 1), true) =~= r0 + (seq![' ']
                        + collapse_go(v@.skip(i + 1), true)));
                }
            }
            prev_space = true;
        } else {
            r.push(c);
            proof {
                assert(r0.push(c) + collapse_go(v@.skip(i + 1), false) =~= r0 + (seq![c]
                    + collapse_go(v@.skip(i + 1), false)));
            }
            prev_space = false;
        }
        i = i + 1;
    }
    proof {
        assert(v@.skip(v@.len() as int) =~= Seq::<char>::empty());
        assert(r@ + Seq::<char>::empty() =~= r@);
    }
    r
}

/// Split on single spaces, dropping empty parts; `cur` is the part read so far.
pub open spec fn split_go(s: Seq<char>, cur: Seq<char>) -> Seq<Seq<char>>
    decreases s.len(),
{
    if s.len() == 0 {
        if cur.len() == 0 {
            Seq::<Seq<char>>::empty()
        } else {
            seq![cur]
        }
    } else if s[0] == ' ' {
        if cur.len() == 0 {
            split_go(s.skip(1), Seq::<char>::empty())
        } else {
            seq![cur] + split_go(s.skip(1), Seq::<char>::empty())
        }
    } else {
        split_go(s.skip(1), cur.push(s[0]))
    }
}

/// The nonempty parts of `s` between space characters, in order.
pub open spec fn split_sp(s: Seq<char>) -> Seq<Seq<char>> {
    split_go(s, Seq::<char>::empty())
}

/// The views of a sequence of character vectors.
pub open spec fn views(s: Seq<Vec<char>>) -> Seq<Seq<char>> {
    s.map_values(|x: Vec<char>| x@)
}

pub fn split_spaces(v: &Vec<char>) -> (r: Vec<Vec<char>>)
    ensures
        views(r@) == split_sp(v@),
{
    let mut r: Vec<Vec<char>> = Vec::new();
    let mut cur: Vec<char> = Vec::new();
    let mut i: usize = 0;
    proof {
        assert(v@.skip(0) =~= v@);
        assert(views(r@) =~= Seq::<Seq<char>>::empty());
        assert(views(r@) + split_go(v@, Seq::<char>::empty()) =~= split_go(
            v@,
            Seq::<char>::empty(),
        ));
    }
    while i < v.len()
        invariant
            i <= v@.len(),
            split_sp(v@) == views(r@) + split_go(v@.skip(i as int), cur@),
        decreases v@.len() - i,
    {
        let c = v[i];
        proof {
            assert(v@.skip(i as int)[0] == v@[i as int]);
            assert(v@.skip(i as int).skip(1) =~= v@.skip(i + 1));
        }
        if c == ' ' {
            if cur.len() > 0 {
                let ghost r0 = r@;
                let ghost curv = cur@;
                let done = cur;
                cur = Vec::new();
                r.push(done);
                proof {
                    assert(views(r@) =~= views(r0).push(curv));
                    assert(views(r0).push(curv) + split_go(v@.skip(i + 1), Seq::<char>::empty())
                        =~= views(r0) + (seq![curv] + split_go(v@.skip(i + 1), Seq::<char>::empty())));
                }
            } else {
                proof {
                    assert(cur@ =~= Seq::<char>::empty());
                }
            }
        } else {
            cur.push(c);
        }
        i = i + 1;
    }
    proof {
        assert(v@.skip(v@.len() as int) =~= Seq::<char>::empty());
    }
    if cur.len() > 0 {
        let ghost r0 = r@;
        let ghost curv = cur@;
        r.push(cur);
        proof {
            assert(views(r@) =~= views(r0).push(curv));
            assert(views(r0) + seq![curv] =~= views(r0).push(curv));
        }
    } else {
        proof {
            assert(views(r@) + Seq::<Seq<char>>::empty() =~= views(r@));
        }
    }
    r
}

/// The remaining parts, each preceded by a single space.
pub open spec fn join_tail(parts: Seq<Seq<char>>) -> Seq<char>
    decreases parts.len(),
{
    if parts.len() == 0 {
        Seq::<char>::empty()
    } else {
        seq![' '] + parts[0] + join_tail(parts.skip(1))
    }
}

/// The parts joined with single spaces between them.
pub open spec fn join_sp(parts: Seq<Seq<char>>) -> Seq<char> {
    if parts.len() == 0 {
        Seq::<char>::empty()
    } else {
        parts[0] + join_tail(parts.skip(1))
    }
}

pub fn join_spaces(parts: &Vec<Vec<char>>) -> (r: Vec<char>)
    ensures
        r@ == join_sp(views(parts@)),
{
    let ghost pv = views(parts@);
    let mut r: Vec<char> = Vec::new();
    let mut i: usize = 0;
    while i < parts.len()
        invariant
            i <= parts@.len(),
            pv == views(parts@),
            i == 0 ==> r@ =~= Seq::<char>::empty(),
            i > 0 ==> join_sp(pv) == r@ + join_tail(pv.skip(i as int)),
        decreases parts@.len() - i,
    {
        proof {
            assert(pv.skip(i as int)[0] == pv[i as int]);
            assert(pv.skip(i as int).skip(1) =~= pv.skip(i + 1));
        }
        if i > 0 {
            r.push(' ');
        }
        let part = &parts[i];
        let mut j: usize = 0;
        let ghost mid = r@;
        while j < part.len()
            invariant
                j <= part@.len(),
                r@ == mid + part@.take(j as int),
            decreases part@.len() - j,
        {
            let ghost r0 = r@;
            r.push(part[j]);
            proof {
                assert(part@.take(j as int).push(part@[j as int]) =~= part@.take(j + 1));
                assert(mid + part@.take(j + 1) =~= r0.push(part@[j as int]));
            }
            j = j + 1;
        }
        proof {
            assert(part@.take(part@.len() as int) =~= part@);
            assert(part@ == pv[i as int]);
            assert(r@ =~= mid + part@);
            if i == 0 {
                assert(pv.skip(0) =~= pv);
                assert(join_sp(pv) == pv[0] + join_tail(pv.skip(1)));
                assert(r@ =~= pv[0]);
                assert(pv[0] + join_tail(pv.skip(1)) =~= r@ + join_tail(pv.skip(1)));
            } else {
                let ghost r_pre = mid.drop_last();
                assert(mid =~= r_pre + seq![' ']);
                assert(join_tail(pv.skip(i as int)) == seq![' '] + pv[i as int] + join_tail(
                    pv.skip(i + 1),
                ));
                assert(r_pre + join_tail(pv.skip(i as int)) =~= (r_pre + seq![' '] + part@)
                    + join_tail(pv.skip(i + 1)));
            }
        }
        i = i + 1;
    }
    proof {
        if pv.len() > 0 {
            assert(pv.skip(pv.len() as int) =~= Seq::<Seq<char>>::empty());
            assert(r@ + Seq::<char>::empty() =~= r@);
        }
    }
    r
}

} // verus!
