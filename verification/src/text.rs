//! Character-level helpers shared by the parsers and formatters of the crate:
//! splitting, integer parsing in the manner of `str::parse`, decimal printing
//! and a few comparisons, all over sequences of characters.
use vstd::prelude::*;

verus! {

// ---------------------------------------------------------------------------
// Building strings
// ---------------------------------------------------------------------------

/// Appends one character to a string, by `String::push`: the claim is that
/// the string's characters afterwards are those before, followed by `c`.
#[verifier::external_body]
pub fn push_char(s: &mut String, c: char)
    ensures
        final(s)@ == old(s)@.push(c),
{
    s.push(c);
}

/// The characters of a string slice, in order.
pub fn chars_of(s: &str) -> (v: Vec<char>)
    ensures
        v@ == s@,
{
    let mut v: Vec<char> = Vec::new();
    for c in it: s.chars()
        invariant
            v@ == it.seq().take(it.index() as int),
    {
        v.push(c);
    }
    v
}

/// Appends a sequence of characters to a string.
pub fn push_chars(s: &mut String, v: &Vec<char>)
    ensures
        final(s)@ == old(s)@ + v@,
{
    let mut i: usize = 0;
    while i < v.len()
        invariant
            0 <= i <= v.len(),
            s@ == old(s)@ + v@.take(i as int),
        decreases v.len() - i,
    {
        proof {
            assert(v@.take(i + 1) =~= v@.take(i as int).push(v@[i as int]));
        }
        push_char(s, v[i]);
        i = i + 1;
    }
    proof {
        assert(v@.take(v.len() as int) =~= v@);
    }
}

/// The string made of the given characters.
pub fn string_of(v: &Vec<char>) -> (s: String)
    ensures
        s@ == v@,
{
    let mut s = String::new();
    push_chars(&mut s, v);
    proof {
        assert(Seq::<char>::empty() + v@ =~= v@);
    }
    s
}

/// Appends a string slice to a string.
pub fn push_str(s: &mut String, t: &str)
    ensures
        final(s)@ == old(s)@ + t@,
{
    let v = chars_of(t);
    push_chars(s, &v);
}

/// The string `a` followed by `b`.
pub fn concat2(a: &str, b: &str) -> (s: String)
    ensures
        s@ == a@ + b@,
{
    let mut s = String::new();
    push_str(&mut s, a);
    push_str(&mut s, b);
    proof {
        assert(Seq::<char>::empty() + a@ =~= a@);
    }
    s
}

/// The string `a` followed by `b` and `c`.
pub fn concat3(a: &str, b: &str, c: &str) -> (s: String)
    ensures
        s@ == a@ + b@ + c@,
{
    let mut s = concat2(a, b);
    push_str(&mut s, c);
    s
}

// ---------------------------------------------------------------------------
// Comparisons
// ---------------------------------------------------------------------------

/// Whether two character vectors are equal.
pub fn chars_eq(a: &Vec<char>, b: &Vec<char>) -> (r: bool)
    ensures
        r == (a@ == b@),
{
    if a.len() != b.len() {
        return false;
    }
    let mut i: usize = 0;
    while i < a.len()
        invariant
            a.len() == b.len(),
            0 <= i <= a.len(),
            forall|k: int| 0 <= k < i ==> a@[k] == b@[k],
        decreases a.len() - i,
    {
        if a[i] != b[i] {
            return false;
        }
        i = i + 1;
    }
    proof {
        assert(a@ =~= b@);
    }
    true
}

/// Whether two string slices hold the same characters.
pub fn str_eq(a: &str, b: &str) -> (r: bool)
    ensures
        r == (a@ == b@),
{
    let va = chars_of(a);
    let vb = chars_of(b);
    chars_eq(&va, &vb)
}

/// `p` is a prefix of `s`.
pub open spec fn is_prefix(p: Seq<char>, s: Seq<char>) -> bool {
    p.len() <= s.len() && s.take(p.len() as int) == p
}

/// Whether `p` is a prefix of `s` (`str::starts_with`).
pub fn starts_with(s: &Vec<char>, p: &Vec<char>) -> (r: bool)
    ensures
        r == is_prefix(p@, s@),
{
    if p.len() > s.len() {
        return false;
    }
    let mut i: usize = 0;
    while i < p.len()
        invariant
            p.len() <= s.len(),
            0 <= i <= p.len(),
            forall|k: int| 0 <= k < i ==> s@[k] == p@[k],
        decreases p.len() - i,
    {
        if s[i] != p[i] {
            proof {
                assert(s@.take(p.len() as int)[i as int] != p@[i as int]);
            }
            return false;
        }
        i = i + 1;
    }
    proof {
        assert(s@.take(p.len() as int) =~= p@);
    }
    true
}

/// Whether `p` is a prefix of `s[start..]`.
pub fn starts_with_at(s: &Vec<char>, start: usize, p: &Vec<char>) -> (r: bool)
    requires
        start <= s.len(),
    ensures
        r == is_prefix(p@, s@.skip(start as int)),
{
    if p.len() > s.len() - start {
        return false;
    }
    let mut i: usize = 0;
    while i < p.len()
        invariant
            p.len() <= s.len() - start,
            start <= s.len(),
            0 <= i <= p.len(),
            forall|k: int| 0 <= k < i ==> s@[start + k] == p@[k],
        decreases p.len() - i,
    {
        if s[start + i] != p[i] {
            proof {
                assert(s@.skip(start as int).take(p.len() as int)[i as int] != p@[i as int]);
            }
            return false;
        }
        i = i + 1;
    }
    proof {
        assert(s@.skip(start as int).take(p.len() as int) =~= p@);
    }
    true
}

/// `a` comes before `b` in the order of `str`: character by character, by
/// code point, a proper prefix first.
pub open spec fn seq_lt(a: Seq<char>, b: Seq<char>) -> bool
    decreases a.len(),
{
    if a.len() == 0 {
        b.len() > 0
    } else if b.len() == 0 {
        false
    } else if a[0] != b[0] {
        (a[0] as int) < (b[0] as int)
    } else {
        seq_lt(a.drop_first(), b.drop_first())
    }
}

/// After a common prefix of length `i`, the order is decided by the rests.
pub proof fn lemma_seq_lt_skip(a: Seq<char>, b: Seq<char>, i: int)
    requires
        0 <= i <= a.len(),
        i <= b.len(),
        a.take(i) == b.take(i),
    ensures
        seq_lt(a, b) == seq_lt(a.skip(i), b.skip(i)),
    decreases i,
{
    if i > 0 {
        assert(a[0] == a.take(i)[0]);
        assert(b[0] == b.take(i)[0]);
        assert(a.drop_first().take(i - 1) =~= a.take(i).drop_first());
        assert(b.drop_first().take(i - 1) =~= b.take(i).drop_first());
        lemma_seq_lt_skip(a.drop_first(), b.drop_first(), i - 1);
        assert(a.drop_first().skip(i - 1) =~= a.skip(i));
        assert(b.drop_first().skip(i - 1) =~= b.skip(i));
    } else {
        assert(a.skip(0) =~= a);
        assert(b.skip(0) =~= b);
    }
}

/// No sequence comes before itself.
pub proof fn lemma_seq_lt_irreflexive(a: Seq<char>)
    ensures
        !seq_lt(a, a),
    decreases a.len(),
{
    if a.len() > 0 {
        lemma_seq_lt_irreflexive(a.drop_first());
    }
}

/// Of two different sequences, one comes before the other.
pub proof fn lemma_seq_lt_total(a: Seq<char>, b: Seq<char>)
    requires
        a != b,
    ensures
        seq_lt(a, b) || seq_lt(b, a),
    decreases a.len(),
{
    if a.len() > 0 && b.len() > 0 && a[0] == b[0] {
        if a.drop_first() == b.drop_first() {
            assert(a =~= seq![a[0]] + a.drop_first());
            assert(b =~= seq![b[0]] + b.drop_first());
        }
        lemma_seq_lt_total(a.drop_first(), b.drop_first());
    } else if a.len() == 0 && b.len() == 0 {
        assert(a =~= b);
    } else if a.len() > 0 && b.len() > 0 {
        assert((a[0] as int) != (b[0] as int));
    }
}

/// The order is transitive.
pub proof fn lemma_seq_lt_transitive(a: Seq<char>, b: Seq<char>, c: Seq<char>)
    requires
        seq_lt(a, b),
        seq_lt(b, c),
    ensures
        seq_lt(a, c),
    decreases a.len(),
{
    if a.len() > 0 && b.len() > 0 && c.len() > 0 && a[0] == b[0] && b[0] == c[0] {
        lemma_seq_lt_transitive(a.drop_first(), b.drop_first(), c.drop_first());
    }
}

/// Whether `a` comes before `b` in the order of `str`.
pub fn chars_lt(a: &Vec<char>, b: &Vec<char>) -> (r: bool)
    ensures
        r == seq_lt(a@, b@),
{
    let mut i: usize = 0;
    while i < a.len() && i < b.len() && a[i] == b[i]
        invariant
            0 <= i <= a.len(),
            i <= b.len(),
            a@.take(i as int) == b@.take(i as int),
        decreases a.len() - i,
    {
        proof {
            assert(a@.take(i + 1) =~= a@.take(i as int).push(a@[i as int]));
            assert(b@.take(i + 1) =~= b@.take(i as int).push(b@[i as int]));
        }
        i = i + 1;
    }
    proof {
        lemma_seq_lt_skip(a@, b@, i as int);
    }
    if i == a.len() {
        i < b.len()
    } else if i == b.len() {
        false
    } else {
        proof {
            assert(a@.skip(i as int)[0] == a@[i as int]);
            assert(b@.skip(i as int)[0] == b@[i as int]);
        }
        a[i] < b[i]
    }
}

/// Whether `a` comes before `b` in the order of `str`.
pub fn str_lt(a: &str, b: &str) -> (r: bool)
    ensures
        r == seq_lt(a@, b@),
{
    let va = chars_of(a);
    let vb = chars_of(b);
    chars_lt(&va, &vb)
}

/// `p` occurs in `s` at position `i`.
pub open spec fn occurs_at(s: Seq<char>, p: Seq<char>, i: int) -> bool {
    0 <= i && i + p.len() <= s.len() && s.subrange(i, i + p.len()) == p
}

/// `p` occurs somewhere in `s` (`str::contains` with a string pattern).
pub open spec fn contains_seq(s: Seq<char>, p: Seq<char>) -> bool {
    exists|i: int| occurs_at(s, p, i)
}

/// The first position at which `p` occurs in `s`, if any (`str::find`).
pub fn find_seq(s: &Vec<char>, p: &Vec<char>) -> (r: Option<usize>)
    ensures
        match r {
            Some(i) => occurs_at(s@, p@, i as int) && forall|j: int|
                0 <= j < i ==> !occurs_at(s@, p@, j),
            None => !contains_seq(s@, p@),
        },
{
    if p.len() > s.len() {
        return None;
    }
    let last = s.len() - p.len();
    let mut i: usize = 0;
    loop
        invariant
            p.len() <= s.len(),
            last == s.len() - p.len(),
            0 <= i <= last,
            forall|j: int| 0 <= j < i ==> !occurs_at(s@, p@, j),
        decreases last - i,
    {
        let mut k: usize = 0;
        let mut same = true;
        while k < p.len()
            invariant
                p.len() <= s.len(),
                i <= last,
                last == s.len() - p.len(),
                0 <= k <= p.len(),
                same ==> forall|m: int| 0 <= m < k ==> s@[i + m] == p@[m],
                !same ==> !occurs_at(s@, p@, i as int),
            decreases p.len() - k,
        {
            if same && s[i + k] != p[k] {
                proof {
                    assert(s@.subrange(i as int, i + p.len())[k as int] == s@[i + k]);
                }
                same = false;
            }
            k = k + 1;
        }
        if same {
            proof {
                assert(s@.subrange(i as int, i + p.len()) =~= p@);
            }
            return Some(i);
        }
        if i == last {
            proof {
                assert forall|j: int| !occurs_at(s@, p@, j) by {
                    if 0 <= j <= i {
                    } else if j > i {
                        assert(j + p.len() > s.len());
                    }
                }
            }
            return None;
        }
        i = i + 1;
    }
}

/// Whether `p` occurs in `s`.
pub fn contains(s: &Vec<char>, p: &Vec<char>) -> (r: bool)
    ensures
        r == contains_seq(s@, p@),
{
    match find_seq(s, p) {
        Some(_) => true,
        None => false,
    }
}

/// The first position at which `p` occurs in `s`.
pub open spec fn first_occurrence(s: Seq<char>, p: Seq<char>) -> int {
    choose|i: int| occurs_at(s, p, i) && forall|j: int| 0 <= j < i ==> !occurs_at(s, p, j)
}

/// `s` with its first occurrence of `p` replaced by `t`, or `s` itself when
/// `p` does not occur (`str::replacen` with a count of one).
pub open spec fn replace_first(s: Seq<char>, p: Seq<char>, t: Seq<char>) -> Seq<char> {
    if contains_seq(s, p) {
        let i = first_occurrence(s, p);
        s.take(i) + t + s.skip(i + p.len())
    } else {
        s
    }
}

/// Replaces the first occurrence of `p` in `s` by `t`.
pub fn replace_first_str(s: &str, p: &str, t: &str) -> (r: String)
    ensures
        r@ == replace_first(s@, p@, t@),
{
    let v = chars_of(s);
    let pv = chars_of(p);
    match find_seq(&v, &pv) {
        None => String::from_str(s),
        Some(i) => {
            proof {
                let c = first_occurrence(s@, p@);
                assert(occurs_at(s@, p@, c) && forall|j: int| 0 <= j < c ==> !occurs_at(s@, p@, j));
                if c < i {
                } else if c > i {
                    assert(!occurs_at(s@, p@, i as int));
                }
            }
            let mut out: Vec<char> = Vec::new();
            let mut k: usize = 0;
            while k < i
                invariant
                    0 <= k <= i,
                    i + pv.len() <= v.len(),
                    out@ == v@.take(k as int),
                decreases i - k,
            {
                out.push(v[k]);
                proof {
                    assert(out@ =~= v@.take(k + 1));
                }
                k = k + 1;
            }
            let mut r = string_of(&out);
            push_str(&mut r, t);
            let mut k2: usize = i + pv.len();
            let ghost mid = r@;
            let mut rest: Vec<char> = Vec::new();
            while k2 < v.len()
                invariant
                    i + pv.len() <= k2 <= v.len(),
                    rest@ == v@.subrange(i + pv.len(), k2 as int),
                decreases v.len() - k2,
            {
                rest.push(v[k2]);
                proof {
                    assert(rest@ =~= v@.subrange(i + pv.len(), k2 + 1));
                }
                k2 = k2 + 1;
            }
            push_chars(&mut r, &rest);
            proof {
                assert(rest@ =~= v@.skip(i + pv.len()));
            }
            r
        },
    }
}

// ---------------------------------------------------------------------------
// Splitting
// ---------------------------------------------------------------------------

/// The pieces of `s` between the characters for which `sep` holds, empty
/// pieces included (`str::split` with a character predicate).
pub open spec fn split_on(s: Seq<char>, sep: spec_fn(char) -> bool) -> Seq<Seq<char>>
    decreases s.len(),
{
    if s.len() == 0 {
        seq![Seq::<char>::empty()]
    } else {
        let r = split_on(s.drop_last(), sep);
        if sep(s.last()) {
            r.push(Seq::<char>::empty())
        } else {
            r.update(r.len() - 1, r.last().push(s.last()))
        }
    }
}

/// There is always at least one piece.
pub proof fn lemma_split_on_len(s: Seq<char>, sep: spec_fn(char) -> bool)
    ensures
        split_on(s, sep).len() >= 1,
    decreases s.len(),
{
    if s.len() > 0 {
        lemma_split_on_len(s.drop_last(), sep);
    }
}

/// The Unicode `White_Space` property (`char::is_whitespace`).
pub open spec fn is_ws(c: char) -> bool {
    let u = c as u32;
    (0x9 <= u && u <= 0xd) || u == 0x20 || u == 0x85 || u == 0xa0 || u == 0x1680 || (0x2000 <= u
        && u <= 0x200a) || u == 0x2028 || u == 0x2029 || u == 0x202f || u == 0x205f || u == 0x3000
}

/// Whether a character is white space (`char::is_whitespace`).
pub fn is_whitespace(c: char) -> (r: bool)
    ensures
        r == is_ws(c),
{
    let u = c as u32;
    (0x9 <= u && u <= 0xd) || u == 0x20 || u == 0x85 || u == 0xa0 || u == 0x1680 || (0x2000 <= u
        && u <= 0x200a) || u == 0x2028 || u == 0x2029 || u == 0x202f || u == 0x205f || u == 0x3000
}

/// The separator predicate: one of `seps`, or white space when `ws`.
pub open spec fn sep_pred(seps: Seq<char>, ws: bool) -> spec_fn(char) -> bool {
    |c: char| seps.contains(c) || (ws && is_ws(c))
}

/// The views of a sequence of character vectors.
pub open spec fn views(v: Seq<Vec<char>>) -> Seq<Seq<char>> {
    v.map_values(|p: Vec<char>| p@)
}

fn is_sep(c: char, seps: &Vec<char>, ws: bool) -> (r: bool)
    ensures
        r == (sep_pred(seps@, ws))(c),
{
    if ws && is_whitespace(c) {
        return true;
    }
    let mut i: usize = 0;
    while i < seps.len()
        invariant
            0 <= i <= seps.len(),
            forall|k: int| 0 <= k < i ==> seps@[k] != c,
            !(ws && is_ws(c)),
        decreases seps.len() - i,
    {
        if seps[i] == c {
            proof {
                assert(seps@.contains(c));
            }
            return true;
        }
        i = i + 1;
    }
    false
}

/// Splits `s` at every separator (a character of `seps`, or white space when
/// `ws`), keeping empty pieces.
pub fn split_pieces(s: &Vec<char>, seps: &Vec<char>, ws: bool) -> (parts: Vec<Vec<char>>)
    ensures
        views(parts@) == split_on(s@, sep_pred(seps@, ws)),
{
    let ghost pred = sep_pred(seps@, ws);
    let mut parts: Vec<Vec<char>> = Vec::new();
    let mut cur: Vec<char> = Vec::new();
    let mut i: usize = 0;
    proof {
        assert(s@.take(0) =~= Seq::<char>::empty());
        assert(views(parts@).push(cur@) =~= seq![Seq::<char>::empty()]);
    }
    while i < s.len()
        invariant
            0 <= i <= s.len(),
            pred == sep_pred(seps@, ws),
            split_on(s@.take(i as int), pred) == views(parts@).push(cur@),
        decreases s.len() - i,
    {
        let c = s[i];
        proof {
            assert(s@.take(i + 1).drop_last() =~= s@.take(i as int));
            assert(s@.take(i + 1).last() == c);
        }
        if is_sep(c, seps, ws) {
            let ghost old_parts = parts@;
            let ghost old_cur = cur@;
            let done = cur;
            parts.push(done);
            cur = Vec::new();
            proof {
                assert(views(parts@) =~= views(old_parts).push(old_cur));
                assert(views(parts@).push(cur@) =~= views(old_parts).push(old_cur).push(
                    Seq::<char>::empty(),
                ));
            }
        } else {
            let ghost old_cur = cur@;
            cur.push(c);
            proof {
                let r = views(parts@).push(old_cur);
                assert(r.update(r.len() - 1, r.last().push(c)) =~= views(parts@).push(cur@));
            }
        }
        i = i + 1;
    }
    let ghost before = parts@;
    parts.push(cur);
    proof {
        assert(s@.take(s.len() as int) =~= s@);
        assert(views(parts@) =~= views(before).push(cur@));
    }
    parts
}

/// The sequence `ps` joined with `sep` between its elements (`[&str]::join`).
pub open spec fn join_with(ps: Seq<Seq<char>>, sep: char) -> Seq<char>
    decreases ps.len(),
{
    if ps.len() == 0 {
        Seq::empty()
    } else if ps.len() == 1 {
        ps[0]
    } else {
        join_with(ps.drop_last(), sep).push(sep) + ps.last()
    }
}

/// Joining one more element adds it after a separator, unless it is the
/// first.
pub proof fn lemma_join_push(ps: Seq<Seq<char>>, x: Seq<char>, sep: char)
    ensures
        join_with(ps.push(x), sep) == if ps.len() == 0 {
            x
        } else {
            join_with(ps, sep).push(sep) + x
        },
{
    let q = ps.push(x);
    assert(q.drop_last() =~= ps);
    assert(q.last() == x);
    if ps.len() == 0 {
        assert(q[0] == x);
    }
}

/// `s` without its leading white space.
pub open spec fn trim_start_ws(s: Seq<char>) -> Seq<char>
    decreases s.len(),
{
    if s.len() > 0 && is_ws(s[0]) {
        trim_start_ws(s.drop_first())
    } else {
        s
    }
}

/// `s` without its trailing white space.
pub open spec fn trim_end_ws(s: Seq<char>) -> Seq<char>
    decreases s.len(),
{
    if s.len() > 0 && is_ws(s.last()) {
        trim_end_ws(s.drop_last())
    } else {
        s
    }
}

/// `s` without its leading and trailing white space (`str::trim`).
pub open spec fn trim_ws(s: Seq<char>) -> Seq<char> {
    trim_end_ws(trim_start_ws(s))
}

/// A string without its leading and trailing white space (`str::trim`).
pub fn trim(s: &str) -> (r: String)
    ensures
        r@ == trim_ws(s@),
{
    let v = chars_of(s);
    let mut i: usize = 0;
    proof {
        assert(v@.skip(0) =~= v@);
    }
    while i < v.len() && is_whitespace(v[i])
        invariant
            0 <= i <= v.len(),
            trim_start_ws(v@) == trim_start_ws(v@.skip(i as int)),
        decreases v.len() - i,
    {
        proof {
            assert(v@.skip(i as int).drop_first() =~= v@.skip(i + 1));
        }
        i = i + 1;
    }
    let ghost t = v@.skip(i as int);
    proof {
        assert(trim_start_ws(v@) == t);
    }
    let mut j: usize = v.len();
    proof {
        assert(t.take(t.len() as int) =~= t);
    }
    while j > i && is_whitespace(v[j - 1])
        invariant
            i <= j <= v.len(),
            t == v@.skip(i as int),
            trim_end_ws(t) == trim_end_ws(t.take(j - i)),
        decreases j,
    {
        proof {
            assert(t.take(j - i).drop_last() =~= t.take(j - i - 1));
            assert(t.take(j - i).last() == v@[j - 1]);
        }
        j = j - 1;
    }
    let mut out: Vec<char> = Vec::new();
    let mut k: usize = i;
    while k < j
        invariant
            i <= k <= j,
            j <= v.len(),
            out@ == v@.subrange(i as int, k as int),
        decreases j - k,
    {
        out.push(v[k]);
        proof {
            assert(out@ =~= v@.subrange(i as int, k + 1));
        }
        k = k + 1;
    }
    proof {
        assert(t.take(j - i) =~= v@.subrange(i as int, j as int));
        if j > i {
            assert(t.take(j - i).last() == v@[j - 1]);
        }
    }
    string_of(&out)
}

/// The plain value of an optional string slice.
pub open spec fn opt_view(o: Option<&str>) -> Option<Seq<char>> {
    match o {
        Some(s) => Some(s@),
        None => None,
    }
}

/// The plain values of a sequence of string pairs.
pub open spec fn pair_views(v: Seq<(String, String)>) -> Seq<(Seq<char>, Seq<char>)> {
    v.map_values(|p: (String, String)| (p.0@, p.1@))
}

/// The non-empty elements of a sequence of pieces, in order.
pub open spec fn non_empty(ps: Seq<Seq<char>>) -> Seq<Seq<char>>
    decreases ps.len(),
{
    if ps.len() == 0 {
        Seq::empty()
    } else if ps.last().len() == 0 {
        non_empty(ps.drop_last())
    } else {
        non_empty(ps.drop_last()).push(ps.last())
    }
}

/// The white-space separated words of `s` (`str::split_whitespace`).
pub open spec fn words(s: Seq<char>) -> Seq<Seq<char>> {
    non_empty(split_on(s, sep_pred(Seq::empty(), true)))
}

/// The kept pieces are not empty.
pub proof fn lemma_non_empty_elems(ps: Seq<Seq<char>>)
    ensures
        forall|i: int| 0 <= i < non_empty(ps).len() ==> (#[trigger] non_empty(ps)[i]).len() > 0,
    decreases ps.len(),
{
    if ps.len() > 0 {
        lemma_non_empty_elems(ps.drop_last());
        let r = non_empty(ps.drop_last());
        if ps.last().len() > 0 {
            assert forall|i: int| 0 <= i < non_empty(ps).len() implies (#[trigger] non_empty(
                ps,
            )[i]).len() > 0 by {
                if i < r.len() {
                    assert(non_empty(ps)[i] == r[i]);
                }
            }
        }
    }
}

/// Words are not empty.
pub proof fn lemma_words_nonempty(s: Seq<char>)
    ensures
        forall|i: int| 0 <= i < words(s).len() ==> (#[trigger] words(s)[i]).len() > 0,
{
    lemma_non_empty_elems(split_on(s, sep_pred(Seq::empty(), true)));
}

/// Splits a string into its white-space separated words (`str::split_whitespace`).
pub fn split_whitespace(s: &str) -> (ws: Vec<String>)
    ensures
        ws@.map_values(|w: String| w@) == words(s@),
{
    let v = chars_of(s);
    let none: Vec<char> = Vec::new();
    let parts = split_pieces(&v, &none, true);
    let ghost ps = views(parts@);
    let mut out: Vec<String> = Vec::new();
    let mut i: usize = 0;
    while i < parts.len()
        invariant
            0 <= i <= parts.len(),
            ps == views(parts@),
            out@.map_values(|w: String| w@) == non_empty(ps.take(i as int)),
        decreases parts.len() - i,
    {
        proof {
            assert(ps.take(i + 1).drop_last() =~= ps.take(i as int));
            assert(ps.take(i + 1).last() == parts@[i as int]@);
        }
        if parts[i].len() > 0 {
            let ghost before = out@;
            let w = string_of(&parts[i]);
            out.push(w);
            proof {
                assert(out@.map_values(|w: String| w@) =~= before.map_values(|w: String| w@).push(
                    parts@[i as int]@,
                ));
            }
        }
        i = i + 1;
    }
    proof {
        assert(ps.take(parts.len() as int) =~= ps);
    }
    out
}

// ---------------------------------------------------------------------------
// Integers
// ---------------------------------------------------------------------------

/// Why a string is not an integer (`core::num::IntErrorKind`).
#[derive(Debug, Clone, Copy, PartialEq, Eq, Structural)]
pub enum IntErrorKind {
    Empty,
    InvalidDigit,
    PosOverflow,
    NegOverflow,
}

/// An ASCII decimal digit.
pub open spec fn is_digit(c: char) -> bool {
    48 <= (c as u32) && (c as u32) <= 57
}

/// The value of an ASCII decimal digit.
pub open spec fn digit_val(c: char) -> int {
    (c as u32) - 48
}

/// Reads `s` left to right as decimal digits, failing at the first
/// character that is not a digit or the first digit that takes the value
/// past `max`.
pub open spec fn scan_digits(s: Seq<char>, max: int, over: IntErrorKind) -> Result<
    int,
    IntErrorKind,
>
    decreases s.len(),
{
    if s.len() == 0 {
        Ok(0)
    } else {
        match scan_digits(s.drop_last(), max, over) {
            Err(e) => Err(e),
            Ok(v) => if !is_digit(s.last()) {
                Err(IntErrorKind::InvalidDigit)
            } else if v * 10 + digit_val(s.last()) > max {
                Err(over)
            } else {
                Ok(v * 10 + digit_val(s.last()))
            },
        }
    }
}

/// A scanned value lies in `0..=max`.
pub proof fn lemma_scan_bounds(s: Seq<char>, max: int, over: IntErrorKind)
    requires
        max >= 0,
    ensures
        scan_digits(s, max, over) matches Ok(v) ==> 0 <= v <= max,
    decreases s.len(),
{
    if s.len() > 0 {
        lemma_scan_bounds(s.drop_last(), max, over);
    }
}

/// `s` read as an unsigned integer no larger than `max`, the way
/// `str::parse` reads an unsigned integer type.
pub open spec fn parse_unsigned(s: Seq<char>, max: int) -> Result<int, IntErrorKind> {
    if s.len() == 0 {
        Err(IntErrorKind::Empty)
    } else if (s[0] == '+' || s[0] == '-') && s.len() == 1 {
        Err(IntErrorKind::InvalidDigit)
    } else if s[0] == '+' {
        scan_digits(s.drop_first(), max, IntErrorKind::PosOverflow)
    } else {
        scan_digits(s, max, IntErrorKind::PosOverflow)
    }
}

/// `s` read as a signed integer in `-(max + 1)..=max`, the way `str::parse`
/// reads a signed integer type.
pub open spec fn parse_signed(s: Seq<char>, max: int) -> Result<int, IntErrorKind> {
    if s.len() == 0 {
        Err(IntErrorKind::Empty)
    } else if (s[0] == '+' || s[0] == '-') && s.len() == 1 {
        Err(IntErrorKind::InvalidDigit)
    } else if s[0] == '+' {
        scan_digits(s.drop_first(), max, IntErrorKind::PosOverflow)
    } else if s[0] == '-' {
        match scan_digits(s.drop_first(), max + 1, IntErrorKind::NegOverflow) {
            Ok(v) => Ok(-v),
            Err(e) => Err(e),
        }
    } else {
        scan_digits(s, max, IntErrorKind::PosOverflow)
    }
}

/// Scans `s[start..]` as digits up to `max`.
fn scan_from(s: &Vec<char>, start: usize, max: u64, over: IntErrorKind) -> (r: Result<
    u64,
    IntErrorKind,
>)
    requires
        start <= s.len(),
    ensures
        match scan_digits(s@.skip(start as int), max as int, over) {
            Ok(v) => r == Ok::<u64, IntErrorKind>(v as u64),
            Err(e) => r == Err::<u64, IntErrorKind>(e),
        },
{
    let ghost t = s@.skip(start as int);
    let mut acc: u128 = 0;
    let mut i: usize = start;
    proof {
        assert(t.take(0) =~= Seq::<char>::empty());
    }
    while i < s.len()
        invariant
            start <= i <= s.len(),
            t == s@.skip(start as int),
            scan_digits(t.take(i - start), max as int, over) == Ok::<int, IntErrorKind>(acc as int),
            acc <= max,
        decreases s.len() - i,
    {
        let c = s[i];
        proof {
            assert(t.take(i - start + 1).drop_last() =~= t.take(i - start));
            assert(t.take(i - start + 1).last() == c);
        }
        let u = c as u32;
        if u < 48 || u > 57 {
            proof {
                lemma_scan_prefix_err(t, (i - start + 1) as int, max as int, over);
            }
            return Err(IntErrorKind::InvalidDigit);
        }
        let next: u128 = acc * 10 + (u - 48) as u128;
        if next > max as u128 {
            proof {
                lemma_scan_prefix_err(t, (i - start + 1) as int, max as int, over);
            }
            return Err(over);
        }
        acc = next;
        i = i + 1;
    }
    proof {
        assert(t.take(i - start) =~= t);
    }
    Ok(acc as u64)
}

/// Once a prefix fails to scan, every longer prefix fails the same way.
pub proof fn lemma_scan_prefix_err(t: Seq<char>, n: int, max: int, over: IntErrorKind)
    requires
        0 <= n <= t.len(),
        scan_digits(t.take(n), max, over) is Err,
    ensures
        scan_digits(t, max, over) == scan_digits(t.take(n), max, over),
    decreases t.len() - n,
{
    if n < t.len() {
        assert(t.take(n + 1).drop_last() =~= t.take(n));
        lemma_scan_prefix_err(t, n + 1, max, over);
    } else {
        assert(t.take(n) =~= t);
    }
}

/// Reads an unsigned integer no larger than `max` from `s`.
pub fn parse_unsigned_chars(s: &Vec<char>, max: u64) -> (r: Result<u64, IntErrorKind>)
    ensures
        match parse_unsigned(s@, max as int) {
            Ok(v) => r == Ok::<u64, IntErrorKind>(v as u64),
            Err(e) => r == Err::<u64, IntErrorKind>(e),
        },
{
    if s.len() == 0 {
        return Err(IntErrorKind::Empty);
    }
    if (s[0] == '+' || s[0] == '-') && s.len() == 1 {
        return Err(IntErrorKind::InvalidDigit);
    }
    if s[0] == '+' {
        proof {
            assert(s@.drop_first() =~= s@.skip(1));
        }
        scan_from(s, 1, max, IntErrorKind::PosOverflow)
    } else {
        proof {
            assert(s@ =~= s@.skip(0));
        }
        scan_from(s, 0, max, IntErrorKind::PosOverflow)
    }
}

/// Reads a signed integer in `-(max + 1)..=max` from `s`.
pub fn parse_signed_chars(s: &Vec<char>, max: u64) -> (r: Result<i64, IntErrorKind>)
    requires
        max < 0x8000_0000_0000_0000,
    ensures
        match parse_signed(s@, max as int) {
            Ok(v) => r == Ok::<i64, IntErrorKind>(v as i64),
            Err(e) => r == Err::<i64, IntErrorKind>(e),
        },
{
    if s.len() == 0 {
        return Err(IntErrorKind::Empty);
    }
    if (s[0] == '+' || s[0] == '-') && s.len() == 1 {
        return Err(IntErrorKind::InvalidDigit);
    }
    if s[0] == '+' {
        proof {
            assert(s@.drop_first() =~= s@.skip(1));
            lemma_scan_bounds(s@.skip(1), max as int, IntErrorKind::PosOverflow);
        }
        match scan_from(s, 1, max, IntErrorKind::PosOverflow) {
            Ok(v) => Ok(v as i64),
            Err(e) => Err(e),
        }
    } else if s[0] == '-' {
        proof {
            assert(s@.drop_first() =~= s@.skip(1));
            lemma_scan_bounds(s@.skip(1), max + 1, IntErrorKind::NegOverflow);
        }
        match scan_from(s, 1, max + 1, IntErrorKind::NegOverflow) {
            Ok(v) => {
                let w: i128 = 0 - (v as i128);
                Ok(w as i64)
            },
            Err(e) => Err(e),
        }
    } else {
        proof {
            assert(s@ =~= s@.skip(0));
            lemma_scan_bounds(s@, max as int, IntErrorKind::PosOverflow);
        }
        match scan_from(s, 0, max, IntErrorKind::PosOverflow) {
            Ok(v) => Ok(v as i64),
            Err(e) => Err(e),
        }
    }
}

/// `str::parse::<u32>`.
pub fn parse_u32(s: &str) -> (r: Result<u32, IntErrorKind>)
    ensures
        match parse_unsigned(s@, u32::MAX as int) {
            Ok(v) => r == Ok::<u32, IntErrorKind>(v as u32),
            Err(e) => r == Err::<u32, IntErrorKind>(e),
        },
{
    let v = chars_of(s);
    proof {
        lemma_parse_unsigned_bounds(s@, u32::MAX as int);
    }
    match parse_unsigned_chars(&v, 0xffff_ffff) {
        Ok(n) => Ok(n as u32),
        Err(e) => Err(e),
    }
}

/// `str::parse::<usize>`.
pub fn parse_usize(s: &str) -> (r: Result<usize, IntErrorKind>)
    ensures
        match parse_unsigned(s@, usize::MAX as int) {
            Ok(v) => r == Ok::<usize, IntErrorKind>(v as usize),
            Err(e) => r == Err::<usize, IntErrorKind>(e),
        },
{
    let v = chars_of(s);
    proof {
        lemma_parse_unsigned_bounds(s@, usize::MAX as int);
    }
    match parse_unsigned_chars(&v, usize::MAX as u64) {
        Ok(n) => Ok(n as usize),
        Err(e) => Err(e),
    }
}

/// `str::parse::<i32>`.
pub fn parse_i32(s: &str) -> (r: Result<i32, IntErrorKind>)
    ensures
        match parse_signed(s@, i32::MAX as int) {
            Ok(v) => r == Ok::<i32, IntErrorKind>(v as i32),
            Err(e) => r == Err::<i32, IntErrorKind>(e),
        },
{
    let v = chars_of(s);
    proof {
        lemma_parse_signed_bounds(s@, i32::MAX as int);
    }
    match parse_signed_chars(&v, 0x7fff_ffff) {
        Ok(n) => Ok(n as i32),
        Err(e) => Err(e),
    }
}

/// An unsigned parse stays in `0..=max`.
pub proof fn lemma_parse_unsigned_bounds(s: Seq<char>, max: int)
    requires
        max >= 0,
    ensures
        parse_unsigned(s, max) matches Ok(v) ==> 0 <= v <= max,
{
    if s.len() > 0 {
        lemma_scan_bounds(s.drop_first(), max, IntErrorKind::PosOverflow);
        lemma_scan_bounds(s, max, IntErrorKind::PosOverflow);
    }
}

/// A signed parse stays in `-(max + 1)..=max`.
pub proof fn lemma_parse_signed_bounds(s: Seq<char>, max: int)
    requires
        max >= 0,
    ensures
        parse_signed(s, max) matches Ok(v) ==> -(max + 1) <= v <= max,
{
    if s.len() > 0 {
        lemma_scan_bounds(s.drop_first(), max, IntErrorKind::PosOverflow);
        lemma_scan_bounds(s.drop_first(), max + 1, IntErrorKind::NegOverflow);
        lemma_scan_bounds(s, max, IntErrorKind::PosOverflow);
    }
}

/// The message that `ParseIntError` displays for each kind.
pub open spec fn int_error_text(k: IntErrorKind) -> Seq<char> {
    match k {
        IntErrorKind::Empty => "cannot parse integer from empty string"@,
        IntErrorKind::InvalidDigit => "invalid digit found in string"@,
        IntErrorKind::PosOverflow => "number too large to fit in target type"@,
        IntErrorKind::NegOverflow => "number too small to fit in target type"@,
    }
}

/// The message that `ParseIntError` displays for `k`.
pub fn int_error_message(k: IntErrorKind) -> (s: String)
    ensures
        s@ == int_error_text(k),
{
    match k {
        IntErrorKind::Empty => String::from_str("cannot parse integer from empty string"),
        IntErrorKind::InvalidDigit => String::from_str("invalid digit found in string"),
        IntErrorKind::PosOverflow => String::from_str("number too large to fit in target type"),
        IntErrorKind::NegOverflow => String::from_str("number too small to fit in target type"),
    }
}

// ---------------------------------------------------------------------------
// Decimal printing
// ---------------------------------------------------------------------------

/// The character of a decimal digit.
pub open spec fn digit_char(d: int) -> char {
    if d == 0 {
        '0'
    } else if d == 1 {
        '1'
    } else if d == 2 {
        '2'
    } else if d == 3 {
        '3'
    } else if d == 4 {
        '4'
    } else if d == 5 {
        '5'
    } else if d == 6 {
        '6'
    } else if d == 7 {
        '7'
    } else if d == 8 {
        '8'
    } else {
        '9'
    }
}

/// The decimal representation of a natural number (`format!("{}", n)`).
pub open spec fn dec(n: nat) -> Seq<char>
    decreases n,
{
    if n < 10 {
        seq![digit_char(n as int)]
    } else {
        dec(n / 10).push(digit_char((n % 10) as int))
    }
}

/// The decimal representation of an integer, with a leading `-` when negative.
pub open spec fn int_text(i: int) -> Seq<char> {
    if i < 0 {
        seq!['-'] + dec((-i) as nat)
    } else {
        dec(i as nat)
    }
}

fn digit_to_char(d: u64) -> (c: char)
    requires
        d < 10,
    ensures
        c == digit_char(d as int),
{
    if d == 0 {
        '0'
    } else if d == 1 {
        '1'
    } else if d == 2 {
        '2'
    } else if d == 3 {
        '3'
    } else if d == 4 {
        '4'
    } else if d == 5 {
        '5'
    } else if d == 6 {
        '6'
    } else if d == 7 {
        '7'
    } else if d == 8 {
        '8'
    } else {
        '9'
    }
}

/// Appends the decimal representation of `n`.
pub fn push_dec(s: &mut String, n: u64)
    ensures
        final(s)@ == old(s)@ + dec(n as nat),
    decreases n,
{
    if n < 10 {
        push_char(s, digit_to_char(n));
        proof {
            assert(old(s)@.push(digit_char(n as int)) =~= old(s)@ + dec(n as nat));
        }
    } else {
        push_dec(s, n / 10);
        let ghost mid = s@;
        push_char(s, digit_to_char(n % 10));
        proof {
            assert(dec(n as nat) == dec((n / 10) as nat).push(digit_char((n % 10) as int)));
            assert(s@ =~= old(s)@ + dec(n as nat));
        }
    }
}

/// Appends the decimal representation of a signed `n`.
pub fn push_int(s: &mut String, n: i64)
    ensures
        final(s)@ == old(s)@ + int_text(n as int),
{
    if n < 0 {
        push_char(s, '-');
        let m: u64 = (0 - (n as i128)) as u64;
        push_dec(s, m);
        proof {
            assert(old(s)@.push('-') + dec(m as nat) =~= old(s)@ + (seq!['-'] + dec(m as nat)));
        }
    } else {
        push_dec(s, n as u64);
    }
}

/// The decimal representation of `n` (`n.to_string()`).
pub fn dec_string(n: u64) -> (s: String)
    ensures
        s@ == dec(n as nat),
{
    let mut s = String::new();
    push_dec(&mut s, n);
    proof {
        assert(Seq::<char>::empty() + dec(n as nat) =~= dec(n as nat));
    }
    s
}

/// The decimal representation of a signed `n` (`n.to_string()`).
pub fn int_string(n: i64) -> (s: String)
    ensures
        s@ == int_text(n as int),
{
    let mut s = String::new();
    push_int(&mut s, n);
    proof {
        assert(Seq::<char>::empty() + int_text(n as int) =~= int_text(n as int));
    }
    s
}

// ---------------------------------------------------------------------------
// Printing then reading
// ---------------------------------------------------------------------------

/// A printed digit is a digit, of its own value.
pub proof fn lemma_digit_char(d: int)
    requires
        0 <= d < 10,
    ensures
        is_digit(digit_char(d)),
        digit_val(digit_char(d)) == d,
        digit_char(d) != '+',
        digit_char(d) != '-',
{
}

/// A decimal number is made of digits.
pub proof fn lemma_dec_digits(n: nat)
    ensures
        dec(n).len() > 0,
        forall|i: int| 0 <= i < dec(n).len() ==> is_digit(#[trigger] dec(n)[i]),
    decreases n,
{
    if n < 10 {
        lemma_digit_char(n as int);
    } else {
        lemma_dec_digits(n / 10);
        lemma_digit_char((n % 10) as int);
        assert forall|i: int| 0 <= i < dec(n).len() implies is_digit(#[trigger] dec(n)[i]) by {
            if i < dec(n / 10).len() {
                assert(dec(n)[i] == dec(n / 10)[i]);
            }
        }
    }
}

/// Reading the decimal text of a number gives the number back.
pub proof fn lemma_scan_dec(n: nat, max: int, over: IntErrorKind)
    requires
        n <= max,
    ensures
        scan_digits(dec(n), max, over) == Ok::<int, IntErrorKind>(n as int),
    decreases n,
{
    if n < 10 {
        lemma_digit_char(n as int);
        assert(dec(n).drop_last() =~= Seq::<char>::empty());
        assert(dec(n).last() == digit_char(n as int));
        assert(scan_digits(dec(n).drop_last(), max, over) == Ok::<int, IntErrorKind>(0));
    } else {
        lemma_scan_dec(n / 10, max, over);
        lemma_digit_char((n % 10) as int);
        assert(dec(n).drop_last() =~= dec(n / 10));
        assert(dec(n).last() == digit_char((n % 10) as int));
        assert((n / 10) * 10 + n % 10 == n);
    }
}

/// `str::parse` reads the decimal text of a number as that number.
pub proof fn lemma_parse_dec(n: nat, max: int)
    requires
        n <= max,
    ensures
        parse_unsigned(dec(n), max) == Ok::<int, IntErrorKind>(n as int),
        parse_signed(dec(n), max) == Ok::<int, IntErrorKind>(n as int),
{
    lemma_dec_digits(n);
    lemma_scan_dec(n, max, IntErrorKind::PosOverflow);
    assert(is_digit(dec(n)[0]));
}

/// A piece without separators splits into itself.
pub proof fn lemma_split_without_sep(t: Seq<char>, sep: spec_fn(char) -> bool)
    requires
        forall|i: int| 0 <= i < t.len() ==> !sep(#[trigger] t[i]),
    ensures
        split_on(t, sep) == seq![t],
    decreases t.len(),
{
    if t.len() > 0 {
        lemma_split_without_sep(t.drop_last(), sep);
        assert(!sep(t[t.len() - 1]));
        assert(t.drop_last().push(t.last()) =~= t);
        assert(seq![t.drop_last()].update(0, t.drop_last().push(t.last())) =~= seq![t]);
    } else {
        assert(t =~= Seq::<char>::empty());
    }
}

/// Splitting `s`, a separator and a piece without separators gives the
/// pieces of `s` and that piece.
pub proof fn lemma_split_after_sep(s: Seq<char>, c: char, t: Seq<char>, sep: spec_fn(char) -> bool)
    requires
        sep(c),
        forall|i: int| 0 <= i < t.len() ==> !sep(#[trigger] t[i]),
    ensures
        split_on(s.push(c) + t, sep) == split_on(s, sep).push(t),
    decreases t.len(),
{
    if t.len() == 0 {
        assert(s.push(c) + t =~= s.push(c));
        assert(s.push(c).drop_last() =~= s);
        assert(t =~= Seq::<char>::empty());
    } else {
        let u = t.drop_last();
        lemma_split_after_sep(s, c, u, sep);
        assert((s.push(c) + t).drop_last() =~= s.push(c) + u);
        assert((s.push(c) + t).last() == t.last());
        assert(!sep(t[t.len() - 1]));
        let r = split_on(s, sep).push(u);
        assert(u.push(t.last()) =~= t);
        assert(r.last() == u);
        assert(r.update(r.len() - 1, r.last().push(t.last())) =~= split_on(s, sep).push(t));
    }
}

} // verus!
