//! Character-level text utilities: lexical order of names and
//! placeholder substitution in templates.
use vstd::prelude::*;

verus! {

/// Strict lexical order on character sequences, by code point. On valid
/// strings this is the same order as the order on their UTF-8 bytes.
pub open spec fn lex_lt(a: Seq<char>, b: Seq<char>) -> bool
    decreases a.len(),
{
    if a.len() == 0 {
        b.len() > 0
    } else if b.len() == 0 {
        false
    } else if a[0] != b[0] {
        (a[0] as int) < (b[0] as int)
    } else {
        lex_lt(a.drop_first(), b.drop_first())
    }
}

pub proof fn lemma_lex_irreflexive(a: Seq<char>)
    ensures
        !lex_lt(a, a),
    decreases a.len(),
{
    if a.len() > 0 {
        lemma_lex_irreflexive(a.drop_first());
    }
}

pub proof fn lemma_lex_trichotomy(a: Seq<char>, b: Seq<char>)
    ensures
        lex_lt(a, b) || lex_lt(b, a) || a == b,
        !(lex_lt(a, b) && lex_lt(b, a)),
    decreases a.len(),
{
    if a.len() > 0 && b.len() > 0 {
        if a[0] == b[0] {
            lemma_lex_trichotomy(a.drop_first(), b.drop_first());
            if a.drop_first() == b.drop_first() {
                assert(a =~= seq![a[0]] + a.drop_first());
                assert(b =~= seq![b[0]] + b.drop_first());
            }
        } else {
            assert((a[0] as int) != (b[0] as int));
        }
    } else if a.len() == 0 && b.len() == 0 {
        assert(a =~= b);
    }
}

pub proof fn lemma_lex_transitive(a: Seq<char>, b: Seq<char>, c: Seq<char>)
    requires
        lex_lt(a, b),
        lex_lt(b, c),
    ensures
        lex_lt(a, c),
    decreases a.len(),
{
    if a.len() > 0 && b.len() > 0 && c.len() > 0 && a[0] == b[0] && b[0] == c[0] {
        lemma_lex_transitive(a.drop_first(), b.drop_first(), c.drop_first());
    }
}

/// Sequences whose entries are strictly increasing in lexical order.
pub open spec fn strictly_sorted(s: Seq<Seq<char>>) -> bool {
    forall|i: int, j: int| 0 <= i < j < s.len() ==> lex_lt(#[trigger] s[i], #[trigger] s[j])
}

/// The character views of a sequence of strings.
pub open spec fn views_of(v: Seq<String>) -> Seq<Seq<char>> {
    v.map_values(|s: String| s@)
}

/// Compares two strings in lexical order: negative when `a` comes first,
/// zero when they are equal, positive when `b` comes first.
pub fn compare(a: &str, b: &str) -> (r: i8)
    ensures
        r < 0 <==> lex_lt(a@, b@),
        r == 0 <==> a@ == b@,
        r > 0 <==> lex_lt(b@, a@),
{
    proof {
        lemma_lex_trichotomy(a@, b@);
        lemma_lex_irreflexive(a@);
    }
    let na = a.unicode_len();
    let nb = b.unicode_len();
    let mut i: usize = 0;
    assert(a@.skip(0) =~= a@);
    assert(b@.skip(0) =~= b@);
    while i < na && i < nb
        invariant
            na == a@.len(),
            nb == b@.len(),
            i <= na,
            i <= nb,
            a@.subrange(0, i as int) == b@.subrange(0, i as int),
            lex_lt(a@, b@) == lex_lt(a@.skip(i as int), b@.skip(i as int)),
            lex_lt(b@, a@) == lex_lt(b@.skip(i as int), a@.skip(i as int)),
        decreases na - i,
    {
        let ca = a.get_char(i);
        let cb = b.get_char(i);
        if ca != cb {
            return if (ca as u32) < (cb as u32) {
                -1
            } else {
                1
            };
        }
        assert(a@.skip(i as int).drop_first() =~= a@.skip(i as int + 1));
        assert(b@.skip(i as int).drop_first() =~= b@.skip(i as int + 1));
        assert(a@.subrange(0, i as int + 1) =~= a@.subrange(0, i as int).push(ca));
        assert(b@.subrange(0, i as int + 1) =~= b@.subrange(0, i as int).push(cb));
        i = i + 1;
    }
    if i < nb {
        -1
    } else if i < na {
        1
    } else {
        assert(a@ =~= a@.subrange(0, i as int));
        assert(b@ =~= b@.subrange(0, i as int));
        0
    }
}

} // verus!

verus! {

/// `p` occurs in `t` starting at position `i`.
pub open spec fn occurs_at(t: Seq<char>, p: Seq<char>, i: int) -> bool {
    0 <= i && i + p.len() <= t.len() && t.subrange(i, i + p.len()) == p
}

/// `p` occurs somewhere in `t`.
pub open spec fn occurs_in(t: Seq<char>, p: Seq<char>) -> bool {
    exists|i: int| occurs_at(t, p, i)
}

/// `t` with every occurrence of the non-empty pattern `p` replaced by `v`,
/// scanning from the left and resuming after each replaced occurrence.
pub open spec fn replace_all(t: Seq<char>, p: Seq<char>, v: Seq<char>) -> Seq<char>
    decreases t.len(),
{
    if t.len() == 0 {
        Seq::empty()
    } else if p.len() > 0 && occurs_at(t, p, 0) {
        v + replace_all(t.skip(p.len() as int), p, v)
    } else {
        seq![t[0]] + replace_all(t.drop_first(), p, v)
    }
}

/// The characters of `s`, one per element.
pub fn chars_of(s: &str) -> (r: Vec<char>)
    ensures
        r@ == s@,
{
    let n = s.unicode_len();
    let mut r: Vec<char> = Vec::new();
    let mut i: usize = 0;
    while i < n
        invariant
            n == s@.len(),
            i <= n,
            r@ == s@.subrange(0, i as int),
        decreases n - i,
    {
        r.push(s.get_char(i));
        assert(s@.subrange(0, i as int + 1) =~= s@.subrange(0, i as int).push(s@[i as int]));
        i = i + 1;
    }
    assert(s@.subrange(0, n as int) =~= s@);
    r
}

fn occurs_at_exec(t: &Vec<char>, p: &Vec<char>, i: usize) -> (r: bool)
    ensures
        r == occurs_at(t@, p@, i as int),
{
    if i > t.len() || p.len() > t.len() - i {
        return false;
    }
    let mut k: usize = 0;
    while k < p.len()
        invariant
            i + p@.len() <= t.len(),
            k <= p@.len(),
            forall|j: int| 0 <= j < k ==> t@[i + j] == p@[j],
        decreases p@.len() - k,
    {
        if t[i + k] != p[k] {
            assert(t@.subrange(i as int, i + p@.len())[k as int] != p@[k as int]);
            return false;
        }
        k = k + 1;
    }
    assert(t@.subrange(i as int, i + p@.len()) =~= p@);
    true
}

/// Replaces every occurrence of the non-empty pattern `p` in `t` by `v`,
/// and tells whether there was at least one.
pub fn replace_all_exec(t: &str, p: &str, v: &str) -> (r: (String, bool))
    requires
        p@.len() > 0,
    ensures
        r.0@ == replace_all(t@, p@, v@),
        r.1 == occurs_in(t@, p@),
{
    let tc = chars_of(t);
    let pc = chars_of(p);
    let n = tc.len();
    let mut out = String::new();
    let mut start: usize = 0;
    let mut i: usize = 0;
    let mut found = false;
    assert(t@.skip(0) =~= t@);
    while i < n
        invariant
            tc@ == t@,
            pc@ == p@,
            p@.len() > 0,
            n == t@.len(),
            start <= i <= n,
            out@ + t@.subrange(start as int, i as int) + replace_all(t@.skip(i as int), p@, v@)
                == replace_all(t@, p@, v@),
            found ==> occurs_in(t@, p@),
            !found ==> forall|j: int| 0 <= j < i ==> !occurs_at(t@, p@, j),
        decreases n - i,
    {
        let ghost rest = t@.skip(i as int);
        if occurs_at_exec(&tc, &pc, i) {
            assert(rest.subrange(0, p@.len() as int) =~= t@.subrange(i as int, i + p@.len()));
            assert(rest.skip(p@.len() as int) =~= t@.skip(i + p@.len()));
            let chunk = t.substring_char(start, i);
            out.append(chunk);
            out.append(v);
            i = i + pc.len();
            start = i;
            found = true;
            assert(t@.subrange(start as int, i as int) =~= Seq::<char>::empty());
            assert(out@ + t@.subrange(start as int, i as int) + replace_all(t@.skip(i as int), p@, v@)
                =~= out@ + replace_all(t@.skip(i as int), p@, v@));
        } else {
            assert(!occurs_at(rest, p@, 0)) by {
                if occurs_at(rest, p@, 0) {
                    assert(rest.subrange(0, p@.len() as int) =~= t@.subrange(i as int, i + p@.len()));
                }
            }
            assert(rest.drop_first() =~= t@.skip(i + 1));
            let ghost old_out = out@;
            let ghost old_i = i;
            i = i + 1;
            assert(t@.subrange(start as int, i as int) =~= t@.subrange(start as int, old_i as int).push(t@[old_i as int]));
            assert(old_out + t@.subrange(start as int, old_i as int) + replace_all(rest, p@, v@)
                =~= out@ + t@.subrange(start as int, i as int) + replace_all(t@.skip(i as int), p@, v@));
        }
    }
    let chunk = t.substring_char(start, n);
    out.append(chunk);
    assert(t@.skip(n as int) =~= Seq::<char>::empty());
    assert(out@ =~= out@ + replace_all(t@.skip(n as int), p@, v@));
    if !found {
        assert(!occurs_in(t@, p@)) by {
            if occurs_in(t@, p@) {
                let j = choose|j: int| occurs_at(t@, p@, j);
                assert(j < n);
            }
        }
    }
    (out, found)
}

} // verus!

verus! {

/// Two strictly sorted sequences that hold the same entries are equal.
pub proof fn lemma_sorted_unique(a: Seq<Seq<char>>, b: Seq<Seq<char>>)
    requires
        strictly_sorted(a),
        strictly_sorted(b),
        forall|n: Seq<char>| a.contains(n) <==> b.contains(n),
    ensures
        a == b,
    decreases a.len(),
{
    if a.len() == 0 {
        if b.len() > 0 {
            assert(b.contains(b[0]));
        }
        assert(a =~= b);
    } else {
        assert(a.contains(a[0]));
        let k = choose|k: int| 0 <= k < b.len() && b[k] == a[0];
        assert(b.contains(b[0]));
        let m = choose|m: int| 0 <= m < a.len() && a[m] == b[0];
        if k > 0 {
            assert(lex_lt(b[0], a[0]));
            if m == 0 {
                lemma_lex_irreflexive(a[0]);
            } else {
                assert(lex_lt(a[0], b[0]));
                lemma_lex_trichotomy(a[0], b[0]);
            }
        }
        let ta = a.drop_first();
        let tb = b.drop_first();
        assert forall|n: Seq<char>| ta.contains(n) <==> tb.contains(n) by {
            if ta.contains(n) {
                let i = choose|i: int| 0 <= i < ta.len() && ta[i] == n;
                assert(a[i + 1] == n);
                assert(b.contains(n));
                let j = choose|j: int| 0 <= j < b.len() && b[j] == n;
                if j == 0 {
                    lemma_lex_irreflexive(n);
                }
                assert(tb[j - 1] == n);
            }
            if tb.contains(n) {
                let i = choose|i: int| 0 <= i < tb.len() && tb[i] == n;
                assert(b[i + 1] == n);
                assert(a.contains(n));
                let j = choose|j: int| 0 <= j < a.len() && a[j] == n;
                if j == 0 {
                    lemma_lex_irreflexive(n);
                }
                assert(ta[j - 1] == n);
            }
        }
        lemma_sorted_unique(ta, tb);
        assert(a =~= seq![a[0]] + ta);
        assert(b =~= seq![b[0]] + tb);
    }
}

} // verus!
