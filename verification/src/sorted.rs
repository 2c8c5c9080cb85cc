//! Sets of texts kept as strictly ascending lists, in the order of `String`'s
//! `Ord` (lexicographic by character, which UTF-8 byte order agrees with).
use vstd::prelude::*;

use crate::text::{chars_eq, chars_of};

verus! {

/// `a` sorts strictly before `b`.
pub open spec fn lex_lt(a: Seq<char>, b: Seq<char>) -> bool
    decreases a.len(),
{
    if a.len() == 0 {
        b.len() > 0
    } else if b.len() == 0 {
        false
    } else if a[0] != b[0] {
        a[0] < b[0]
    } else {
        lex_lt(a.drop_first(), b.drop_first())
    }
}

/// Every item sorts strictly before every later one.
pub open spec fn strictly_sorted(s: Seq<Seq<char>>) -> bool {
    forall|i: int, j: int| 0 <= i < j < s.len() ==> lex_lt(#[trigger] s[i], #[trigger] s[j])
}

/// `s` with `x` added where it is missing, keeping the ascending order of a
/// strictly sorted `s`.
pub open spec fn sorted_insert(s: Seq<Seq<char>>, x: Seq<char>) -> Seq<Seq<char>>
    decreases s.len(),
{
    if s.len() == 0 {
        seq![x]
    } else if s[0] == x {
        s
    } else if lex_lt(x, s[0]) {
        seq![x] + s
    } else {
        seq![s[0]] + sorted_insert(s.drop_first(), x)
    }
}

pub proof fn lemma_lex_irreflexive(a: Seq<char>)
    ensures
        !lex_lt(a, a),
    decreases a.len(),
{
    if a.len() > 0 {
        lemma_lex_irreflexive(a.drop_first());
    }
}

pub proof fn lemma_lex_asymmetric(a: Seq<char>, b: Seq<char>)
    ensures
        !(lex_lt(a, b) && lex_lt(b, a)),
    decreases a.len(),
{
    if a.len() > 0 && b.len() > 0 && a[0] == b[0] {
        lemma_lex_asymmetric(a.drop_first(), b.drop_first());
    }
}

pub proof fn lemma_lex_transitive(a: Seq<char>, b: Seq<char>, c: Seq<char>)
    requires
        lex_lt(a, b),
        lex_lt(b, c),
    ensures
        lex_lt(a, c),
    decreases a.len(),
{
    if a.len() > 0 && b.len() > 0 && c.len() > 0 && a[0] == b[0] && b[0] == c[0] {
        lemma_lex_transitive(a.drop_first(), b.drop_first(), c.drop_first());
    }
}

pub proof fn lemma_lex_total(a: Seq<char>, b: Seq<char>)
    ensures
        a == b || lex_lt(a, b) || lex_lt(b, a),
    decreases a.len(),
{
    if a.len() > 0 && b.len() > 0 {
        if a[0] == b[0] {
            lemma_lex_total(a.drop_first(), b.drop_first());
            if a.drop_first() == b.drop_first() {
                assert(a =~= seq![a[0]] + a.drop_first());
                assert(b =~= seq![b[0]] + b.drop_first());
            }
        }
    } else if a.len() == 0 && b.len() == 0 {
        assert(a =~= b);
    }
}

/// Whether `a` sorts strictly before `b`.
pub fn lex_less(a: &Vec<char>, b: &Vec<char>) -> (r: bool)
    ensures
        r == lex_lt(a@, b@),
{
    let mut i: usize = 0;
    assert(a@.skip(0) =~= a@);
    assert(b@.skip(0) =~= b@);
    while i < a.len() && i < b.len() && a[i] == b[i]
        invariant
            i <= a.len(),
            i <= b.len(),
            lex_lt(a@, b@) == lex_lt(a@.skip(i as int), b@.skip(i as int)),
        decreases a.len() - i,
    {
        assert(a@.skip(i as int).drop_first() =~= a@.skip(i + 1));
        assert(b@.skip(i as int).drop_first() =~= b@.skip(i + 1));
        i = i + 1;
    }
    if i == a.len() {
        i < b.len()
    } else if i == b.len() {
        false
    } else {
        a[i] < b[i]
    }
}

proof fn lemma_sorted_insert_at(s: Seq<Seq<char>>, x: Seq<char>, i: int)
    requires
        0 <= i <= s.len(),
        forall|k: int| 0 <= k < i ==> lex_lt(#[trigger] s[k], x),
        i < s.len() ==> !lex_lt(s[i], x),
    ensures
        sorted_insert(s, x) == if i < s.len() && s[i] == x {
            s
        } else {
            s.insert(i, x)
        },
    decreases i,
{
    if i == 0 {
        if s.len() > 0 && s[0] != x {
            lemma_lex_total(s[0], x);
        }
        if s.len() == 0 {
            assert(s.insert(0, x) =~= seq![x]);
        } else if s[0] != x {
            assert(s.insert(0, x) =~= seq![x] + s);
        }
    } else {
        let t = s.drop_first();
        assert forall|k: int| 0 <= k < i - 1 implies lex_lt(#[trigger] t[k], x) by {
            assert(t[k] == s[k + 1]);
        }
        lemma_sorted_insert_at(t, x, i - 1);
        assert(lex_lt(s[0], x));
        lemma_lex_irreflexive(x);
        lemma_lex_asymmetric(s[0], x);
        assert(s[0] != x);
        if i < s.len() && s[i] == x {
            assert(seq![s[0]] + t =~= s);
        } else {
            assert(seq![s[0]] + t.insert(i - 1, x) =~= s.insert(i, x));
        }
    }
}

pub proof fn lemma_sorted_insert_keeps(s: Seq<Seq<char>>, x: Seq<char>)
    requires
        strictly_sorted(s),
    ensures
        strictly_sorted(sorted_insert(s, x)),
        forall|y: Seq<char>| #[trigger] sorted_insert(s, x).contains(y) <==> (s.contains(y) || y == x),
    decreases s.len(),
{
    if s.len() == 0 {
        assert(sorted_insert(s, x) =~= seq![x]);
        assert(seq![x][0] == x);
    } else if s[0] == x {
    } else if lex_lt(x, s[0]) {
        let r = seq![x] + s;
        assert forall|i: int, j: int| 0 <= i < j < r.len() implies lex_lt(#[trigger] r[i], #[trigger] r[j]) by {
            if i == 0 {
                if j > 1 {
                    lemma_lex_transitive(x, s[0], s[j - 1]);
                }
            } else {
                assert(r[i] == s[i - 1] && r[j] == s[j - 1]);
            }
        }
        assert forall|y: Seq<char>| #[trigger] r.contains(y) <==> (s.contains(y) || y == x) by {
            if s.contains(y) {
                let k = choose|k: int| 0 <= k < s.len() && s[k] == y;
                assert(r[k + 1] == y);
            }
            if y == x {
                assert(r[0] == y);
            }
            if r.contains(y) {
                let k = choose|k: int| 0 <= k < r.len() && r[k] == y;
                if k > 0 {
                    assert(s[k - 1] == y);
                }
            }
        }
    } else {
        let t = s.drop_first();
        assert forall|i: int, j: int| 0 <= i < j < t.len() implies lex_lt(#[trigger] t[i], #[trigger] t[j]) by {
            assert(t[i] == s[i + 1] && t[j] == s[j + 1]);
        }
        lemma_sorted_insert_keeps(t, x);
        lemma_lex_total(s[0], x);
        let u = sorted_insert(t, x);
        let r = seq![s[0]] + u;
        assert forall|i: int, j: int| 0 <= i < j < r.len() implies lex_lt(#[trigger] r[i], #[trigger] r[j]) by {
            if i == 0 {
                assert(u.contains(r[j])) by {
                    assert(u[j - 1] == r[j]);
                }
                if r[j] != x {
                    assert(t.contains(r[j]));
                    let k = choose|k: int| 0 <= k < t.len() && t[k] == r[j];
                    assert(s[k + 1] == r[j]);
                }
            } else {
                assert(r[i] == u[i - 1] && r[j] == u[j - 1]);
            }
        }
        assert forall|y: Seq<char>| #[trigger] r.contains(y) <==> (s.contains(y) || y == x) by {
            if s.contains(y) {
                let k = choose|k: int| 0 <= k < s.len() && s[k] == y;
                if k == 0 {
                    assert(r[0] == y);
                } else {
                    assert(t[k - 1] == y);
                    assert(u.contains(y));
                    let m = choose|m: int| 0 <= m < u.len() && u[m] == y;
                    assert(r[m + 1] == y);
                }
            }
            if y == x {
                assert(u.contains(y));
                let m = choose|m: int| 0 <= m < u.len() && u[m] == y;
                assert(r[m + 1] == y);
            }
            if r.contains(y) {
                let k = choose|k: int| 0 <= k < r.len() && r[k] == y;
                if k == 0 {
                    assert(s[0] == y);
                } else {
                    assert(u[k - 1] == y);
                    assert(u.contains(y));
                    if y != x {
                        assert(t.contains(y));
                        let m = choose|m: int| 0 <= m < t.len() && t[m] == y;
                        assert(s[m + 1] == y);
                    }
                }
            }
        }
        assert(sorted_insert(s, x) == r);
    }
}

/// Adds `x` to the ascending list `v` where it is missing, keeping the order.
pub fn insert_sorted(v: &mut Vec<String>, x: String)
    requires
        strictly_sorted(old(v).deep_view()),
    ensures
        final(v).deep_view() == sorted_insert(old(v).deep_view(), x@),
        strictly_sorted(final(v).deep_view()),
{
    let xc = chars_of(x.as_str());
    let mut i: usize = 0;
    while i < v.len() && lex_less(&chars_of(v[i].as_str()), &xc)
        invariant
            i <= v.len(),
            xc@ == x@,
            forall|k: int| 0 <= k < i ==> lex_lt(#[trigger] v.deep_view()[k], x@),
        decreases v.len() - i,
    {
        i = i + 1;
    }
    proof {
        lemma_sorted_insert_at(v.deep_view(), x@, i as int);
        lemma_sorted_insert_keeps(v.deep_view(), x@);
    }
    if i < v.len() && chars_eq(&chars_of(v[i].as_str()), &xc) {
        return ;
    }
    let ghost before = v.deep_view();
    v.insert(i, x);
    assert(v.deep_view() =~= before.insert(i as int, x@));
}

} // verus!
