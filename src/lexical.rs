use vstd::prelude::*;

use crate::progress::chars_of;

verus! {

/// `a` comes strictly before `b` in character-by-character order.
pub open spec fn lex_lt(a: Seq<char>, b: Seq<char>) -> bool
    decreases a.len(),
{
    if a.len() == 0 {
        b.len() > 0
    } else if b.len() == 0 {
        false
    } else if (a[0] as u32) < (b[0] as u32) {
        true
    } else if a[0] == b[0] {
        lex_lt(a.drop_first(), b.drop_first())
    } else {
        false
    }
}

/// Every element comes strictly before each later one: sorted, without repeats.
pub open spec fn strictly_sorted(s: Seq<Seq<char>>) -> bool {
    forall|i: int, j: int| 0 <= i < j < s.len() ==> lex_lt(#[trigger] s[i], #[trigger] s[j])
}

pub proof fn lemma_lex_irreflexive(a: Seq<char>)
    ensures
        !lex_lt(a, a),
    decreases a.len(),
{
    if a.len() > 0 {
        lemma_lex_irreflexive(a.drop_first());
    }
}

pub proof fn lemma_lex_total(a: Seq<char>, b: Seq<char>)
    requires
        a != b,
    ensures
        lex_lt(a, b) || lex_lt(b, a),
    decreases a.len(),
{
    if a.len() > 0 && b.len() > 0 && a[0] != b[0] {
        vstd::utf8::char_u32_cast(a[0], a[0] as u32);
        vstd::utf8::char_u32_cast(b[0], b[0] as u32);
    } else if a.len() > 0 && b.len() > 0 && a[0] == b[0] {
        if a.drop_first() == b.drop_first() {
            assert(a =~= seq![a[0]] + a.drop_first());
            assert(b =~= seq![b[0]] + b.drop_first());
        }
        lemma_lex_total(a.drop_first(), b.drop_first());
    } else if a.len() == 0 && b.len() == 0 {
        assert(a =~= b);
    }
}

pub proof fn lemma_lex_trans(a: Seq<char>, b: Seq<char>, c: Seq<char>)
    requires
        lex_lt(a, b),
        lex_lt(b, c),
    ensures
        lex_lt(a, c),
    decreases a.len(),
{
    if a.len() > 0 && b.len() > 0 && c.len() > 0 && a[0] == b[0] && b[0] == c[0] {
        lemma_lex_trans(a.drop_first(), b.drop_first(), c.drop_first());
    }
}

pub proof fn lemma_lex_asym(a: Seq<char>, b: Seq<char>)
    requires
        lex_lt(a, b),
    ensures
        !lex_lt(b, a),
        a != b,
{
    lemma_lex_irreflexive(a);
    if lex_lt(b, a) {
        lemma_lex_trans(a, b, a);
    }
}

proof fn lemma_lex_skip(a: Seq<char>, b: Seq<char>, i: int)
    requires
        0 <= i < a.len(),
        i < b.len(),
        a[i] == b[i],
    ensures
        lex_lt(a.subrange(i, a.len() as int), b.subrange(i, b.len() as int)) == lex_lt(
            a.subrange(i + 1, a.len() as int),
            b.subrange(i + 1, b.len() as int),
        ),
{
    assert(a.subrange(i, a.len() as int).drop_first() =~= a.subrange(i + 1, a.len() as int));
    assert(b.subrange(i, b.len() as int).drop_first() =~= b.subrange(i + 1, b.len() as int));
}

/// Whether `a` comes strictly before `b`.
pub fn lex_less(a: &String, b: &String) -> (r: bool)
    ensures
        r == lex_lt(a@, b@),
{
    let x = chars_of(a.as_str());
    let y = chars_of(b.as_str());
    let mut i: usize = 0;
    assert(x@.subrange(0, x@.len() as int) =~= x@);
    assert(y@.subrange(0, y@.len() as int) =~= y@);
    while i < x.len() && i < y.len()
        invariant
            i <= x.len(),
            i <= y.len(),
            lex_lt(a@, b@) == lex_lt(
                x@.subrange(i as int, x@.len() as int),
                y@.subrange(i as int, y@.len() as int),
            ),
            x@ == a@,
            y@ == b@,
        decreases x.len() - i,
    {
        if x[i] != y[i] {
            return (x[i] as u32) < (y[i] as u32);
        }
        proof {
            lemma_lex_skip(x@, y@, i as int);
        }
        i += 1;
    }
    i == x.len() && i < y.len()
}

/// Puts distinct strings in strictly increasing order.
pub fn sort_distinct(v: Vec<String>) -> (r: Vec<String>)
    requires
        forall|i: int, j: int| 0 <= i < j < v.len() ==> v[i]@ != v[j]@,
    ensures
        strictly_sorted(r.deep_view()),
        r.len() == v.len(),
        r.deep_view().to_set() == v.deep_view().to_set(),
{
    let mut out: Vec<String> = Vec::new();
    let mut n: usize = 0;
    while n < v.len()
        invariant
            n <= v.len(),
            forall|i: int, j: int| 0 <= i < j < v.len() ==> v[i]@ != v[j]@,
            strictly_sorted(out.deep_view()),
            out.len() == n,
            out.deep_view().to_set() == v.deep_view().subrange(0, n as int).to_set(),
        decreases v.len() - n,
    {
        let x = v[n].clone();
        assert(!out.deep_view().to_set().contains(x@)) by {
            if out.deep_view().to_set().contains(x@) {
                assert(v.deep_view().subrange(0, n as int).to_set().contains(x@));
                let q = choose|q: int| 0 <= q < n && v.deep_view().subrange(0, n as int)[q] == x@;
                assert(v[q]@ == v[n as int]@);
            }
        }
        let mut k: usize = 0;
        while k < out.len() && lex_less(&out[k], &x)
            invariant
                k <= out.len(),
                forall|j: int| 0 <= j < k ==> lex_lt(#[trigger] out.deep_view()[j], x@),
            decreases out.len() - k,
        {
            k += 1;
        }
        proof {
            if k < out.len() {
                assert(out.deep_view()[k as int] != x@) by {
                    assert(out.deep_view().to_set().contains(out.deep_view()[k as int]));
                }
                lemma_lex_total(out.deep_view()[k as int], x@);
            }
            assert forall|j: int| k <= j < out.len() implies lex_lt(
                x@,
                #[trigger] out.deep_view()[j],
            ) by {
                if j > k {
                    lemma_lex_trans(x@, out.deep_view()[k as int], out.deep_view()[j]);
                }
            }
        }
        let ghost old_view = out.deep_view();
        out.insert(k, x);
        proof {
            assert(out.deep_view() =~= old_view.insert(k as int, x@));
            assert forall|i: int, j: int| 0 <= i < j < out.len() implies lex_lt(
                #[trigger] out.deep_view()[i],
                #[trigger] out.deep_view()[j],
            ) by {
                if j < k {
                } else if j == k {
                } else if i < k {
                    lemma_lex_trans(old_view[i], x@, old_view[j - 1]);
                } else if i == k {
                } else {
                }
            }
            assert(v.deep_view().subrange(0, n + 1) =~= v.deep_view().subrange(0, n as int).push(
                x@,
            ));
            v.deep_view().subrange(0, n as int).lemma_push_to_set_commute(x@);
            assert(out.deep_view().to_set() =~= old_view.to_set().insert(x@)) by {
                assert forall|e: Seq<char>| out.deep_view().to_set().contains(e) implies old_view.to_set().insert(x@).contains(e) by {
                    let q = choose|q: int| 0 <= q < out.len() && out.deep_view()[q] == e;
                    if q < k {
                        assert(old_view[q] == e);
                    } else if q > k {
                        assert(old_view[q - 1] == e);
                    }
                }
                assert forall|e: Seq<char>| old_view.to_set().insert(x@).contains(e) implies out.deep_view().to_set().contains(e) by {
                    if e == x@ {
                        assert(out.deep_view()[k as int] == e);
                    } else {
                        let q = choose|q: int| 0 <= q < old_view.len() && old_view[q] == e;
                        if q < k {
                            assert(out.deep_view()[q] == e);
                        } else {
                            assert(out.deep_view()[q + 1] == e);
                        }
                    }
                }
            }
        }
        n += 1;
    }
    assert(v.deep_view().subrange(0, n as int) =~= v.deep_view());
    out
}

} // verus!
