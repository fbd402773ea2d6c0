//! Texts: joining, and the lexicographic order that keeps printed output deterministic.
use vstd::prelude::*;

use crate::order::{lemma_sorted_unique, sorted_by, strict_total};

verus! {

/// Joins texts with a separator between neighbours.
pub open spec fn join(s: Seq<Seq<char>>, sep: Seq<char>) -> Seq<char>
    decreases s.len(),
{
    if s.len() == 0 {
        Seq::empty()
    } else if s.len() == 1 {
        s[0]
    } else {
        join(s.drop_last(), sep) + sep + s.last()
    }
}

/// Joining one more text onto a sequence adds the separator only after a first text.
pub proof fn lemma_join_push(s: Seq<Seq<char>>, x: Seq<char>, sep: Seq<char>)
    ensures
        join(s.push(x), sep) == if s.len() == 0 {
            x
        } else {
            join(s, sep) + sep + x
        },
{
    assert(s.push(x).drop_last() =~= s);
}

/// Joins the texts of `v` with `sep`.
pub fn join_strings(v: &Vec<String>, sep: &str) -> (r: String)
    ensures
        r@ == join(v.deep_view(), sep@),
{
    let mut out = String::new();
    let mut i: usize = 0;
    while i < v.len()
        invariant
            i <= v.len(),
            out@ == join(v.deep_view().take(i as int), sep@),
        decreases v.len() - i,
    {
        proof {
            lemma_join_push(v.deep_view().take(i as int), v.deep_view()[i as int], sep@);
            assert(v.deep_view().take(i as int + 1) =~= v.deep_view().take(i as int).push(
                v.deep_view()[i as int],
            ));
        }
        if i > 0 {
            out.append(sep);
        }
        out.append(v[i].as_str());
        i = i + 1;
    }
    assert(v.deep_view().take(v.len() as int) =~= v.deep_view());
    out
}

/// Lexicographic order of texts by code point: a proper prefix comes first.
pub open spec fn str_lt(a: Seq<char>, b: Seq<char>) -> bool
    decreases a.len(),
{
    if a.len() == 0 {
        b.len() > 0
    } else if b.len() == 0 {
        false
    } else if a[0] != b[0] {
        a[0] < b[0]
    } else {
        str_lt(a.drop_first(), b.drop_first())
    }
}

/// No text comes before itself.
pub proof fn lemma_str_lt_irreflexive(a: Seq<char>)
    ensures
        !str_lt(a, a),
    decreases a.len(),
{
    if a.len() > 0 {
        lemma_str_lt_irreflexive(a.drop_first());
    }
}

/// The order is transitive.
pub proof fn lemma_str_lt_transitive(a: Seq<char>, b: Seq<char>, c: Seq<char>)
    requires
        str_lt(a, b),
        str_lt(b, c),
    ensures
        str_lt(a, c),
    decreases a.len(),
{
    if a.len() > 0 && b.len() > 0 && c.len() > 0 {
        if a[0] == b[0] && b[0] == c[0] {
            lemma_str_lt_transitive(a.drop_first(), b.drop_first(), c.drop_first());
        }
    }
}

/// Of two different texts, one comes before the other.
pub proof fn lemma_str_lt_total(a: Seq<char>, b: Seq<char>)
    requires
        a != b,
    ensures
        str_lt(a, b) || str_lt(b, a),
    decreases a.len(),
{
    if a.len() > 0 && b.len() > 0 && a[0] == b[0] {
        if a.drop_first() == b.drop_first() {
            assert(a =~= seq![a[0]] + a.drop_first());
            assert(b =~= seq![b[0]] + b.drop_first());
        }
        lemma_str_lt_total(a.drop_first(), b.drop_first());
    } else if a.len() > 0 && b.len() > 0 {
    } else if a.len() == 0 && b.len() == 0 {
        assert(a =~= b);
    }
}

/// Of two texts, at most one comes before the other.
pub proof fn lemma_str_lt_asymmetric(a: Seq<char>, b: Seq<char>)
    ensures
        !(str_lt(a, b) && str_lt(b, a)),
{
    if str_lt(a, b) && str_lt(b, a) {
        lemma_str_lt_transitive(a, b, a);
        lemma_str_lt_irreflexive(a);
    }
}

/// The order of texts as a function value.
pub open spec fn text_order() -> spec_fn(Seq<char>, Seq<char>) -> bool {
    |a: Seq<char>, b: Seq<char>| str_lt(a, b)
}

/// The order of texts is a strict total order.
pub proof fn lemma_text_order()
    ensures
        strict_total(text_order()),
{
    assert forall|x: Seq<char>| !#[trigger] text_order()(x, x) by {
        lemma_str_lt_irreflexive(x);
    }
    assert forall|x: Seq<char>, y: Seq<char>, z: Seq<char>|
        #[trigger] text_order()(x, y) && #[trigger] text_order()(y, z) implies text_order()(x, z) by {
        lemma_str_lt_transitive(x, y, z);
    }
    assert forall|x: Seq<char>, y: Seq<char>| x != y implies #[trigger] text_order()(x, y)
        || #[trigger] text_order()(y, x) by {
        lemma_str_lt_total(x, y);
    }
}

/// The one strictly sorted sequence of the texts of a finite set.
pub open spec fn canonical(s: Set<Seq<char>>) -> Seq<Seq<char>> {
    choose|c: Seq<Seq<char>>| strictly_sorted(c) && c.to_set() == s
}

/// A strictly sorted sequence is the canonical sequence of its elements.
pub proof fn lemma_canonical(c: Seq<Seq<char>>)
    requires
        strictly_sorted(c),
    ensures
        canonical(c.to_set()) == c,
{
    let d = canonical(c.to_set());
    assert(strictly_sorted(d) && d.to_set() == c.to_set());
    lemma_text_order();
    assert(sorted_by(c, text_order()));
    assert(sorted_by(d, text_order()));
    assert forall|x: Seq<char>| d.contains(x) <==> c.contains(x) by {
        assert(d.to_set().contains(x) == d.contains(x));
        assert(c.to_set().contains(x) == c.contains(x));
    }
    lemma_sorted_unique(d, c, text_order());
}

/// Whether each text comes strictly before the next.
pub open spec fn strictly_sorted(s: Seq<Seq<char>>) -> bool {
    forall|i: int, j: int| 0 <= i < j < s.len() ==> str_lt(s[i], s[j])
}

/// The elements of a sequence with one more pushed.
pub proof fn lemma_to_set_push<T>(s: Seq<T>, x: T)
    ensures
        s.push(x).to_set() == s.to_set().insert(x),
{
    let p = s.push(x);
    assert forall|y: T| p.to_set().contains(y) implies s.to_set().insert(y).contains(y) || s.to_set().insert(x).contains(y) by {
        let k = choose|k: int| 0 <= k < p.len() && p[k] == y;
        if k < s.len() {
            assert(s[k] == y);
        }
    }
    assert forall|y: T| s.to_set().insert(x).contains(y) implies p.to_set().contains(y) by {
        if y == x {
            assert(p[s.len() as int] == y);
        } else {
            let k = choose|k: int| 0 <= k < s.len() && s[k] == y;
            assert(p[k] == y);
        }
    }
    assert(p.to_set() =~= s.to_set().insert(x));
}

/// Sorts the texts of `v`, dropping repeats.
pub fn sorted_unique(v: &Vec<String>) -> (r: Vec<String>)
    ensures
        strictly_sorted(r.deep_view()),
        r.deep_view().to_set() == v.deep_view().to_set(),
        r.deep_view() == canonical(v.deep_view().to_set()),
{
    let mut out: Vec<String> = Vec::new();
    let mut i: usize = 0;
    assert(out.deep_view().to_set() =~= v.deep_view().take(0).to_set());
    while i < v.len()
        invariant
            i <= v.len(),
            strictly_sorted(out.deep_view()),
            out.deep_view().to_set() == v.deep_view().take(i as int).to_set(),
        decreases v.len() - i,
    {
        insert_sorted(&mut out, v[i].clone());
        assert(v.deep_view().take(i as int + 1) =~= v.deep_view().take(i as int).push(v@[i as int]@));
        proof {
            lemma_to_set_push(v.deep_view().take(i as int), v@[i as int]@);
        }
        i = i + 1;
    }
    assert(v.deep_view().take(v.len() as int) =~= v.deep_view());
    proof {
        lemma_canonical(out.deep_view());
    }
    out
}

/// Whether `a` comes before `b`.
pub fn text_less(a: &String, b: &String) -> (r: bool)
    ensures
        r == str_lt(a@, b@),
{
    let sa = a.as_str();
    let sb = b.as_str();
    let la = sa.unicode_len();
    let lb = sb.unicode_len();
    let mut i: usize = 0;
    assert(a@.skip(0) =~= a@);
    assert(b@.skip(0) =~= b@);
    while i < la && i < lb
        invariant
            la == a@.len(),
            lb == b@.len(),
            sa@ == a@,
            sb@ == b@,
            i <= la,
            i <= lb,
            str_lt(a@, b@) == str_lt(a@.skip(i as int), b@.skip(i as int)),
        decreases la - i,
    {
        let ca = sa.get_char(i);
        let cb = sb.get_char(i);
        assert(a@.skip(i as int)[0] == ca);
        assert(b@.skip(i as int)[0] == cb);
        if ca != cb {
            return ca < cb;
        }
        assert(a@.skip(i as int).drop_first() =~= a@.skip(i as int + 1));
        assert(b@.skip(i as int).drop_first() =~= b@.skip(i as int + 1));
        i = i + 1;
    }
    i < lb
}

/// Inserts `s` into a strictly sorted vector unless it is already there.
pub fn insert_sorted(v: &mut Vec<String>, s: String)
    requires
        strictly_sorted(old(v).deep_view()),
    ensures
        strictly_sorted(final(v).deep_view()),
        final(v).deep_view().to_set() == old(v).deep_view().to_set().insert(s@),
{
    let ghost old_v = v.deep_view();
    let mut i: usize = 0;
    while i < v.len() && text_less(&v[i], &s)
        invariant
            i <= v.len(),
            v.deep_view() == old_v,
            strictly_sorted(old_v),
            forall|j: int| 0 <= j < i ==> str_lt(old_v[j], s@),
        decreases v.len() - i,
    {
        i = i + 1;
    }
    if i < v.len() && v[i] == s {
        assert(old_v.to_set().insert(s@) =~= old_v.to_set()) by {
            assert(old_v[i as int] == s@);
        }
        return;
    }
    proof {
        if i < v.len() {
            lemma_str_lt_total(old_v[i as int], s@);
        }
    }
    v.insert(i, s);
    let ghost nv = v.deep_view();
    assert(nv =~= old_v.take(i as int).push(s@) + old_v.skip(i as int));
    assert forall|a: int, b: int| 0 <= a < b < nv.len() implies str_lt(nv[a], nv[b]) by {
        if a < i && b == i {
        } else if a < i && b > i {
            assert(nv[b] == old_v[b - 1]);
            if a < b - 1 {
                assert(str_lt(old_v[a], old_v[b - 1]));
            }
        } else if a == i && b > i {
            assert(nv[b] == old_v[b - 1]);
            if b - 1 > i {
                assert(str_lt(old_v[i as int], old_v[b - 1]));
                lemma_str_lt_transitive(s@, old_v[i as int], old_v[b - 1]);
            }
        } else if a > i {
            assert(nv[a] == old_v[a - 1]);
            assert(nv[b] == old_v[b - 1]);
        }
    }
    assert(nv.to_set() =~= old_v.to_set().insert(s@)) by {
        assert forall|x| nv.to_set().contains(x) implies old_v.to_set().insert(s@).contains(x) by {
            let k = choose|k: int| 0 <= k < nv.len() && nv[k] == x;
            if k < i {
                assert(old_v[k] == x);
            } else if k > i {
                assert(old_v[k - 1] == x);
            }
        }
        assert forall|x| old_v.to_set().insert(s@).contains(x) implies nv.to_set().contains(x) by {
            if x == s@ {
                assert(nv[i as int] == x);
            } else {
                let k = choose|k: int| 0 <= k < old_v.len() && old_v[k] == x;
                if k < i {
                    assert(nv[k] == x);
                } else {
                    assert(nv[k + 1] == x);
                }
            }
        }
    }
}

} // verus!
