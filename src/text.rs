//! Text helpers: lexicographic order, sorting and joining.
use vstd::multiset::Multiset;
use vstd::prelude::*;
use vstd::relations::{sorted_by, total_ordering};
use vstd::seq_lib::lemma_sorted_unique;

verus! {

/// `a` comes strictly before `b` in lexicographic order of code points, the
/// order of `str`'s `Ord`.
pub open spec fn lex_lt(a: Seq<char>, b: Seq<char>) -> bool
    decreases a.len(),
{
    if b.len() == 0 {
        false
    } else if a.len() == 0 {
        true
    } else if a[0] < b[0] {
        true
    } else if a[0] > b[0] {
        false
    } else {
        lex_lt(a.drop_first(), b.drop_first())
    }
}

pub open spec fn lex_le(a: Seq<char>, b: Seq<char>) -> bool {
    a == b || lex_lt(a, b)
}

/// Each text is at most the next one.
pub open spec fn sorted(s: Seq<Seq<char>>) -> bool {
    forall|i: int, j: int| 0 <= i < j < s.len() ==> lex_le(#[trigger] s[i], #[trigger] s[j])
}

/// The order of `lex_le` as a relation.
pub open spec fn lex_order() -> spec_fn(Seq<char>, Seq<char>) -> bool {
    |a: Seq<char>, b: Seq<char>| lex_le(a, b)
}

/// The texts of `s` in lexicographic order.
pub open spec fn sorted_texts(s: Seq<Seq<char>>) -> Seq<Seq<char>> {
    s.sort_by(lex_order())
}

/// The texts of `s` joined, with `sep` between each two.
pub open spec fn join(s: Seq<Seq<char>>, sep: Seq<char>) -> Seq<char>
    decreases s.len(),
{
    if s.len() == 0 {
        Seq::empty()
    } else if s.len() == 1 {
        s[0]
    } else {
        join(s.drop_last(), sep) + sep + s.last()
    }
}

/// The views of a vector of strings.
pub open spec fn views(v: Seq<String>) -> Seq<Seq<char>> {
    v.map_values(|s: String| s@)
}

pub proof fn lemma_lex_lt_irreflexive(a: Seq<char>)
    ensures
        !lex_lt(a, a),
    decreases a.len(),
{
    if a.len() > 0 {
        lemma_lex_lt_irreflexive(a.drop_first());
    }
}

pub proof fn lemma_lex_lt_total(a: Seq<char>, b: Seq<char>)
    ensures
        a == b || lex_lt(a, b) || lex_lt(b, a),
    decreases a.len(),
{
    if a.len() > 0 && b.len() > 0 && a[0] == b[0] {
        lemma_lex_lt_total(a.drop_first(), b.drop_first());
        if a.drop_first() == b.drop_first() {
            assert(a[0] == b[0]);
            assert(a == seq![a[0]] + a.drop_first());
            assert(b == seq![b[0]] + b.drop_first());
        }
    }
}

pub proof fn lemma_lex_lt_transitive(a: Seq<char>, b: Seq<char>, c: Seq<char>)
    requires
        lex_lt(a, b),
        lex_lt(b, c),
    ensures
        lex_lt(a, c),
    decreases a.len(),
{
    if a.len() > 0 && b.len() > 0 && c.len() > 0 && a[0] == b[0] && b[0] == c[0] {
        lemma_lex_lt_transitive(a.drop_first(), b.drop_first(), c.drop_first());
    }
}

pub proof fn lemma_lex_lt_asymmetric(a: Seq<char>, b: Seq<char>)
    requires
        lex_lt(a, b),
    ensures
        !lex_lt(b, a),
{
    if lex_lt(b, a) {
        lemma_lex_lt_transitive(a, b, a);
        lemma_lex_lt_irreflexive(a);
    }
}

pub proof fn lemma_lex_order_total()
    ensures
        total_ordering(lex_order()),
{
    let r = lex_order();
    assert forall|a: Seq<char>, b: Seq<char>| #[trigger] r(a, b) && #[trigger] r(b, a) implies a == b by {
        if a != b {
            lemma_lex_lt_asymmetric(a, b);
        }
    }
    assert forall|a: Seq<char>, b: Seq<char>, c: Seq<char>| #[trigger] r(a, b) && #[trigger] r(b, c) implies r(a, c) by {
        if a != b && b != c {
            lemma_lex_lt_transitive(a, b, c);
        }
    }
    assert forall|a: Seq<char>, b: Seq<char>| #[trigger] r(a, b) || #[trigger] r(b, a) by {
        lemma_lex_lt_total(a, b);
    }
}

/// Relies on `String::push`: appends one character.
#[verifier::external_body]
pub(crate) fn push_char(s: &mut String, c: char)
    ensures
        final(s)@ == old(s)@.push(c),
{
    s.push(c)
}

/// Whether `a` comes strictly before `b`.
pub fn text_lt(a: &str, b: &str) -> (r: bool)
    ensures
        r == lex_lt(a@, b@),
{
    let la = a.unicode_len();
    let lb = b.unicode_len();
    let mut i: usize = 0;
    proof {
        assert(a@.subrange(0, la as int) == a@);
        assert(b@.subrange(0, lb as int) == b@);
    }
    while i < la && i < lb
        invariant
            la == a@.len(),
            lb == b@.len(),
            i <= la,
            i <= lb,
            lex_lt(a@, b@) == lex_lt(a@.subrange(i as int, la as int), b@.subrange(i as int, lb as int)),
        decreases la - i,
    {
        let ca = a.get_char(i);
        let cb = b.get_char(i);
        if ca < cb {
            return true;
        }
        if ca > cb {
            return false;
        }
        proof {
            assert(a@.subrange(i as int, la as int).drop_first() == a@.subrange(i + 1, la as int));
            assert(b@.subrange(i as int, lb as int).drop_first() == b@.subrange(i + 1, lb as int));
        }
        i = i + 1;
    }
    i < lb
}

/// Sorts `v` in lexicographic order.
pub fn sort_texts(v: Vec<String>) -> (r: Vec<String>)
    ensures
        views(r@) == sorted_texts(views(v@)),
{
    broadcast use vstd::seq_lib::group_to_multiset_ensures;

    let mut rest = v;
    let mut out: Vec<String> = Vec::new();
    while rest.len() > 0
        invariant
            sorted(views(out@)),
            forall|i: int, j: int|
                0 <= i < out@.len() && 0 <= j < rest@.len() ==> lex_le(#[trigger] out@[i]@, #[trigger] rest@[j]@),
            views(out@).to_multiset().add(views(rest@).to_multiset()) == views(v@).to_multiset(),
        decreases rest@.len(),
    {
        let mut m: usize = 0;
        let mut k: usize = 1;
        proof {
            lemma_lex_lt_irreflexive(rest@[0]@);
        }
        while k < rest.len()
            invariant
                0 <= m < k <= rest@.len(),
                forall|j: int| 0 <= j < k ==> !lex_lt(#[trigger] rest@[j]@, rest@[m as int]@),
            decreases rest@.len() - k,
        {
            if text_lt(rest[k].as_str(), rest[m].as_str()) {
                proof {
                    assert forall|j: int| 0 <= j < k + 1 implies !lex_lt(#[trigger] rest@[j]@, rest@[k as int]@) by {
                        if j < k as int && lex_lt(rest@[j]@, rest@[k as int]@) {
                            lemma_lex_lt_transitive(rest@[j]@, rest@[k as int]@, rest@[m as int]@);
                        }
                        if j == k as int {
                            lemma_lex_lt_irreflexive(rest@[j]@);
                        }
                    }
                }
                m = k;
            }
            k = k + 1;
        }
        let ghost old_rest = rest@;
        let ghost old_out = out@;
        let x = rest.remove(m);
        proof {
            assert forall|j: int| 0 <= j < old_rest.len() implies lex_le(x@, #[trigger] old_rest[j]@) by {
                lemma_lex_lt_total(x@, old_rest[j]@);
            }
            assert(views(old_rest.remove(m as int)) == views(old_rest).remove(m as int));
            assert(views(old_out.push(x)) == views(old_out).push(x@));
            assert(views(old_rest)[m as int] == x@);
        }
        out.push(x);
        proof {
            assert(rest@ == old_rest.remove(m as int));
            let ms_rest = views(old_rest).to_multiset();
            let ms_out = views(old_out).to_multiset();
            views(old_rest).to_multiset_ensures();
            views(old_out).to_multiset_ensures();
            assert(views(rest@) == views(old_rest).remove(m as int));
            assert(views(old_rest).remove(m as int).to_multiset() =~= ms_rest.remove(x@));
            assert(views(out@) == views(old_out).push(x@));
            assert(views(old_out).push(x@).to_multiset() =~= ms_out.insert(x@));
            assert(views(old_rest).contains(x@));
            assert(ms_rest.count(x@) > 0);
            assert(ms_out.insert(x@).add(ms_rest.remove(x@)) =~= ms_out.add(ms_rest));
            assert forall|i: int, j: int| 0 <= i < out@.len() && 0 <= j < rest@.len() implies lex_le(#[trigger] out@[i]@, #[trigger] rest@[j]@) by {
                let jj = if j < m as int { j } else { j + 1 };
                assert(rest@[j] == old_rest[jj]);
                if i < old_out.len() {
                    assert(out@[i] == old_out[i]);
                }
            }
            assert forall|i: int, j: int| 0 <= i < j < views(out@).len() implies lex_le(#[trigger] views(out@)[i], #[trigger] views(out@)[j]) by {
                if j < old_out.len() {
                    assert(views(out@)[i] == views(old_out)[i]);
                    assert(views(out@)[j] == views(old_out)[j]);
                } else {
                    assert(out@[i] == old_out[i]);
                    assert(lex_le(old_out[i]@, old_rest[m as int]@));
                }
            }
        }
    }
    proof {
        assert(views(rest@).to_multiset() =~= Multiset::empty());
        assert(views(out@).to_multiset().add(Multiset::empty()) =~= views(out@).to_multiset());
        lemma_lex_order_total();
        views(v@).lemma_sort_by_ensures(lex_order());
        assert(sorted_by(views(out@), lex_order()));
        lemma_sorted_unique(views(out@), sorted_texts(views(v@)), lex_order());
    }
    out
}

/// The strings of `v` joined, with `sep` between each two.
pub fn join_texts(v: &Vec<String>, sep: &str) -> (r: String)
    ensures
        r@ == join(views(v@), sep@),
{
    let mut out = String::new();
    let mut i: usize = 0;
    while i < v.len()
        invariant
            i <= v@.len(),
            out@ == join(views(v@).subrange(0, i as int), sep@),
        decreases v@.len() - i,
    {
        proof {
            let s = views(v@).subrange(0, i + 1);
            assert(s.drop_last() == views(v@).subrange(0, i as int));
            assert(s.last() == v@[i as int]@);
            if i == 0 {
                assert(views(v@).subrange(0, 0) =~= Seq::<Seq<char>>::empty());
            }
        }
        if i > 0 {
            out.append(sep);
        }
        out.append(v[i].as_str());
        i = i + 1;
    }
    proof {
        assert(views(v@).subrange(0, v@.len() as int) =~= views(v@));
    }
    out
}

} // verus!
