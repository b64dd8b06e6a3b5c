//! A value's parse depends on its own tokens only, not on where they stand:
//! moved elsewhere, the same tokens give the same value, up to spans.
use crate::kind::{Kind, ValueView};
use crate::parse::{parse_fixed, parse_scalar, parse_value, parse_var, ListOutcome, Mode, Outcome};
use crate::span::Span;
use crate::token::{group_close, paren_close, punct_at, tree_end, trees_after, Tok};
use vstd::prelude::*;

verus! {

/// `v` with every span replaced by the empty span at 0.
pub open spec fn strip(v: ValueView) -> ValueView
    decreases v, 0nat,
{
    match v {
        ValueView::Opt(Some(b)) => ValueView::Opt(Some(Box::new(strip(*b)))),
        ValueView::Fixed(s) => ValueView::Fixed(strip_all(s)),
        ValueView::VarArgs(s) => ValueView::VarArgs(strip_all(s)),
        ValueView::Spanned(b, _, _) => ValueView::Spanned(
            Box::new(strip(*b)),
            Span { lo: 0, hi: 0 },
            Span { lo: 0, hi: 0 },
        ),
        _ => v,
    }
}

pub open spec fn strip_all(s: Seq<ValueView>) -> Seq<ValueView>
    decreases s, s.len(),
{
    if s.len() == 0 {
        Seq::empty()
    } else {
        seq![strip(s[0])] + strip_all(s.subrange(1, s.len() as int))
    }
}

/// Whether a kind's parse depends on its own tokens only: every kind but
/// the syntax fragments, whose parse `syn` makes over all the tokens after them.
pub open spec fn local(k: Kind) -> bool
    decreases k, 0int,
{
    match k {
        Kind::Syn(_) => false,
        Kind::Optional(b) => local(*b),
        Kind::Spanned(b) => local(*b),
        Kind::FnCallVarArgs(b) => local(*b),
        Kind::FnCallFixed(ks) => all_local(ks@, 0),
        _ => true,
    }
}

pub open spec fn all_local(ks: Seq<Kind>, i: int) -> bool
    decreases ks, ks.len() - i,
{
    if i < 0 || i >= ks.len() {
        true
    } else {
        local(ks[i]) && all_local(ks, i + 1)
    }
}

/// The `n` tokens of `t1` from `a1` are those of `t2` from `a2`.
pub open spec fn same_tokens(t1: Seq<Tok>, a1: int, t2: Seq<Tok>, a2: int, n: int) -> bool {
    &&& 0 <= a1 && 0 <= a2 && 0 <= n
    &&& a1 + n <= t1.len() && a2 + n <= t2.len()
    &&& forall|j: int| 0 <= j < n ==> #[trigger] t1[a1 + j] == t2[a2 + j]
}

/// A parse of `t1` from `p1` that stopped at `q1`, inside a group ending at
/// `e1`, read the same tokens as one of `t2` from `p2` inside a group ending
/// at `e2` would: the tokens up to `q1` and the one at `q1`, or, where it
/// stopped at the end, the tokens up to it and the same end.
pub open spec fn window_fits(t1: Seq<Tok>, p1: int, q1: int, e1: int, t2: Seq<Tok>, p2: int, e2: int) -> bool {
    &&& 0 <= p1 <= q1 <= e1 <= t1.len()
    &&& e2 <= t2.len()
    &&& if q1 < e1 {
        same_tokens(t1, p1, t2, p2, q1 - p1 + 1) && p2 + (q1 - p1) < e2
    } else {
        same_tokens(t1, p1, t2, p2, q1 - p1) && e2 == p2 + (q1 - p1)
    }
}

pub proof fn lemma_strip_all_cons(v: ValueView, s: Seq<ValueView>)
    ensures
        strip_all(seq![v] + s) == seq![strip(v)] + strip_all(s),
{
    assert((seq![v] + s).subrange(1, (seq![v] + s).len() as int) =~= s);
    assert((seq![v] + s)[0] == v);
}

proof fn lemma_group_close_moves(t1: Seq<Tok>, i1: int, e1: int, t2: Seq<Tok>, i2: int, e2: int, d: nat)
    requires
        group_close(t1, i1, e1, d) matches Some(c1) && i1 <= c1 && same_tokens(t1, i1, t2, i2, c1 - i1 + 1) && i2 + (c1 - i1) < e2,
        e2 <= t2.len(),
    ensures
        group_close(t2, i2, e2, d) == Some(group_close(t1, i1, e1, d)->Some_0 - i1 + i2),
    decreases e1 - i1,
{
    let c1 = group_close(t1, i1, e1, d)->Some_0;
    assert(t1[i1 + 0] == t2[i2 + 0]);
    assert(t1[i1] == t2[i2]);
    assert(i1 < e1 && i1 < t1.len());
    assert(i2 < e2 && i2 < t2.len());
    if c1 > i1 {
        assert(same_tokens(t1, i1 + 1, t2, i2 + 1, c1 - (i1 + 1) + 1)) by {
            assert forall|j: int| 0 <= j < c1 - (i1 + 1) + 1 implies #[trigger] t1[i1 + 1 + j] == t2[i2 + 1 + j] by {
                assert(t1[i1 + (j + 1)] == t2[i2 + (j + 1)]);
            }
        }
        match t1[i1] {
            Tok::Open(_) => {
                lemma_group_close_moves(t1, i1 + 1, e1, t2, i2 + 1, e2, d + 1);
            },
            Tok::Close(_) => {
                assert(d != 0);
                lemma_group_close_moves(t1, i1 + 1, e1, t2, i2 + 1, e2, (d - 1) as nat);
            },
            _ => {
                lemma_group_close_moves(t1, i1 + 1, e1, t2, i2 + 1, e2, d);
            },
        }
    } else {
        assert(t1[i1] is Close && d == 0) by {
            if !(t1[i1] is Close && d == 0) {
                match t1[i1] {
                    Tok::Open(_) => crate::token::lemma_group_close_bounds(t1, i1 + 1, e1, d + 1),
                    Tok::Close(_) => crate::token::lemma_group_close_bounds(t1, i1 + 1, e1, (d - 1) as nat),
                    _ => crate::token::lemma_group_close_bounds(t1, i1 + 1, e1, d),
                }
            }
        }
    }
}

proof fn lemma_same_tokens_sub(t1: Seq<Tok>, a1: int, t2: Seq<Tok>, a2: int, n: int, x: int, m: int)
    requires
        same_tokens(t1, a1, t2, a2, n),
        0 <= x,
        0 <= m,
        x + m <= n,
    ensures
        same_tokens(t1, a1 + x, t2, a2 + x, m),
{
    assert forall|j: int| 0 <= j < m implies #[trigger] t1[a1 + x + j] == t2[a2 + x + j] by {
        assert(t1[a1 + (x + j)] == t2[a2 + (x + j)]);
    }
}

/// A value parsed successfully ends between where it starts and the end of its group.
pub proof fn lemma_value_bounds(k: Kind, t: Seq<Tok>, pos: int, end: int, key: Span, mode: Mode)
    requires
        0 <= pos <= end <= t.len(),
    ensures
        parse_value(k, t, pos, end, key, mode) matches Outcome::Done(_, _, q) ==> pos <= q <= end,
    decreases k, 0int,
{
    match k {
        Kind::Switch => {},
        Kind::Optional(b) => {
            if mode == Mode::FnArg {
                if pos < end && t[pos] is Ident && t[pos]->Ident_0@ == "Some"@ {
                    if let Some(c) = paren_close(t, pos + 1, end) {
                        crate::token::lemma_group_close_bounds(t, pos + 2, end, 0);
                    }
                }
            } else {
                lemma_value_bounds(*b, t, pos, end, key, mode);
            }
        },
        Kind::Spanned(b) => lemma_value_bounds(*b, t, pos, end, key, mode),
        Kind::FnCallFixed(ks) => {
            if let Some(c) = paren_close(t, pos, end) {
                crate::token::lemma_group_close_bounds(t, pos + 1, end, 0);
            }
        },
        Kind::FnCallVarArgs(b) => {
            if let Some(c) = paren_close(t, pos, end) {
                crate::token::lemma_group_close_bounds(t, pos + 1, end, 0);
            }
        },
        _ => {
            if mode == Mode::Prefix {
                if punct_at(t, pos, end, '=') {
                    lemma_scalar_bounds(k, t, pos + 1, end);
                }
            } else {
                lemma_scalar_bounds(k, t, pos, end);
            }
        },
    }
}

pub proof fn lemma_trees_after_bounds(t: Seq<Tok>, i: int, end: int, n: nat)
    requires
        0 <= i <= end,
    ensures
        i <= trees_after(t, i, end, n) <= end,
    decreases n,
{
    if n > 0 && i < end {
        let e = tree_end(t, i, end);
        if !(e <= i || e > end) {
            lemma_trees_after_bounds(t, e, end, (n - 1) as nat);
        }
    }
}

proof fn lemma_scalar_bounds(k: Kind, t: Seq<Tok>, pos: int, end: int)
    requires
        0 <= pos <= end <= t.len(),
    ensures
        parse_scalar(k, t, pos, end) matches Outcome::Done(_, _, q) ==> pos <= q <= end,
{
    if let Kind::Syn(ty) = k {
        let total = crate::token::tree_count(t, pos, end);
        if let Ok(rest) = crate::syntax::syn_rest_of(ty, crate::syntax::render(t.subrange(pos, end))) {
            if rest <= total {
                lemma_trees_after_bounds(t, pos, end, (total - rest) as nat);
            }
        }
    }
}

/// The same tokens, and the one after them, give the same scalar value.
proof fn lemma_scalar_moves(k: Kind, t1: Seq<Tok>, p1: int, e1: int, t2: Seq<Tok>, p2: int, e2: int)
    requires
        local(k),
        parse_scalar(k, t1, p1, e1) matches Outcome::Done(_, _, q1) && window_fits(t1, p1, q1, e1, t2, p2, e2),
    ensures
        parse_scalar(k, t2, p2, e2) matches Outcome::Done(v2, _, q2) && v2 == parse_scalar(k, t1, p1, e1)->Done_0
            && q2 - p2 == parse_scalar(k, t1, p1, e1)->Done_2 - p1,
{
    let q1 = parse_scalar(k, t1, p1, e1)->Done_2;
    lemma_scalar_bounds(k, t1, p1, e1);
    if q1 > p1 {
        assert(t1[p1 + 0] == t2[p2 + 0]);
        assert(t1[p1] == t2[p2]);
    }
    match k {
        Kind::Int(ty) => {
            let negative = punct_at(t1, p1, e1, '-');
            let lp = if negative { p1 + 1 } else { p1 };
            assert(t1[p1 + (lp - p1)] == t2[p2 + (lp - p1)]);
        },
        _ => {},
    }
}

pub proof fn lemma_fixed_bounds(ks: Seq<Kind>, i: int, t: Seq<Tok>, pos: int, end: int, key: Span)
    requires
        0 <= pos <= end <= t.len(),
    ensures
        parse_fixed(ks, i, t, pos, end, key) matches ListOutcome::Done(_, q) ==> pos <= q <= end,
    decreases ks.len() - i,
{
    if 0 <= i < ks.len() {
        lemma_value_bounds(ks[i], t, pos, end, key, Mode::FnArg);
        if let Outcome::Done(v, s, q) = parse_value(ks[i], t, pos, end, key, Mode::FnArg) {
            let next = if q < end { q + 1 } else { q };
            lemma_fixed_bounds(ks, i + 1, t, next, end, key);
        }
    }
}

pub proof fn lemma_var_bounds(k: Kind, t: Seq<Tok>, pos: int, end: int, key: Span)
    requires
        0 <= pos <= end <= t.len(),
    ensures
        parse_var(k, t, pos, end, key) matches ListOutcome::Done(_, q) ==> pos <= q <= end,
    decreases end - pos,
{
    if pos < end {
        lemma_value_bounds(k, t, pos, end, key, Mode::FnArg);
        if let Outcome::Done(v, s, q) = parse_value(k, t, pos, end, key, Mode::FnArg) {
            if pos <= q && punct_at(t, q, end, ',') {
                lemma_var_bounds(k, t, q + 1, end, key);
            }
        }
    }
}

/// The same tokens, and the one after them, give the same value up to spans,
/// and the parse reads as many tokens.
pub proof fn lemma_value_moves(
    k: Kind,
    t1: Seq<Tok>,
    p1: int,
    e1: int,
    t2: Seq<Tok>,
    p2: int,
    e2: int,
    key1: Span,
    key2: Span,
    mode: Mode,
)
    requires
        local(k),
        parse_value(k, t1, p1, e1, key1, mode) matches Outcome::Done(_, _, q1) && window_fits(t1, p1, q1, e1, t2, p2, e2),
    ensures
        parse_value(k, t2, p2, e2, key2, mode) matches Outcome::Done(v2, _, q2) && strip(v2) == strip(
            parse_value(k, t1, p1, e1, key1, mode)->Done_0,
        ) && q2 - p2 == parse_value(k, t1, p1, e1, key1, mode)->Done_2 - p1,
    decreases k, 0int,
{
    let q1 = parse_value(k, t1, p1, e1, key1, mode)->Done_2;
    match k {
        Kind::Switch => {},
        Kind::Optional(b) => {
            if mode == Mode::FnArg {
                assert(t1[p1 + 0] == t2[p2 + 0]);
                assert(t1[p1] == t2[p2]);
                let name = t1[p1]->Ident_0@;
                if name == "None"@ {
                } else if name == "Some"@ {
                    let c1 = paren_close(t1, p1 + 1, e1)->Some_0;
                    crate::token::lemma_group_close_bounds(t1, p1 + 2, e1, 0);
                    assert(t1[p1 + 1] == t2[p2 + 1]);
                    lemma_same_tokens_sub(t1, p1, t2, p2, if q1 < e1 { q1 - p1 + 1 } else { q1 - p1 }, 2, c1 - (p1 + 2) + 1);
                    lemma_group_close_moves(t1, p1 + 2, e1, t2, p2 + 2, e2, 0);
                    let c2 = c1 - p1 + p2;
                    lemma_same_tokens_sub(t1, p1, t2, p2, if q1 < e1 { q1 - p1 + 1 } else { q1 - p1 }, 2, c1 - (p1 + 2));
                    lemma_value_moves(*b, t1, p1 + 2, c1, t2, p2 + 2, c2, key1, key2, Mode::FnArg);
                }
            } else {
                lemma_value_moves(*b, t1, p1, e1, t2, p2, e2, key1, key2, mode);
            }
        },
        Kind::Spanned(b) => {
            lemma_value_moves(*b, t1, p1, e1, t2, p2, e2, key1, key2, mode);
        },
        Kind::FnCallFixed(ks) => {
            let c1 = paren_close(t1, p1, e1)->Some_0;
            crate::token::lemma_group_close_bounds(t1, p1 + 1, e1, 0);
            assert(t1[p1 + 0] == t2[p2 + 0]);
            let n = if q1 < e1 { q1 - p1 + 1 } else { q1 - p1 };
            lemma_same_tokens_sub(t1, p1, t2, p2, n, 1, c1 - (p1 + 1) + 1);
            lemma_group_close_moves(t1, p1 + 1, e1, t2, p2 + 1, e2, 0);
            lemma_same_tokens_sub(t1, p1, t2, p2, n, 1, c1 - (p1 + 1));
            lemma_fixed_moves(ks@, 0, t1, p1 + 1, c1, t2, p2 + 1, c1 - p1 + p2, key1, key2);
        },
        Kind::FnCallVarArgs(b) => {
            let c1 = paren_close(t1, p1, e1)->Some_0;
            crate::token::lemma_group_close_bounds(t1, p1 + 1, e1, 0);
            assert(t1[p1 + 0] == t2[p2 + 0]);
            let n = if q1 < e1 { q1 - p1 + 1 } else { q1 - p1 };
            lemma_same_tokens_sub(t1, p1, t2, p2, n, 1, c1 - (p1 + 1) + 1);
            lemma_group_close_moves(t1, p1 + 1, e1, t2, p2 + 1, e2, 0);
            lemma_same_tokens_sub(t1, p1, t2, p2, n, 1, c1 - (p1 + 1));
            lemma_var_moves(*b, t1, p1 + 1, c1, t2, p2 + 1, c1 - p1 + p2, key1, key2);
        },
        _ => {
            if mode == Mode::Prefix {
                assert(t1[p1 + 0] == t2[p2 + 0]);
                let n = if q1 < e1 { q1 - p1 + 1 } else { q1 - p1 };
                lemma_same_tokens_sub(t1, p1, t2, p2, n, 1, n - 1);
                lemma_scalar_bounds(k, t1, p1 + 1, e1);
                lemma_scalar_moves(k, t1, p1 + 1, e1, t2, p2 + 1, e2);
            } else {
                lemma_scalar_moves(k, t1, p1, e1, t2, p2, e2);
            }
        },
    }
}

/// Identical groups give the same fixed arguments, up to spans.
proof fn lemma_fixed_moves(
    ks: Seq<Kind>,
    i: int,
    t1: Seq<Tok>,
    p1: int,
    e1: int,
    t2: Seq<Tok>,
    p2: int,
    e2: int,
    key1: Span,
    key2: Span,
)
    requires
        all_local(ks, i),
        0 <= p1 <= e1 <= t1.len(),
        same_tokens(t1, p1, t2, p2, e1 - p1),
        e2 == p2 + (e1 - p1),
        parse_fixed(ks, i, t1, p1, e1, key1) is Done,
    ensures
        parse_fixed(ks, i, t2, p2, e2, key2) matches ListOutcome::Done(vs2, r2) && strip_all(vs2) == strip_all(
            parse_fixed(ks, i, t1, p1, e1, key1)->Done_0,
        ) && r2 - p2 == parse_fixed(ks, i, t1, p1, e1, key1)->Done_1 - p1,
    decreases ks, ks.len() - i,
{
    if 0 <= i < ks.len() {
        let o = parse_value(ks[i], t1, p1, e1, key1, Mode::FnArg);
        let q = o->Done_2;
        lemma_value_bounds(ks[i], t1, p1, e1, key1, Mode::FnArg);
        let n = if q < e1 { q - p1 + 1 } else { q - p1 };
        lemma_same_tokens_sub(t1, p1, t2, p2, e1 - p1, 0, n);
        assert(t1.subrange(0, t1.len() as int) == t1);
        lemma_value_moves(ks[i], t1, p1, e1, t2, p2, e2, key1, key2, Mode::FnArg);
        let q2 = q - p1 + p2;
        if q < e1 {
            assert(t1[p1 + (q - p1)] == t2[p2 + (q - p1)]);
        }
        let next = if q < e1 { q + 1 } else { q };
        lemma_same_tokens_sub(t1, p1, t2, p2, e1 - p1, next - p1, e1 - next);
        lemma_fixed_moves(ks, i + 1, t1, next, e1, t2, next - p1 + p2, e2, key1, key2);
        let v1 = o->Done_0;
        let v2 = parse_value(ks[i], t2, p2, e2, key2, Mode::FnArg)->Done_0;
        let rest1 = parse_fixed(ks, i + 1, t1, next, e1, key1)->Done_0;
        let rest2 = parse_fixed(ks, i + 1, t2, next - p1 + p2, e2, key2)->Done_0;
        lemma_strip_all_cons(v1, rest1);
        lemma_strip_all_cons(v2, rest2);
    }
}

/// Identical groups give the same variadic arguments, up to spans.
proof fn lemma_var_moves(
    k: Kind,
    t1: Seq<Tok>,
    p1: int,
    e1: int,
    t2: Seq<Tok>,
    p2: int,
    e2: int,
    key1: Span,
    key2: Span,
)
    requires
        local(k),
        0 <= p1 <= e1 <= t1.len(),
        same_tokens(t1, p1, t2, p2, e1 - p1),
        e2 == p2 + (e1 - p1),
        parse_var(k, t1, p1, e1, key1) is Done,
    ensures
        parse_var(k, t2, p2, e2, key2) matches ListOutcome::Done(vs2, r2) && strip_all(vs2) == strip_all(
            parse_var(k, t1, p1, e1, key1)->Done_0,
        ) && r2 - p2 == parse_var(k, t1, p1, e1, key1)->Done_1 - p1,
    decreases k, e1 - p1,
{
    if p1 < e1 {
        let o = parse_value(k, t1, p1, e1, key1, Mode::FnArg);
        let q = o->Done_2;
        lemma_value_bounds(k, t1, p1, e1, key1, Mode::FnArg);
        let n = if q < e1 { q - p1 + 1 } else { q - p1 };
        lemma_same_tokens_sub(t1, p1, t2, p2, e1 - p1, 0, n);
        lemma_value_moves(k, t1, p1, e1, t2, p2, e2, key1, key2, Mode::FnArg);
        let v1 = o->Done_0;
        let v2 = parse_value(k, t2, p2, e2, key2, Mode::FnArg)->Done_0;
        if q < e1 {
            assert(t1[p1 + (q - p1)] == t2[p2 + (q - p1)]);
        }
        if p1 <= q && punct_at(t1, q, e1, ',') {
            lemma_same_tokens_sub(t1, p1, t2, p2, e1 - p1, q + 1 - p1, e1 - (q + 1));
            lemma_var_moves(k, t1, q + 1, e1, t2, q + 1 - p1 + p2, e2, key1, key2);
            let rest1 = parse_var(k, t1, q + 1, e1, key1)->Done_0;
            let rest2 = parse_var(k, t2, q + 1 - p1 + p2, e2, key2)->Done_0;
            lemma_strip_all_cons(v1, rest1);
            lemma_strip_all_cons(v2, rest2);
        } else {
            lemma_strip_all_cons(v1, Seq::empty());
            lemma_strip_all_cons(v2, Seq::empty());
            assert(seq![v1] + Seq::<ValueView>::empty() == seq![v1]);
            assert(seq![v2] + Seq::<ValueView>::empty() == seq![v2]);
        }
    }
}

} // verus!
