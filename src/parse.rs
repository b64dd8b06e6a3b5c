//! The value parsers: how each element kind reads its tokens.
use crate::diagnostic::Message;
use crate::kind::{
    lemma_views_of_empty, lemma_views_of_push, view_of, views_of, EnumAttribute, EnumAttributeVariant, FnCallFixed, FnCallVarArgs, IntType,
    Kind, SpannedValue, Value, ValueView,
};
use crate::literal::{
    is_float_lit, is_float_lit_text, is_int_lit, is_int_lit_text, lit_text_ok, lit_text_supported, str_lit_value, str_lit_value_of, u8_lit, u16_lit, u32_lit, u64_lit, u128_lit, usize_lit, i8_lit, i16_lit, i32_lit, i64_lit, i128_lit, isize_lit, u8_lit_of, u16_lit_of, u32_lit_of, u64_lit_of, u128_lit_of, usize_lit_of, i8_lit_of, i16_lit_of, i32_lit_of, i64_lit_of, i128_lit_of, isize_lit_of,
};
use crate::span::{BaeParseCtx, BaeSpanned, Span};
use crate::syntax::{all_ok, is_plain_ident, is_plain_ident_text, render, render_exec, syn_rest, syn_rest_of, tokens_ok};
use crate::text::{join, join_texts, sort_texts, sorted_texts, views};
use crate::token::{
    count_trees, find_paren_close, skip_trees, tree_count, trees_after,
    lemma_group_close_bounds, paren_close, punct_at, copy_range, Tok,
};
use vstd::prelude::*;

verus! {

/// How a value is introduced: on its own, after `=` as an argument, or as a
/// positional argument inside a call.
#[derive(Clone, Copy, Debug, PartialEq, Eq, Structural)]
pub enum Mode {
    Plain,
    Prefix,
    FnArg,
}

/// The outcome of parsing one value: the value, its span and the position
/// after it; or the span and text of the error.
pub enum Outcome {
    Done(ValueView, Span, int),
    Fail(Span, Seq<char>),
}

/// The outcome of parsing a list of values.
pub enum ListOutcome {
    Done(Seq<ValueView>, int),
    Fail(Span, Seq<char>),
}

pub open spec fn sp(lo: int, hi: int) -> Span {
    Span { lo: lo as usize, hi: hi as usize }
}

/// The span of the single token at `pos`.
pub open spec fn at(pos: int) -> Span {
    sp(pos, pos + 1)
}

pub open spec fn quoted(n: Seq<char>) -> Seq<char> {
    "`"@ + n + "`"@
}

/// The quoted names of the variants that are not skipped, in declaration order.
pub open spec fn supported_values(vs: Seq<EnumAttributeVariant>) -> Seq<Seq<char>>
    decreases vs.len(),
{
    if vs.len() == 0 {
        Seq::empty()
    } else {
        let rest = supported_values(vs.drop_last());
        if vs.last().skip {
            rest
        } else {
            rest.push(quoted(vs.last().name@))
        }
    }
}

/// The diagnostic for a value that names no accepted variant.
pub open spec fn invalid_value_text(vs: Seq<EnumAttributeVariant>) -> Seq<char> {
    "Invalid value, supported values are "@ + join(sorted_texts(supported_values(vs)), ", "@)
}

/// Whether `name` is the name of a variant that is not skipped.
pub open spec fn accepts(vs: Seq<EnumAttributeVariant>, name: Seq<char>) -> bool {
    exists|i: int| 0 <= i < vs.len() && !vs[i].skip && #[trigger] vs[i].name@ == name
}

/// The value `base10_parse` gives for the integer literal `text` read as `ty`,
/// or the text of its error.
pub open spec fn int_of(ty: IntType, text: Seq<char>) -> Result<int, Seq<char>> {
    match ty {
        IntType::U8 => match u8_lit_of(text) {
            Ok(n) => Ok(n as int),
            Err(m) => Err(m),
        },
        IntType::U16 => match u16_lit_of(text) {
            Ok(n) => Ok(n as int),
            Err(m) => Err(m),
        },
        IntType::U32 => match u32_lit_of(text) {
            Ok(n) => Ok(n as int),
            Err(m) => Err(m),
        },
        IntType::U64 => match u64_lit_of(text) {
            Ok(n) => Ok(n as int),
            Err(m) => Err(m),
        },
        IntType::U128 => match u128_lit_of(text) {
            Ok(n) => Ok(n as int),
            Err(m) => Err(m),
        },
        IntType::Usize => match usize_lit_of(text) {
            Ok(n) => Ok(n as int),
            Err(m) => Err(m),
        },
        IntType::I8 => match i8_lit_of(text) {
            Ok(n) => Ok(n as int),
            Err(m) => Err(m),
        },
        IntType::I16 => match i16_lit_of(text) {
            Ok(n) => Ok(n as int),
            Err(m) => Err(m),
        },
        IntType::I32 => match i32_lit_of(text) {
            Ok(n) => Ok(n as int),
            Err(m) => Err(m),
        },
        IntType::I64 => match i64_lit_of(text) {
            Ok(n) => Ok(n as int),
            Err(m) => Err(m),
        },
        IntType::I128 => match i128_lit_of(text) {
            Ok(n) => Ok(n as int),
            Err(m) => Err(m),
        },
        IntType::Isize => match isize_lit_of(text) {
            Ok(n) => Ok(n as int),
            Err(m) => Err(m),
        },
    }
}

/// The text handed to `base10_parse`: the literal, after a minus sign where one precedes it.
pub open spec fn signed_text(negative: bool, lit: Seq<char>) -> Seq<char> {
    if negative {
        "-"@ + lit
    } else {
        lit
    }
}

/// Parsing of the kinds that hold no other kind, at `pos`.
pub open spec fn parse_scalar(k: Kind, t: Seq<Tok>, pos: int, end: int) -> Outcome {
    let here = pos < end && pos < t.len();
    match k {
        Kind::Text => if here && t[pos] is Lit && lit_text_supported(t[pos]->Lit_0@) && str_lit_value_of(t[pos]->Lit_0@) is Some {
            Outcome::Done(ValueView::Text(str_lit_value_of(t[pos]->Lit_0@)->Some_0), at(pos), pos + 1)
        } else {
            Outcome::Fail(at(pos), "expected string literal"@)
        },
        Kind::LitStr => if here && t[pos] is Lit && lit_text_supported(t[pos]->Lit_0@) && str_lit_value_of(t[pos]->Lit_0@) is Some {
            Outcome::Done(ValueView::Lit(t[pos]->Lit_0@), at(pos), pos + 1)
        } else {
            Outcome::Fail(at(pos), "expected string literal"@)
        },
        Kind::LitInt => if here && t[pos] is Lit && lit_text_supported(t[pos]->Lit_0@) && is_int_lit_text(t[pos]->Lit_0@) {
            Outcome::Done(ValueView::Lit(t[pos]->Lit_0@), at(pos), pos + 1)
        } else {
            Outcome::Fail(at(pos), "expected integer literal"@)
        },
        Kind::LitFloat => if here && t[pos] is Lit && lit_text_supported(t[pos]->Lit_0@) && is_float_lit_text(t[pos]->Lit_0@) {
            Outcome::Done(ValueView::Lit(t[pos]->Lit_0@), at(pos), pos + 1)
        } else {
            Outcome::Fail(at(pos), "expected floating point literal"@)
        },
        Kind::Ident => if here && t[pos] is Ident && is_plain_ident_text(t[pos]->Ident_0@) {
            Outcome::Done(ValueView::Ident(t[pos]->Ident_0@), at(pos), pos + 1)
        } else {
            Outcome::Fail(at(pos), "expected identifier"@)
        },
        Kind::Syn(ty) => {
            if !(0 <= pos <= end <= t.len()) || !all_ok(t.subrange(pos, end)) {
                Outcome::Fail(at(pos), "unsupported token"@)
            } else {
                match syn_rest_of(ty, render(t.subrange(pos, end))) {
                    Ok(rest) => {
                        let total = tree_count(t, pos, end);
                        if rest > total {
                            Outcome::Fail(at(pos), "unexpected token"@)
                        } else {
                            let q = trees_after(t, pos, end, (total - rest) as nat);
                            Outcome::Done(ValueView::Tree(t.subrange(pos, q)), sp(pos, q), q)
                        }
                    },
                    Err(m) => Outcome::Fail(at(pos), m),
                }
            }
        },
        Kind::Int(ty) => {
            let negative = punct_at(t, pos, end, '-');
            let lp = if negative { pos + 1 } else { pos };
            if lp < end && lp < t.len() && t[lp] is Lit && lit_text_supported(t[lp]->Lit_0@) && is_int_lit_text(t[lp]->Lit_0@) {
                match int_of(ty, signed_text(negative, t[lp]->Lit_0@)) {
                    Ok(n) => Outcome::Done(ValueView::Int(n), sp(pos, lp + 1), lp + 1),
                    Err(m) => Outcome::Fail(sp(pos, lp + 1), m),
                }
            } else {
                Outcome::Fail(at(pos), "expected integer literal"@)
            }
        },
        Kind::Choice(e) => if here && t[pos] is Ident && is_plain_ident_text(t[pos]->Ident_0@) {
            if accepts(e.variants@, t[pos]->Ident_0@) {
                Outcome::Done(ValueView::Choice(t[pos]->Ident_0@), at(pos), pos + 1)
            } else {
                Outcome::Fail(at(pos), invalid_value_text(e.variants@))
            }
        } else {
            Outcome::Fail(at(pos), "expected identifier"@)
        },
        // kinds that hold other kinds are read by `parse_value`
        _ => Outcome::Fail(at(pos), "unsupported kind"@),
    }
}

/// Whether `k` holds other kinds (and so is parsed by `parse_value` itself).
pub open spec fn is_compound(k: Kind) -> bool {
    k is Switch || k is Optional || k is FnCallFixed || k is FnCallVarArgs || k is Spanned
}

/// Parsing of one value of kind `k` at `pos`, inside a group that ends at
/// `end`, in `mode`; `key` is the span of the argument name.
pub open spec fn parse_value(k: Kind, t: Seq<Tok>, pos: int, end: int, key: Span, mode: Mode) -> Outcome
    decreases k, 0int,
{
    match k {
        Kind::Switch => Outcome::Done(ValueView::Unit, key, pos),
        Kind::Optional(b) => if mode == Mode::FnArg {
            if pos < end && pos < t.len() && t[pos] is Ident {
                let name = t[pos]->Ident_0@;
                if name == "None"@ {
                    Outcome::Done(ValueView::Opt(None), at(pos), pos + 1)
                } else if name == "Some"@ {
                    match paren_close(t, pos + 1, end) {
                        Some(c) => match parse_value(*b, t, pos + 2, c, key, Mode::FnArg) {
                            Outcome::Done(v, s, q) => if q == c {
                                Outcome::Done(ValueView::Opt(Some(Box::new(v))), s, c + 1)
                            } else {
                                Outcome::Fail(at(q), "unexpected token"@)
                            },
                            Outcome::Fail(s, m) => Outcome::Fail(s, m),
                        },
                        None => Outcome::Fail(at(pos + 1), "expected parentheses"@),
                    }
                } else {
                    Outcome::Fail(at(pos), "Invalid optional variant"@)
                }
            } else {
                Outcome::Fail(at(pos), "expected identifier"@)
            }
        } else {
            match parse_value(*b, t, pos, end, key, mode) {
                Outcome::Done(v, s, q) => Outcome::Done(ValueView::Opt(Some(Box::new(v))), s, q),
                Outcome::Fail(s, m) => Outcome::Fail(s, m),
            }
        },
        Kind::Spanned(b) => match parse_value(*b, t, pos, end, key, mode) {
            Outcome::Done(v, s, q) => Outcome::Done(ValueView::Spanned(Box::new(v), s, key), s, q),
            Outcome::Fail(s, m) => Outcome::Fail(s, m),
        },
        Kind::FnCallFixed(ks) => match paren_close(t, pos, end) {
            Some(c) => match parse_fixed(ks@, 0, t, pos + 1, c, key) {
                ListOutcome::Done(vs, q) => if q < c {
                    Outcome::Fail(at(q), "Too many arguments"@)
                } else {
                    Outcome::Done(ValueView::Fixed(vs), sp(pos + 1, c), c + 1)
                },
                ListOutcome::Fail(s, m) => Outcome::Fail(s, m),
            },
            None => Outcome::Fail(at(pos), "expected parentheses"@),
        },
        Kind::FnCallVarArgs(b) => match paren_close(t, pos, end) {
            Some(c) => match parse_var(*b, t, pos + 1, c, key) {
                ListOutcome::Done(vs, q) => if q < c {
                    Outcome::Fail(at(q), "Invalid arguments"@)
                } else {
                    Outcome::Done(ValueView::VarArgs(vs), sp(pos + 1, c), c + 1)
                },
                ListOutcome::Fail(s, m) => Outcome::Fail(s, m),
            },
            None => Outcome::Fail(at(pos), "expected parentheses"@),
        },
        _ => if mode == Mode::Prefix {
            if punct_at(t, pos, end, '=') {
                parse_scalar(k, t, pos + 1, end)
            } else {
                Outcome::Fail(at(pos), "expected `=`"@)
            }
        } else {
            parse_scalar(k, t, pos, end)
        },
    }
}

/// Parsing of the positional arguments of kinds `ks[i..]`, each but the last
/// followed by a comma (a trailing comma is allowed).
pub open spec fn parse_fixed(ks: Seq<Kind>, i: int, t: Seq<Tok>, pos: int, end: int, key: Span) -> ListOutcome
    decreases ks, ks.len() - i,
{
    if i < 0 || i >= ks.len() {
        ListOutcome::Done(Seq::empty(), pos)
    } else {
        match parse_value(ks[i], t, pos, end, key, Mode::FnArg) {
            Outcome::Done(v, s, q) => if q < end && !punct_at(t, q, end, ',') {
                ListOutcome::Fail(at(q), "expected `,`"@)
            } else {
                let next = if q < end { q + 1 } else { q };
                match parse_fixed(ks, i + 1, t, next, end, key) {
                    ListOutcome::Done(vs, r) => ListOutcome::Done(seq![v] + vs, r),
                    ListOutcome::Fail(s2, m) => ListOutcome::Fail(s2, m),
                }
            },
            Outcome::Fail(s, m) => ListOutcome::Fail(s, m),
        }
    }
}

/// Parsing of comma-separated positional arguments of kind `k` from `pos`,
/// stopping at the end or after a value not followed by a comma.
pub open spec fn parse_var(k: Kind, t: Seq<Tok>, pos: int, end: int, key: Span) -> ListOutcome
    decreases k, end - pos,
{
    if pos >= end {
        ListOutcome::Done(Seq::empty(), pos)
    } else {
        match parse_value(k, t, pos, end, key, Mode::FnArg) {
            Outcome::Done(v, s, q) => if pos <= q && punct_at(t, q, end, ',') {
                match parse_var(k, t, q + 1, end, key) {
                    ListOutcome::Done(vs, r) => ListOutcome::Done(seq![v] + vs, r),
                    ListOutcome::Fail(s2, m) => ListOutcome::Fail(s2, m),
                }
            } else {
                ListOutcome::Done(seq![v], q)
            },
            Outcome::Fail(s, m) => ListOutcome::Fail(s, m),
        }
    }
}

} // verus!

verus! {

/// The exec result of one value parser agrees with the outcome `o`.
pub open spec fn outcome_is(r: Result<(BaeSpanned<Value>, usize), Message>, o: Outcome) -> bool {
    match o {
        Outcome::Done(v, s, q) => r matches Ok(x) && x.0.inner.view() == v && x.0.span == s && x.1 as int == q,
        Outcome::Fail(s, m) => r matches Err(e) && e.span == s && e.text@ == m,
    }
}

/// The exec result of a list parser agrees with the outcome `o`.
pub open spec fn list_outcome_is(r: Result<(Vec<Value>, usize), Message>, o: ListOutcome) -> bool {
    match o {
        ListOutcome::Done(vs, q) => r matches Ok(x) && views_of(x.0@) == vs && x.1 as int == q,
        ListOutcome::Fail(s, m) => r matches Err(e) && e.span == s && e.text@ == m,
    }
}

/// `a` put in front of the values of a list outcome.
pub open spec fn prepend(a: Seq<ValueView>, o: ListOutcome) -> ListOutcome {
    match o {
        ListOutcome::Done(vs, q) => ListOutcome::Done(a + vs, q),
        ListOutcome::Fail(s, m) => ListOutcome::Fail(s, m),
    }
}

fn fail(lo: usize, hi: usize, text: &str) -> (r: Message)
    ensures
        r.span == (Span { lo, hi }),
        r.text@ == text@,
{
    Message { origin: 0, span: Span::new(lo, hi), text: String::from_str(text) }
}

fn same_text(s: &String, lit: &str) -> (r: bool)
    ensures
        r == (s@ == lit@),
{
    let l = String::from_str(lit);
    *s == l
}

/// The integer value of a signed result.
fn signed_value(n: i128) -> (r: Value)
    ensures
        r.view() == ValueView::Int(n as int),
{
    if n < 0 {
        Value::Int { negative: true, magnitude: ((-(n + 1)) as u128) + 1 }
    } else {
        Value::Int { negative: false, magnitude: n as u128 }
    }
}

/// Reads the integer literal `text` as `ty`.
fn int_value(ty: IntType, text: &str) -> (r: Result<Value, String>)
    requires
        lit_text_supported(text@),
    ensures
        match int_of(ty, text@) {
            Ok(n) => r matches Ok(v) && v.view() == ValueView::Int(n),
            Err(m) => r matches Err(e) && e@ == m,
        },
{
    match ty {
        IntType::U8 => match u8_lit(text) {
            Ok(n) => Ok(Value::Int { negative: false, magnitude: n as u128 }),
            Err(m) => Err(m),
        },
        IntType::U16 => match u16_lit(text) {
            Ok(n) => Ok(Value::Int { negative: false, magnitude: n as u128 }),
            Err(m) => Err(m),
        },
        IntType::U32 => match u32_lit(text) {
            Ok(n) => Ok(Value::Int { negative: false, magnitude: n as u128 }),
            Err(m) => Err(m),
        },
        IntType::U64 => match u64_lit(text) {
            Ok(n) => Ok(Value::Int { negative: false, magnitude: n as u128 }),
            Err(m) => Err(m),
        },
        IntType::U128 => match u128_lit(text) {
            Ok(n) => Ok(Value::Int { negative: false, magnitude: n as u128 }),
            Err(m) => Err(m),
        },
        IntType::Usize => match usize_lit(text) {
            Ok(n) => Ok(Value::Int { negative: false, magnitude: n as u128 }),
            Err(m) => Err(m),
        },
        IntType::I8 => match i8_lit(text) {
            Ok(n) => Ok(signed_value(n as i128)),
            Err(m) => Err(m),
        },
        IntType::I16 => match i16_lit(text) {
            Ok(n) => Ok(signed_value(n as i128)),
            Err(m) => Err(m),
        },
        IntType::I32 => match i32_lit(text) {
            Ok(n) => Ok(signed_value(n as i128)),
            Err(m) => Err(m),
        },
        IntType::I64 => match i64_lit(text) {
            Ok(n) => Ok(signed_value(n as i128)),
            Err(m) => Err(m),
        },
        IntType::I128 => match i128_lit(text) {
            Ok(n) => Ok(signed_value(n as i128)),
            Err(m) => Err(m),
        },
        IntType::Isize => match isize_lit(text) {
            Ok(n) => Ok(signed_value(n as i128)),
            Err(m) => Err(m),
        },
    }
}

/// Whether `name` names a variant of `e` that is not skipped.
pub fn accepts_name(e: &EnumAttribute, name: &String) -> (r: bool)
    ensures
        r == accepts(e.variants@, name@),
{
    let mut i: usize = 0;
    while i < e.variants.len()
        invariant
            i <= e.variants@.len(),
            forall|j: int| 0 <= j < i ==> !(!e.variants@[j].skip && #[trigger] e.variants@[j].name@ == name@),
        decreases e.variants@.len() - i,
    {
        if !e.variants[i].skip && e.variants[i].name == *name {
            return true;
        }
        i = i + 1;
    }
    false
}

/// The diagnostic text for a value of `e` that names no accepted variant.
pub fn invalid_value_message(e: &EnumAttribute) -> (r: String)
    ensures
        r@ == invalid_value_text(e.variants@),
{
    let mut names: Vec<String> = Vec::new();
    let mut i: usize = 0;
    while i < e.variants.len()
        invariant
            i <= e.variants@.len(),
            views(names@) == supported_values(e.variants@.subrange(0, i as int)),
        decreases e.variants@.len() - i,
    {
        proof {
            assert(e.variants@.subrange(0, i + 1).drop_last() == e.variants@.subrange(0, i as int));
        }
        if !e.variants[i].skip {
            let mut q = String::from_str("`");
            q.append(e.variants[i].name.as_str());
            q.append("`");
            let ghost old_names = names@;
            names.push(q);
            proof {
                assert(views(names@) =~= views(old_names).push(q@));
            }
        }
        i = i + 1;
    }
    proof {
        assert(e.variants@.subrange(0, e.variants@.len() as int) == e.variants@);
    }
    let sorted = sort_texts(names);
    let list = join_texts(&sorted, ", ");
    let mut r = String::from_str("Invalid value, supported values are ");
    r.append(list.as_str());
    r
}

/// Parses a value of a kind that holds no other kind.
pub fn parse_scalar_exec(k: &Kind, toks: &Vec<Tok>, pos: usize, end: usize) -> (r: Result<(BaeSpanned<Value>, usize), Message>)
    requires
        pos <= end <= toks@.len(),
        toks@.len() < usize::MAX,
    ensures
        outcome_is(r, parse_scalar(*k, toks@, pos as int, end as int)),
        r matches Ok(x) ==> pos <= x.1 <= end,
{
    let here = pos < end;
    match k {
        Kind::Text => {
            if here {
                match &toks[pos] {
                    Tok::Lit(s) => if lit_text_ok(s.as_str()) {
                        match str_lit_value(s.as_str()) {
                            Some(v) => return Ok((BaeSpanned::new(Value::Text(v), Span::new(pos, pos + 1)), pos + 1)),
                            None => {},
                        }
                    },
                    _ => {},
                }
            }
            Err(fail(pos, pos + 1, "expected string literal"))
        },
        Kind::LitStr => {
            if here {
                match &toks[pos] {
                    Tok::Lit(s) => if lit_text_ok(s.as_str()) {
                        match str_lit_value(s.as_str()) {
                            Some(_) => return Ok((BaeSpanned::new(Value::Lit(s.clone()), Span::new(pos, pos + 1)), pos + 1)),
                            None => {},
                        }
                    },
                    _ => {},
                }
            }
            Err(fail(pos, pos + 1, "expected string literal"))
        },
        Kind::LitInt => {
            if here {
                match &toks[pos] {
                    Tok::Lit(s) => if lit_text_ok(s.as_str()) && is_int_lit(s.as_str()) {
                        return Ok((BaeSpanned::new(Value::Lit(s.clone()), Span::new(pos, pos + 1)), pos + 1));
                    },
                    _ => {},
                }
            }
            Err(fail(pos, pos + 1, "expected integer literal"))
        },
        Kind::LitFloat => {
            if here {
                match &toks[pos] {
                    Tok::Lit(s) => if lit_text_ok(s.as_str()) && is_float_lit(s.as_str()) {
                        return Ok((BaeSpanned::new(Value::Lit(s.clone()), Span::new(pos, pos + 1)), pos + 1));
                    },
                    _ => {},
                }
            }
            Err(fail(pos, pos + 1, "expected floating point literal"))
        },
        Kind::Ident => {
            if here {
                match &toks[pos] {
                    Tok::Ident(s) => if is_plain_ident(s.as_str()) {
                        return Ok((BaeSpanned::new(Value::Ident(s.clone()), Span::new(pos, pos + 1)), pos + 1));
                    },
                    _ => {},
                }
            }
            Err(fail(pos, pos + 1, "expected identifier"))
        },
        Kind::Syn(ty) => {
            if !tokens_ok(toks, pos, end) {
                return Err(fail(pos, pos + 1, "unsupported token"));
            }
            let text = render_exec(toks, pos, end);
            proof {
                let w = toks@.subrange(pos as int, end as int);
                assert(all_ok(w) && render(w) == text@);
                assert(crate::syntax::rendered_valid(text@));
            }
            match syn_rest(*ty, text.as_str()) {
                Ok(rest) => {
                    let total = count_trees(toks, pos, end);
                    if rest > total {
                        return Err(fail(pos, pos + 1, "unexpected token"));
                    }
                    let q = skip_trees(toks, pos, end, total - rest);
                    Ok((BaeSpanned::new(Value::Tree(copy_range(toks, pos, q)), Span::new(pos, q)), q))
                },
                Err(m) => Err(Message { origin: 0, span: Span::new(pos, pos + 1), text: m }),
            }
        },
        Kind::Int(ty) => {
            let negative = here && toks[pos].is_punct('-');
            let lp = if negative { pos + 1 } else { pos };
            if lp < end {
                match &toks[lp] {
                    Tok::Lit(s) => if lit_text_ok(s.as_str()) && is_int_lit(s.as_str()) {
                        let hi = lp + 1;
                        let text = if negative {
                            let mut m = String::from_str("-");
                            m.append(s.as_str());
                            m
                        } else {
                            s.clone()
                        };
                        proof {
                            assert(lit_text_supported(text@)) by {
                                if negative {
                                    reveal_strlit("-");
                                    assert(text@[0] == '-');
                                }
                            }
                        }
                        return match int_value(*ty, text.as_str()) {
                            Ok(v) => Ok((BaeSpanned::new(v, Span::new(pos, hi)), hi)),
                            Err(m) => Err(Message { origin: 0, span: Span::new(pos, hi), text: m }),
                        };
                    },
                    _ => {},
                }
            }
            Err(fail(pos, pos + 1, "expected integer literal"))
        },
        Kind::Choice(e) => {
            if here {
                match &toks[pos] {
                    Tok::Ident(s) => if is_plain_ident(s.as_str()) {
                        if accepts_name(e, s) {
                            return Ok((BaeSpanned::new(Value::Choice(s.clone()), Span::new(pos, pos + 1)), pos + 1));
                        }
                        return Err(Message { origin: 0, span: Span::new(pos, pos + 1), text: invalid_value_message(e) });
                    },
                    _ => {},
                }
            }
            Err(fail(pos, pos + 1, "expected identifier"))
        },
        // kinds that hold other kinds are read by `parse_value_exec`
        _ => Err(fail(pos, pos + 1, "unsupported kind")),
    }
}

} // verus!

verus! {

/// The present form of an optional value.
fn present(v: Value) -> (r: Value)
    ensures
        r == Value::Opt(Some(Box::new(v))),
{
    Value::Opt(Some(Box::new(v)))
}

/// Parses one value of kind `k` at `pos`, inside a group that ends at `end`,
/// in `mode`; `key` is the span of the argument name.
pub fn parse_value_exec(k: &Kind, toks: &Vec<Tok>, pos: usize, end: usize, ctx: &BaeParseCtx, mode: Mode) -> (r: Result<(BaeSpanned<Value>, usize), Message>)
    requires
        pos <= end <= toks@.len(),
        toks@.len() < usize::MAX,
    ensures
        outcome_is(r, parse_value(*k, toks@, pos as int, end as int, ctx.attr_ident_span, mode)),
        r matches Ok(x) ==> pos <= x.1 <= end,
    decreases k, 0int,
{
    match k {
        Kind::Switch => Ok((BaeSpanned::new(Value::Unit, ctx.attr_ident_span), pos)),
        Kind::Optional(b) => {
            if mode == Mode::FnArg {
                if pos < end {
                    match &toks[pos] {
                        Tok::Ident(name) => {
                            if same_text(name, "None") {
                                return Ok((BaeSpanned::new(Value::Opt(None), Span::new(pos, pos + 1)), pos + 1));
                            }
                            if !same_text(name, "Some") {
                                return Err(fail(pos, pos + 1, "Invalid optional variant"));
                            }
                            let c = match find_paren_close(toks, pos + 1, end) {
                                Some(c) => c,
                                None => return Err(fail(pos + 1, pos + 2, "expected parentheses")),
                            };
                            proof {
                                lemma_group_close_bounds(toks@, pos + 2, end as int, 0);
                            }
                            let (sv, q) = parse_value_exec(&**b, toks, pos + 2, c, ctx, Mode::FnArg)?;
                            if q != c {
                                return Err(fail(q, q + 1, "unexpected token"));
                            }
                            return Ok((sv.map(present), c + 1));
                        },
                        _ => {},
                    }
                }
                Err(fail(pos, pos + 1, "expected identifier"))
            } else {
                let (sv, q) = parse_value_exec(&**b, toks, pos, end, ctx, mode)?;
                Ok((sv.map(present), q))
            }
        },
        Kind::Spanned(b) => {
            let (sv, q) = parse_value_exec(&**b, toks, pos, end, ctx, mode)?;
            let (v, s) = sv.unwrap_with_span();
            let key_span = ctx.attr_ident_span();
            Ok((BaeSpanned::new(Value::Spanned(SpannedValue { inner: Box::new(v), span: s, key_span }), s), q))
        },
        Kind::FnCallFixed(ks) => {
            let c = match find_paren_close(toks, pos, end) {
                Some(c) => c,
                None => return Err(fail(pos, pos + 1, "expected parentheses")),
            };
            proof {
                lemma_group_close_bounds(toks@, pos + 1, end as int, 0);
            }
            let (vs, q) = parse_fixed_exec(ks, toks, pos + 1, c, ctx)?;
            if q < c {
                return Err(fail(q, q + 1, "Too many arguments"));
            }
            Ok((BaeSpanned::new(Value::Fixed(FnCallFixed { inner: vs }), Span::new(pos + 1, c)), c + 1))
        },
        Kind::FnCallVarArgs(b) => {
            let c = match find_paren_close(toks, pos, end) {
                Some(c) => c,
                None => return Err(fail(pos, pos + 1, "expected parentheses")),
            };
            proof {
                lemma_group_close_bounds(toks@, pos + 1, end as int, 0);
            }
            let (vs, q) = parse_var_exec(&**b, toks, pos + 1, c, ctx)?;
            if q < c {
                return Err(fail(q, q + 1, "Invalid arguments"));
            }
            Ok((BaeSpanned::new(Value::VarArgs(FnCallVarArgs { inner: vs }), Span::new(pos + 1, c)), c + 1))
        },
        _ => {
            if mode == Mode::Prefix {
                if pos < end && toks[pos].is_punct('=') {
                    parse_scalar_exec(k, toks, pos + 1, end)
                } else {
                    Err(fail(pos, pos + 1, "expected `=`"))
                }
            } else {
                parse_scalar_exec(k, toks, pos, end)
            }
        },
    }
}

/// Parses the positional arguments of kinds `ks`, in order.
pub fn parse_fixed_exec(ks: &Vec<Kind>, toks: &Vec<Tok>, pos: usize, end: usize, ctx: &BaeParseCtx) -> (r: Result<(Vec<Value>, usize), Message>)
    requires
        pos <= end <= toks@.len(),
        toks@.len() < usize::MAX,
    ensures
        list_outcome_is(r, parse_fixed(ks@, 0, toks@, pos as int, end as int, ctx.attr_ident_span)),
        r matches Ok(x) ==> pos <= x.1 <= end,
    decreases ks@, 1int,
{
    let mut acc: Vec<Value> = Vec::new();
    let mut p: usize = pos;
    let mut i: usize = 0;
    proof {
        lemma_views_of_empty();
        assert(Seq::<ValueView>::empty() + Seq::<ValueView>::empty() =~= Seq::<ValueView>::empty());
        let o = parse_fixed(ks@, 0, toks@, pos as int, end as int, ctx.attr_ident_span);
        if let ListOutcome::Done(vs, q) = o {
            assert(Seq::<ValueView>::empty() + vs =~= vs);
        }
    }
    while i < ks.len()
        invariant
            pos <= p <= end <= toks@.len(),
            toks@.len() < usize::MAX,
            i <= ks@.len(),
            parse_fixed(ks@, 0, toks@, pos as int, end as int, ctx.attr_ident_span) == prepend(
                views_of(acc@),
                parse_fixed(ks@, i as int, toks@, p as int, end as int, ctx.attr_ident_span),
            ),
        decreases ks@.len() - i,
    {
        let (sv, q) = parse_value_exec(&ks[i], toks, p, end, ctx, Mode::FnArg)?;
        let v = sv.unwrap();
        if q < end && !toks[q].is_punct(',') {
            return Err(fail(q, q + 1, "expected `,`"));
        }
        let next = if q < end { q + 1 } else { q };
        let ghost acc_before = acc@;
        proof {
            lemma_views_of_push(acc_before, v);
            let rest = parse_fixed(ks@, i + 1, toks@, next as int, end as int, ctx.attr_ident_span);
            if let ListOutcome::Done(vs, r) = rest {
                assert(views_of(acc_before).push(view_of(v)) + vs =~= views_of(acc_before) + (seq![view_of(v)] + vs));
            }
        }
        acc.push(v);
        p = next;
        i = i + 1;
    }
    proof {
        assert(views_of(acc@) + Seq::<ValueView>::empty() =~= views_of(acc@));
    }
    Ok((acc, p))
}

/// Parses comma-separated positional arguments of kind `k`.
pub fn parse_var_exec(k: &Kind, toks: &Vec<Tok>, pos: usize, end: usize, ctx: &BaeParseCtx) -> (r: Result<(Vec<Value>, usize), Message>)
    requires
        pos <= end <= toks@.len(),
        toks@.len() < usize::MAX,
    ensures
        list_outcome_is(r, parse_var(*k, toks@, pos as int, end as int, ctx.attr_ident_span)),
        r matches Ok(x) ==> pos <= x.1 <= end,
    decreases k, end - pos + 1,
{
    let mut acc: Vec<Value> = Vec::new();
    let mut p: usize = pos;
    proof {
        lemma_views_of_empty();
        let o = parse_var(*k, toks@, pos as int, end as int, ctx.attr_ident_span);
        if let ListOutcome::Done(vs, q) = o {
            assert(Seq::<ValueView>::empty() + vs =~= vs);
        }
    }
    while p < end
        invariant
            pos <= p <= end <= toks@.len(),
            toks@.len() < usize::MAX,
            parse_var(*k, toks@, pos as int, end as int, ctx.attr_ident_span) == prepend(
                views_of(acc@),
                parse_var(*k, toks@, p as int, end as int, ctx.attr_ident_span),
            ),
        decreases end - p,
    {
        let (sv, q) = parse_value_exec(k, toks, p, end, ctx, Mode::FnArg)?;
        let v = sv.unwrap();
        let ghost acc_before = acc@;
        proof {
            lemma_views_of_push(acc_before, v);
        }
        if !(q < end && toks[q].is_punct(',')) {
            acc.push(v);
            proof {
                assert(views_of(acc_before) + seq![view_of(v)] =~= views_of(acc_before).push(view_of(v)));
            }
            return Ok((acc, q));
        }
        proof {
            let rest = parse_var(*k, toks@, q + 1, end as int, ctx.attr_ident_span);
            if let ListOutcome::Done(vs, r) = rest {
                assert(views_of(acc_before).push(view_of(v)) + vs =~= views_of(acc_before) + (seq![view_of(v)] + vs));
            }
        }
        acc.push(v);
        p = q + 1;
    }
    proof {
        assert(views_of(acc@) + Seq::<ValueView>::empty() =~= views_of(acc@));
    }
    Ok((acc, p))
}

} // verus!
