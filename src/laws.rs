//! Properties of the parser, stated over the specification functions that the
//! executable functions' contracts use, and proved.
use crate::locate::{annotation_span, duplicate_attr_text, is_named, locate, try_from, Annotation, LocateOutcome, TryOutcome};
use crate::parse::{at, is_compound, parse_scalar, parse_value, sp, Mode, Outcome};
use crate::record::{
    duplicate_arg_text, empty_slots, field_index, kind_default, missing_arg_text, parse_body, quoted_idents,
    resolve, resolved_field, scan, unknown_arg_text, BodyOutcome, FieldSpec, ScanOutcome,
};
use crate::span::Span;
use crate::syntax::is_plain_ident_text;
use crate::text::{lex_order, lemma_lex_order_total, sorted_texts};
use crate::token::{paren_close, punct_at, lemma_group_close_bounds, Tok};
use crate::kind::{view_of, Kind, ValueView};
use crate::locality::{lemma_value_bounds, lemma_value_moves, same_tokens, strip, strip_all, window_fits};
use crate::meta::{derive_field, field_data_of, producer_value, FieldDecl, Producer};
use vstd::prelude::*;
use vstd::relations::sorted_by;

verus! {

/// One argument read successfully at `pos`: the position after it and the
/// staging slots with its value recorded.
pub open spec fn scan_next(
    fs: Seq<FieldSpec>,
    t: Seq<Tok>,
    pos: int,
    end: int,
    slots: Seq<Option<ValueView>>,
) -> Option<(int, Seq<Option<ValueView>>)> {
    if pos < 0 || pos >= end || end > t.len() || !(t[pos] is Ident) || !is_plain_ident_text(t[pos]->Ident_0@) {
        None
    } else {
        match field_index(fs, t[pos]->Ident_0@) {
            None => None,
            Some(i) => if slots[i] is Some {
                None
            } else {
                match parse_value(fs[i].kind, t, pos + 1, end, at(pos), Mode::Prefix) {
                    Outcome::Done(v, s, q) => {
                        let next = if punct_at(t, q, end, ',') { q + 1 } else { q };
                        if next <= pos || next > end {
                            None
                        } else {
                            Some((next, slots.update(i, Some(v))))
                        }
                    },
                    Outcome::Fail(_, _) => None,
                }
            },
        }
    }
}

/// Reading arguments from `pos` with `slots` reaches position `p` with slots `s`.
pub open spec fn scan_reaches(
    fs: Seq<FieldSpec>,
    t: Seq<Tok>,
    pos: int,
    end: int,
    slots: Seq<Option<ValueView>>,
    p: int,
    s: Seq<Option<ValueView>>,
) -> bool
    decreases end - pos,
{
    (pos == p && slots == s) || match scan_next(fs, t, pos, end, slots) {
        Some((n, s2)) => pos < n <= end && scan_reaches(fs, t, n, end, s2, p, s),
        None => false,
    }
}

/// The end of the body of an annotation `( ... )`.
pub open spec fn body_end(t: Seq<Tok>) -> Option<int> {
    paren_close(t, 0, t.len() as int)
}

/// Reading the body `t` reaches position `p`, before its end, with slots `s`.
pub open spec fn body_reaches(fs: Seq<FieldSpec>, t: Seq<Tok>, p: int, s: Seq<Option<ValueView>>) -> bool {
    body_end(t) matches Some(c) && p < c && scan_reaches(fs, t, 1, c, empty_slots(fs.len()), p, s)
}

/// The staging slots once every argument of the body `t` has been read.
pub open spec fn body_slots(fs: Seq<FieldSpec>, attr: Seq<char>, t: Seq<Tok>) -> Option<Seq<Option<ValueView>>> {
    match body_end(t) {
        Some(c) => match scan(fs, attr, t, 1, c, empty_slots(fs.len()), sp(1, c)) {
            ScanOutcome::Done(s) => Some(s),
            ScanOutcome::Fail(_, _) => None,
        },
        None => None,
    }
}

/// No identifier of `t` is the argument name of `f`.
pub open spec fn name_absent(t: Seq<Tok>, f: FieldSpec) -> bool {
    forall|j: int| 0 <= j < t.len() && (#[trigger] t[j]) is Ident ==> t[j]->Ident_0@ != f.field_name
}

/// A field that only an argument can fill.
pub open spec fn needs_argument(f: FieldSpec) -> bool {
    !f.skip && f.default is None && kind_default(f.kind) is None
}

proof fn lemma_scan_next_agrees(
    fs: Seq<FieldSpec>,
    attr: Seq<char>,
    t: Seq<Tok>,
    pos: int,
    end: int,
    slots: Seq<Option<ValueView>>,
    cspan: Span,
)
    ensures
        scan_next(fs, t, pos, end, slots) matches Some((n, s2)) ==> scan(fs, attr, t, pos, end, slots, cspan)
            == scan(fs, attr, t, n, end, s2, cspan),
{
}

proof fn lemma_scan_reaches(
    fs: Seq<FieldSpec>,
    attr: Seq<char>,
    t: Seq<Tok>,
    pos: int,
    end: int,
    slots: Seq<Option<ValueView>>,
    cspan: Span,
    p: int,
    s: Seq<Option<ValueView>>,
)
    requires
        scan_reaches(fs, t, pos, end, slots, p, s),
    ensures
        scan(fs, attr, t, pos, end, slots, cspan) == scan(fs, attr, t, p, end, s, cspan),
        pos <= p,
    decreases end - pos,
{
    if !(pos == p && slots == s) {
        lemma_scan_next_agrees(fs, attr, t, pos, end, slots, cspan);
        let (n, s2) = scan_next(fs, t, pos, end, slots)->Some_0;
        lemma_scan_reaches(fs, attr, t, n, end, s2, cspan, p, s);
    }
}

proof fn lemma_field_index_found(fs: Seq<FieldSpec>, name: Seq<char>)
    ensures
        field_index(fs, name) matches Some(j) ==> 0 <= j < fs.len() && !fs[j].skip && fs[j].field_name == name,
{
    crate::record::lemma_field_index_bounds(fs, name, 0);
}

/// Once recorded, a slot keeps its value to the end of the arguments.
proof fn lemma_scan_keeps(
    fs: Seq<FieldSpec>,
    attr: Seq<char>,
    t: Seq<Tok>,
    pos: int,
    end: int,
    slots: Seq<Option<ValueView>>,
    cspan: Span,
    i: int,
)
    requires
        slots.len() == fs.len(),
        0 <= i < fs.len(),
        slots[i] is Some,
    ensures
        scan(fs, attr, t, pos, end, slots, cspan) matches ScanOutcome::Done(s2) ==> s2.len() == fs.len() && s2[i] == slots[i],
    decreases end - pos,
{
    if 0 <= pos < end && end <= t.len() && t[pos] is Ident {
        let name = t[pos]->Ident_0@;
        lemma_field_index_found(fs, name);
        if let Some(j) = field_index(fs, name) {
            if slots[j] is None {
                if let Outcome::Done(v, s, q) = parse_value(fs[j].kind, t, pos + 1, end, at(pos), Mode::Prefix) {
                    let next = if punct_at(t, q, end, ',') { q + 1 } else { q };
                    if !(next <= pos || next > end) {
                        lemma_scan_keeps(fs, attr, t, next, end, slots.update(j, Some(v)), cspan, i);
                    }
                }
            }
        }
    }
}

/// A slot whose argument name never occurs stays empty.
proof fn lemma_scan_absent(
    fs: Seq<FieldSpec>,
    attr: Seq<char>,
    t: Seq<Tok>,
    pos: int,
    end: int,
    slots: Seq<Option<ValueView>>,
    cspan: Span,
    i: int,
)
    requires
        slots.len() == fs.len(),
        0 <= i < fs.len(),
        slots[i] is None,
        name_absent(t, fs[i]),
    ensures
        scan(fs, attr, t, pos, end, slots, cspan) matches ScanOutcome::Done(s2) ==> s2.len() == fs.len() && s2[i] is None,
    decreases end - pos,
{
    if 0 <= pos < end && end <= t.len() && t[pos] is Ident {
        let name = t[pos]->Ident_0@;
        lemma_field_index_found(fs, name);
        if let Some(j) = field_index(fs, name) {
            if slots[j] is None {
                if let Outcome::Done(v, s, q) = parse_value(fs[j].kind, t, pos + 1, end, at(pos), Mode::Prefix) {
                    let next = if punct_at(t, q, end, ',') { q + 1 } else { q };
                    if !(next <= pos || next > end) {
                        assert(j != i);
                        lemma_scan_absent(fs, attr, t, next, end, slots.update(j, Some(v)), cspan, i);
                    }
                }
            }
        }
    }
}

proof fn lemma_scan_len(
    fs: Seq<FieldSpec>,
    attr: Seq<char>,
    t: Seq<Tok>,
    pos: int,
    end: int,
    slots: Seq<Option<ValueView>>,
    cspan: Span,
)
    requires
        slots.len() == fs.len(),
    ensures
        scan(fs, attr, t, pos, end, slots, cspan) matches ScanOutcome::Done(s2) ==> s2.len() == fs.len(),
    decreases end - pos,
{
    if 0 <= pos < end && end <= t.len() && t[pos] is Ident {
        let name = t[pos]->Ident_0@;
        lemma_field_index_found(fs, name);
        if let Some(j) = field_index(fs, name) {
            if slots[j] is None {
                if let Outcome::Done(v, s, q) = parse_value(fs[j].kind, t, pos + 1, end, at(pos), Mode::Prefix) {
                    let next = if punct_at(t, q, end, ',') { q + 1 } else { q };
                    if !(next <= pos || next > end) {
                        lemma_scan_len(fs, attr, t, next, end, slots.update(j, Some(v)), cspan);
                    }
                }
            }
        }
    }
}

proof fn lemma_scan_reaches_len(
    fs: Seq<FieldSpec>,
    t: Seq<Tok>,
    pos: int,
    end: int,
    slots: Seq<Option<ValueView>>,
    p: int,
    s: Seq<Option<ValueView>>,
)
    requires
        slots.len() == fs.len(),
        scan_reaches(fs, t, pos, end, slots, p, s),
    ensures
        s.len() == fs.len(),
    decreases end - pos,
{
    if !(pos == p && slots == s) {
        let (n, s2) = scan_next(fs, t, pos, end, slots)->Some_0;
        let name = t[pos]->Ident_0@;
        lemma_field_index_found(fs, name);
        lemma_scan_reaches_len(fs, t, n, end, s2, p, s);
    }
}

/// Each value of a resolved record is the resolution of its field's slot.
proof fn lemma_resolve_values(fs: Seq<FieldSpec>, attr: Seq<char>, slots: Seq<Option<ValueView>>, cspan: Span, i: int)
    requires
        0 <= i <= fs.len(),
    ensures
        resolve(fs, attr, slots, cspan, i) matches BodyOutcome::Done(vs) ==> vs.len() == fs.len() - i && forall|j: int|
            i <= j < fs.len() ==> resolved_field(fs[j], slots[j]) == Some(#[trigger] vs[j - i]),
    decreases fs.len() - i,
{
    if i < fs.len() {
        lemma_resolve_values(fs, attr, slots, cspan, i + 1);
        if let BodyOutcome::Done(vs) = resolve(fs, attr, slots, cspan, i) {
            let rest = resolve(fs, attr, slots, cspan, i + 1)->Done_0;
            assert forall|j: int| i <= j < fs.len() implies resolved_field(fs[j], slots[j]) == Some(#[trigger] vs[j - i]) by {
                if j > i {
                    assert(vs[j - i] == rest[j - (i + 1)]);
                }
            }
        }
    }
}

proof fn lemma_resolve_values_all(fs: Seq<FieldSpec>, attr: Seq<char>, slots: Seq<Option<ValueView>>, cspan: Span)
    ensures
        resolve(fs, attr, slots, cspan, 0) matches BodyOutcome::Done(vs) ==> vs.len() == fs.len() && forall|j: int|
            0 <= j < fs.len() ==> resolved_field(fs[j], slots[j]) == Some(#[trigger] vs[j]),
{
    lemma_resolve_values(fs, attr, slots, cspan, 0);
    if let BodyOutcome::Done(vs) = resolve(fs, attr, slots, cspan, 0) {
        assert forall|j: int| 0 <= j < fs.len() implies resolved_field(fs[j], slots[j]) == Some(#[trigger] vs[j]) by {
            assert(vs[j - 0] == vs[j]);
        }
    }
}

/// The first field without a value decides the missing-argument error.
proof fn lemma_resolve_first_missing(fs: Seq<FieldSpec>, attr: Seq<char>, slots: Seq<Option<ValueView>>, cspan: Span, k: int, i: int)
    requires
        0 <= k <= i < fs.len(),
        resolved_field(fs[i], slots[i]) is None,
        forall|j: int| k <= j < i ==> (#[trigger] resolved_field(fs[j], slots[j])) is Some,
    ensures
        resolve(fs, attr, slots, cspan, k) == BodyOutcome::Fail(cspan, missing_arg_text(attr, fs[i].field_name)),
    decreases i - k,
{
    if k < i {
        lemma_resolve_first_missing(fs, attr, slots, cspan, k + 1, i);
    }
}

/// Where exactly one annotation has the name `attr`, the lookup gives what its body gives.
pub proof fn lemma_single_annotation(fs: Seq<FieldSpec>, attr: Seq<char>, attrs: Seq<Annotation>, k: int)
    requires
        0 <= k < attrs.len(),
        is_named(attrs[k], attr),
        forall|j: int| 0 <= j < attrs.len() && j != k ==> !is_named(#[trigger] attrs[j], attr),
    ensures
        try_from(fs, attr, attrs) == match parse_body(fs, attr, attrs[k].tokens@) {
            BodyOutcome::Done(vs) => TryOutcome::Present(vs),
            BodyOutcome::Fail(s, m) => TryOutcome::Failed(seq![(s, m)]),
        },
{
    lemma_locate_single(fs, attr, attrs, k);
}

proof fn lemma_locate_none(fs: Seq<FieldSpec>, attr: Seq<char>, attrs: Seq<Annotation>)
    requires
        forall|j: int| 0 <= j < attrs.len() ==> !is_named(#[trigger] attrs[j], attr),
    ensures
        locate(fs, attr, attrs) == LocateOutcome::Found(Seq::empty()),
    decreases attrs.len(),
{
    if attrs.len() > 0 {
        assert(!is_named(attrs[attrs.len() - 1], attr));
        lemma_locate_none(fs, attr, attrs.drop_last());
    }
}

proof fn lemma_locate_single(fs: Seq<FieldSpec>, attr: Seq<char>, attrs: Seq<Annotation>, k: int)
    requires
        0 <= k < attrs.len(),
        is_named(attrs[k], attr),
        forall|j: int| 0 <= j < attrs.len() && j != k ==> !is_named(#[trigger] attrs[j], attr),
    ensures
        locate(fs, attr, attrs) == match parse_body(fs, attr, attrs[k].tokens@) {
            BodyOutcome::Done(vs) => LocateOutcome::Found(seq![(vs, annotation_span(attrs[k]))]),
            BodyOutcome::Fail(s, m) => LocateOutcome::Errs(seq![(s, m)]),
        },
    decreases attrs.len(),
{
    if k == attrs.len() - 1 {
        assert forall|j: int| 0 <= j < attrs.drop_last().len() implies !is_named(#[trigger] attrs.drop_last()[j], attr) by {
            assert(attrs.drop_last()[j] == attrs[j]);
        }
        lemma_locate_none(fs, attr, attrs.drop_last());
        assert(Seq::<(Seq<ValueView>, Span)>::empty().push((parse_body(fs, attr, attrs[k].tokens@)->Done_0, annotation_span(attrs[k])))
            =~= seq![(parse_body(fs, attr, attrs[k].tokens@)->Done_0, annotation_span(attrs[k]))]);
    } else {
        assert(!is_named(attrs[attrs.len() - 1], attr));
        assert forall|j: int| 0 <= j < attrs.drop_last().len() && j != k implies !is_named(#[trigger] attrs.drop_last()[j], attr) by {
            assert(attrs.drop_last()[j] == attrs[j]);
        }
        lemma_locate_single(fs, attr, attrs.drop_last(), k);
    }
}

} // verus!

verus! {

/// Whether every annotation named `attr` has a body that parses.
pub open spec fn all_bodies_parse(fs: Seq<FieldSpec>, attr: Seq<char>, attrs: Seq<Annotation>) -> bool {
    forall|j: int| 0 <= j < attrs.len() && is_named(#[trigger] attrs[j], attr) ==> parse_body(fs, attr, attrs[j].tokens@) is Done
}

/// How many annotations are named `attr`.
pub open spec fn named_count(attrs: Seq<Annotation>, attr: Seq<char>) -> nat
    decreases attrs.len(),
{
    if attrs.len() == 0 {
        0
    } else {
        named_count(attrs.drop_last(), attr) + if is_named(attrs.last(), attr) { 1nat } else { 0nat }
    }
}

proof fn lemma_locate_all_parse(fs: Seq<FieldSpec>, attr: Seq<char>, attrs: Seq<Annotation>)
    requires
        all_bodies_parse(fs, attr, attrs),
    ensures
        locate(fs, attr, attrs) matches LocateOutcome::Found(rs) && rs.len() == named_count(attrs, attr),
    decreases attrs.len(),
{
    if attrs.len() > 0 {
        let init = attrs.drop_last();
        assert forall|j: int| 0 <= j < init.len() && is_named(#[trigger] init[j], attr) implies parse_body(fs, attr, init[j].tokens@) is Done by {
            assert(init[j] == attrs[j]);
        }
        lemma_locate_all_parse(fs, attr, init);
        if is_named(attrs.last(), attr) {
            assert(parse_body(fs, attr, attrs[attrs.len() - 1].tokens@) is Done);
        }
    }
}

/// Each argument, wherever it stands in the body, gives its field the value
/// parsed from it: where reading the body reaches an argument at `p` that is
/// read successfully, a record made from the body holds, for the argument's
/// field, the value parsed from the tokens after the argument name.
pub proof fn law_argument_value(
    fs: Seq<FieldSpec>,
    attr: Seq<char>,
    t: Seq<Tok>,
    p: int,
    s: Seq<Option<ValueView>>,
)
    requires
        body_reaches(fs, t, p, s),
        scan_next(fs, t, p, body_end(t)->Some_0, s) is Some,
    ensures
        ({
            let c = body_end(t)->Some_0;
            let i = field_index(fs, t[p]->Ident_0@)->Some_0;
            let v = parse_value(fs[i].kind, t, p + 1, c, at(p), Mode::Prefix)->Done_0;
            parse_body(fs, attr, t) matches BodyOutcome::Done(vs) ==> vs[i] == v
        }),
{
    let c = body_end(t)->Some_0;
    let cspan = sp(1, c);
    let name = t[p]->Ident_0@;
    let i = field_index(fs, name)->Some_0;
    let (n, s2) = scan_next(fs, t, p, c, s)->Some_0;
    lemma_field_index_found(fs, name);
    lemma_scan_reaches(fs, attr, t, 1, c, empty_slots(fs.len()), cspan, p, s);
    lemma_scan_reaches_len(fs, t, 1, c, empty_slots(fs.len()), p, s);
    lemma_scan_next_agrees(fs, attr, t, p, c, s, cspan);
    lemma_scan_keeps(fs, attr, t, n, c, s2, cspan, i);
    if let ScanOutcome::Done(s3) = scan(fs, attr, t, n, c, s2, cspan) {
        lemma_resolve_values_all(fs, attr, s3, cspan);
    }
}

/// An argument gives its field the same value wherever it stands, up to
/// spans, for a field whose kind holds no syntax fragment (whose parse `syn`
/// makes over everything after it): where reading two bodies reaches the same
/// argument name, and the
/// tokens of its value, with the token after them, are the same in both, the
/// records made from the two bodies agree on that field up to spans.
pub proof fn law_position_independent(
    fs: Seq<FieldSpec>,
    attr: Seq<char>,
    t1: Seq<Tok>,
    p1: int,
    s1: Seq<Option<ValueView>>,
    t2: Seq<Tok>,
    p2: int,
    s2: Seq<Option<ValueView>>,
)
    requires
        body_reaches(fs, t1, p1, s1),
        body_reaches(fs, t2, p2, s2),
        scan_next(fs, t1, p1, body_end(t1)->Some_0, s1) is Some,
        t2[p2] == t1[p1],
        s2[field_index(fs, t1[p1]->Ident_0@)->Some_0] is None,
        crate::locality::local(fs[field_index(fs, t1[p1]->Ident_0@)->Some_0].kind),
        ({
            let i = field_index(fs, t1[p1]->Ident_0@)->Some_0;
            let q1 = parse_value(fs[i].kind, t1, p1 + 1, body_end(t1)->Some_0, at(p1), Mode::Prefix)->Done_2;
            window_fits(t1, p1 + 1, q1, body_end(t1)->Some_0, t2, p2 + 1, body_end(t2)->Some_0)
        }),
    ensures
        ({
            let i = field_index(fs, t1[p1]->Ident_0@)->Some_0;
            parse_body(fs, attr, t1) matches BodyOutcome::Done(vs1) ==> parse_body(fs, attr, t2) matches BodyOutcome::Done(vs2)
                ==> strip(vs1[i]) == strip(vs2[i])
        }),
{
    let c1 = body_end(t1)->Some_0;
    let c2 = body_end(t2)->Some_0;
    let name = t1[p1]->Ident_0@;
    let i = field_index(fs, name)->Some_0;
    lemma_field_index_found(fs, name);
    lemma_group_close_bounds(t1, 1, t1.len() as int, 0);
    lemma_group_close_bounds(t2, 1, t2.len() as int, 0);
    lemma_scan_reaches(fs, attr, t1, 1, c1, empty_slots(fs.len()), sp(1, c1), p1, s1);
    lemma_scan_reaches(fs, attr, t2, 1, c2, empty_slots(fs.len()), sp(1, c2), p2, s2);
    lemma_scan_reaches_len(fs, t2, 1, c2, empty_slots(fs.len()), p2, s2);
    let o1 = parse_value(fs[i].kind, t1, p1 + 1, c1, at(p1), Mode::Prefix);
    lemma_value_bounds(fs[i].kind, t1, p1 + 1, c1, at(p1), Mode::Prefix);
    lemma_value_moves(fs[i].kind, t1, p1 + 1, c1, t2, p2 + 1, c2, at(p1), at(p2), Mode::Prefix);
    let q1 = o1->Done_2;
    let q2 = q1 - p1 + p2;
    if q1 < c1 {
        assert(t1[(p1 + 1) + (q1 - (p1 + 1))] == t2[(p2 + 1) + (q1 - (p1 + 1))]);
    }
    assert(scan_next(fs, t2, p2, c2, s2) is Some);
    law_argument_value(fs, attr, t1, p1, s1);
    law_argument_value(fs, attr, t2, p2, s2);
}

/// A required field whose name no argument of the body uses makes the lookup
/// fail with the missing-argument diagnostic naming it, where the other
/// arguments read well and every field before it has a value.
pub proof fn law_missing_argument(fs: Seq<FieldSpec>, attr: Seq<char>, attrs: Seq<Annotation>, k: int, i: int)
    requires
        0 <= k < attrs.len(),
        is_named(attrs[k], attr),
        forall|j: int| 0 <= j < attrs.len() && j != k ==> !is_named(#[trigger] attrs[j], attr),
        body_slots(fs, attr, attrs[k].tokens@) is Some,
        0 <= i < fs.len(),
        needs_argument(fs[i]),
        name_absent(attrs[k].tokens@, fs[i]),
        forall|j: int| 0 <= j < i ==> (#[trigger] resolved_field(fs[j], body_slots(fs, attr, attrs[k].tokens@)->Some_0[j])) is Some,
    ensures
        try_from(fs, attr, attrs) matches TryOutcome::Failed(e) && e.len() == 1 && e[0].1 == missing_arg_text(attr, fs[i].field_name),
{
    let t = attrs[k].tokens@;
    let c = body_end(t)->Some_0;
    let cspan = sp(1, c);
    let s = body_slots(fs, attr, t)->Some_0;
    lemma_scan_absent(fs, attr, t, 1, c, empty_slots(fs.len()), cspan, i);
    lemma_resolve_first_missing(fs, attr, s, cspan, 0, i);
    lemma_single_annotation(fs, attr, attrs, k);
}

/// An argument name given a second time makes the lookup fail with the
/// duplicate-argument diagnostic naming it.
pub proof fn law_duplicate_argument(
    fs: Seq<FieldSpec>,
    attr: Seq<char>,
    attrs: Seq<Annotation>,
    k: int,
    p: int,
    s: Seq<Option<ValueView>>,
)
    requires
        0 <= k < attrs.len(),
        is_named(attrs[k], attr),
        forall|j: int| 0 <= j < attrs.len() && j != k ==> !is_named(#[trigger] attrs[j], attr),
        body_reaches(fs, attrs[k].tokens@, p, s),
        attrs[k].tokens@[p] is Ident,
        is_plain_ident_text(attrs[k].tokens@[p]->Ident_0@),
        field_index(fs, attrs[k].tokens@[p]->Ident_0@) matches Some(i) && s[i] is Some,
    ensures
        try_from(fs, attr, attrs) == TryOutcome::Failed(
            seq![(sp(1, body_end(attrs[k].tokens@)->Some_0), duplicate_arg_text(attr, attrs[k].tokens@[p]->Ident_0@))],
        ),
{
    let t = attrs[k].tokens@;
    let c = body_end(t)->Some_0;
    lemma_group_close_bounds(t, 1, t.len() as int, 0);
    lemma_scan_reaches(fs, attr, t, 1, c, empty_slots(fs.len()), sp(1, c), p, s);
    lemma_single_annotation(fs, attr, attrs, k);
}

/// An argument name that no field takes makes the lookup fail with the
/// unknown-argument diagnostic, whose list holds every field name in
/// backticks, in lexicographic order.
pub proof fn law_unknown_argument(
    fs: Seq<FieldSpec>,
    attr: Seq<char>,
    attrs: Seq<Annotation>,
    k: int,
    p: int,
    s: Seq<Option<ValueView>>,
)
    requires
        0 <= k < attrs.len(),
        is_named(attrs[k], attr),
        forall|j: int| 0 <= j < attrs.len() && j != k ==> !is_named(#[trigger] attrs[j], attr),
        body_reaches(fs, attrs[k].tokens@, p, s),
        attrs[k].tokens@[p] is Ident,
        is_plain_ident_text(attrs[k].tokens@[p]->Ident_0@),
        field_index(fs, attrs[k].tokens@[p]->Ident_0@) is None,
    ensures
        try_from(fs, attr, attrs) == TryOutcome::Failed(
            seq![(at(p), unknown_arg_text(attr, attrs[k].tokens@[p]->Ident_0@, fs))],
        ),
        sorted_by(sorted_texts(quoted_idents(fs)), lex_order()),
        sorted_texts(quoted_idents(fs)).to_multiset() == quoted_idents(fs).to_multiset(),
{
    let t = attrs[k].tokens@;
    let c = body_end(t)->Some_0;
    lemma_group_close_bounds(t, 1, t.len() as int, 0);
    lemma_scan_reaches(fs, attr, t, 1, c, empty_slots(fs.len()), sp(1, c), p, s);
    lemma_single_annotation(fs, attr, attrs, k);
    lemma_lex_order_total();
    quoted_idents(fs).lemma_sort_by_ensures(lex_order());
}

/// Two or more annotations with the record's name, each with a body that
/// parses, make the lookup fail with a duplicate-attribute diagnostic at
/// each of them.
pub proof fn law_duplicate_attribute(fs: Seq<FieldSpec>, attr: Seq<char>, attrs: Seq<Annotation>)
    requires
        all_bodies_parse(fs, attr, attrs),
        named_count(attrs, attr) >= 2,
    ensures
        try_from(fs, attr, attrs) matches TryOutcome::Failed(e) && e.len() == named_count(attrs, attr)
            && forall|j: int| 0 <= j < e.len() ==> (#[trigger] e[j]).1 == duplicate_attr_text(attr),
{
    lemma_locate_all_parse(fs, attr, attrs);
}

/// An optional field whose name no argument uses is `None`.
pub proof fn law_optional_omitted(fs: Seq<FieldSpec>, attr: Seq<char>, t: Seq<Tok>, i: int)
    requires
        0 <= i < fs.len(),
        fs[i].kind is Optional,
        !fs[i].skip,
        fs[i].default is None,
        name_absent(t, fs[i]),
    ensures
        parse_body(fs, attr, t) matches BodyOutcome::Done(vs) ==> vs[i] == ValueView::Opt(None),
{
    if let Some(c) = body_end(t) {
        let cspan = sp(1, c);
        lemma_scan_absent(fs, attr, t, 1, c, empty_slots(fs.len()), cspan, i);
        if let ScanOutcome::Done(s) = scan(fs, attr, t, 1, c, empty_slots(fs.len()), cspan) {
            lemma_resolve_values_all(fs, attr, s, cspan);
        }
    }
}

/// An optional switch given as a bare argument name is `Some(())`.
pub proof fn law_switch_given(fs: Seq<FieldSpec>, attr: Seq<char>, t: Seq<Tok>, p: int, s: Seq<Option<ValueView>>)
    requires
        body_reaches(fs, t, p, s),
        t[p] is Ident,
        is_plain_ident_text(t[p]->Ident_0@),
        field_index(fs, t[p]->Ident_0@) matches Some(i) && s[i] is None && fs[i].kind == Kind::Optional(
            Box::new(Kind::Switch),
        ),
    ensures
        parse_body(fs, attr, t) matches BodyOutcome::Done(vs) ==> vs[field_index(fs, t[p]->Ident_0@)->Some_0]
            == ValueView::Opt(Some(Box::new(ValueView::Unit))),
{
    let c = body_end(t)->Some_0;
    lemma_group_close_bounds(t, 1, t.len() as int, 0);
    lemma_field_index_found(fs, t[p]->Ident_0@);
    lemma_scan_reaches(fs, attr, t, 1, c, empty_slots(fs.len()), sp(1, c), p, s);
    reveal_with_fuel(parse_value, 2);
    assert(scan_next(fs, t, p, c, s) is Some);
    law_argument_value(fs, attr, t, p, s);
}

/// A skipped field holds its default, whatever the body.
pub proof fn law_skipped_field(fs: Seq<FieldSpec>, attr: Seq<char>, t: Seq<Tok>, i: int)
    requires
        0 <= i < fs.len(),
        fs[i].skip,
        fs[i].default is Some,
    ensures
        parse_body(fs, attr, t) matches BodyOutcome::Done(vs) ==> vs[i] == fs[i].default->Some_0,
{
    if let Some(c) = body_end(t) {
        let cspan = sp(1, c);
        if let ScanOutcome::Done(s) = scan(fs, attr, t, 1, c, empty_slots(fs.len()), cspan) {
            lemma_resolve_values_all(fs, attr, s, cspan);
        }
    }
}

proof fn lemma_scalar_span(k: Kind, t: Seq<Tok>, pos: int, end: int)
    ensures
        parse_scalar(k, t, pos, end) matches Outcome::Done(_, s, q) ==> s == sp(pos, q),
{
}

/// A spanned value of a single-token or tree kind records the span of
/// exactly its tokens (after the `=`), and the span of its argument name.
pub proof fn law_spanned_value(k: Kind, t: Seq<Tok>, pos: int, end: int, key: Span)
    requires
        !is_compound(k),
    ensures
        parse_value(Kind::Spanned(Box::new(k)), t, pos, end, key, Mode::Prefix) matches Outcome::Done(v, s, q) ==> (
        v matches ValueView::Spanned(_, vs, ks) && vs == sp(pos + 1, q) && ks == key && s == vs),
{
    reveal_with_fuel(parse_value, 2);
    lemma_scalar_span(k, t, pos + 1, end);
}

/// A spanned call value records the span of the tokens inside its parentheses.
pub proof fn law_spanned_call(k: Kind, t: Seq<Tok>, pos: int, end: int, key: Span)
    requires
        k is FnCallFixed || k is FnCallVarArgs,
    ensures
        parse_value(Kind::Spanned(Box::new(k)), t, pos, end, key, Mode::Prefix) matches Outcome::Done(v, s, q) ==> (
        v matches ValueView::Spanned(_, vs, ks) && vs == sp(pos + 1, q - 1) && ks == key),
{
    reveal_with_fuel(parse_value, 2);
}

/// The record depends on the arguments only through the value recorded for
/// each field, not on the order in which the arguments stand: two bodies that
/// record the same value for every field give the same record.
pub proof fn law_order_independent(fs: Seq<FieldSpec>, attr: Seq<char>, t1: Seq<Tok>, t2: Seq<Tok>)
    requires
        body_slots(fs, attr, t1) is Some,
        body_slots(fs, attr, t1) == body_slots(fs, attr, t2),
        parse_body(fs, attr, t1) is Done,
        parse_body(fs, attr, t2) is Done,
    ensures
        parse_body(fs, attr, t1) == parse_body(fs, attr, t2),
{
    let s = body_slots(fs, attr, t1)->Some_0;
    let c1 = body_end(t1)->Some_0;
    let c2 = body_end(t2)->Some_0;
    lemma_scan_len(fs, attr, t1, 1, c1, empty_slots(fs.len()), sp(1, c1));
    lemma_resolve_values_all(fs, attr, s, sp(1, c1));
    lemma_resolve_values_all(fs, attr, s, sp(1, c2));
    let vs1 = parse_body(fs, attr, t1)->Done_0;
    let vs2 = parse_body(fs, attr, t2)->Done_0;
    assert(vs1 =~= vs2);
}

/// A field declared `skip` with `default = p` gets the value of the producer
/// `p`; one declared `skip` alone gets its type's generic default.
pub proof fn law_skip_default(d: FieldDecl, ps: Seq<Producer>)
    requires
        derive_field(d, ps) is Ok,
        field_data_of(d.annotations@) matches Ok(fd) && fd.skip,
    ensures
        ({
            let f = derive_field(d, ps)->Ok_0;
            let fd = field_data_of(d.annotations@)->Ok_0;
            &&& f.skip
            &&& match fd.default {
                Some(p) => f.default == producer_value(ps, p),
                None => f.default == Some(view_of(d.type_default->Some_0)),
            }
        }),
{
}

/// Looking up the same annotations twice gives the same record.
pub proof fn law_idempotent(fs: Seq<FieldSpec>, attr: Seq<char>, attrs: Seq<Annotation>, r1: Seq<ValueView>, r2: Seq<ValueView>)
    requires
        try_from(fs, attr, attrs) == TryOutcome::Present(r1),
        try_from(fs, attr, attrs) == TryOutcome::Present(r2),
    ensures
        r1 == r2,
{
}

} // verus!

verus! {

/// The tokens of a list of arguments, one after another.
pub open spec fn flat(args: Seq<Seq<Tok>>) -> Seq<Tok>
    decreases args.len(),
{
    if args.len() == 0 {
        Seq::empty()
    } else {
        flat(args.drop_last()) + args.last()
    }
}

/// The body `( a1 a2 ... )` made of the arguments `args`.
pub open spec fn body_of(args: Seq<Seq<Tok>>) -> Seq<Tok> {
    seq![Tok::Open(crate::token::Delim::Paren)] + flat(args) + seq![Tok::Close(crate::token::Delim::Paren)]
}

/// The field an argument names.
pub open spec fn field_of(fs: Seq<FieldSpec>, a: Seq<Tok>) -> int {
    field_index(fs, a[0]->Ident_0@)->Some_0
}

/// The value an argument gives when read on its own.
pub open spec fn value_of(fs: Seq<FieldSpec>, a: Seq<Tok>) -> ValueView {
    parse_value(fs[field_of(fs, a)].kind, a, 1, a.len() as int, at(0), Mode::Prefix)->Done_0
}

/// `a` is one argument `name ...,` whose name a field takes and whose value,
/// read on its own, ends right before its closing comma.
pub open spec fn arg_ok(fs: Seq<FieldSpec>, a: Seq<Tok>) -> bool {
    &&& a.len() >= 2
    &&& a[0] is Ident
    &&& field_index(fs, a[0]->Ident_0@) is Some
    &&& is_plain_ident_text(a[0]->Ident_0@)
    &&& punct_at(a, a.len() - 1, a.len() as int, ',')
    &&& crate::locality::local(fs[field_of(fs, a)].kind)
    &&& parse_value(fs[field_of(fs, a)].kind, a, 1, a.len() as int, at(0), Mode::Prefix) matches Outcome::Done(
        _,
        _,
        q,
    ) && q == a.len() - 1
}

/// No two arguments name the same field.
pub open spec fn distinct_fields(fs: Seq<FieldSpec>, args: Seq<Seq<Tok>>) -> bool {
    forall|j: int, k: int| 0 <= j < args.len() && 0 <= k < args.len() && j != k ==> field_of(fs, #[trigger] args[j])
        != field_of(fs, #[trigger] args[k])
}

pub open spec fn strip_opt(o: Option<ValueView>) -> Option<ValueView> {
    match o {
        Some(v) => Some(strip(v)),
        None => None,
    }
}

/// What the first `k` arguments record for field `i`, up to spans.
pub open spec fn recorded(fs: Seq<FieldSpec>, args: Seq<Seq<Tok>>, k: int, i: int) -> Option<ValueView> {
    if exists|j: int| 0 <= j < k && field_of(fs, #[trigger] args[j]) == i {
        let j = choose|j: int| 0 <= j < k && field_of(fs, #[trigger] args[j]) == i;
        Some(strip(value_of(fs, args[j])))
    } else {
        None
    }
}

/// A body outcome up to spans.
pub open spec fn strip_body(o: BodyOutcome) -> BodyOutcome {
    match o {
        BodyOutcome::Done(vs) => BodyOutcome::Done(strip_all(vs)),
        BodyOutcome::Fail(_, m) => BodyOutcome::Fail(sp(0, 0), m),
    }
}

proof fn lemma_flat_prefix(args: Seq<Seq<Tok>>, k: int, m: int)
    requires
        0 <= k <= m <= args.len(),
    ensures
        flat(args.subrange(0, k)).len() <= flat(args.subrange(0, m)).len(),
        forall|j: int| 0 <= j < flat(args.subrange(0, k)).len() ==> #[trigger] flat(args.subrange(0, m))[j] == flat(
            args.subrange(0, k),
        )[j],
    decreases m - k,
{
    if k < m {
        lemma_flat_prefix(args, k, m - 1);
        assert(args.subrange(0, m).drop_last() == args.subrange(0, m - 1));
    }
}

proof fn lemma_flat_arg(args: Seq<Seq<Tok>>, k: int, j: int)
    requires
        0 <= k < args.len(),
        0 <= j < args[k].len(),
    ensures
        flat(args.subrange(0, k)).len() + args[k].len() <= flat(args).len(),
        flat(args)[flat(args.subrange(0, k)).len() + j] == args[k][j],
{
    assert(args.subrange(0, k + 1).drop_last() == args.subrange(0, k));
    assert(args.subrange(0, k + 1).last() == args[k]);
    lemma_flat_prefix(args, k + 1, args.len() as int);
    assert(args.subrange(0, args.len() as int) == args);
    let x = flat(args.subrange(0, k)).len() + j;
    assert(flat(args.subrange(0, k + 1))[x] == args[k][j]);
}

/// Reading the arguments of `body_of(args)` one by one records, for each
/// field, the value its argument gives on its own, up to spans.
#[verifier::rlimit(60)]
proof fn lemma_scan_args(
    fs: Seq<FieldSpec>,
    attr: Seq<char>,
    args: Seq<Seq<Tok>>,
    k: int,
    slots: Seq<Option<ValueView>>,
    cspan: Span,
)
    requires
        forall|j: int| 0 <= j < args.len() ==> arg_ok(fs, #[trigger] args[j]),
        distinct_fields(fs, args),
        0 <= k <= args.len(),
        slots.len() == fs.len(),
        forall|i: int| 0 <= i < fs.len() ==> strip_opt(#[trigger] slots[i]) == recorded(fs, args, k, i),
    ensures
        scan(fs, attr, body_of(args), 1 + flat(args.subrange(0, k)).len() as int, body_of(args).len() - 1, slots, cspan) matches ScanOutcome::Done(
            s,
        ) && s.len() == fs.len() && forall|i: int| 0 <= i < fs.len() ==> strip_opt(#[trigger] s[i]) == recorded(
            fs,
            args,
            args.len() as int,
            i,
        ),
    decreases args.len() - k,
{
    let t = body_of(args);
    let c: int = t.len() - 1;
    let p: int = 1 + flat(args.subrange(0, k)).len() as int;
    if k == args.len() {
        assert(args.subrange(0, k) == args);
    } else {
        let a = args[k];
        assert(arg_ok(fs, a));
        let i = field_of(fs, a);
        lemma_field_index_found(fs, a[0]->Ident_0@);
        assert forall|j: int| 0 <= j < a.len() implies #[trigger] t[p + j] == a[j] by {
            lemma_flat_arg(args, k, j);
        }
        lemma_flat_arg(args, k, 0);
        assert(t[p + 0] == a[0]);
        assert(t[p] is Ident && is_plain_ident_text(t[p]->Ident_0@));
        assert(crate::locality::local(fs[i].kind));
        // the slot of this field is still empty
        assert(slots[i] is None) by {
            if exists|j: int| 0 <= j < k && field_of(fs, #[trigger] args[j]) == i {
                let j = choose|j: int| 0 <= j < k && field_of(fs, #[trigger] args[j]) == i;
                assert(field_of(fs, args[j]) != field_of(fs, args[k]));
            }
            assert(strip_opt(slots[i]) == recorded(fs, args, k, i));
        }
        // the value reads as it does on its own
        let q: int = a.len() - 1;
        assert(same_tokens(a, 1, t, p + 1, q)) by {
            assert forall|j: int| 0 <= j < q implies #[trigger] a[1 + j] == t[p + 1 + j] by {
                assert(t[p + (1 + j)] == a[1 + j]);
            }
        }
        assert(window_fits(a, 1, q, a.len() as int, t, p + 1, c));
        lemma_value_moves(fs[i].kind, a, 1, a.len() as int, t, p + 1, c, at(0), at(p), Mode::Prefix);
        let v = parse_value(fs[i].kind, t, p + 1, c, at(p), Mode::Prefix)->Done_0;
        assert(t[p + q] == a[q]);
        let next: int = p + a.len() as int;
        assert(args.subrange(0, k + 1).drop_last() == args.subrange(0, k));
        assert(args.subrange(0, k + 1).last() == a);
        assert(next == 1 + flat(args.subrange(0, k + 1)).len());
        let slots2 = slots.update(i, Some(v));
        assert forall|i2: int| 0 <= i2 < fs.len() implies strip_opt(#[trigger] slots2[i2]) == recorded(fs, args, k + 1, i2) by {
            if i2 == i {
                assert(field_of(fs, args[k]) == i);
                let j = choose|j: int| 0 <= j < k + 1 && field_of(fs, #[trigger] args[j]) == i;
                if j != k {
                    assert(field_of(fs, args[j]) != field_of(fs, args[k]));
                }
            } else {
                if exists|j: int| 0 <= j < k + 1 && field_of(fs, #[trigger] args[j]) == i2 {
                    let j = choose|j: int| 0 <= j < k + 1 && field_of(fs, #[trigger] args[j]) == i2;
                    assert(j < k);
                    let j0 = choose|j: int| 0 <= j < k && field_of(fs, #[trigger] args[j]) == i2;
                    if j0 != j {
                        assert(field_of(fs, args[j]) != field_of(fs, args[j0]));
                    }
                } else {
                    assert(!exists|j: int| 0 <= j < k && field_of(fs, #[trigger] args[j]) == i2);
                }
            }
        }
        lemma_scan_args(fs, attr, args, k + 1, slots2, cspan);
    }
}

/// Resolution sees the slots only up to spans.
proof fn lemma_resolve_strip(
    fs: Seq<FieldSpec>,
    attr: Seq<char>,
    s1: Seq<Option<ValueView>>,
    s2: Seq<Option<ValueView>>,
    c1: Span,
    c2: Span,
    i: int,
)
    requires
        0 <= i <= fs.len(),
        s1.len() == fs.len(),
        s2.len() == fs.len(),
        forall|j: int| 0 <= j < fs.len() ==> strip_opt(#[trigger] s1[j]) == strip_opt(s2[j]),
    ensures
        strip_body(resolve(fs, attr, s1, c1, i)) == strip_body(resolve(fs, attr, s2, c2, i)),
    decreases fs.len() - i,
{
    if i < fs.len() {
        lemma_resolve_strip(fs, attr, s1, s2, c1, c2, i + 1);
        assert(strip_opt(s1[i]) == strip_opt(s2[i]));
        let r1 = resolved_field(fs[i], s1[i]);
        let r2 = resolved_field(fs[i], s2[i]);
        assert(r1 is Some <==> r2 is Some);
        if r1 is Some {
            assert(strip(r1->Some_0) == strip(r2->Some_0));
            if let BodyOutcome::Done(vs1) = resolve(fs, attr, s1, c1, i + 1) {
                let vs2 = resolve(fs, attr, s2, c2, i + 1)->Done_0;
                crate::locality::lemma_strip_all_cons(r1->Some_0, vs1);
                crate::locality::lemma_strip_all_cons(r2->Some_0, vs2);
            }
        }
    }
}

proof fn lemma_recorded_perm(fs: Seq<FieldSpec>, args: Seq<Seq<Tok>>, args2: Seq<Seq<Tok>>, i: int)
    requires
        distinct_fields(fs, args),
        distinct_fields(fs, args2),
        args2.to_multiset() == args.to_multiset(),
    ensures
        recorded(fs, args, args.len() as int, i) == recorded(fs, args2, args2.len() as int, i),
{
    broadcast use vstd::seq_lib::group_to_multiset_ensures;

    if exists|j: int| 0 <= j < args.len() && field_of(fs, #[trigger] args[j]) == i {
        let j = choose|j: int| 0 <= j < args.len() && field_of(fs, #[trigger] args[j]) == i;
        assert(args.contains(args[j]));
        assert(args2.to_multiset().count(args[j]) > 0);
        assert(args2.contains(args[j]));
        let j2 = choose|j2: int| 0 <= j2 < args2.len() && args2[j2] == args[j];
        assert(field_of(fs, args2[j2]) == i);
        let c2 = choose|j: int| 0 <= j < args2.len() && field_of(fs, #[trigger] args2[j]) == i;
        if c2 != j2 {
            assert(field_of(fs, args2[c2]) != field_of(fs, args2[j2]));
        }
    } else if exists|j: int| 0 <= j < args2.len() && field_of(fs, #[trigger] args2[j]) == i {
        let j2 = choose|j: int| 0 <= j < args2.len() && field_of(fs, #[trigger] args2[j]) == i;
        assert(args2.contains(args2[j2]));
        assert(args.to_multiset().count(args2[j2]) > 0);
        assert(args.contains(args2[j2]));
        let j = choose|j: int| 0 <= j < args.len() && args[j] == args2[j2];
        assert(field_of(fs, args[j]) == i);
    }
}

/// The record does not depend on the order of the arguments: a body whose
/// arguments `name ...,` each name a different field whose kind holds no
/// syntax fragment, and each read on their
/// own up to their comma, and a body of the same arguments in another order,
/// give the same outcome up to spans.
pub proof fn law_permutation(fs: Seq<FieldSpec>, attr: Seq<char>, args: Seq<Seq<Tok>>, args2: Seq<Seq<Tok>>)
    requires
        forall|j: int| 0 <= j < args.len() ==> arg_ok(fs, #[trigger] args[j]),
        distinct_fields(fs, args),
        distinct_fields(fs, args2),
        args2.to_multiset() == args.to_multiset(),
        body_end(body_of(args)) == Some(body_of(args).len() - 1),
        body_end(body_of(args2)) == Some(body_of(args2).len() - 1),
    ensures
        strip_body(parse_body(fs, attr, body_of(args))) == strip_body(parse_body(fs, attr, body_of(args2))),
{
    broadcast use vstd::seq_lib::group_to_multiset_ensures;

    assert forall|j: int| 0 <= j < args2.len() implies arg_ok(fs, #[trigger] args2[j]) by {
        assert(args2.contains(args2[j]));
        assert(args.to_multiset().count(args2[j]) > 0);
        assert(args.contains(args2[j]));
        let k = choose|k: int| 0 <= k < args.len() && args[k] == args2[j];
        assert(arg_ok(fs, args[k]));
    }
    let t1 = body_of(args);
    let t2 = body_of(args2);
    let c1 = t1.len() - 1;
    let c2 = t2.len() - 1;
    let e = empty_slots(fs.len());
    assert forall|i: int| 0 <= i < fs.len() implies strip_opt(#[trigger] e[i]) == recorded(fs, args, 0, i) by {}
    assert forall|i: int| 0 <= i < fs.len() implies strip_opt(#[trigger] e[i]) == recorded(fs, args2, 0, i) by {}
    assert(args.subrange(0, 0) =~= Seq::<Seq<Tok>>::empty());
    assert(args2.subrange(0, 0) =~= Seq::<Seq<Tok>>::empty());
    lemma_scan_args(fs, attr, args, 0, e, sp(1, c1));
    lemma_scan_args(fs, attr, args2, 0, e, sp(1, c2));
    let s1 = scan(fs, attr, t1, 1, c1, e, sp(1, c1))->Done_0;
    let s2 = scan(fs, attr, t2, 1, c2, e, sp(1, c2))->Done_0;
    assert forall|i: int| 0 <= i < fs.len() implies strip_opt(#[trigger] s1[i]) == strip_opt(s2[i]) by {
        lemma_recorded_perm(fs, args, args2, i);
    }
    lemma_resolve_strip(fs, attr, s1, s2, sp(1, c1), sp(1, c2), 0);
}

} // verus!
