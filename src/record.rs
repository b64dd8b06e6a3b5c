//! Record shapes and the body parser: staging, dispatch on the argument name,
//! duplicate and unknown-argument diagnostics, defaults and assembly.
use crate::default::{BaeDefault, BaeDefaultedValue};
use crate::diagnostic::Message;
use crate::kind::{copy_value, view_of, views_of, Kind, SpannedValue, Value, ValueView, lemma_views_of_push, lemma_views_of_empty};
use crate::parse::{at, parse_value, parse_value_exec, quoted, sp, Mode, Outcome};
use crate::span::{call_site, BaeParseCtx, Span};
use crate::syntax::{is_plain_ident, is_plain_ident_text};
use crate::text::{join, join_texts, sort_texts, sorted_texts, views};
use crate::token::{find_paren_close, lemma_group_close_bounds, paren_close, punct_at, Tok};
use vstd::prelude::*;

verus! {

/// One field of a record shape.
#[derive(Debug)]
pub struct FieldShape {
    /// The field identifier.
    pub ident: String,
    /// The name of the argument in an annotation body (the identifier, or its rename).
    pub field_name: String,
    pub kind: Kind,
    /// A skipped field takes no argument and is filled from `default` alone.
    pub skip: bool,
    /// The value of the field's default producer; for a skipped field without
    /// one, the generic default of its type.
    pub default: Option<Value>,
}

/// The mathematical form of a field shape.
pub struct FieldSpec {
    pub ident: Seq<char>,
    pub field_name: Seq<char>,
    pub kind: Kind,
    pub skip: bool,
    pub default: Option<ValueView>,
}

impl FieldShape {
    pub open spec fn spec(&self) -> FieldSpec {
        FieldSpec {
            ident: self.ident@,
            field_name: self.field_name@,
            kind: self.kind,
            skip: self.skip,
            default: match self.default {
                Some(d) => Some(view_of(d)),
                None => None,
            },
        }
    }
}

pub open spec fn field_specs(fs: Seq<FieldShape>) -> Seq<FieldSpec> {
    fs.map_values(|f: FieldShape| f.spec())
}

/// The shape of one annotation: its name and its fields in declaration order.
#[derive(Debug)]
pub struct FromAttributesMeta {
    pub attr_name: String,
    pub fields: Vec<FieldShape>,
}

/// A parsed annotation: one value per field, in declaration order.
#[derive(Debug)]
pub struct Record {
    pub values: Vec<Value>,
}

impl Record {
    pub open spec fn view(&self) -> Seq<ValueView> {
        views_of(self.values@)
    }
}

pub open spec fn duplicate_arg_text(attr: Seq<char>, name: Seq<char>) -> Seq<char> {
    "`#["@ + attr + "]` argument `"@ + name + "` specified multiple times"@
}

pub open spec fn missing_arg_text(attr: Seq<char>, name: Seq<char>) -> Seq<char> {
    "`#["@ + attr + "]` is missing `"@ + name + "` argument"@
}

pub open spec fn unknown_arg_text(attr: Seq<char>, name: Seq<char>, fs: Seq<FieldSpec>) -> Seq<char> {
    "`#["@ + attr + "]` got unknown `"@ + name + "` argument. Supported arguments are "@ + join(
        sorted_texts(quoted_idents(fs)),
        ", "@,
    )
}

/// The field identifiers, each in backticks, in declaration order.
pub open spec fn quoted_idents(fs: Seq<FieldSpec>) -> Seq<Seq<char>>
    decreases fs.len(),
{
    if fs.len() == 0 {
        Seq::empty()
    } else {
        quoted_idents(fs.drop_last()).push(quoted(fs.last().ident))
    }
}

/// The first field from `i` on that takes an argument named `name`.
pub open spec fn field_index_from(fs: Seq<FieldSpec>, name: Seq<char>, i: int) -> Option<int>
    decreases fs.len() - i,
{
    if i < 0 || i >= fs.len() {
        None
    } else if !fs[i].skip && fs[i].field_name == name {
        Some(i)
    } else {
        field_index_from(fs, name, i + 1)
    }
}

/// The field that takes an argument named `name`, if any.
pub open spec fn field_index(fs: Seq<FieldSpec>, name: Seq<char>) -> Option<int> {
    field_index_from(fs, name, 0)
}

pub open spec fn slot_views(s: Seq<Option<Value>>) -> Seq<Option<ValueView>> {
    s.map_values(|o: Option<Value>| match o {
        Some(v) => Some(view_of(v)),
        None => None,
    })
}

/// The outcome of reading the arguments of a body.
pub enum ScanOutcome {
    Done(Seq<Option<ValueView>>),
    Fail(Span, Seq<char>),
}

/// The outcome of parsing a body: the field values, or the error.
pub enum BodyOutcome {
    Done(Seq<ValueView>),
    Fail(Span, Seq<char>),
}

/// Reads the arguments from `pos` up to `end`, filling the staging `slots`.
pub open spec fn scan(
    fs: Seq<FieldSpec>,
    attr: Seq<char>,
    t: Seq<Tok>,
    pos: int,
    end: int,
    slots: Seq<Option<ValueView>>,
    cspan: Span,
) -> ScanOutcome
    decreases end - pos,
{
    if pos < 0 || pos >= end || end > t.len() {
        ScanOutcome::Done(slots)
    } else if !(t[pos] is Ident) || !is_plain_ident_text(t[pos]->Ident_0@) {
        ScanOutcome::Fail(at(pos), "expected identifier"@)
    } else {
        let name = t[pos]->Ident_0@;
        match field_index(fs, name) {
            None => ScanOutcome::Fail(at(pos), unknown_arg_text(attr, name, fs)),
            Some(i) => if slots[i] is Some {
                ScanOutcome::Fail(cspan, duplicate_arg_text(attr, name))
            } else {
                match parse_value(fs[i].kind, t, pos + 1, end, at(pos), Mode::Prefix) {
                    Outcome::Fail(s, m) => ScanOutcome::Fail(s, m),
                    Outcome::Done(v, s, q) => {
                        let next = if punct_at(t, q, end, ',') { q + 1 } else { q };
                        if next <= pos || next > end {
                            ScanOutcome::Fail(at(pos), "unexpected token"@)
                        } else {
                            scan(fs, attr, t, next, end, slots.update(i, Some(v)), cspan)
                        }
                    },
                }
            },
        }
    }
}

/// The default a kind supplies by itself: `None` for an optional, and the
/// spanned default of a spanned kind whose inner kind has one.
pub open spec fn kind_default(k: Kind) -> Option<ValueView>
    decreases k,
{
    match k {
        Kind::Optional(_) => Some(ValueView::Opt(None)),
        Kind::Spanned(b) => match kind_default(*b) {
            Some(d) => Some(ValueView::Spanned(Box::new(d), call_site(), call_site())),
            None => None,
        },
        _ => None,
    }
}

/// The value of field `f` given its staging slot: the parsed value, else its
/// default producer's value, else its kind's default. A skipped field takes
/// its default alone.
pub open spec fn resolved_field(f: FieldSpec, slot: Option<ValueView>) -> Option<ValueView> {
    if f.skip {
        f.default
    } else {
        match slot {
            Some(v) => Some(v),
            None => match f.default {
                Some(d) => Some(d),
                None => kind_default(f.kind),
            },
        }
    }
}

/// The field values from field `i` on, or the missing-argument error of the first that has none.
pub open spec fn resolve(fs: Seq<FieldSpec>, attr: Seq<char>, slots: Seq<Option<ValueView>>, cspan: Span, i: int) -> BodyOutcome
    decreases fs.len() - i,
{
    if i < 0 || i >= fs.len() {
        BodyOutcome::Done(Seq::empty())
    } else {
        match resolved_field(fs[i], slots[i]) {
            None => BodyOutcome::Fail(cspan, missing_arg_text(attr, fs[i].field_name)),
            Some(v) => match resolve(fs, attr, slots, cspan, i + 1) {
                BodyOutcome::Done(vs) => BodyOutcome::Done(seq![v] + vs),
                BodyOutcome::Fail(s, m) => BodyOutcome::Fail(s, m),
            },
        }
    }
}

pub open spec fn empty_slots(n: nat) -> Seq<Option<ValueView>> {
    Seq::new(n, |i: int| None)
}

/// Parsing of an annotation body `( arg, ... )` for the fields `fs`.
pub open spec fn parse_body(fs: Seq<FieldSpec>, attr: Seq<char>, t: Seq<Tok>) -> BodyOutcome {
    match paren_close(t, 0, t.len() as int) {
        None => BodyOutcome::Fail(at(0), "expected parentheses"@),
        Some(c) => {
            let cspan = sp(1, c);
            match scan(fs, attr, t, 1, c, empty_slots(fs.len()), cspan) {
                ScanOutcome::Fail(s, m) => BodyOutcome::Fail(s, m),
                ScanOutcome::Done(slots) => match resolve(fs, attr, slots, cspan, 0) {
                    BodyOutcome::Fail(s, m) => BodyOutcome::Fail(s, m),
                    BodyOutcome::Done(vs) => if c + 1 < t.len() {
                        BodyOutcome::Fail(at(c + 1), "unexpected token"@)
                    } else {
                        BodyOutcome::Done(vs)
                    },
                },
            }
        },
    }
}

/// The exec result of a body parse agrees with the outcome `o`.
pub open spec fn body_outcome_is(r: Result<Record, Message>, o: BodyOutcome) -> bool {
    match o {
        BodyOutcome::Done(vs) => r matches Ok(x) && x.view() == vs,
        BodyOutcome::Fail(s, m) => r matches Err(e) && e.span == s && e.text@ == m,
    }
}

} // verus!

verus! {

fn attr_message(head: &str, attr: &String, mid: &str, name: &String, tail: &str) -> (r: String)
    ensures
        r@ == head@ + attr@ + mid@ + name@ + tail@,
{
    let mut r = String::from_str(head);
    r.append(attr.as_str());
    r.append(mid);
    r.append(name.as_str());
    r.append(tail);
    r
}

/// The field identifiers, each in backticks, in declaration order.
fn quoted_idents_exec(fs: &Vec<FieldShape>) -> (r: Vec<String>)
    ensures
        views(r@) == quoted_idents(field_specs(fs@)),
{
    let mut out: Vec<String> = Vec::new();
    let mut i: usize = 0;
    while i < fs.len()
        invariant
            i <= fs@.len(),
            views(out@) == quoted_idents(field_specs(fs@).subrange(0, i as int)),
        decreases fs@.len() - i,
    {
        proof {
            assert(field_specs(fs@).subrange(0, i + 1).drop_last() == field_specs(fs@).subrange(0, i as int));
        }
        let mut q = String::from_str("`");
        q.append(fs[i].ident.as_str());
        q.append("`");
        let ghost before = out@;
        out.push(q);
        proof {
            assert(views(out@) =~= views(before).push(q@));
        }
        i = i + 1;
    }
    proof {
        assert(field_specs(fs@).subrange(0, fs@.len() as int) == field_specs(fs@));
    }
    out
}

fn unknown_arg_message(attr: &String, name: &String, fs: &Vec<FieldShape>) -> (r: String)
    ensures
        r@ == unknown_arg_text(attr@, name@, field_specs(fs@)),
{
    let sorted = sort_texts(quoted_idents_exec(fs));
    let list = join_texts(&sorted, ", ");
    let mut r = attr_message("`#[", attr, "]` got unknown `", name, "` argument. Supported arguments are ");
    r.append(list.as_str());
    r
}

/// The field that takes an argument named `name`, if any.
pub fn field_index_exec(fs: &Vec<FieldShape>, name: &String) -> (r: Option<usize>)
    ensures
        match field_index(field_specs(fs@), name@) {
            Some(i) => r == Some(i as usize),
            None => r is None,
        },
{
    let mut i: usize = 0;
    while i < fs.len()
        invariant
            i <= fs@.len(),
            field_index(field_specs(fs@), name@) == field_index_from(field_specs(fs@), name@, i as int),
        decreases fs@.len() - i,
    {
        if !fs[i].skip && fs[i].field_name == *name {
            return Some(i);
        }
        i = i + 1;
    }
    None
}

/// The default a kind supplies by itself.
pub fn kind_default_exec(k: &Kind) -> (r: Option<Value>)
    ensures
        match kind_default(*k) {
            Some(d) => r matches Some(v) && v.view() == d,
            None => r is None,
        },
    decreases k,
{
    match k {
        Kind::Optional(_) => Some(Value::Opt(None)),
        Kind::Spanned(b) => match kind_default_exec(&**b) {
            Some(d) => Some(Value::Spanned(SpannedValue { inner: Box::new(d), span: Span::call_site(), key_span: Span::call_site() })),
            None => None,
        },
        _ => None,
    }
}

impl FromAttributesMeta {
    /// Reads the arguments of the body between `lo` and `end` into staging slots.
    fn scan_exec(&self, toks: &Vec<Tok>, lo: usize, end: usize, cspan: Span) -> (r: Result<Vec<Option<Value>>, Message>)
        requires
            1 <= lo <= end <= toks@.len(),
            toks@.len() < usize::MAX,
        ensures
            match scan(field_specs(self.fields@), self.attr_name@, toks@, lo as int, end as int, empty_slots(self.fields@.len()), cspan) {
                ScanOutcome::Done(s) => r matches Ok(x) && slot_views(x@) == s,
                ScanOutcome::Fail(s, m) => r matches Err(e) && e.span == s && e.text@ == m,
            },
            r matches Ok(x) ==> x@.len() == self.fields@.len(),
    {
        let fs = &self.fields;
        let mut slots: Vec<Option<Value>> = Vec::new();
        let mut k: usize = 0;
        while k < fs.len()
            invariant
                k <= fs@.len(),
                slots@.len() == k,
                forall|j: int| 0 <= j < k ==> #[trigger] slots@[j] is None,
            decreases fs@.len() - k,
        {
            slots.push(None);
            k = k + 1;
        }
        proof {
            assert(slot_views(slots@) =~= empty_slots(fs@.len()));
        }
        let mut p: usize = lo;
        while p < end
            invariant
                1 <= lo <= p <= end <= toks@.len(),
                toks@.len() < usize::MAX,
                slots@.len() == fs@.len(),
                fs == &self.fields,
                scan(field_specs(fs@), self.attr_name@, toks@, lo as int, end as int, empty_slots(fs@.len()), cspan)
                    == scan(field_specs(fs@), self.attr_name@, toks@, p as int, end as int, slot_views(slots@), cspan),
            decreases end - p,
        {
            let name = match &toks[p] {
                Tok::Ident(n) if is_plain_ident(n.as_str()) => n,
                _ => return Err(Message { origin: 0, span: Span::new(p, p + 1), text: String::from_str("expected identifier") }),
            };
            let i = match field_index_exec(fs, name) {
                Some(i) => i,
                None => return Err(Message { origin: 0, span: Span::new(p, p + 1), text: unknown_arg_message(&self.attr_name, name, fs) }),
            };
            proof {
                lemma_field_index_bounds(field_specs(fs@), name@, 0);
            }
            if slots[i].is_some() {
                return Err(Message {
                    origin: 0,
                    span: cspan,
                    text: attr_message("`#[", &self.attr_name, "]` argument `", name, "` specified multiple times"),
                });
            }
            let ctx = BaeParseCtx::new(Span::new(p, p + 1));
            let (spanned, q) = match parse_value_exec(&fs[i].kind, toks, p + 1, end, &ctx, Mode::Prefix) {
                Ok(x) => x,
                Err(e) => return Err(e),
            };
            let v = spanned.unwrap();
            let next = if q < end && toks[q].is_punct(',') { q + 1 } else { q };
            proof {
                assert(slot_views(slots@.update(i as int, Some(v))) =~= slot_views(slots@).update(i as int, Some(view_of(v))));
            }
            slots.set(i, Some(v));
            p = next;
        }
        Ok(slots)
    }

    /// Fills every field from the staging slots and the defaults.
    fn resolve_exec(&self, slots: &Vec<Option<Value>>, cspan: Span) -> (r: Result<Record, Message>)
        requires
            slots@.len() == self.fields@.len(),
        ensures
            body_outcome_is(r, resolve(field_specs(self.fields@), self.attr_name@, slot_views(slots@), cspan, 0)),
    {
        let fs = &self.fields;
        let mut acc: Vec<Value> = Vec::new();
        let mut i: usize = 0;
        proof {
            lemma_views_of_empty();
            if let BodyOutcome::Done(vs) = resolve(field_specs(fs@), self.attr_name@, slot_views(slots@), cspan, 0) {
                assert(Seq::<ValueView>::empty() + vs =~= vs);
            }
        }
        while i < fs.len()
            invariant
                i <= fs@.len(),
                slots@.len() == fs@.len(),
                fs == &self.fields,
                resolve(field_specs(fs@), self.attr_name@, slot_views(slots@), cspan, 0) == prepend_body(
                    views_of(acc@),
                    resolve(field_specs(fs@), self.attr_name@, slot_views(slots@), cspan, i as int),
                ),
            decreases fs@.len() - i,
        {
            let f = &fs[i];
            let v: Value = if f.skip {
                match &f.default {
                    Some(d) => copy_value(d),
                    None => return Err(Message {
                        origin: 0,
                        span: cspan,
                        text: attr_message("`#[", &self.attr_name, "]` is missing `", &f.field_name, "` argument"),
                    }),
                }
            } else {
                let outcome = match &slots[i] {
                    Some(v) => BaeDefaultedValue::Present(copy_value(v)),
                    None => match &f.default {
                        Some(d) => BaeDefaultedValue::Default(copy_value(d)),
                        None => f.kind.bae_default(),
                    },
                };
                let msg = attr_message("`#[", &self.attr_name, "]` is missing `", &f.field_name, "` argument");
                outcome.ok_or_syn_error(cspan, msg)?
            };
            proof {
                assert(slot_views(slots@)[i as int] == match slots@[i as int] { Some(x) => Some(view_of(x)), None => None::<ValueView> });
                assert(resolved_field(field_specs(fs@)[i as int], slot_views(slots@)[i as int]) == Some(view_of(v)));
                lemma_views_of_push(acc@, v);
                if let BodyOutcome::Done(vs) = resolve(field_specs(fs@), self.attr_name@, slot_views(slots@), cspan, i + 1) {
                    assert(views_of(acc@).push(view_of(v)) + vs =~= views_of(acc@) + (seq![view_of(v)] + vs));
                }
            }
            acc.push(v);
            i = i + 1;
        }
        proof {
            assert(views_of(acc@) + Seq::<ValueView>::empty() =~= views_of(acc@));
        }
        Ok(Record { values: acc })
    }

    /// Parses an annotation body `( arg, ... )` into a record.
    pub fn parse_body_exec(&self, toks: &Vec<Tok>) -> (r: Result<Record, Message>)
        requires
            toks@.len() < usize::MAX,
            crate::meta::shape_wf(field_specs(self.fields@)),
        ensures
            body_outcome_is(r, parse_body(field_specs(self.fields@), self.attr_name@, toks@)),
    {
        let n = toks.len();
        let c = match find_paren_close(toks, 0, n) {
            Some(c) => c,
            None => return Err(Message { origin: 0, span: Span::new(0, 1), text: String::from_str("expected parentheses") }),
        };
        proof {
            lemma_group_close_bounds(toks@, 1, n as int, 0);
        }
        let cspan = Span::new(1, c);
        let slots = self.scan_exec(toks, 1, c, cspan)?;
        let rec = self.resolve_exec(&slots, cspan)?;
        if c + 1 < n {
            return Err(Message { origin: 0, span: Span::new(c + 1, c + 2), text: String::from_str("unexpected token") });
        }
        Ok(rec)
    }
}

/// `a` put in front of the values of a body outcome.
pub open spec fn prepend_body(a: Seq<ValueView>, o: BodyOutcome) -> BodyOutcome {
    match o {
        BodyOutcome::Done(vs) => BodyOutcome::Done(a + vs),
        BodyOutcome::Fail(s, m) => BodyOutcome::Fail(s, m),
    }
}

pub proof fn lemma_field_index_bounds(fs: Seq<FieldSpec>, name: Seq<char>, i: int)
    requires
        0 <= i,
    ensures
        field_index_from(fs, name, i) matches Some(j) ==> i <= j < fs.len() && !fs[j].skip && fs[j].field_name == name,
    decreases fs.len() - i,
{
    if i < fs.len() {
        lemma_field_index_bounds(fs, name, i + 1);
    }
}

} // verus!

verus! {

pub proof fn lemma_resolve_len(fs: Seq<FieldSpec>, attr: Seq<char>, slots: Seq<Option<ValueView>>, cspan: Span, i: int)
    requires
        0 <= i <= fs.len(),
    ensures
        resolve(fs, attr, slots, cspan, i) matches BodyOutcome::Done(vs) ==> vs.len() == fs.len() - i,
    decreases fs.len() - i,
{
    if i < fs.len() {
        lemma_resolve_len(fs, attr, slots, cspan, i + 1);
    }
}

/// A parsed body holds one value per field.
pub proof fn lemma_parse_body_len(fs: Seq<FieldSpec>, attr: Seq<char>, t: Seq<Tok>)
    ensures
        parse_body(fs, attr, t) matches BodyOutcome::Done(vs) ==> vs.len() == fs.len(),
{
    match paren_close(t, 0, t.len() as int) {
        Some(c) => match scan(fs, attr, t, 1, c, empty_slots(fs.len()), sp(1, c)) {
            ScanOutcome::Done(slots) => lemma_resolve_len(fs, attr, slots, sp(1, c), 0),
            _ => {},
        },
        None => {},
    }
}

} // verus!
