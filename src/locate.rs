//! Locating the annotation of a record among a declaration's annotations.
use crate::diagnostic::{Diagnostic, Message};
use crate::kind::ValueView;
use crate::parse::sp;
use crate::record::{field_specs, parse_body, BodyOutcome, FromAttributesMeta, Record};
use crate::span::{call_site, Span};
use crate::token::Tok;
use vstd::prelude::*;

verus! {

/// One annotation of a declaration: its head identifier (where the path is a
/// single identifier) and the tokens that follow the path.
#[derive(Debug)]
pub struct Annotation {
    pub name: Option<String>,
    pub tokens: Vec<Tok>,
}

/// The messages of a diagnostic, each as its span and text.
pub open spec fn notes(d: Diagnostic) -> Seq<(Span, Seq<char>)> {
    msg_notes(d.messages@)
}

pub open spec fn msg_notes(s: Seq<Message>) -> Seq<(Span, Seq<char>)> {
    s.map_values(|m: Message| (m.span, m.text@))
}

pub open spec fn duplicate_attr_text(attr: Seq<char>) -> Seq<char> {
    "duplicate attribute `#["@ + attr + "]`"@
}

pub open spec fn missing_attr_text(attr: Seq<char>) -> Seq<char> {
    "missing attribute `#["@ + attr + "]`"@
}

pub open spec fn is_named(a: Annotation, attr: Seq<char>) -> bool {
    a.name matches Some(n) && n@ == attr
}

/// The span that stands for a whole annotation.
pub open spec fn annotation_span(a: Annotation) -> Span {
    sp(0, a.tokens@.len() as int)
}

/// What the matching annotations among `attrs` gave: the errors of those that
/// failed, in order; or, where none failed, each record with its annotation's span.
pub enum LocateOutcome {
    Errs(Seq<(Span, Seq<char>)>),
    Found(Seq<(Seq<ValueView>, Span)>),
}

pub open spec fn locate(fs: Seq<crate::record::FieldSpec>, attr: Seq<char>, attrs: Seq<Annotation>) -> LocateOutcome
    decreases attrs.len(),
{
    if attrs.len() == 0 {
        LocateOutcome::Found(Seq::empty())
    } else {
        let prev = locate(fs, attr, attrs.drop_last());
        let a = attrs.last();
        if !is_named(a, attr) {
            prev
        } else {
            match (prev, parse_body(fs, attr, a.tokens@)) {
                (LocateOutcome::Errs(e), BodyOutcome::Fail(s, m)) => LocateOutcome::Errs(e.push((s, m))),
                (LocateOutcome::Errs(e), BodyOutcome::Done(_)) => LocateOutcome::Errs(e),
                (LocateOutcome::Found(_), BodyOutcome::Fail(s, m)) => LocateOutcome::Errs(seq![(s, m)]),
                (LocateOutcome::Found(rs), BodyOutcome::Done(vs)) => LocateOutcome::Found(rs.push((vs, annotation_span(a)))),
            }
        }
    }
}

/// The outcome of looking for a record's annotation.
pub enum TryOutcome {
    Failed(Seq<(Span, Seq<char>)>),
    Absent,
    Present(Seq<ValueView>),
}

/// One duplicate-attribute message for each found record, at its annotation's span.
pub open spec fn duplicates(rs: Seq<(Seq<ValueView>, Span)>, attr: Seq<char>) -> Seq<(Span, Seq<char>)> {
    rs.map_values(|r: (Seq<ValueView>, Span)| (r.1, duplicate_attr_text(attr)))
}

/// Each message names one of the `n` annotations as the one its span lies in.
pub open spec fn origins_below(d: Diagnostic, n: nat) -> bool {
    forall|j: int| 0 <= j < d.messages@.len() ==> (#[trigger] d.messages@[j]).origin < n
}

pub open spec fn try_from(fs: Seq<crate::record::FieldSpec>, attr: Seq<char>, attrs: Seq<Annotation>) -> TryOutcome {
    match locate(fs, attr, attrs) {
        LocateOutcome::Errs(e) => TryOutcome::Failed(e),
        LocateOutcome::Found(rs) => if rs.len() == 0 {
            TryOutcome::Absent
        } else if rs.len() == 1 {
            TryOutcome::Present(rs[0].0)
        } else {
            TryOutcome::Failed(duplicates(rs, attr))
        },
    }
}

pub proof fn lemma_locate_errs_nonempty(fs: Seq<crate::record::FieldSpec>, attr: Seq<char>, attrs: Seq<Annotation>)
    ensures
        locate(fs, attr, attrs) matches LocateOutcome::Errs(e) ==> e.len() > 0,
    decreases attrs.len(),
{
    if attrs.len() > 0 {
        lemma_locate_errs_nonempty(fs, attr, attrs.drop_last());
    }
}

fn attr_text(head: &str, attr: &String, tail: &str) -> (r: String)
    ensures
        r@ == head@ + attr@ + tail@,
{
    let mut r = String::from_str(head);
    r.append(attr.as_str());
    r.append(tail);
    r
}

fn is_named_exec(a: &Annotation, attr: &String) -> (r: bool)
    ensures
        r == is_named(*a, attr@),
{
    match &a.name {
        Some(n) => *n == *attr,
        None => false,
    }
}

/// The found records paired with their spans.
pub open spec fn found_view(found: Seq<Record>, spans: Seq<Span>) -> Seq<(Seq<ValueView>, Span)> {
    Seq::new(found.len(), |k: int| (found[k].view(), spans[k]))
}

impl FromAttributesMeta {
    /// Looks for this record's annotation among `attrs`: `None` where no
    /// annotation has its name, the record where exactly one has and parses,
    /// and otherwise the combined errors of the bodies that failed, or one
    /// duplicate-attribute error at each matching annotation. Each message
    /// records which annotation its span lies in.
    pub fn try_from_attributes(&self, attrs: &Vec<Annotation>) -> (r: Result<Option<Record>, Diagnostic>)
        requires
            forall|i: int| 0 <= i < attrs@.len() ==> (#[trigger] attrs@[i]).tokens@.len() < usize::MAX,
            crate::meta::shape_wf(field_specs(self.fields@)),
        ensures
            match try_from(field_specs(self.fields@), self.attr_name@, attrs@) {
                TryOutcome::Failed(e) => r matches Err(d) && notes(d) == e && d.wf(),
                TryOutcome::Absent => r matches Ok(None),
                TryOutcome::Present(vs) => r matches Ok(Some(x)) && x.view() == vs,
            },
            r matches Err(d) ==> origins_below(d, attrs@.len()),
    {
        let mut failed = false;
        let mut origins: Vec<usize> = Vec::new();
        let mut errs: Vec<Message> = Vec::new();
        let mut found: Vec<Record> = Vec::new();
        let mut spans: Vec<Span> = Vec::new();
        let mut i: usize = 0;
        proof {
            assert(found_view(found@, spans@) =~= Seq::<(Seq<ValueView>, Span)>::empty());
            assert(attrs@.subrange(0, 0) =~= Seq::<Annotation>::empty());
        }
        while i < attrs.len()
            invariant
                i <= attrs@.len(),
                crate::meta::shape_wf(field_specs(self.fields@)),
                forall|k: int| 0 <= k < attrs@.len() ==> (#[trigger] attrs@[k]).tokens@.len() < usize::MAX,
                found@.len() == spans@.len(),
                origins@.len() == found@.len(),
                forall|j: int| 0 <= j < origins@.len() ==> #[trigger] origins@[j] < attrs@.len(),
                forall|j: int| 0 <= j < errs@.len() ==> (#[trigger] errs@[j]).origin < attrs@.len(),
                failed ==> locate(field_specs(self.fields@), self.attr_name@, attrs@.subrange(0, i as int))
                    == LocateOutcome::Errs(msg_notes(errs@)),
                !failed ==> locate(field_specs(self.fields@), self.attr_name@, attrs@.subrange(0, i as int))
                    == LocateOutcome::Found(found_view(found@, spans@)),
            decreases attrs@.len() - i,
        {
            let a = &attrs[i];
            proof {
                assert(attrs@.subrange(0, i + 1).drop_last() == attrs@.subrange(0, i as int));
                assert(attrs@.subrange(0, i + 1).last() == attrs@[i as int]);
            }
            if is_named_exec(a, &self.attr_name) {
                let res = self.parse_body_exec(&a.tokens);
                match res {
                    Err(m) => {
                        let mut m = m;
                        m.origin = i;
                        if failed {
                            let ghost before = errs@;
                            errs.push(m);
                            proof {
                                assert(msg_notes(errs@) =~= msg_notes(before).push((m.span, m.text@)));
                            }
                        } else {
                            errs = Vec::new();
                            errs.push(m);
                            failed = true;
                            proof {
                                assert(msg_notes(errs@) =~= seq![(m.span, m.text@)]);
                            }
                        }
                    },
                    Ok(rec) => {
                        if !failed {
                            let ghost fb = found@;
                            let ghost sb = spans@;
                            let ghost rv = rec.view();
                            found.push(rec);
                            spans.push(Span::new(0, a.tokens.len()));
                            origins.push(i);
                            proof {
                                assert(found_view(found@, spans@) =~= found_view(fb, sb).push((rv, annotation_span(*a))));
                            }
                        }
                    },
                }
            }
            i = i + 1;
        }
        proof {
            assert(attrs@.subrange(0, attrs@.len() as int) == attrs@);
            lemma_locate_errs_nonempty(field_specs(self.fields@), self.attr_name@, attrs@);
        }
        if failed {
            return Err(Diagnostic { messages: errs });
        }
        if found.len() == 0 {
            return Ok(None);
        }
        if found.len() == 1 {
            let rec = found.pop().unwrap();
            return Ok(Some(rec));
        }
        let mut dups: Vec<Message> = Vec::new();
        let mut k: usize = 0;
        while k < spans.len()
            invariant
                k <= spans@.len(),
                found@.len() == spans@.len(),
                origins@.len() == found@.len(),
                forall|j: int| 0 <= j < origins@.len() ==> #[trigger] origins@[j] < attrs@.len(),
                forall|j: int| 0 <= j < dups@.len() ==> (#[trigger] dups@[j]).origin < attrs@.len(),
                msg_notes(dups@) == duplicates(found_view(found@, spans@), self.attr_name@).subrange(0, k as int),
            decreases spans@.len() - k,
        {
            let ghost before = dups@;
            dups.push(Message { origin: origins[k], span: spans[k], text: attr_text("duplicate attribute `#[", &self.attr_name, "]`") });
            proof {
                let all = duplicates(found_view(found@, spans@), self.attr_name@);
                assert(all.subrange(0, k + 1) =~= all.subrange(0, k as int).push(all[k as int]));
                assert(msg_notes(dups@) =~= msg_notes(before).push(all[k as int]));
            }
            k = k + 1;
        }
        proof {
            let all = duplicates(found_view(found@, spans@), self.attr_name@);
            assert(all.subrange(0, spans@.len() as int) =~= all);
        }
        Err(Diagnostic { messages: dups })
    }

    /// As `try_from_attributes`, with the missing-attribute error where no
    /// annotation has this record's name.
    pub fn from_attributes(&self, attrs: &Vec<Annotation>) -> (r: Result<Record, Diagnostic>)
        requires
            forall|i: int| 0 <= i < attrs@.len() ==> (#[trigger] attrs@[i]).tokens@.len() < usize::MAX,
            crate::meta::shape_wf(field_specs(self.fields@)),
        ensures
            match try_from(field_specs(self.fields@), self.attr_name@, attrs@) {
                TryOutcome::Failed(e) => r matches Err(d) && notes(d) == e && d.wf(),
                TryOutcome::Absent => r matches Err(d) && notes(d) == seq![(call_site(), missing_attr_text(self.attr_name@))] && d.wf(),
                TryOutcome::Present(vs) => r matches Ok(x) && x.view() == vs,
            },
    {
        match self.try_from_attributes(attrs)? {
            Some(rec) => Ok(rec),
            None => {
                let d = Diagnostic::new(Span::call_site(), attr_text("missing attribute `#[", &self.attr_name, "]`"));
                proof {
                    assert(notes(d) =~= seq![(call_site(), missing_attr_text(self.attr_name@))]);
                }
                Err(d)
            },
        }
    }
}

} // verus!

verus! {

pub proof fn lemma_locate_len(fs: Seq<crate::record::FieldSpec>, attr: Seq<char>, attrs: Seq<Annotation>)
    ensures
        locate(fs, attr, attrs) matches LocateOutcome::Found(rs) ==> forall|k: int| 0 <= k < rs.len() ==> (#[trigger] rs[k]).0.len() == fs.len(),
    decreases attrs.len(),
{
    if attrs.len() > 0 {
        lemma_locate_len(fs, attr, attrs.drop_last());
        crate::record::lemma_parse_body_len(fs, attr, attrs.last().tokens@);
    }
}

/// A found record holds one value per field.
pub proof fn lemma_try_from_len(fs: Seq<crate::record::FieldSpec>, attr: Seq<char>, attrs: Seq<Annotation>)
    ensures
        try_from(fs, attr, attrs) matches TryOutcome::Present(vs) ==> vs.len() == fs.len(),
{
    lemma_locate_len(fs, attr, attrs);
}

} // verus!
