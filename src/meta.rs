//! The derivation: from a record or enumeration declaration and its
//! meta-annotations (`#[bae(...)]`) to the shape the parser works from.
//!
//! The meta-annotations are themselves parsed by the engine, with shapes made
//! by the bootstrap flavour (`from_attributes_inception`), which reads no
//! meta-annotations: names are never renamed and nothing is skipped.
use crate::diagnostic::{Diagnostic, Message};
use crate::kind::{copy_value, view_of, EnumAttribute, EnumAttributeVariant, Kind, Value, ValueView};
use crate::literal::{snake_case, snake_case_of};
use crate::locate::{msg_notes, notes, try_from, Annotation, TryOutcome};
use crate::record::{field_specs, FieldShape, FieldSpec, FromAttributesMeta};
use crate::span::{call_site, Span};
use crate::token::Tok;
use vstd::prelude::*;

verus! {

/// A field declaration of a record type.
#[derive(Debug)]
pub struct FieldDecl {
    /// `None` for a positional field.
    pub ident: Option<String>,
    pub kind: Kind,
    pub annotations: Vec<Annotation>,
    /// The generic default of the field's type, where the type has one.
    pub type_default: Option<Value>,
}

/// A record type declaration.
#[derive(Debug)]
pub struct RecordDecl {
    pub ident: String,
    pub annotations: Vec<Annotation>,
    pub fields: Vec<FieldDecl>,
}

/// A nullary default producer that `default = <path>` can name.
#[derive(Debug)]
pub struct Producer {
    /// The path as written, without spaces (`my_default`, `::a::b`).
    pub path: String,
    /// The value it produces.
    pub value: Value,
}

/// One variant of an enumeration declaration.
#[derive(Debug)]
pub struct VariantDecl {
    pub ident: String,
    /// Whether the variant has no fields.
    pub unit: bool,
    pub annotations: Vec<Annotation>,
}

/// An enumeration declaration.
#[derive(Debug)]
pub struct EnumDecl {
    pub ident: String,
    pub annotations: Vec<Annotation>,
    pub variants: Vec<VariantDecl>,
}

/// Record-level meta: `#[bae(name = <ident>)]` renames the annotation.
#[derive(Debug)]
pub struct Data {
    pub name: Option<String>,
}

/// Field-level meta: `#[bae(name = <ident>, skip, default = <path>)]`.
#[derive(Debug)]
pub struct FieldData {
    pub name: Option<String>,
    pub skip: bool,
    /// The producer path as written, without spaces.
    pub default: Option<String>,
}

/// Diagnostics in mathematical form.
pub type Notes = Seq<(Span, Seq<char>)>;

/// A field of a bootstrap shape.
pub open spec fn plain_field(n: Seq<char>, k: Kind) -> FieldSpec {
    FieldSpec { ident: n, field_name: n, kind: k, skip: false, default: None }
}

/// The name of the meta-annotation.
pub open spec fn bae_name() -> Seq<char> {
    snake_case_of("Bae"@)
}

pub open spec fn record_meta_fields() -> Seq<FieldSpec> {
    seq![plain_field("name"@, Kind::Optional(Box::new(Kind::Ident)))]
}

pub open spec fn field_meta_fields() -> Seq<FieldSpec> {
    seq![
        plain_field("name"@, Kind::Optional(Box::new(Kind::Ident))),
        plain_field("skip"@, Kind::Optional(Box::new(Kind::Switch))),
        plain_field("default"@, Kind::Optional(Box::new(Kind::Syn(crate::syntax::SynType::Path)))),
    ]
}

pub open spec fn variant_meta_fields() -> Seq<FieldSpec> {
    seq![plain_field("skip"@, Kind::Optional(Box::new(Kind::Switch)))]
}

/// The identifier in an optional identifier value.
pub open spec fn opt_ident(v: ValueView) -> Option<Seq<char>> {
    match v {
        ValueView::Opt(Some(b)) => match *b {
            ValueView::Ident(n) => Some(n),
            _ => None,
        },
        _ => None,
    }
}

/// Whether an optional value is present.
pub open spec fn opt_present(v: ValueView) -> bool {
    v matches ValueView::Opt(Some(_))
}

/// The tokens in an optional tree value.
pub open spec fn opt_tree(v: ValueView) -> Option<Seq<Tok>> {
    match v {
        ValueView::Opt(Some(b)) => match *b {
            ValueView::Tree(t) => Some(t),
            _ => None,
        },
        _ => None,
    }
}

/// The text of a token.
pub open spec fn tok_text(t: Tok) -> Seq<char> {
    match t {
        Tok::Ident(s) => s@,
        Tok::Lit(s) => s@,
        Tok::Punct(c, _) => seq![c],
        Tok::Open(d) => match d {
            crate::token::Delim::Paren => "("@,
            crate::token::Delim::Bracket => "["@,
            crate::token::Delim::Brace => "{"@,
        },
        Tok::Close(d) => match d {
            crate::token::Delim::Paren => ")"@,
            crate::token::Delim::Bracket => "]"@,
            crate::token::Delim::Brace => "}"@,
        },
    }
}

/// The texts of the tokens, run together.
pub open spec fn tokens_text(t: Seq<Tok>) -> Seq<char>
    decreases t.len(),
{
    if t.len() == 0 {
        Seq::empty()
    } else {
        tokens_text(t.drop_last()) + tok_text(t.last())
    }
}

/// Record-level meta read from `attrs`: the rename, if any.
pub open spec fn data_of(attrs: Seq<Annotation>) -> Result<Option<Seq<char>>, Notes> {
    match try_from(record_meta_fields(), bae_name(), attrs) {
        TryOutcome::Failed(e) => Err(e),
        TryOutcome::Absent => Ok(None),
        TryOutcome::Present(vs) => Ok(opt_ident(vs[0])),
    }
}

/// Field-level meta in mathematical form.
pub struct FieldDataView {
    pub name: Option<Seq<char>>,
    pub skip: bool,
    pub default: Option<Seq<char>>,
}

pub open spec fn field_data_of(attrs: Seq<Annotation>) -> Result<FieldDataView, Notes> {
    match try_from(field_meta_fields(), bae_name(), attrs) {
        TryOutcome::Failed(e) => Err(e),
        TryOutcome::Absent => Ok(FieldDataView { name: None, skip: false, default: None }),
        TryOutcome::Present(vs) => Ok(
            FieldDataView {
                name: opt_ident(vs[0]),
                skip: opt_present(vs[1]),
                default: match opt_tree(vs[2]) {
                    Some(t) => Some(tokens_text(t)),
                    None => None,
                },
            },
        ),
    }
}

/// The value of the first producer with path `path`.
pub open spec fn producer_value(ps: Seq<Producer>, path: Seq<char>) -> Option<ValueView>
    decreases ps.len(),
{
    if ps.len() == 0 {
        None
    } else if ps[0].path@ == path {
        Some(view_of(ps[0].value))
    } else {
        producer_value(ps.drop_first(), path)
    }
}

pub open spec fn unnamed_field_notes() -> Notes {
    seq![(call_site(), "Field without a name"@)]
}

pub open spec fn unknown_producer_notes(path: Seq<char>) -> Notes {
    seq![(call_site(), "cannot find function `"@ + path + "` in this scope"@)]
}

pub open spec fn no_type_default_notes(ident: Seq<char>) -> Notes {
    seq![(call_site(), "skipped field `"@ + ident + "` has no default value"@)]
}

/// The default of a field: its producer's value; for a skipped field without
/// producer, its type's generic default.
pub open spec fn field_default(d: FieldDecl, fd: FieldDataView, ps: Seq<Producer>, ident: Seq<char>) -> Result<Option<ValueView>, Notes> {
    match fd.default {
        Some(p) => match producer_value(ps, p) {
            Some(v) => Ok(Some(v)),
            None => Err(unknown_producer_notes(p)),
        },
        None => if fd.skip {
            match d.type_default {
                Some(v) => Ok(Some(view_of(v))),
                None => Err(no_type_default_notes(ident)),
            }
        } else {
            Ok(None)
        },
    }
}

/// The shape of one field, from its declaration and meta-annotations.
pub open spec fn derive_field(d: FieldDecl, ps: Seq<Producer>) -> Result<FieldSpec, Notes> {
    match field_data_of(d.annotations@) {
        Err(e) => Err(e),
        Ok(fd) => match d.ident {
            None => Err(unnamed_field_notes()),
            Some(id) => match field_default(d, fd, ps, id@) {
                Err(e) => Err(e),
                Ok(df) => Ok(
                    FieldSpec {
                        ident: id@,
                        field_name: match fd.name {
                            Some(n) => n,
                            None => id@,
                        },
                        kind: d.kind,
                        skip: fd.skip,
                        default: df,
                    },
                ),
            },
        },
    }
}

/// The shapes of the fields, or the errors of all that fail, in order.
pub open spec fn derive_fields(ds: Seq<FieldDecl>, ps: Seq<Producer>) -> Result<Seq<FieldSpec>, Notes>
    decreases ds.len(),
{
    if ds.len() == 0 {
        Ok(Seq::empty())
    } else {
        match (derive_fields(ds.drop_last(), ps), derive_field(ds.last(), ps)) {
            (Err(e), Err(e2)) => Err(e + e2),
            (Err(e), Ok(_)) => Err(e),
            (Ok(_), Err(e2)) => Err(e2),
            (Ok(fs), Ok(f)) => Ok(fs.push(f)),
        }
    }
}

/// One missing-name error for each unnamed field, in order.
pub open spec fn unnamed_notes(ds: Seq<FieldDecl>) -> Notes
    decreases ds.len(),
{
    if ds.len() == 0 {
        Seq::empty()
    } else {
        unnamed_notes(ds.drop_last()) + if ds.last().ident is None {
            unnamed_field_notes()
        } else {
            Seq::empty()
        }
    }
}

/// The bootstrap shapes of the fields: every field named, none renamed or skipped.
pub open spec fn inception_fields(ds: Seq<FieldDecl>) -> Seq<FieldSpec> {
    ds.map_values(|d: FieldDecl| plain_field(d.ident->Some_0@, d.kind))
}

pub open spec fn all_named(ds: Seq<FieldDecl>) -> bool {
    forall|i: int| 0 <= i < ds.len() ==> (#[trigger] ds[i]).ident is Some
}

} // verus!

verus! {

pub open spec fn opt_view(o: Option<String>) -> Option<Seq<char>> {
    match o {
        Some(s) => Some(s@),
        None => None,
    }
}

fn text_of(s: &str) -> (r: String)
    ensures
        r@ == s@,
{
    String::from_str(s)
}

/// The texts of the tokens, run together.
pub fn tokens_text_exec(t: &Vec<Tok>) -> (r: String)
    ensures
        r@ == tokens_text(t@),
{
    let mut out = String::new();
    let mut i: usize = 0;
    while i < t.len()
        invariant
            i <= t@.len(),
            out@ == tokens_text(t@.subrange(0, i as int)),
        decreases t@.len() - i,
    {
        proof {
            assert(t@.subrange(0, i + 1).drop_last() == t@.subrange(0, i as int));
        }
        match &t[i] {
            Tok::Ident(s) => out.append(s.as_str()),
            Tok::Lit(s) => out.append(s.as_str()),
            Tok::Punct(c, _) => crate::text::push_char(&mut out, *c),
            Tok::Open(d) => match d {
                crate::token::Delim::Paren => out.append("("),
                crate::token::Delim::Bracket => out.append("["),
                crate::token::Delim::Brace => out.append("{"),
            },
            Tok::Close(d) => match d {
                crate::token::Delim::Paren => out.append(")"),
                crate::token::Delim::Bracket => out.append("]"),
                crate::token::Delim::Brace => out.append("}"),
            },
        }
        i = i + 1;
    }
    proof {
        assert(t@.subrange(0, t@.len() as int) == t@);
    }
    out
}

fn opt_ident_exec(v: &Value) -> (r: Option<String>)
    ensures
        opt_view(r) == opt_ident(v.view()),
{
    proof {
        reveal_with_fuel(view_of, 2);
    }
    match v {
        Value::Opt(Some(b)) => match &**b {
            Value::Ident(n) => Some(n.clone()),
            _ => None,
        },
        _ => None,
    }
}

fn opt_present_exec(v: &Value) -> (r: bool)
    ensures
        r == opt_present(v.view()),
{
    match v {
        Value::Opt(Some(_)) => true,
        _ => false,
    }
}

fn opt_tree_text(v: &Value) -> (r: Option<String>)
    ensures
        opt_view(r) == match opt_tree(v.view()) {
            Some(t) => Some(tokens_text(t)),
            None => None::<Seq<char>>,
        },
{
    proof {
        reveal_with_fuel(view_of, 2);
    }
    match v {
        Value::Opt(Some(b)) => match &**b {
            Value::Tree(t) => Some(tokens_text_exec(t)),
            _ => None,
        },
        _ => None,
    }
}

fn no_annotations() -> (r: Vec<Annotation>)
    ensures
        r@.len() == 0,
{
    Vec::new()
}

fn plain_decl(name: &str, kind: Kind) -> (r: FieldDecl)
    ensures
        r.ident matches Some(n) && n@ == name@,
        r.kind == kind,
{
    FieldDecl { ident: Some(text_of(name)), kind, annotations: no_annotations(), type_default: None }
}

/// The bootstrap flavour: the shape of a record whose meta-annotations are
/// not read. Every field must be named; each unnamed one gives an error.
pub fn from_attributes_inception(item: RecordDecl) -> (r: Result<FromAttributesMeta, Diagnostic>)
    ensures
        all_named(item.fields@) ==> (r matches Ok(m) && m.attr_name@ == snake_case_of(item.ident@)
            && field_specs(m.fields@) == inception_fields(item.fields@)),
        !all_named(item.fields@) ==> (r matches Err(d) && notes(d) == unnamed_notes(item.fields@) && d.wf()),
{
    let ghost decls = item.fields@;
    let attr_name = snake_case(item.ident.as_str());
    let mut rest = item.fields;
    let n = rest.len();
    let mut fields: Vec<FieldShape> = Vec::new();
    let mut errs: Vec<Message> = Vec::new();
    let mut i: usize = 0;
    proof {
        assert(decls.subrange(0, 0) =~= Seq::<FieldDecl>::empty());
        assert(msg_notes(errs@) =~= Seq::<(Span, Seq<char>)>::empty());
    }
    while rest.len() > 0
        invariant
            n == decls.len(),
            decls == item.fields@,
            i + rest@.len() == decls.len(),
            rest@ == decls.subrange(i as int, decls.len() as int),
            msg_notes(errs@) == unnamed_notes(decls.subrange(0, i as int)),
            all_named(decls.subrange(0, i as int)) <==> errs@.len() == 0,
            all_named(decls.subrange(0, i as int)) ==> field_specs(fields@) == inception_fields(decls.subrange(0, i as int)),
        decreases rest@.len(),
    {
        let d = rest.remove(0);
        let ghost sub = decls.subrange(0, i as int);
        let ghost next = decls.subrange(0, i + 1);
        proof {
            assert(decls.subrange(i as int, decls.len() as int)[0] == decls[i as int]);
            assert(d == decls[i as int]);
            assert(next.drop_last() == sub);
            assert(next.last() == d);
            assert(next =~= sub.push(d));
            assert(rest@ =~= decls.subrange(i + 1, decls.len() as int));
        }
        match d.ident {
            Some(ident) => {
                let ghost before = fields@;
                let ghost id_view = ident@;
                let field_name = ident.clone();
                let shape = FieldShape { ident, field_name, kind: d.kind, skip: false, default: None };
                fields.push(shape);
                proof {
                    assert(msg_notes(errs@) =~= unnamed_notes(next));
                    assert(all_named(next) == all_named(sub)) by {
                        if all_named(sub) {
                            assert forall|k: int| 0 <= k < next.len() implies (#[trigger] next[k]).ident is Some by {
                                if k < sub.len() {
                                    assert(next[k] == sub[k]);
                                }
                            }
                        } else {
                            let k = choose|k: int| 0 <= k < sub.len() && !((#[trigger] sub[k]).ident is Some);
                            assert(next[k] == sub[k]);
                        }
                    }
                    if all_named(sub) {
                        assert(shape.spec() == plain_field(id_view, d.kind));
                        assert(field_specs(fields@) =~= field_specs(before).push(shape.spec()));
                        assert(inception_fields(next) =~= inception_fields(sub).push(plain_field(id_view, d.kind)));
                    }
                }
            },
            None => {
                let ghost before = errs@;
                errs.push(Message { origin: 0, span: Span::call_site(), text: text_of("Field without a name") });
                proof {
                    assert(msg_notes(errs@) =~= msg_notes(before) + unnamed_field_notes());
                    assert(!all_named(next)) by {
                        assert(next[i as int].ident is None);
                    }
                }
            },
        }
        i = i + 1;
    }
    proof {
        assert(decls.subrange(0, i as int) == decls);
    }
    if errs.len() > 0 {
        return Err(Diagnostic { messages: errs });
    }
    Ok(FromAttributesMeta { attr_name, fields })
}

fn bae_meta(fields: Vec<FieldDecl>) -> (r: FromAttributesMeta)
    requires
        all_named(fields@),
    ensures
        r.attr_name@ == bae_name(),
        field_specs(r.fields@) == inception_fields(fields@),
        shape_wf(field_specs(r.fields@)),
{
    let item = RecordDecl { ident: text_of("Bae"), annotations: no_annotations(), fields };
    from_attributes_inception(item).unwrap()
}

/// The shape of `#[bae(name = <ident>)]` on a record.
fn record_meta() -> (r: FromAttributesMeta)
    ensures
        r.attr_name@ == bae_name(),
        field_specs(r.fields@) == record_meta_fields(),
        shape_wf(field_specs(r.fields@)),
{
    let mut fields: Vec<FieldDecl> = Vec::new();
    fields.push(plain_decl("name", Kind::Optional(Box::new(Kind::Ident))));
    proof {
        assert(inception_fields(fields@) =~= record_meta_fields());
    }
    bae_meta(fields)
}

/// The shape of `#[bae(name = <ident>, skip, default = <path>)]` on a field.
fn field_meta() -> (r: FromAttributesMeta)
    ensures
        r.attr_name@ == bae_name(),
        field_specs(r.fields@) == field_meta_fields(),
        shape_wf(field_specs(r.fields@)),
{
    let mut fields: Vec<FieldDecl> = Vec::new();
    fields.push(plain_decl("name", Kind::Optional(Box::new(Kind::Ident))));
    fields.push(plain_decl("skip", Kind::Optional(Box::new(Kind::Switch))));
    fields.push(plain_decl("default", Kind::Optional(Box::new(Kind::Syn(crate::syntax::SynType::Path)))));
    proof {
        assert(inception_fields(fields@) =~= field_meta_fields());
    }
    bae_meta(fields)
}

/// The shape of `#[bae(skip)]` on an enumeration variant.
fn variant_meta() -> (r: FromAttributesMeta)
    ensures
        r.attr_name@ == bae_name(),
        field_specs(r.fields@) == variant_meta_fields(),
        shape_wf(field_specs(r.fields@)),
{
    let mut fields: Vec<FieldDecl> = Vec::new();
    fields.push(plain_decl("skip", Kind::Optional(Box::new(Kind::Switch))));
    proof {
        assert(inception_fields(fields@) =~= variant_meta_fields());
    }
    bae_meta(fields)
}

/// The shape of `#[bae]` on an enumeration: it takes no arguments.
fn enum_meta() -> (r: FromAttributesMeta)
    ensures
        r.attr_name@ == bae_name(),
        field_specs(r.fields@) == Seq::<FieldSpec>::empty(),
        shape_wf(field_specs(r.fields@)),
{
    let fields: Vec<FieldDecl> = Vec::new();
    proof {
        assert(inception_fields(fields@) =~= Seq::<FieldSpec>::empty());
    }
    bae_meta(fields)
}

/// Whether every annotation's tokens can be indexed.
pub open spec fn indexable(attrs: Seq<Annotation>) -> bool {
    forall|i: int| 0 <= i < attrs.len() ==> (#[trigger] attrs[i]).tokens@.len() < usize::MAX
}

impl Data {
    /// Reads the record-level meta-annotation.
    pub fn new(attrs: &Vec<Annotation>) -> (r: Result<Data, Diagnostic>)
        requires
            indexable(attrs@),
        ensures
            match data_of(attrs@) {
                Ok(n) => r matches Ok(d) && opt_view(d.name) == n,
                Err(e) => r matches Err(d) && notes(d) == e && d.wf(),
            },
    {
        let meta = record_meta();
        match meta.try_from_attributes(attrs)? {
            None => Ok(Data { name: None }),
            Some(rec) => {
                proof {
                    crate::locate::lemma_try_from_len(record_meta_fields(), bae_name(), attrs@);
                    crate::kind::lemma_views_of_len(rec.values@);
                    crate::kind::lemma_views_of_index(rec.values@, 0);
                }
                Ok(Data { name: opt_ident_exec(&rec.values[0]) })
            },
        }
    }

    /// The annotation name: the rename where there is one, else `fallback`.
    pub fn rename_attr_name(&self, fallback: String) -> (r: String)
        ensures
            r@ == match self.name {
                Some(n) => n@,
                None => fallback@,
            },
    {
        match &self.name {
            Some(n) => n.clone(),
            None => fallback,
        }
    }
}

impl FieldData {
    /// Reads the field-level meta-annotation.
    pub fn new(attrs: &Vec<Annotation>) -> (r: Result<FieldData, Diagnostic>)
        requires
            indexable(attrs@),
        ensures
            match field_data_of(attrs@) {
                Ok(f) => r matches Ok(d) && opt_view(d.name) == f.name && d.skip == f.skip && opt_view(d.default) == f.default,
                Err(e) => r matches Err(d) && notes(d) == e && d.wf(),
            },
    {
        let meta = field_meta();
        match meta.try_from_attributes(attrs)? {
            None => Ok(FieldData { name: None, skip: false, default: None }),
            Some(rec) => {
                proof {
                    crate::locate::lemma_try_from_len(field_meta_fields(), bae_name(), attrs@);
                    crate::kind::lemma_views_of_len(rec.values@);
                    crate::kind::lemma_views_of_index(rec.values@, 0);
                    crate::kind::lemma_views_of_index(rec.values@, 1);
                    crate::kind::lemma_views_of_index(rec.values@, 2);
                }
                Ok(FieldData {
                    name: opt_ident_exec(&rec.values[0]),
                    skip: opt_present_exec(&rec.values[1]),
                    default: opt_tree_text(&rec.values[2]),
                })
            },
        }
    }

    /// The argument name: the rename where there is one, else `fallback`.
    pub fn rename_field_name(&self, fallback: String) -> (r: String)
        ensures
            r@ == match self.name {
                Some(n) => n@,
                None => fallback@,
            },
    {
        match &self.name {
            Some(n) => n.clone(),
            None => fallback,
        }
    }

    pub fn skip(&self) -> (r: bool)
        ensures
            r == self.skip,
    {
        self.skip
    }

    /// The producer path, if any.
    pub fn default(&self) -> (r: Option<String>)
        ensures
            opt_view(r) == opt_view(self.default),
    {
        match &self.default {
            Some(p) => Some(p.clone()),
            None => None,
        }
    }
}

} // verus!

verus! {

fn wrap_text(head: &str, mid: &String, tail: &str) -> (r: String)
    ensures
        r@ == head@ + mid@ + tail@,
{
    let mut r = String::from_str(head);
    r.append(mid.as_str());
    r.append(tail);
    r
}

/// The value of the first producer with path `path`.
pub fn find_producer(ps: &Vec<Producer>, path: &String) -> (r: Option<Value>)
    ensures
        match producer_value(ps@, path@) {
            Some(v) => r matches Some(x) && x.view() == v,
            None => r is None,
        },
{
    let mut i: usize = 0;
    proof {
        assert(ps@.subrange(0, ps@.len() as int) == ps@);
    }
    while i < ps.len()
        invariant
            i <= ps@.len(),
            producer_value(ps@, path@) == producer_value(ps@.subrange(i as int, ps@.len() as int), path@),
        decreases ps@.len() - i,
    {
        proof {
            assert(ps@.subrange(i as int, ps@.len() as int).drop_first() == ps@.subrange(i + 1, ps@.len() as int));
        }
        if ps[i].path == *path {
            return Some(copy_value(&ps[i].value));
        }
        i = i + 1;
    }
    None
}

/// The shape of one field, from its declaration and meta-annotations.
pub fn derive_field_exec(d: FieldDecl, producers: &Vec<Producer>) -> (r: Result<FieldShape, Diagnostic>)
    requires
        indexable(d.annotations@),
    ensures
        match derive_field(d, producers@) {
            Ok(f) => r matches Ok(x) && x.spec() == f,
            Err(e) => r matches Err(x) && notes(x) == e && x.wf(),
        },
{
    let fd = FieldData::new(&d.annotations)?;
    let ghost fdv = FieldDataView { name: opt_view(fd.name), skip: fd.skip, default: opt_view(fd.default) };
    let ident = match d.ident {
        Some(id) => id,
        None => {
            let e = Diagnostic::new(Span::call_site(), text_of("Field without a name"));
            proof {
                assert(notes(e) =~= unnamed_field_notes());
            }
            return Err(e);
        },
    };
    let default: Option<Value> = match &fd.default {
        Some(p) => match find_producer(producers, p) {
            Some(v) => Some(v),
            None => {
                let e = Diagnostic::new(Span::call_site(), wrap_text("cannot find function `", p, "` in this scope"));
                proof {
                    assert(notes(e) =~= unknown_producer_notes(p@));
                }
                return Err(e);
            },
        },
        None => {
            if fd.skip {
                match &d.type_default {
                    Some(v) => Some(copy_value(v)),
                    None => {
                        let e = Diagnostic::new(Span::call_site(), wrap_text("skipped field `", &ident, "` has no default value"));
                        proof {
                            assert(notes(e) =~= no_type_default_notes(ident@));
                        }
                        return Err(e);
                    },
                }
            } else {
                None
            }
        },
    };
    proof {
        assert(field_default(d, fdv, producers@, ident@) == Ok::<Option<ValueView>, Notes>(
            match default { Some(v) => Some(view_of(v)), None => None },
        ));
    }
    let field_name = fd.rename_field_name(ident.clone());
    let skip = fd.skip;
    Ok(FieldShape { ident, field_name, kind: d.kind, skip, default })
}

/// Every skipped field has a default to take.
pub open spec fn shape_wf(fs: Seq<FieldSpec>) -> bool {
    forall|i: int| 0 <= i < fs.len() && (#[trigger] fs[i]).skip ==> fs[i].default is Some
}

pub proof fn lemma_derive_fields_wf(ds: Seq<FieldDecl>, ps: Seq<Producer>)
    ensures
        derive_fields(ds, ps) matches Ok(fs) ==> shape_wf(fs),
    decreases ds.len(),
{
    if ds.len() > 0 {
        lemma_derive_fields_wf(ds.drop_last(), ps);
        if let Ok(fs) = derive_fields(ds, ps) {
            let init = derive_fields(ds.drop_last(), ps)->Ok_0;
            assert forall|i: int| 0 <= i < fs.len() && (#[trigger] fs[i]).skip implies fs[i].default is Some by {
                if i < init.len() {
                    assert(fs[i] == init[i]);
                }
            }
        }
    }
}

/// The annotation name of a record: its rename, else its identifier in
/// lowercase-with-underscores form.
pub open spec fn attr_name_of(rename: Option<Seq<char>>, ident: Seq<char>) -> Seq<char> {
    match rename {
        Some(n) => n,
        None => snake_case_of(ident),
    }
}

/// Whether the annotations of a record and of its fields can be indexed.
pub open spec fn record_indexable(item: RecordDecl) -> bool {
    &&& indexable(item.annotations@)
    &&& forall|i: int| 0 <= i < item.fields@.len() ==> indexable((#[trigger] item.fields@[i]).annotations@)
}

impl FromAttributesMeta {
    /// The public flavour: the shape of a record, read from its declaration
    /// and its meta-annotations. `producers` are the default producers that
    /// `default = <path>` may name.
    pub fn new(item: RecordDecl, producers: &Vec<Producer>) -> (r: Result<FromAttributesMeta, Diagnostic>)
        requires
            record_indexable(item),
        ensures
            match data_of(item.annotations@) {
                Err(e) => r matches Err(d) && notes(d) == e && d.wf(),
                Ok(n) => match derive_fields(item.fields@, producers@) {
                    Err(e) => r matches Err(d) && notes(d) == e && d.wf(),
                    Ok(fs) => r matches Ok(m) && m.attr_name@ == attr_name_of(n, item.ident@) && field_specs(m.fields@) == fs,
                },
            },
            r matches Ok(m) ==> shape_wf(field_specs(m.fields@)),
    {
        proof {
            lemma_derive_fields_wf(item.fields@, producers@);
        }
        let data = Data::new(&item.annotations)?;
        let attr_name = data.rename_attr_name(snake_case(item.ident.as_str()));
        let ghost decls = item.fields@;
        let mut rest = item.fields;
        let n = rest.len();
        let mut fields: Vec<FieldShape> = Vec::new();
        let mut failed = false;
        let mut errs: Vec<Message> = Vec::new();
        let mut i: usize = 0;
        proof {
            assert(decls.subrange(0, 0) =~= Seq::<FieldDecl>::empty());
            assert(field_specs(fields@) =~= Seq::<FieldSpec>::empty());
        }
        while rest.len() > 0
            invariant
                n == decls.len(),
                decls == item.fields@,
                data_of(item.annotations@) == Ok::<Option<Seq<char>>, Notes>(opt_view(data.name)),
                attr_name@ == attr_name_of(opt_view(data.name), item.ident@),
                i + rest@.len() == decls.len(),
                rest@ == decls.subrange(i as int, decls.len() as int),
                forall|k: int| 0 <= k < decls.len() ==> indexable((#[trigger] decls[k]).annotations@),
                failed ==> derive_fields(decls.subrange(0, i as int), producers@) == Err::<Seq<FieldSpec>, Notes>(msg_notes(errs@)),
                failed ==> errs@.len() > 0,
                !failed ==> derive_fields(decls.subrange(0, i as int), producers@) == Ok::<Seq<FieldSpec>, Notes>(field_specs(fields@)),
            decreases rest@.len(),
        {
            let d = rest.remove(0);
            proof {
                assert(decls.subrange(i as int, decls.len() as int)[0] == decls[i as int]);
                assert(d == decls[i as int]);
                assert(decls.subrange(0, i + 1).drop_last() == decls.subrange(0, i as int));
                assert(decls.subrange(0, i + 1).last() == d);
                assert(rest@ =~= decls.subrange(i + 1, decls.len() as int));
            }
            match derive_field_exec(d, producers) {
                Ok(f) => {
                    if !failed {
                        let ghost before = fields@;
                        fields.push(f);
                        proof {
                            assert(field_specs(fields@) =~= field_specs(before).push(f.spec()));
                        }
                    }
                },
                Err(e) => {
                    if failed {
                        let ghost before = errs@;
                        let ghost en = notes(e);
                        let mut e = e;
                        errs.append(&mut e.messages);
                        proof {
                            assert(msg_notes(errs@) =~= msg_notes(before) + en);
                        }
                    } else {
                        errs = e.messages;
                        failed = true;
                    }
                },
            }
            i = i + 1;
        }
        proof {
            assert(decls.subrange(0, i as int) == decls);
        }
        if failed {
            return Err(Diagnostic { messages: errs });
        }
        Ok(FromAttributesMeta { attr_name, fields })
    }
}

/// The derivation entry point for records: the shape of `item`.
pub fn from_attributes(item: RecordDecl, producers: &Vec<Producer>) -> (r: Result<FromAttributesMeta, Diagnostic>)
    requires
        record_indexable(item),
    ensures
        match data_of(item.annotations@) {
            Err(e) => r matches Err(d) && notes(d) == e && d.wf(),
            Ok(n) => match derive_fields(item.fields@, producers@) {
                Err(e) => r matches Err(d) && notes(d) == e && d.wf(),
                Ok(fs) => r matches Ok(m) && m.attr_name@ == attr_name_of(n, item.ident@) && field_specs(m.fields@) == fs,
            },
        },
{
    FromAttributesMeta::new(item, producers)
}

} // verus!

verus! {

pub open spec fn only_unit_notes() -> Notes {
    seq![(call_site(), "Only Unit variants are supported"@)]
}

/// A variant's name and whether it is skipped, from its declaration and meta-annotation.
pub open spec fn variant_of(v: VariantDecl) -> Result<(Seq<char>, bool), Notes> {
    if !v.unit {
        Err(only_unit_notes())
    } else {
        match try_from(variant_meta_fields(), bae_name(), v.annotations@) {
            TryOutcome::Failed(e) => Err(e),
            TryOutcome::Absent => Ok((v.ident@, false)),
            TryOutcome::Present(vs) => Ok((v.ident@, opt_present(vs[0]))),
        }
    }
}

/// The variants, or the errors of all that fail, in order.
pub open spec fn variants_of(vs: Seq<VariantDecl>) -> Result<Seq<(Seq<char>, bool)>, Notes>
    decreases vs.len(),
{
    if vs.len() == 0 {
        Ok(Seq::empty())
    } else {
        match (variants_of(vs.drop_last()), variant_of(vs.last())) {
            (Err(e), Err(e2)) => Err(e + e2),
            (Err(e), Ok(_)) => Err(e),
            (Ok(_), Err(e2)) => Err(e2),
            (Ok(xs), Ok(x)) => Ok(xs.push(x)),
        }
    }
}

/// What the enumeration derivation makes of `item`.
pub open spec fn enum_attribute_of(item: EnumDecl) -> Result<Seq<(Seq<char>, bool)>, Notes> {
    match try_from(Seq::empty(), bae_name(), item.annotations@) {
        TryOutcome::Failed(e) => Err(e),
        _ => variants_of(item.variants@),
    }
}

pub open spec fn enum_indexable(item: EnumDecl) -> bool {
    &&& indexable(item.annotations@)
    &&& forall|i: int| 0 <= i < item.variants@.len() ==> indexable((#[trigger] item.variants@[i]).annotations@)
}

impl EnumAttribute {
    pub open spec fn view(&self) -> Seq<(Seq<char>, bool)> {
        self.variants@.map_values(|v: EnumAttributeVariant| (v.name@, v.skip))
    }

    /// Reads an enumeration declaration: every variant must be a unit
    /// variant; `#[bae(skip)]` excludes one from the accepted values.
    pub fn new(item: &EnumDecl) -> (r: Result<EnumAttribute, Diagnostic>)
        requires
            enum_indexable(*item),
        ensures
            match enum_attribute_of(*item) {
                Ok(vs) => r matches Ok(x) && x.view() == vs,
                Err(e) => r matches Err(d) && notes(d) == e && d.wf(),
            },
    {
        let top = enum_meta();
        let _ = top.try_from_attributes(&item.annotations)?;
        let vm = variant_meta();
        let decls = &item.variants;
        let mut failed = false;
        let mut errs: Vec<Message> = Vec::new();
        let mut out: Vec<EnumAttributeVariant> = Vec::new();
        let mut i: usize = 0;
        proof {
            assert(decls@.subrange(0, 0) =~= Seq::<VariantDecl>::empty());
            assert((EnumAttribute { variants: out }).view() =~= Seq::<(Seq<char>, bool)>::empty());
        }
        while i < decls.len()
            invariant
                i <= decls@.len(),
                decls == &item.variants,
                forall|k: int| 0 <= k < decls@.len() ==> indexable((#[trigger] decls@[k]).annotations@),
                vm.attr_name@ == bae_name(),
                field_specs(vm.fields@) == variant_meta_fields(),
                failed ==> variants_of(decls@.subrange(0, i as int)) == Err::<Seq<(Seq<char>, bool)>, Notes>(msg_notes(errs@)),
                failed ==> errs@.len() > 0,
                !failed ==> variants_of(decls@.subrange(0, i as int)) == Ok::<Seq<(Seq<char>, bool)>, Notes>((EnumAttribute { variants: out }).view()),
            decreases decls@.len() - i,
        {
            let v = &decls[i];
            proof {
                assert(decls@.subrange(0, i + 1).drop_last() == decls@.subrange(0, i as int));
                assert(decls@.subrange(0, i + 1).last() == decls@[i as int]);
            }
            let res: Result<bool, Diagnostic> = if !v.unit {
                let e = Diagnostic::new(Span::call_site(), text_of("Only Unit variants are supported"));
                proof {
                    assert(notes(e) =~= only_unit_notes());
                }
                Err(e)
            } else {
                match vm.try_from_attributes(&v.annotations) {
                    Err(e) => Err(e),
                    Ok(None) => Ok(false),
                    Ok(Some(rec)) => {
                        proof {
                            crate::locate::lemma_try_from_len(variant_meta_fields(), bae_name(), v.annotations@);
                            crate::kind::lemma_views_of_len(rec.values@);
                            crate::kind::lemma_views_of_index(rec.values@, 0);
                        }
                        Ok(opt_present_exec(&rec.values[0]))
                    },
                }
            };
            match res {
                Err(e) => {
                    let ghost before = errs@;
                    if failed {
                        let ghost en = notes(e);
                        let mut e = e;
                        errs.append(&mut e.messages);
                        proof {
                            assert(msg_notes(errs@) =~= msg_notes(before) + en);
                        }
                    } else {
                        errs = e.messages;
                        failed = true;
                    }
                },
                Ok(skip) => {
                    if !failed {
                        let ghost before = (EnumAttribute { variants: out }).view();
                        out.push(EnumAttributeVariant { name: v.ident.clone(), skip });
                        proof {
                            assert((EnumAttribute { variants: out }).view() =~= before.push((v.ident@, skip)));
                        }
                    }
                },
            }
            i = i + 1;
        }
        proof {
            assert(decls@.subrange(0, decls@.len() as int) == decls@);
        }
        if failed {
            return Err(Diagnostic { messages: errs });
        }
        Ok(EnumAttribute { variants: out })
    }

    /// The element kind this enumeration gives an argument.
    pub fn expand(self) -> (r: Kind)
        ensures
            r == Kind::Choice(self),
    {
        Kind::Choice(self)
    }

    /// `new`, then `expand`.
    pub fn new_and_expand(item: &EnumDecl) -> (r: Result<Kind, Diagnostic>)
        requires
            enum_indexable(*item),
        ensures
            match enum_attribute_of(*item) {
                Ok(vs) => r matches Ok(Kind::Choice(x)) && x.view() == vs,
                Err(e) => r matches Err(d) && notes(d) == e && d.wf(),
            },
    {
        Ok(Self::new(item)?.expand())
    }
}

/// The derivation entry point for enumerations used as argument values.
pub fn enum_attribute(item: &EnumDecl) -> (r: Result<Kind, Diagnostic>)
    requires
        enum_indexable(*item),
    ensures
        match enum_attribute_of(*item) {
            Ok(vs) => r matches Ok(Kind::Choice(x)) && x.view() == vs,
            Err(e) => r matches Err(d) && notes(d) == e && d.wf(),
        },
{
    EnumAttribute::new_and_expand(item)
}

} // verus!
