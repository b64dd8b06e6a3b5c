//! Element kinds an argument can have, and the values parsing yields.
use crate::span::Span;
use crate::token::Tok;
use vstd::prelude::*;

verus! {

/// The integer types an argument can be read as, from an integer literal.
#[derive(Clone, Copy, Debug, PartialEq, Eq, Structural)]
pub enum IntType {
    U8,
    U16,
    U32,
    U64,
    U128,
    Usize,
    I8,
    I16,
    I32,
    I64,
    I128,
    Isize,
}

/// One unit variant of an enumeration used as an argument value.
#[derive(Debug)]
pub struct EnumAttributeVariant {
    pub name: String,
    /// A skipped variant is not accepted as a value.
    pub skip: bool,
}

/// A unit-only enumeration used as an argument value: an identifier naming
/// one of its variants that are not skipped.
#[derive(Debug)]
pub struct EnumAttribute {
    pub variants: Vec<EnumAttributeVariant>,
}

/// The element kind of an argument, the type-descriptor of a field.
#[derive(Debug)]
pub enum Kind {
    /// `()`: consumes no tokens; written as a bare argument name.
    Switch,
    /// A `String`, written as a string literal.
    Text,
    /// An integer, written as an integer literal.
    Int(IntType),
    /// A string literal, kept as written.
    LitStr,
    /// An integer literal, kept as written.
    LitInt,
    /// A floating-point literal, kept as written.
    LitFloat,
    /// An identifier.
    Ident,
    /// A fragment of syntax (a path, a type, an expression...) that `syn`
    /// parses; the value keeps the tokens it took.
    Syn(crate::syntax::SynType),
    /// An optional value.
    Optional(Box<Kind>),
    /// `(v1, ..., vn)`, one value of each kind in order.
    FnCallFixed(Vec<Kind>),
    /// `(v1, v2, ...)`, any number of values of one kind.
    FnCallVarArgs(Box<Kind>),
    /// A value that also records its span and the span of its argument name.
    Spanned(Box<Kind>),
    /// One variant of a unit-only enumeration.
    Choice(EnumAttribute),
}

/// The values of a fixed-arity call argument, one per declared kind.
#[derive(Debug)]
pub struct FnCallFixed {
    pub inner: Vec<Value>,
}

/// The values of a variadic call argument.
#[derive(Debug)]
pub struct FnCallVarArgs {
    pub inner: Vec<Value>,
}

/// A value with the span of its tokens and the span of its argument name.
#[derive(Debug)]
pub struct SpannedValue {
    pub inner: Box<Value>,
    pub span: Span,
    pub key_span: Span,
}

impl SpannedValue {
    /// The span of the tokens of the value.
    pub fn span(&self) -> (r: Span)
        ensures
            r == self.span,
    {
        self.span
    }

    /// The span of the argument name that introduced the value.
    pub fn key_span(&self) -> (r: Span)
        ensures
            r == self.key_span,
    {
        self.key_span
    }
}

/// A parsed argument value.
#[derive(Debug)]
pub enum Value {
    Unit,
    Text(String),
    Int { negative: bool, magnitude: u128 },
    /// A literal or identifier kept as written.
    Lit(String),
    Ident(String),
    Tree(Vec<Tok>),
    Opt(Option<Box<Value>>),
    Fixed(FnCallFixed),
    VarArgs(FnCallVarArgs),
    Spanned(SpannedValue),
    Choice(String),
}

/// The mathematical form of a `Value`.
pub enum ValueView {
    Unit,
    Text(Seq<char>),
    Int(int),
    Lit(Seq<char>),
    Ident(Seq<char>),
    Tree(Seq<Tok>),
    Opt(Option<Box<ValueView>>),
    Fixed(Seq<ValueView>),
    VarArgs(Seq<ValueView>),
    Spanned(Box<ValueView>, Span, Span),
    Choice(Seq<char>),
}

pub open spec fn view_of(v: Value) -> ValueView
    decreases v, 0nat,
{
    match v {
        Value::Unit => ValueView::Unit,
        Value::Text(s) => ValueView::Text(s@),
        Value::Int { negative, magnitude } => ValueView::Int(
            if negative { -(magnitude as int) } else { magnitude as int },
        ),
        Value::Lit(s) => ValueView::Lit(s@),
        Value::Ident(s) => ValueView::Ident(s@),
        Value::Tree(t) => ValueView::Tree(t@),
        Value::Opt(o) => match o {
            Some(b) => ValueView::Opt(Some(Box::new(view_of(*b)))),
            None => ValueView::Opt(None),
        },
        Value::Fixed(f) => ValueView::Fixed(views_of(f.inner@)),
        Value::VarArgs(f) => ValueView::VarArgs(views_of(f.inner@)),
        Value::Spanned(s) => ValueView::Spanned(Box::new(view_of(*s.inner)), s.span, s.key_span),
        Value::Choice(s) => ValueView::Choice(s@),
    }
}

pub open spec fn views_of(s: Seq<Value>) -> Seq<ValueView>
    decreases s, s.len(),
{
    if s.len() == 0 {
        Seq::empty()
    } else {
        seq![view_of(s[0])] + views_of(s.subrange(1, s.len() as int))
    }
}

impl Value {
    pub open spec fn view(&self) -> ValueView {
        view_of(*self)
    }
}

pub proof fn lemma_views_of_len(s: Seq<Value>)
    ensures
        views_of(s).len() == s.len(),
    decreases s.len(),
{
    if s.len() > 0 {
        lemma_views_of_len(s.subrange(1, s.len() as int));
    }
}

pub proof fn lemma_views_of_index(s: Seq<Value>, i: int)
    requires
        0 <= i < s.len(),
    ensures
        views_of(s)[i] == view_of(s[i]),
    decreases s.len(),
{
    lemma_views_of_len(s);
    if i > 0 {
        lemma_views_of_index(s.subrange(1, s.len() as int), i - 1);
    }
}

pub proof fn lemma_views_of_push(s: Seq<Value>, v: Value)
    ensures
        views_of(s.push(v)) == views_of(s).push(view_of(v)),
{
    lemma_views_of_len(s);
    lemma_views_of_len(s.push(v));
    assert forall|i: int| 0 <= i < s.len() + 1 implies views_of(s.push(v))[i] == views_of(s).push(view_of(v))[i] by {
        lemma_views_of_index(s.push(v), i);
        if i < s.len() {
            lemma_views_of_index(s, i);
        }
    }
    assert(views_of(s.push(v)) =~= views_of(s).push(view_of(v)));
}

pub proof fn lemma_views_of_empty()
    ensures
        views_of(Seq::<Value>::empty()) == Seq::<ValueView>::empty(),
{
}

} // verus!

verus! {

/// A copy of `v`.
pub fn copy_value(v: &Value) -> (r: Value)
    ensures
        r.view() == v.view(),
    decreases v, 0int,
{
    match v {
        Value::Unit => Value::Unit,
        Value::Text(s) => Value::Text(s.clone()),
        Value::Int { negative, magnitude } => Value::Int { negative: *negative, magnitude: *magnitude },
        Value::Lit(s) => Value::Lit(s.clone()),
        Value::Ident(s) => Value::Ident(s.clone()),
        Value::Tree(t) => {
            let n = t.len();
            let c = crate::token::copy_range(t, 0, n);
            assert(c@ =~= t@);
            Value::Tree(c)
        },
        Value::Opt(o) => match o {
            Some(b) => Value::Opt(Some(Box::new(copy_value(&**b)))),
            None => Value::Opt(None),
        },
        Value::Fixed(f) => Value::Fixed(FnCallFixed { inner: copy_values(&f.inner) }),
        Value::VarArgs(f) => Value::VarArgs(FnCallVarArgs { inner: copy_values(&f.inner) }),
        Value::Spanned(s) => Value::Spanned(
            SpannedValue { inner: Box::new(copy_value(&*s.inner)), span: s.span, key_span: s.key_span },
        ),
        Value::Choice(s) => Value::Choice(s.clone()),
    }
}

/// Copies of the values of `vs`.
pub fn copy_values(vs: &Vec<Value>) -> (r: Vec<Value>)
    ensures
        views_of(r@) == views_of(vs@),
    decreases vs@, 1int,
{
    let mut out: Vec<Value> = Vec::new();
    let mut i: usize = 0;
    proof {
        lemma_views_of_len(vs@);
    }
    while i < vs.len()
        invariant
            i <= vs@.len(),
            out@.len() == i,
            forall|j: int| 0 <= j < i ==> view_of(#[trigger] out@[j]) == view_of(vs@[j]),
        decreases vs@.len() - i,
    {
        let c = copy_value(&vs[i]);
        out.push(c);
        i = i + 1;
    }
    proof {
        lemma_views_of_len(out@);
        assert forall|j: int| 0 <= j < vs@.len() implies views_of(out@)[j] == views_of(vs@)[j] by {
            lemma_views_of_index(out@, j);
            lemma_views_of_index(vs@, j);
        }
        assert(views_of(out@) =~= views_of(vs@));
    }
    out
}

} // verus!
