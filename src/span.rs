//! Source positions, the parse context and values carrying their position.
use vstd::prelude::*;

verus! {

/// A half-open range `lo..hi` of token positions inside one annotation body.
#[derive(Clone, Copy, Debug, PartialEq, Eq, Structural)]
pub struct Span {
    pub lo: usize,
    pub hi: usize,
}

/// The span of the place where a lookup or derivation was invoked, for
/// messages and defaults that no token of an annotation body produced. It lies
/// outside every body, as no body holds `usize::MAX` tokens.
pub open spec fn call_site() -> Span {
    Span { lo: usize::MAX, hi: usize::MAX }
}

impl Span {
    /// The span of the place where a lookup or derivation was invoked.
    pub fn call_site() -> (r: Span)
        ensures
            r == call_site(),
    {
        Span { lo: usize::MAX, hi: usize::MAX }
    }

    pub fn new(lo: usize, hi: usize) -> (r: Span)
        ensures
            r == (Span { lo, hi }),
    {
        Span { lo, hi }
    }
}

/// Read-only context threaded through every value parser: the span of the
/// argument identifier that introduced the value being parsed.
#[derive(Clone, Copy, Debug, PartialEq, Eq, Structural)]
pub struct BaeParseCtx {
    pub attr_ident_span: Span,
}

impl BaeParseCtx {
    pub fn new(attr_ident_span: Span) -> (r: BaeParseCtx)
        ensures
            r.attr_ident_span == attr_ident_span,
    {
        BaeParseCtx { attr_ident_span }
    }

    /// The span of the argument identifier.
    pub fn attr_ident_span(&self) -> (r: Span)
        ensures
            r == self.attr_ident_span,
    {
        self.attr_ident_span
    }
}

/// A parsed value together with the span of the tokens that produced it.
#[derive(Debug)]
pub struct BaeSpanned<T> {
    pub inner: T,
    pub span: Span,
}

impl<T> BaeSpanned<T> {
    pub fn new(inner: T, span: Span) -> (r: BaeSpanned<T>)
        ensures
            r.inner == inner,
            r.span == span,
    {
        BaeSpanned { inner, span }
    }

    /// The inner value.
    pub fn unwrap(self) -> (r: T)
        ensures
            r == self.inner,
    {
        self.inner
    }

    /// The inner value and its span.
    pub fn unwrap_with_span(self) -> (r: (T, Span))
        ensures
            r.0 == self.inner,
            r.1 == self.span,
    {
        (self.inner, self.span)
    }

    /// The span of the tokens that produced the value.
    pub fn span(&self) -> (r: Span)
        ensures
            r == self.span,
    {
        self.span
    }

    /// Applies `f` to the inner value and keeps the span.
    pub fn map<U, F: FnOnce(T) -> U>(self, f: F) -> (r: BaeSpanned<U>)
        requires
            f.requires((self.inner,)),
        ensures
            f.ensures((self.inner,), r.inner),
            r.span == self.span,
    {
        let span = self.span;
        let inner = f(self.inner);
        BaeSpanned { inner, span }
    }

    /// Applies `f` to the inner value and the span, and keeps the span.
    pub fn map_with_span<U, F: FnOnce(T, Span) -> U>(self, f: F) -> (r: BaeSpanned<U>)
        requires
            f.requires((self.inner, self.span)),
        ensures
            f.ensures((self.inner, self.span), r.inner),
            r.span == self.span,
    {
        let span = self.span;
        let inner = f(self.inner, span);
        BaeSpanned { inner, span }
    }

    /// A spanned reference to the inner value.
    pub fn as_ref(&self) -> (r: BaeSpanned<&T>)
        ensures
            *r.inner == self.inner,
            r.span == self.span,
    {
        BaeSpanned { inner: &self.inner, span: self.span }
    }
}

impl<T, E> BaeSpanned<Result<T, E>> {
    /// Moves an inner `Result` out: `Ok` keeps the span, `Err` is passed on.
    pub fn transpose(self) -> (r: Result<BaeSpanned<T>, E>)
        ensures
            match self.inner {
                Ok(v) => r matches Ok(s) && s.inner == v && s.span == self.span,
                Err(e) => r == Err::<BaeSpanned<T>, E>(e),
            },
    {
        match self.inner {
            Ok(inner) => Ok(BaeSpanned { inner, span: self.span }),
            Err(e) => Err(e),
        }
    }
}

} // verus!
