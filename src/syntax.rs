//! Fragments of syntax that the syntax-tree library parses: the token
//! validity it needs, the text handed to it, and one trusted call per type.
use crate::literal::{lit_text_supported, lit_text_ok};
use crate::meta::tok_text;
use crate::token::{Spacing, Tok};
use vstd::prelude::*;

verus! {

/// The syntax-tree types an argument can hold, parsed by `syn`.
#[derive(Clone, Copy, Debug, PartialEq, Eq, Structural)]
pub enum SynType {
    Expr,
    ExprArray,
    ExprAssign,
    ExprAssignOp,
    ExprBinary,
    ExprCall,
    ExprCast,
    ExprClosure,
    ExprField,
    ExprIndex,
    ExprLit,
    ExprParen,
    ExprPath,
    ExprRange,
    ExprReference,
    ExprTry,
    ExprTuple,
    ExprType,
    ExprUnary,
    Lit,
    LitBool,
    LitByte,
    LitByteStr,
    LitChar,
    Index,
    Lifetime,
    Path,
    Type,
    TypeArray,
    TypeBareFn,
    TypeGroup,
    TypeImplTrait,
    TypeInfer,
    TypeMacro,
    TypeNever,
    TypeParam,
    TypeParen,
    TypePath,
    TypePtr,
    TypeReference,
    TypeSlice,
    TypeTraitObject,
    TypeTuple,
    Visibility,
    BinOp,
    GenericArgument,
    Meta,
    MetaList,
    MetaNameValue,
    NestedMeta,
    UnOp,
}

/// Whether `text` is one identifier, keywords included.
pub uninterp spec fn is_ident_text(text: Seq<char>) -> bool;

/// Whether `text` is one identifier that is not a keyword.
pub uninterp spec fn is_plain_ident_text(text: Seq<char>) -> bool;

/// Whether `text` is exactly one literal token.
pub uninterp spec fn is_literal_text(text: Seq<char>) -> bool;

/// A punctuation character of the token language.
pub open spec fn is_punct_char(c: char) -> bool {
    c == '~' || c == '!' || c == '@' || c == '#' || c == '$' || c == '%' || c == '^' || c == '&' || c == '*'
        || c == '-' || c == '=' || c == '+' || c == '|' || c == ';' || c == ':' || c == ',' || c == '<' || c == '.'
        || c == '>' || c == '/' || c == '?' || c == '\''
}

/// A token that the syntax-tree library can be handed: a real identifier,
/// one literal it recognises, or a punctuation character.
pub open spec fn tok_ok(t: Tok) -> bool {
    match t {
        Tok::Ident(s) => is_ident_text(s@),
        Tok::Lit(s) => is_literal_text(s@) && lit_text_supported(s@),
        Tok::Punct(c, _) => is_punct_char(c),
        _ => true,
    }
}

pub open spec fn all_ok(t: Seq<Tok>) -> bool {
    forall|i: int| 0 <= i < t.len() ==> tok_ok(#[trigger] t[i])
}

/// What follows a token in its text: nothing after a joined punctuation
/// character, else a space.
pub open spec fn tok_sep(t: Tok) -> Seq<char> {
    if t matches Tok::Punct(_, Spacing::Joint) {
        Seq::empty()
    } else {
        " "@
    }
}

/// The source text of the tokens, which lexes back into them.
pub open spec fn render(t: Seq<Tok>) -> Seq<char>
    decreases t.len(),
{
    if t.len() == 0 {
        Seq::empty()
    } else {
        render(t.drop_last()) + tok_text(t.last()) + tok_sep(t.last())
    }
}

/// `text` is the text of valid tokens.
pub open spec fn rendered_valid(text: Seq<char>) -> bool {
    exists|t: Seq<Tok>| all_ok(t) && render(t) == text
}

/// Relies on `syn::ext::IdentExt::parse_any` through `syn::parse::Parser::parse_str`:
/// whether the text is one identifier, keywords included.
#[verifier::external_body]
pub(crate) fn is_ident(text: &str) -> (r: bool)
    ensures
        r == is_ident_text(text@),
{
    syn::parse::Parser::parse_str(<syn::Ident as syn::ext::IdentExt>::parse_any, text).is_ok()
}

/// Relies on `syn::parse_str::<syn::Ident>`: whether the text is one
/// identifier that is not a keyword.
#[verifier::external_body]
pub(crate) fn is_plain_ident(text: &str) -> (r: bool)
    ensures
        r == is_plain_ident_text(text@),
{
    syn::parse_str::<syn::Ident>(text).is_ok()
}

/// Relies on `syn::parse_str::<proc_macro2::Literal>`: whether the text is
/// exactly one literal token.
#[verifier::external_body]
pub(crate) fn is_literal(text: &str) -> (r: bool)
    ensures
        r == is_literal_text(text@),
{
    syn::parse_str::<proc_macro2::Literal>(text).is_ok()
}

fn is_punct_char_exec(c: char) -> (r: bool)
    ensures
        r == is_punct_char(c),
{
    c == '~' || c == '!' || c == '@' || c == '#' || c == '$' || c == '%' || c == '^' || c == '&' || c == '*'
        || c == '-' || c == '=' || c == '+' || c == '|' || c == ';' || c == ':' || c == ',' || c == '<' || c == '.'
        || c == '>' || c == '/' || c == '?' || c == '\''
}

/// Whether the tokens `lo..hi` can be handed to the syntax-tree library.
pub fn tokens_ok(toks: &Vec<Tok>, lo: usize, hi: usize) -> (r: bool)
    requires
        lo <= hi <= toks@.len(),
    ensures
        r == all_ok(toks@.subrange(lo as int, hi as int)),
{
    let mut i: usize = lo;
    while i < hi
        invariant
            lo <= i <= hi <= toks@.len(),
            forall|j: int| lo <= j < i ==> tok_ok(#[trigger] toks@[j]),
        decreases hi - i,
    {
        let ok = match &toks[i] {
            Tok::Ident(s) => is_ident(s.as_str()),
            Tok::Lit(s) => is_literal(s.as_str()) && lit_text_ok(s.as_str()),
            Tok::Punct(c, _) => is_punct_char_exec(*c),
            _ => true,
        };
        if !ok {
            proof {
                assert(toks@.subrange(lo as int, hi as int)[i - lo] == toks@[i as int]);
            }
            return false;
        }
        i = i + 1;
    }
    proof {
        assert forall|j: int| 0 <= j < hi - lo implies tok_ok(#[trigger] toks@.subrange(lo as int, hi as int)[j]) by {
            assert(toks@.subrange(lo as int, hi as int)[j] == toks@[lo + j]);
        }
    }
    true
}

/// The text of the tokens `lo..hi`.
pub fn render_exec(toks: &Vec<Tok>, lo: usize, hi: usize) -> (r: String)
    requires
        lo <= hi <= toks@.len(),
    ensures
        r@ == render(toks@.subrange(lo as int, hi as int)),
{
    let mut out = String::new();
    let mut i: usize = lo;
    while i < hi
        invariant
            lo <= i <= hi <= toks@.len(),
            out@ == render(toks@.subrange(lo as int, i as int)),
        decreases hi - i,
    {
        proof {
            assert(toks@.subrange(lo as int, i + 1).drop_last() == toks@.subrange(lo as int, i as int));
            assert(toks@.subrange(lo as int, i + 1).last() == toks@[i as int]);
        }
        let tok = &toks[i];
        match tok {
            Tok::Ident(s) => out.append(s.as_str()),
            Tok::Lit(s) => out.append(s.as_str()),
            Tok::Punct(c, _) => crate::text::push_char(&mut out, *c),
            Tok::Open(d) => match d {
                crate::token::Delim::Paren => out.append("("),
                crate::token::Delim::Bracket => out.append("["),
                crate::token::Delim::Brace => out.append("{"),
            },
            Tok::Close(d) => match d {
                crate::token::Delim::Paren => out.append(")"),
                crate::token::Delim::Bracket => out.append("]"),
                crate::token::Delim::Brace => out.append("}"),
            },
        }
        match tok {
            Tok::Punct(_, Spacing::Joint) => {},
            _ => out.append(" "),
        }
        i = i + 1;
    }
    out
}

/// How many token trees are left after `syn` parses a `syn::Expr` from the
/// start of `text`, or the text of its error.
pub uninterp spec fn expr_rest_of(text: Seq<char>) -> Result<usize, Seq<char>>;

/// Relies on `syn::parse::Parser::parse_str` with `syn::Expr`'s `Parse`: the
/// trees left after the parsed fragment.
#[verifier::external_body]
pub(crate) fn expr_rest(text: &str) -> (r: Result<usize, String>)
    requires
        rendered_valid(text@),
    ensures
        match r {
            Ok(n) => expr_rest_of(text@) == Ok::<usize, Seq<char>>(n),
            Err(m) => expr_rest_of(text@) == Err::<usize, Seq<char>>(m@),
        },
{
    let parser = |input: syn::parse::ParseStream| {
        input.parse::<syn::Expr>()?;
        input.parse::<proc_macro2::TokenStream>()
    };
    match syn::parse::Parser::parse_str(parser, text) {
        Ok(rest) => Ok(rest.into_iter().count()),
        Err(e) => Err(e.to_string()),
    }
}

/// How many token trees are left after `syn` parses a `syn::ExprArray` from the
/// start of `text`, or the text of its error.
pub uninterp spec fn expr_array_rest_of(text: Seq<char>) -> Result<usize, Seq<char>>;

/// Relies on `syn::parse::Parser::parse_str` with `syn::ExprArray`'s `Parse`: the
/// trees left after the parsed fragment.
#[verifier::external_body]
pub(crate) fn expr_array_rest(text: &str) -> (r: Result<usize, String>)
    requires
        rendered_valid(text@),
    ensures
        match r {
            Ok(n) => expr_array_rest_of(text@) == Ok::<usize, Seq<char>>(n),
            Err(m) => expr_array_rest_of(text@) == Err::<usize, Seq<char>>(m@),
        },
{
    let parser = |input: syn::parse::ParseStream| {
        input.parse::<syn::ExprArray>()?;
        input.parse::<proc_macro2::TokenStream>()
    };
    match syn::parse::Parser::parse_str(parser, text) {
        Ok(rest) => Ok(rest.into_iter().count()),
        Err(e) => Err(e.to_string()),
    }
}

/// How many token trees are left after `syn` parses a `syn::ExprAssign` from the
/// start of `text`, or the text of its error.
pub uninterp spec fn expr_assign_rest_of(text: Seq<char>) -> Result<usize, Seq<char>>;

/// Relies on `syn::parse::Parser::parse_str` with `syn::ExprAssign`'s `Parse`: the
/// trees left after the parsed fragment.
#[verifier::external_body]
pub(crate) fn expr_assign_rest(text: &str) -> (r: Result<usize, String>)
    requires
        rendered_valid(text@),
    ensures
        match r {
            Ok(n) => expr_assign_rest_of(text@) == Ok::<usize, Seq<char>>(n),
            Err(m) => expr_assign_rest_of(text@) == Err::<usize, Seq<char>>(m@),
        },
{
    let parser = |input: syn::parse::ParseStream| {
        input.parse::<syn::ExprAssign>()?;
        input.parse::<proc_macro2::TokenStream>()
    };
    match syn::parse::Parser::parse_str(parser, text) {
        Ok(rest) => Ok(rest.into_iter().count()),
        Err(e) => Err(e.to_string()),
    }
}

/// How many token trees are left after `syn` parses a `syn::ExprAssignOp` from the
/// start of `text`, or the text of its error.
pub uninterp spec fn expr_assign_op_rest_of(text: Seq<char>) -> Result<usize, Seq<char>>;

/// Relies on `syn::parse::Parser::parse_str` with `syn::ExprAssignOp`'s `Parse`: the
/// trees left after the parsed fragment.
#[verifier::external_body]
pub(crate) fn expr_assign_op_rest(text: &str) -> (r: Result<usize, String>)
    requires
        rendered_valid(text@),
    ensures
        match r {
            Ok(n) => expr_assign_op_rest_of(text@) == Ok::<usize, Seq<char>>(n),
            Err(m) => expr_assign_op_rest_of(text@) == Err::<usize, Seq<char>>(m@),
        },
{
    let parser = |input: syn::parse::ParseStream| {
        input.parse::<syn::ExprAssignOp>()?;
        input.parse::<proc_macro2::TokenStream>()
    };
    match syn::parse::Parser::parse_str(parser, text) {
        Ok(rest) => Ok(rest.into_iter().count()),
        Err(e) => Err(e.to_string()),
    }
}

/// How many token trees are left after `syn` parses a `syn::ExprBinary` from the
/// start of `text`, or the text of its error.
pub uninterp spec fn expr_binary_rest_of(text: Seq<char>) -> Result<usize, Seq<char>>;

/// Relies on `syn::parse::Parser::parse_str` with `syn::ExprBinary`'s `Parse`: the
/// trees left after the parsed fragment.
#[verifier::external_body]
pub(crate) fn expr_binary_rest(text: &str) -> (r: Result<usize, String>)
    requires
        rendered_valid(text@),
    ensures
        match r {
            Ok(n) => expr_binary_rest_of(text@) == Ok::<usize, Seq<char>>(n),
            Err(m) => expr_binary_rest_of(text@) == Err::<usize, Seq<char>>(m@),
        },
{
    let parser = |input: syn::parse::ParseStream| {
        input.parse::<syn::ExprBinary>()?;
        input.parse::<proc_macro2::TokenStream>()
    };
    match syn::parse::Parser::parse_str(parser, text) {
        Ok(rest) => Ok(rest.into_iter().count()),
        Err(e) => Err(e.to_string()),
    }
}

/// How many token trees are left after `syn` parses a `syn::ExprCall` from the
/// start of `text`, or the text of its error.
pub uninterp spec fn expr_call_rest_of(text: Seq<char>) -> Result<usize, Seq<char>>;

/// Relies on `syn::parse::Parser::parse_str` with `syn::ExprCall`'s `Parse`: the
/// trees left after the parsed fragment.
#[verifier::external_body]
pub(crate) fn expr_call_rest(text: &str) -> (r: Result<usize, String>)
    requires
        rendered_valid(text@),
    ensures
        match r {
            Ok(n) => expr_call_rest_of(text@) == Ok::<usize, Seq<char>>(n),
            Err(m) => expr_call_rest_of(text@) == Err::<usize, Seq<char>>(m@),
        },
{
    let parser = |input: syn::parse::ParseStream| {
        input.parse::<syn::ExprCall>()?;
        input.parse::<proc_macro2::TokenStream>()
    };
    match syn::parse::Parser::parse_str(parser, text) {
        Ok(rest) => Ok(rest.into_iter().count()),
        Err(e) => Err(e.to_string()),
    }
}

/// How many token trees are left after `syn` parses a `syn::ExprCast` from the
/// start of `text`, or the text of its error.
pub uninterp spec fn expr_cast_rest_of(text: Seq<char>) -> Result<usize, Seq<char>>;

/// Relies on `syn::parse::Parser::parse_str` with `syn::ExprCast`'s `Parse`: the
/// trees left after the parsed fragment.
#[verifier::external_body]
pub(crate) fn expr_cast_rest(text: &str) -> (r: Result<usize, String>)
    requires
        rendered_valid(text@),
    ensures
        match r {
            Ok(n) => expr_cast_rest_of(text@) == Ok::<usize, Seq<char>>(n),
            Err(m) => expr_cast_rest_of(text@) == Err::<usize, Seq<char>>(m@),
        },
{
    let parser = |input: syn::parse::ParseStream| {
        input.parse::<syn::ExprCast>()?;
        input.parse::<proc_macro2::TokenStream>()
    };
    match syn::parse::Parser::parse_str(parser, text) {
        Ok(rest) => Ok(rest.into_iter().count()),
        Err(e) => Err(e.to_string()),
    }
}

/// How many token trees are left after `syn` parses a `syn::ExprClosure` from the
/// start of `text`, or the text of its error.
pub uninterp spec fn expr_closure_rest_of(text: Seq<char>) -> Result<usize, Seq<char>>;

/// Relies on `syn::parse::Parser::parse_str` with `syn::ExprClosure`'s `Parse`: the
/// trees left after the parsed fragment.
#[verifier::external_body]
pub(crate) fn expr_closure_rest(text: &str) -> (r: Result<usize, String>)
    requires
        rendered_valid(text@),
    ensures
        match r {
            Ok(n) => expr_closure_rest_of(text@) == Ok::<usize, Seq<char>>(n),
            Err(m) => expr_closure_rest_of(text@) == Err::<usize, Seq<char>>(m@),
        },
{
    let parser = |input: syn::parse::ParseStream| {
        input.parse::<syn::ExprClosure>()?;
        input.parse::<proc_macro2::TokenStream>()
    };
    match syn::parse::Parser::parse_str(parser, text) {
        Ok(rest) => Ok(rest.into_iter().count()),
        Err(e) => Err(e.to_string()),
    }
}

/// How many token trees are left after `syn` parses a `syn::ExprField` from the
/// start of `text`, or the text of its error.
pub uninterp spec fn expr_field_rest_of(text: Seq<char>) -> Result<usize, Seq<char>>;

/// Relies on `syn::parse::Parser::parse_str` with `syn::ExprField`'s `Parse`: the
/// trees left after the parsed fragment.
#[verifier::external_body]
pub(crate) fn expr_field_rest(text: &str) -> (r: Result<usize, String>)
    requires
        rendered_valid(text@),
    ensures
        match r {
            Ok(n) => expr_field_rest_of(text@) == Ok::<usize, Seq<char>>(n),
            Err(m) => expr_field_rest_of(text@) == Err::<usize, Seq<char>>(m@),
        },
{
    let parser = |input: syn::parse::ParseStream| {
        input.parse::<syn::ExprField>()?;
        input.parse::<proc_macro2::TokenStream>()
    };
    match syn::parse::Parser::parse_str(parser, text) {
        Ok(rest) => Ok(rest.into_iter().count()),
        Err(e) => Err(e.to_string()),
    }
}

/// How many token trees are left after `syn` parses a `syn::ExprIndex` from the
/// start of `text`, or the text of its error.
pub uninterp spec fn expr_index_rest_of(text: Seq<char>) -> Result<usize, Seq<char>>;

/// Relies on `syn::parse::Parser::parse_str` with `syn::ExprIndex`'s `Parse`: the
/// trees left after the parsed fragment.
#[verifier::external_body]
pub(crate) fn expr_index_rest(text: &str) -> (r: Result<usize, String>)
    requires
        rendered_valid(text@),
    ensures
        match r {
            Ok(n) => expr_index_rest_of(text@) == Ok::<usize, Seq<char>>(n),
            Err(m) => expr_index_rest_of(text@) == Err::<usize, Seq<char>>(m@),
        },
{
    let parser = |input: syn::parse::ParseStream| {
        input.parse::<syn::ExprIndex>()?;
        input.parse::<proc_macro2::TokenStream>()
    };
    match syn::parse::Parser::parse_str(parser, text) {
        Ok(rest) => Ok(rest.into_iter().count()),
        Err(e) => Err(e.to_string()),
    }
}

/// How many token trees are left after `syn` parses a `syn::ExprLit` from the
/// start of `text`, or the text of its error.
pub uninterp spec fn expr_lit_rest_of(text: Seq<char>) -> Result<usize, Seq<char>>;

/// Relies on `syn::parse::Parser::parse_str` with `syn::ExprLit`'s `Parse`: the
/// trees left after the parsed fragment.
#[verifier::external_body]
pub(crate) fn expr_lit_rest(text: &str) -> (r: Result<usize, String>)
    requires
        rendered_valid(text@),
    ensures
        match r {
            Ok(n) => expr_lit_rest_of(text@) == Ok::<usize, Seq<char>>(n),
            Err(m) => expr_lit_rest_of(text@) == Err::<usize, Seq<char>>(m@),
        },
{
    let parser = |input: syn::parse::ParseStream| {
        input.parse::<syn::ExprLit>()?;
        input.parse::<proc_macro2::TokenStream>()
    };
    match syn::parse::Parser::parse_str(parser, text) {
        Ok(rest) => Ok(rest.into_iter().count()),
        Err(e) => Err(e.to_string()),
    }
}

/// How many token trees are left after `syn` parses a `syn::ExprParen` from the
/// start of `text`, or the text of its error.
pub uninterp spec fn expr_paren_rest_of(text: Seq<char>) -> Result<usize, Seq<char>>;

/// Relies on `syn::parse::Parser::parse_str` with `syn::ExprParen`'s `Parse`: the
/// trees left after the parsed fragment.
#[verifier::external_body]
pub(crate) fn expr_paren_rest(text: &str) -> (r: Result<usize, String>)
    requires
        rendered_valid(text@),
    ensures
        match r {
            Ok(n) => expr_paren_rest_of(text@) == Ok::<usize, Seq<char>>(n),
            Err(m) => expr_paren_rest_of(text@) == Err::<usize, Seq<char>>(m@),
        },
{
    let parser = |input: syn::parse::ParseStream| {
        input.parse::<syn::ExprParen>()?;
        input.parse::<proc_macro2::TokenStream>()
    };
    match syn::parse::Parser::parse_str(parser, text) {
        Ok(rest) => Ok(rest.into_iter().count()),
        Err(e) => Err(e.to_string()),
    }
}

/// How many token trees are left after `syn` parses a `syn::ExprPath` from the
/// start of `text`, or the text of its error.
pub uninterp spec fn expr_path_rest_of(text: Seq<char>) -> Result<usize, Seq<char>>;

/// Relies on `syn::parse::Parser::parse_str` with `syn::ExprPath`'s `Parse`: the
/// trees left after the parsed fragment.
#[verifier::external_body]
pub(crate) fn expr_path_rest(text: &str) -> (r: Result<usize, String>)
    requires
        rendered_valid(text@),
    ensures
        match r {
            Ok(n) => expr_path_rest_of(text@) == Ok::<usize, Seq<char>>(n),
            Err(m) => expr_path_rest_of(text@) == Err::<usize, Seq<char>>(m@),
        },
{
    let parser = |input: syn::parse::ParseStream| {
        input.parse::<syn::ExprPath>()?;
        input.parse::<proc_macro2::TokenStream>()
    };
    match syn::parse::Parser::parse_str(parser, text) {
        Ok(rest) => Ok(rest.into_iter().count()),
        Err(e) => Err(e.to_string()),
    }
}

/// How many token trees are left after `syn` parses a `syn::ExprRange` from the
/// start of `text`, or the text of its error.
pub uninterp spec fn expr_range_rest_of(text: Seq<char>) -> Result<usize, Seq<char>>;

/// Relies on `syn::parse::Parser::parse_str` with `syn::ExprRange`'s `Parse`: the
/// trees left after the parsed fragment.
#[verifier::external_body]
pub(crate) fn expr_range_rest(text: &str) -> (r: Result<usize, String>)
    requires
        rendered_valid(text@),
    ensures
        match r {
            Ok(n) => expr_range_rest_of(text@) == Ok::<usize, Seq<char>>(n),
            Err(m) => expr_range_rest_of(text@) == Err::<usize, Seq<char>>(m@),
        },
{
    let parser = |input: syn::parse::ParseStream| {
        input.parse::<syn::ExprRange>()?;
        input.parse::<proc_macro2::TokenStream>()
    };
    match syn::parse::Parser::parse_str(parser, text) {
        Ok(rest) => Ok(rest.into_iter().count()),
        Err(e) => Err(e.to_string()),
    }
}

/// How many token trees are left after `syn` parses a `syn::ExprReference` from the
/// start of `text`, or the text of its error.
pub uninterp spec fn expr_reference_rest_of(text: Seq<char>) -> Result<usize, Seq<char>>;

/// Relies on `syn::parse::Parser::parse_str` with `syn::ExprReference`'s `Parse`: the
/// trees left after the parsed fragment.
#[verifier::external_body]
pub(crate) fn expr_reference_rest(text: &str) -> (r: Result<usize, String>)
    requires
        rendered_valid(text@),
    ensures
        match r {
            Ok(n) => expr_reference_rest_of(text@) == Ok::<usize, Seq<char>>(n),
            Err(m) => expr_reference_rest_of(text@) == Err::<usize, Seq<char>>(m@),
        },
{
    let parser = |input: syn::parse::ParseStream| {
        input.parse::<syn::ExprReference>()?;
        input.parse::<proc_macro2::TokenStream>()
    };
    match syn::parse::Parser::parse_str(parser, text) {
        Ok(rest) => Ok(rest.into_iter().count()),
        Err(e) => Err(e.to_string()),
    }
}

/// How many token trees are left after `syn` parses a `syn::ExprTry` from the
/// start of `text`, or the text of its error.
pub uninterp spec fn expr_try_rest_of(text: Seq<char>) -> Result<usize, Seq<char>>;

/// Relies on `syn::parse::Parser::parse_str` with `syn::ExprTry`'s `Parse`: the
/// trees left after the parsed fragment.
#[verifier::external_body]
pub(crate) fn expr_try_rest(text: &str) -> (r: Result<usize, String>)
    requires
        rendered_valid(text@),
    ensures
        match r {
            Ok(n) => expr_try_rest_of(text@) == Ok::<usize, Seq<char>>(n),
            Err(m) => expr_try_rest_of(text@) == Err::<usize, Seq<char>>(m@),
        },
{
    let parser = |input: syn::parse::ParseStream| {
        input.parse::<syn::ExprTry>()?;
        input.parse::<proc_macro2::TokenStream>()
    };
    match syn::parse::Parser::parse_str(parser, text) {
        Ok(rest) => Ok(rest.into_iter().count()),
        Err(e) => Err(e.to_string()),
    }
}

/// How many token trees are left after `syn` parses a `syn::ExprTuple` from the
/// start of `text`, or the text of its error.
pub uninterp spec fn expr_tuple_rest_of(text: Seq<char>) -> Result<usize, Seq<char>>;

/// Relies on `syn::parse::Parser::parse_str` with `syn::ExprTuple`'s `Parse`: the
/// trees left after the parsed fragment.
#[verifier::external_body]
pub(crate) fn expr_tuple_rest(text: &str) -> (r: Result<usize, String>)
    requires
        rendered_valid(text@),
    ensures
        match r {
            Ok(n) => expr_tuple_rest_of(text@) == Ok::<usize, Seq<char>>(n),
            Err(m) => expr_tuple_rest_of(text@) == Err::<usize, Seq<char>>(m@),
        },
{
    let parser = |input: syn::parse::ParseStream| {
        input.parse::<syn::ExprTuple>()?;
        input.parse::<proc_macro2::TokenStream>()
    };
    match syn::parse::Parser::parse_str(parser, text) {
        Ok(rest) => Ok(rest.into_iter().count()),
        Err(e) => Err(e.to_string()),
    }
}

/// How many token trees are left after `syn` parses a `syn::ExprType` from the
/// start of `text`, or the text of its error.
pub uninterp spec fn expr_type_rest_of(text: Seq<char>) -> Result<usize, Seq<char>>;

/// Relies on `syn::parse::Parser::parse_str` with `syn::ExprType`'s `Parse`: the
/// trees left after the parsed fragment.
#[verifier::external_body]
pub(crate) fn expr_type_rest(text: &str) -> (r: Result<usize, String>)
    requires
        rendered_valid(text@),
    ensures
        match r {
            Ok(n) => expr_type_rest_of(text@) == Ok::<usize, Seq<char>>(n),
            Err(m) => expr_type_rest_of(text@) == Err::<usize, Seq<char>>(m@),
        },
{
    let parser = |input: syn::parse::ParseStream| {
        input.parse::<syn::ExprType>()?;
        input.parse::<proc_macro2::TokenStream>()
    };
    match syn::parse::Parser::parse_str(parser, text) {
        Ok(rest) => Ok(rest.into_iter().count()),
        Err(e) => Err(e.to_string()),
    }
}

/// How many token trees are left after `syn` parses a `syn::ExprUnary` from the
/// start of `text`, or the text of its error.
pub uninterp spec fn expr_unary_rest_of(text: Seq<char>) -> Result<usize, Seq<char>>;

/// Relies on `syn::parse::Parser::parse_str` with `syn::ExprUnary`'s `Parse`: the
/// trees left after the parsed fragment.
#[verifier::external_body]
pub(crate) fn expr_unary_rest(text: &str) -> (r: Result<usize, String>)
    requires
        rendered_valid(text@),
    ensures
        match r {
            Ok(n) => expr_unary_rest_of(text@) == Ok::<usize, Seq<char>>(n),
            Err(m) => expr_unary_rest_of(text@) == Err::<usize, Seq<char>>(m@),
        },
{
    let parser = |input: syn::parse::ParseStream| {
        input.parse::<syn::ExprUnary>()?;
        input.parse::<proc_macro2::TokenStream>()
    };
    match syn::parse::Parser::parse_str(parser, text) {
        Ok(rest) => Ok(rest.into_iter().count()),
        Err(e) => Err(e.to_string()),
    }
}

/// How many token trees are left after `syn` parses a `syn::Lit` from the
/// start of `text`, or the text of its error.
pub uninterp spec fn lit_rest_of(text: Seq<char>) -> Result<usize, Seq<char>>;

/// Relies on `syn::parse::Parser::parse_str` with `syn::Lit`'s `Parse`: the
/// trees left after the parsed fragment.
#[verifier::external_body]
pub(crate) fn lit_rest(text: &str) -> (r: Result<usize, String>)
    requires
        rendered_valid(text@),
    ensures
        match r {
            Ok(n) => lit_rest_of(text@) == Ok::<usize, Seq<char>>(n),
            Err(m) => lit_rest_of(text@) == Err::<usize, Seq<char>>(m@),
        },
{
    let parser = |input: syn::parse::ParseStream| {
        input.parse::<syn::Lit>()?;
        input.parse::<proc_macro2::TokenStream>()
    };
    match syn::parse::Parser::parse_str(parser, text) {
        Ok(rest) => Ok(rest.into_iter().count()),
        Err(e) => Err(e.to_string()),
    }
}

/// How many token trees are left after `syn` parses a `syn::LitBool` from the
/// start of `text`, or the text of its error.
pub uninterp spec fn lit_bool_rest_of(text: Seq<char>) -> Result<usize, Seq<char>>;

/// Relies on `syn::parse::Parser::parse_str` with `syn::LitBool`'s `Parse`: the
/// trees left after the parsed fragment.
#[verifier::external_body]
pub(crate) fn lit_bool_rest(text: &str) -> (r: Result<usize, String>)
    requires
        rendered_valid(text@),
    ensures
        match r {
            Ok(n) => lit_bool_rest_of(text@) == Ok::<usize, Seq<char>>(n),
            Err(m) => lit_bool_rest_of(text@) == Err::<usize, Seq<char>>(m@),
        },
{
    let parser = |input: syn::parse::ParseStream| {
        input.parse::<syn::LitBool>()?;
        input.parse::<proc_macro2::TokenStream>()
    };
    match syn::parse::Parser::parse_str(parser, text) {
        Ok(rest) => Ok(rest.into_iter().count()),
        Err(e) => Err(e.to_string()),
    }
}

/// How many token trees are left after `syn` parses a `syn::LitByte` from the
/// start of `text`, or the text of its error.
pub uninterp spec fn lit_byte_rest_of(text: Seq<char>) -> Result<usize, Seq<char>>;

/// Relies on `syn::parse::Parser::parse_str` with `syn::LitByte`'s `Parse`: the
/// trees left after the parsed fragment.
#[verifier::external_body]
pub(crate) fn lit_byte_rest(text: &str) -> (r: Result<usize, String>)
    requires
        rendered_valid(text@),
    ensures
        match r {
            Ok(n) => lit_byte_rest_of(text@) == Ok::<usize, Seq<char>>(n),
            Err(m) => lit_byte_rest_of(text@) == Err::<usize, Seq<char>>(m@),
        },
{
    let parser = |input: syn::parse::ParseStream| {
        input.parse::<syn::LitByte>()?;
        input.parse::<proc_macro2::TokenStream>()
    };
    match syn::parse::Parser::parse_str(parser, text) {
        Ok(rest) => Ok(rest.into_iter().count()),
        Err(e) => Err(e.to_string()),
    }
}

/// How many token trees are left after `syn` parses a `syn::LitByteStr` from the
/// start of `text`, or the text of its error.
pub uninterp spec fn lit_byte_str_rest_of(text: Seq<char>) -> Result<usize, Seq<char>>;

/// Relies on `syn::parse::Parser::parse_str` with `syn::LitByteStr`'s `Parse`: the
/// trees left after the parsed fragment.
#[verifier::external_body]
pub(crate) fn lit_byte_str_rest(text: &str) -> (r: Result<usize, String>)
    requires
        rendered_valid(text@),
    ensures
        match r {
            Ok(n) => lit_byte_str_rest_of(text@) == Ok::<usize, Seq<char>>(n),
            Err(m) => lit_byte_str_rest_of(text@) == Err::<usize, Seq<char>>(m@),
        },
{
    let parser = |input: syn::parse::ParseStream| {
        input.parse::<syn::LitByteStr>()?;
        input.parse::<proc_macro2::TokenStream>()
    };
    match syn::parse::Parser::parse_str(parser, text) {
        Ok(rest) => Ok(rest.into_iter().count()),
        Err(e) => Err(e.to_string()),
    }
}

/// How many token trees are left after `syn` parses a `syn::LitChar` from the
/// start of `text`, or the text of its error.
pub uninterp spec fn lit_char_rest_of(text: Seq<char>) -> Result<usize, Seq<char>>;

/// Relies on `syn::parse::Parser::parse_str` with `syn::LitChar`'s `Parse`: the
/// trees left after the parsed fragment.
#[verifier::external_body]
pub(crate) fn lit_char_rest(text: &str) -> (r: Result<usize, String>)
    requires
        rendered_valid(text@),
    ensures
        match r {
            Ok(n) => lit_char_rest_of(text@) == Ok::<usize, Seq<char>>(n),
            Err(m) => lit_char_rest_of(text@) == Err::<usize, Seq<char>>(m@),
        },
{
    let parser = |input: syn::parse::ParseStream| {
        input.parse::<syn::LitChar>()?;
        input.parse::<proc_macro2::TokenStream>()
    };
    match syn::parse::Parser::parse_str(parser, text) {
        Ok(rest) => Ok(rest.into_iter().count()),
        Err(e) => Err(e.to_string()),
    }
}

/// How many token trees are left after `syn` parses a `syn::Index` from the
/// start of `text`, or the text of its error.
pub uninterp spec fn index_rest_of(text: Seq<char>) -> Result<usize, Seq<char>>;

/// Relies on `syn::parse::Parser::parse_str` with `syn::Index`'s `Parse`: the
/// trees left after the parsed fragment.
#[verifier::external_body]
pub(crate) fn index_rest(text: &str) -> (r: Result<usize, String>)
    requires
        rendered_valid(text@),
    ensures
        match r {
            Ok(n) => index_rest_of(text@) == Ok::<usize, Seq<char>>(n),
            Err(m) => index_rest_of(text@) == Err::<usize, Seq<char>>(m@),
        },
{
    let parser = |input: syn::parse::ParseStream| {
        input.parse::<syn::Index>()?;
        input.parse::<proc_macro2::TokenStream>()
    };
    match syn::parse::Parser::parse_str(parser, text) {
        Ok(rest) => Ok(rest.into_iter().count()),
        Err(e) => Err(e.to_string()),
    }
}

/// How many token trees are left after `syn` parses a `syn::Lifetime` from the
/// start of `text`, or the text of its error.
pub uninterp spec fn lifetime_rest_of(text: Seq<char>) -> Result<usize, Seq<char>>;

/// Relies on `syn::parse::Parser::parse_str` with `syn::Lifetime`'s `Parse`: the
/// trees left after the parsed fragment.
#[verifier::external_body]
pub(crate) fn lifetime_rest(text: &str) -> (r: Result<usize, String>)
    requires
        rendered_valid(text@),
    ensures
        match r {
            Ok(n) => lifetime_rest_of(text@) == Ok::<usize, Seq<char>>(n),
            Err(m) => lifetime_rest_of(text@) == Err::<usize, Seq<char>>(m@),
        },
{
    let parser = |input: syn::parse::ParseStream| {
        input.parse::<syn::Lifetime>()?;
        input.parse::<proc_macro2::TokenStream>()
    };
    match syn::parse::Parser::parse_str(parser, text) {
        Ok(rest) => Ok(rest.into_iter().count()),
        Err(e) => Err(e.to_string()),
    }
}

/// How many token trees are left after `syn` parses a `syn::Path` from the
/// start of `text`, or the text of its error.
pub uninterp spec fn path_rest_of(text: Seq<char>) -> Result<usize, Seq<char>>;

/// Relies on `syn::parse::Parser::parse_str` with `syn::Path`'s `Parse`: the
/// trees left after the parsed fragment.
#[verifier::external_body]
pub(crate) fn path_rest(text: &str) -> (r: Result<usize, String>)
    requires
        rendered_valid(text@),
    ensures
        match r {
            Ok(n) => path_rest_of(text@) == Ok::<usize, Seq<char>>(n),
            Err(m) => path_rest_of(text@) == Err::<usize, Seq<char>>(m@),
        },
{
    let parser = |input: syn::parse::ParseStream| {
        input.parse::<syn::Path>()?;
        input.parse::<proc_macro2::TokenStream>()
    };
    match syn::parse::Parser::parse_str(parser, text) {
        Ok(rest) => Ok(rest.into_iter().count()),
        Err(e) => Err(e.to_string()),
    }
}

/// How many token trees are left after `syn` parses a `syn::Type` from the
/// start of `text`, or the text of its error.
pub uninterp spec fn type_rest_of(text: Seq<char>) -> Result<usize, Seq<char>>;

/// Relies on `syn::parse::Parser::parse_str` with `syn::Type`'s `Parse`: the
/// trees left after the parsed fragment.
#[verifier::external_body]
pub(crate) fn type_rest(text: &str) -> (r: Result<usize, String>)
    requires
        rendered_valid(text@),
    ensures
        match r {
            Ok(n) => type_rest_of(text@) == Ok::<usize, Seq<char>>(n),
            Err(m) => type_rest_of(text@) == Err::<usize, Seq<char>>(m@),
        },
{
    let parser = |input: syn::parse::ParseStream| {
        input.parse::<syn::Type>()?;
        input.parse::<proc_macro2::TokenStream>()
    };
    match syn::parse::Parser::parse_str(parser, text) {
        Ok(rest) => Ok(rest.into_iter().count()),
        Err(e) => Err(e.to_string()),
    }
}

/// How many token trees are left after `syn` parses a `syn::TypeArray` from the
/// start of `text`, or the text of its error.
pub uninterp spec fn type_array_rest_of(text: Seq<char>) -> Result<usize, Seq<char>>;

/// Relies on `syn::parse::Parser::parse_str` with `syn::TypeArray`'s `Parse`: the
/// trees left after the parsed fragment.
#[verifier::external_body]
pub(crate) fn type_array_rest(text: &str) -> (r: Result<usize, String>)
    requires
        rendered_valid(text@),
    ensures
        match r {
            Ok(n) => type_array_rest_of(text@) == Ok::<usize, Seq<char>>(n),
            Err(m) => type_array_rest_of(text@) == Err::<usize, Seq<char>>(m@),
        },
{
    let parser = |input: syn::parse::ParseStream| {
        input.parse::<syn::TypeArray>()?;
        input.parse::<proc_macro2::TokenStream>()
    };
    match syn::parse::Parser::parse_str(parser, text) {
        Ok(rest) => Ok(rest.into_iter().count()),
        Err(e) => Err(e.to_string()),
    }
}

/// How many token trees are left after `syn` parses a `syn::TypeBareFn` from the
/// start of `text`, or the text of its error.
pub uninterp spec fn type_bare_fn_rest_of(text: Seq<char>) -> Result<usize, Seq<char>>;

/// Relies on `syn::parse::Parser::parse_str` with `syn::TypeBareFn`'s `Parse`: the
/// trees left after the parsed fragment.
#[verifier::external_body]
pub(crate) fn type_bare_fn_rest(text: &str) -> (r: Result<usize, String>)
    requires
        rendered_valid(text@),
    ensures
        match r {
            Ok(n) => type_bare_fn_rest_of(text@) == Ok::<usize, Seq<char>>(n),
            Err(m) => type_bare_fn_rest_of(text@) == Err::<usize, Seq<char>>(m@),
        },
{
    let parser = |input: syn::parse::ParseStream| {
        input.parse::<syn::TypeBareFn>()?;
        input.parse::<proc_macro2::TokenStream>()
    };
    match syn::parse::Parser::parse_str(parser, text) {
        Ok(rest) => Ok(rest.into_iter().count()),
        Err(e) => Err(e.to_string()),
    }
}

/// How many token trees are left after `syn` parses a `syn::TypeGroup` from the
/// start of `text`, or the text of its error.
pub uninterp spec fn type_group_rest_of(text: Seq<char>) -> Result<usize, Seq<char>>;

/// Relies on `syn::parse::Parser::parse_str` with `syn::TypeGroup`'s `Parse`: the
/// trees left after the parsed fragment.
#[verifier::external_body]
pub(crate) fn type_group_rest(text: &str) -> (r: Result<usize, String>)
    requires
        rendered_valid(text@),
    ensures
        match r {
            Ok(n) => type_group_rest_of(text@) == Ok::<usize, Seq<char>>(n),
            Err(m) => type_group_rest_of(text@) == Err::<usize, Seq<char>>(m@),
        },
{
    let parser = |input: syn::parse::ParseStream| {
        input.parse::<syn::TypeGroup>()?;
        input.parse::<proc_macro2::TokenStream>()
    };
    match syn::parse::Parser::parse_str(parser, text) {
        Ok(rest) => Ok(rest.into_iter().count()),
        Err(e) => Err(e.to_string()),
    }
}

/// How many token trees are left after `syn` parses a `syn::TypeImplTrait` from the
/// start of `text`, or the text of its error.
pub uninterp spec fn type_impl_trait_rest_of(text: Seq<char>) -> Result<usize, Seq<char>>;

/// Relies on `syn::parse::Parser::parse_str` with `syn::TypeImplTrait`'s `Parse`: the
/// trees left after the parsed fragment.
#[verifier::external_body]
pub(crate) fn type_impl_trait_rest(text: &str) -> (r: Result<usize, String>)
    requires
        rendered_valid(text@),
    ensures
        match r {
            Ok(n) => type_impl_trait_rest_of(text@) == Ok::<usize, Seq<char>>(n),
            Err(m) => type_impl_trait_rest_of(text@) == Err::<usize, Seq<char>>(m@),
        },
{
    let parser = |input: syn::parse::ParseStream| {
        input.parse::<syn::TypeImplTrait>()?;
        input.parse::<proc_macro2::TokenStream>()
    };
    match syn::parse::Parser::parse_str(parser, text) {
        Ok(rest) => Ok(rest.into_iter().count()),
        Err(e) => Err(e.to_string()),
    }
}

/// How many token trees are left after `syn` parses a `syn::TypeInfer` from the
/// start of `text`, or the text of its error.
pub uninterp spec fn type_infer_rest_of(text: Seq<char>) -> Result<usize, Seq<char>>;

/// Relies on `syn::parse::Parser::parse_str` with `syn::TypeInfer`'s `Parse`: the
/// trees left after the parsed fragment.
#[verifier::external_body]
pub(crate) fn type_infer_rest(text: &str) -> (r: Result<usize, String>)
    requires
        rendered_valid(text@),
    ensures
        match r {
            Ok(n) => type_infer_rest_of(text@) == Ok::<usize, Seq<char>>(n),
            Err(m) => type_infer_rest_of(text@) == Err::<usize, Seq<char>>(m@),
        },
{
    let parser = |input: syn::parse::ParseStream| {
        input.parse::<syn::TypeInfer>()?;
        input.parse::<proc_macro2::TokenStream>()
    };
    match syn::parse::Parser::parse_str(parser, text) {
        Ok(rest) => Ok(rest.into_iter().count()),
        Err(e) => Err(e.to_string()),
    }
}

/// How many token trees are left after `syn` parses a `syn::TypeMacro` from the
/// start of `text`, or the text of its error.
pub uninterp spec fn type_macro_rest_of(text: Seq<char>) -> Result<usize, Seq<char>>;

/// Relies on `syn::parse::Parser::parse_str` with `syn::TypeMacro`'s `Parse`: the
/// trees left after the parsed fragment.
#[verifier::external_body]
pub(crate) fn type_macro_rest(text: &str) -> (r: Result<usize, String>)
    requires
        rendered_valid(text@),
    ensures
        match r {
            Ok(n) => type_macro_rest_of(text@) == Ok::<usize, Seq<char>>(n),
            Err(m) => type_macro_rest_of(text@) == Err::<usize, Seq<char>>(m@),
        },
{
    let parser = |input: syn::parse::ParseStream| {
        input.parse::<syn::TypeMacro>()?;
        input.parse::<proc_macro2::TokenStream>()
    };
    match syn::parse::Parser::parse_str(parser, text) {
        Ok(rest) => Ok(rest.into_iter().count()),
        Err(e) => Err(e.to_string()),
    }
}

/// How many token trees are left after `syn` parses a `syn::TypeNever` from the
/// start of `text`, or the text of its error.
pub uninterp spec fn type_never_rest_of(text: Seq<char>) -> Result<usize, Seq<char>>;

/// Relies on `syn::parse::Parser::parse_str` with `syn::TypeNever`'s `Parse`: the
/// trees left after the parsed fragment.
#[verifier::external_body]
pub(crate) fn type_never_rest(text: &str) -> (r: Result<usize, String>)
    requires
        rendered_valid(text@),
    ensures
        match r {
            Ok(n) => type_never_rest_of(text@) == Ok::<usize, Seq<char>>(n),
            Err(m) => type_never_rest_of(text@) == Err::<usize, Seq<char>>(m@),
        },
{
    let parser = |input: syn::parse::ParseStream| {
        input.parse::<syn::TypeNever>()?;
        input.parse::<proc_macro2::TokenStream>()
    };
    match syn::parse::Parser::parse_str(parser, text) {
        Ok(rest) => Ok(rest.into_iter().count()),
        Err(e) => Err(e.to_string()),
    }
}

/// How many token trees are left after `syn` parses a `syn::TypeParam` from the
/// start of `text`, or the text of its error.
pub uninterp spec fn type_param_rest_of(text: Seq<char>) -> Result<usize, Seq<char>>;

/// Relies on `syn::parse::Parser::parse_str` with `syn::TypeParam`'s `Parse`: the
/// trees left after the parsed fragment.
#[verifier::external_body]
pub(crate) fn type_param_rest(text: &str) -> (r: Result<usize, String>)
    requires
        rendered_valid(text@),
    ensures
        match r {
            Ok(n) => type_param_rest_of(text@) == Ok::<usize, Seq<char>>(n),
            Err(m) => type_param_rest_of(text@) == Err::<usize, Seq<char>>(m@),
        },
{
    let parser = |input: syn::parse::ParseStream| {
        input.parse::<syn::TypeParam>()?;
        input.parse::<proc_macro2::TokenStream>()
    };
    match syn::parse::Parser::parse_str(parser, text) {
        Ok(rest) => Ok(rest.into_iter().count()),
        Err(e) => Err(e.to_string()),
    }
}

/// How many token trees are left after `syn` parses a `syn::TypeParen` from the
/// start of `text`, or the text of its error.
pub uninterp spec fn type_paren_rest_of(text: Seq<char>) -> Result<usize, Seq<char>>;

/// Relies on `syn::parse::Parser::parse_str` with `syn::TypeParen`'s `Parse`: the
/// trees left after the parsed fragment.
#[verifier::external_body]
pub(crate) fn type_paren_rest(text: &str) -> (r: Result<usize, String>)
    requires
        rendered_valid(text@),
    ensures
        match r {
            Ok(n) => type_paren_rest_of(text@) == Ok::<usize, Seq<char>>(n),
            Err(m) => type_paren_rest_of(text@) == Err::<usize, Seq<char>>(m@),
        },
{
    let parser = |input: syn::parse::ParseStream| {
        input.parse::<syn::TypeParen>()?;
        input.parse::<proc_macro2::TokenStream>()
    };
    match syn::parse::Parser::parse_str(parser, text) {
        Ok(rest) => Ok(rest.into_iter().count()),
        Err(e) => Err(e.to_string()),
    }
}

/// How many token trees are left after `syn` parses a `syn::TypePath` from the
/// start of `text`, or the text of its error.
pub uninterp spec fn type_path_rest_of(text: Seq<char>) -> Result<usize, Seq<char>>;

/// Relies on `syn::parse::Parser::parse_str` with `syn::TypePath`'s `Parse`: the
/// trees left after the parsed fragment.
#[verifier::external_body]
pub(crate) fn type_path_rest(text: &str) -> (r: Result<usize, String>)
    requires
        rendered_valid(text@),
    ensures
        match r {
            Ok(n) => type_path_rest_of(text@) == Ok::<usize, Seq<char>>(n),
            Err(m) => type_path_rest_of(text@) == Err::<usize, Seq<char>>(m@),
        },
{
    let parser = |input: syn::parse::ParseStream| {
        input.parse::<syn::TypePath>()?;
        input.parse::<proc_macro2::TokenStream>()
    };
    match syn::parse::Parser::parse_str(parser, text) {
        Ok(rest) => Ok(rest.into_iter().count()),
        Err(e) => Err(e.to_string()),
    }
}

/// How many token trees are left after `syn` parses a `syn::TypePtr` from the
/// start of `text`, or the text of its error.
pub uninterp spec fn type_ptr_rest_of(text: Seq<char>) -> Result<usize, Seq<char>>;

/// Relies on `syn::parse::Parser::parse_str` with `syn::TypePtr`'s `Parse`: the
/// trees left after the parsed fragment.
#[verifier::external_body]
pub(crate) fn type_ptr_rest(text: &str) -> (r: Result<usize, String>)
    requires
        rendered_valid(text@),
    ensures
        match r {
            Ok(n) => type_ptr_rest_of(text@) == Ok::<usize, Seq<char>>(n),
            Err(m) => type_ptr_rest_of(text@) == Err::<usize, Seq<char>>(m@),
        },
{
    let parser = |input: syn::parse::ParseStream| {
        input.parse::<syn::TypePtr>()?;
        input.parse::<proc_macro2::TokenStream>()
    };
    match syn::parse::Parser::parse_str(parser, text) {
        Ok(rest) => Ok(rest.into_iter().count()),
        Err(e) => Err(e.to_string()),
    }
}

/// How many token trees are left after `syn` parses a `syn::TypeReference` from the
/// start of `text`, or the text of its error.
pub uninterp spec fn type_reference_rest_of(text: Seq<char>) -> Result<usize, Seq<char>>;

/// Relies on `syn::parse::Parser::parse_str` with `syn::TypeReference`'s `Parse`: the
/// trees left after the parsed fragment.
#[verifier::external_body]
pub(crate) fn type_reference_rest(text: &str) -> (r: Result<usize, String>)
    requires
        rendered_valid(text@),
    ensures
        match r {
            Ok(n) => type_reference_rest_of(text@) == Ok::<usize, Seq<char>>(n),
            Err(m) => type_reference_rest_of(text@) == Err::<usize, Seq<char>>(m@),
        },
{
    let parser = |input: syn::parse::ParseStream| {
        input.parse::<syn::TypeReference>()?;
        input.parse::<proc_macro2::TokenStream>()
    };
    match syn::parse::Parser::parse_str(parser, text) {
        Ok(rest) => Ok(rest.into_iter().count()),
        Err(e) => Err(e.to_string()),
    }
}

/// How many token trees are left after `syn` parses a `syn::TypeSlice` from the
/// start of `text`, or the text of its error.
pub uninterp spec fn type_slice_rest_of(text: Seq<char>) -> Result<usize, Seq<char>>;

/// Relies on `syn::parse::Parser::parse_str` with `syn::TypeSlice`'s `Parse`: the
/// trees left after the parsed fragment.
#[verifier::external_body]
pub(crate) fn type_slice_rest(text: &str) -> (r: Result<usize, String>)
    requires
        rendered_valid(text@),
    ensures
        match r {
            Ok(n) => type_slice_rest_of(text@) == Ok::<usize, Seq<char>>(n),
            Err(m) => type_slice_rest_of(text@) == Err::<usize, Seq<char>>(m@),
        },
{
    let parser = |input: syn::parse::ParseStream| {
        input.parse::<syn::TypeSlice>()?;
        input.parse::<proc_macro2::TokenStream>()
    };
    match syn::parse::Parser::parse_str(parser, text) {
        Ok(rest) => Ok(rest.into_iter().count()),
        Err(e) => Err(e.to_string()),
    }
}

/// How many token trees are left after `syn` parses a `syn::TypeTraitObject` from the
/// start of `text`, or the text of its error.
pub uninterp spec fn type_trait_object_rest_of(text: Seq<char>) -> Result<usize, Seq<char>>;

/// Relies on `syn::parse::Parser::parse_str` with `syn::TypeTraitObject`'s `Parse`: the
/// trees left after the parsed fragment.
#[verifier::external_body]
pub(crate) fn type_trait_object_rest(text: &str) -> (r: Result<usize, String>)
    requires
        rendered_valid(text@),
    ensures
        match r {
            Ok(n) => type_trait_object_rest_of(text@) == Ok::<usize, Seq<char>>(n),
            Err(m) => type_trait_object_rest_of(text@) == Err::<usize, Seq<char>>(m@),
        },
{
    let parser = |input: syn::parse::ParseStream| {
        input.parse::<syn::TypeTraitObject>()?;
        input.parse::<proc_macro2::TokenStream>()
    };
    match syn::parse::Parser::parse_str(parser, text) {
        Ok(rest) => Ok(rest.into_iter().count()),
        Err(e) => Err(e.to_string()),
    }
}

/// How many token trees are left after `syn` parses a `syn::TypeTuple` from the
/// start of `text`, or the text of its error.
pub uninterp spec fn type_tuple_rest_of(text: Seq<char>) -> Result<usize, Seq<char>>;

/// Relies on `syn::parse::Parser::parse_str` with `syn::TypeTuple`'s `Parse`: the
/// trees left after the parsed fragment.
#[verifier::external_body]
pub(crate) fn type_tuple_rest(text: &str) -> (r: Result<usize, String>)
    requires
        rendered_valid(text@),
    ensures
        match r {
            Ok(n) => type_tuple_rest_of(text@) == Ok::<usize, Seq<char>>(n),
            Err(m) => type_tuple_rest_of(text@) == Err::<usize, Seq<char>>(m@),
        },
{
    let parser = |input: syn::parse::ParseStream| {
        input.parse::<syn::TypeTuple>()?;
        input.parse::<proc_macro2::TokenStream>()
    };
    match syn::parse::Parser::parse_str(parser, text) {
        Ok(rest) => Ok(rest.into_iter().count()),
        Err(e) => Err(e.to_string()),
    }
}

/// How many token trees are left after `syn` parses a `syn::Visibility` from the
/// start of `text`, or the text of its error.
pub uninterp spec fn visibility_rest_of(text: Seq<char>) -> Result<usize, Seq<char>>;

/// Relies on `syn::parse::Parser::parse_str` with `syn::Visibility`'s `Parse`: the
/// trees left after the parsed fragment.
#[verifier::external_body]
pub(crate) fn visibility_rest(text: &str) -> (r: Result<usize, String>)
    requires
        rendered_valid(text@),
    ensures
        match r {
            Ok(n) => visibility_rest_of(text@) == Ok::<usize, Seq<char>>(n),
            Err(m) => visibility_rest_of(text@) == Err::<usize, Seq<char>>(m@),
        },
{
    let parser = |input: syn::parse::ParseStream| {
        input.parse::<syn::Visibility>()?;
        input.parse::<proc_macro2::TokenStream>()
    };
    match syn::parse::Parser::parse_str(parser, text) {
        Ok(rest) => Ok(rest.into_iter().count()),
        Err(e) => Err(e.to_string()),
    }
}

/// How many token trees are left after `syn` parses a `syn::BinOp` from the
/// start of `text`, or the text of its error.
pub uninterp spec fn bin_op_rest_of(text: Seq<char>) -> Result<usize, Seq<char>>;

/// Relies on `syn::parse::Parser::parse_str` with `syn::BinOp`'s `Parse`: the
/// trees left after the parsed fragment.
#[verifier::external_body]
pub(crate) fn bin_op_rest(text: &str) -> (r: Result<usize, String>)
    requires
        rendered_valid(text@),
    ensures
        match r {
            Ok(n) => bin_op_rest_of(text@) == Ok::<usize, Seq<char>>(n),
            Err(m) => bin_op_rest_of(text@) == Err::<usize, Seq<char>>(m@),
        },
{
    let parser = |input: syn::parse::ParseStream| {
        input.parse::<syn::BinOp>()?;
        input.parse::<proc_macro2::TokenStream>()
    };
    match syn::parse::Parser::parse_str(parser, text) {
        Ok(rest) => Ok(rest.into_iter().count()),
        Err(e) => Err(e.to_string()),
    }
}

/// How many token trees are left after `syn` parses a `syn::GenericArgument` from the
/// start of `text`, or the text of its error.
pub uninterp spec fn generic_argument_rest_of(text: Seq<char>) -> Result<usize, Seq<char>>;

/// Relies on `syn::parse::Parser::parse_str` with `syn::GenericArgument`'s `Parse`: the
/// trees left after the parsed fragment.
#[verifier::external_body]
pub(crate) fn generic_argument_rest(text: &str) -> (r: Result<usize, String>)
    requires
        rendered_valid(text@),
    ensures
        match r {
            Ok(n) => generic_argument_rest_of(text@) == Ok::<usize, Seq<char>>(n),
            Err(m) => generic_argument_rest_of(text@) == Err::<usize, Seq<char>>(m@),
        },
{
    let parser = |input: syn::parse::ParseStream| {
        input.parse::<syn::GenericArgument>()?;
        input.parse::<proc_macro2::TokenStream>()
    };
    match syn::parse::Parser::parse_str(parser, text) {
        Ok(rest) => Ok(rest.into_iter().count()),
        Err(e) => Err(e.to_string()),
    }
}

/// How many token trees are left after `syn` parses a `syn::Meta` from the
/// start of `text`, or the text of its error.
pub uninterp spec fn meta_rest_of(text: Seq<char>) -> Result<usize, Seq<char>>;

/// Relies on `syn::parse::Parser::parse_str` with `syn::Meta`'s `Parse`: the
/// trees left after the parsed fragment.
#[verifier::external_body]
pub(crate) fn meta_rest(text: &str) -> (r: Result<usize, String>)
    requires
        rendered_valid(text@),
    ensures
        match r {
            Ok(n) => meta_rest_of(text@) == Ok::<usize, Seq<char>>(n),
            Err(m) => meta_rest_of(text@) == Err::<usize, Seq<char>>(m@),
        },
{
    let parser = |input: syn::parse::ParseStream| {
        input.parse::<syn::Meta>()?;
        input.parse::<proc_macro2::TokenStream>()
    };
    match syn::parse::Parser::parse_str(parser, text) {
        Ok(rest) => Ok(rest.into_iter().count()),
        Err(e) => Err(e.to_string()),
    }
}

/// How many token trees are left after `syn` parses a `syn::MetaList` from the
/// start of `text`, or the text of its error.
pub uninterp spec fn meta_list_rest_of(text: Seq<char>) -> Result<usize, Seq<char>>;

/// Relies on `syn::parse::Parser::parse_str` with `syn::MetaList`'s `Parse`: the
/// trees left after the parsed fragment.
#[verifier::external_body]
pub(crate) fn meta_list_rest(text: &str) -> (r: Result<usize, String>)
    requires
        rendered_valid(text@),
    ensures
        match r {
            Ok(n) => meta_list_rest_of(text@) == Ok::<usize, Seq<char>>(n),
            Err(m) => meta_list_rest_of(text@) == Err::<usize, Seq<char>>(m@),
        },
{
    let parser = |input: syn::parse::ParseStream| {
        input.parse::<syn::MetaList>()?;
        input.parse::<proc_macro2::TokenStream>()
    };
    match syn::parse::Parser::parse_str(parser, text) {
        Ok(rest) => Ok(rest.into_iter().count()),
        Err(e) => Err(e.to_string()),
    }
}

/// How many token trees are left after `syn` parses a `syn::MetaNameValue` from the
/// start of `text`, or the text of its error.
pub uninterp spec fn meta_name_value_rest_of(text: Seq<char>) -> Result<usize, Seq<char>>;

/// Relies on `syn::parse::Parser::parse_str` with `syn::MetaNameValue`'s `Parse`: the
/// trees left after the parsed fragment.
#[verifier::external_body]
pub(crate) fn meta_name_value_rest(text: &str) -> (r: Result<usize, String>)
    requires
        rendered_valid(text@),
    ensures
        match r {
            Ok(n) => meta_name_value_rest_of(text@) == Ok::<usize, Seq<char>>(n),
            Err(m) => meta_name_value_rest_of(text@) == Err::<usize, Seq<char>>(m@),
        },
{
    let parser = |input: syn::parse::ParseStream| {
        input.parse::<syn::MetaNameValue>()?;
        input.parse::<proc_macro2::TokenStream>()
    };
    match syn::parse::Parser::parse_str(parser, text) {
        Ok(rest) => Ok(rest.into_iter().count()),
        Err(e) => Err(e.to_string()),
    }
}

/// How many token trees are left after `syn` parses a `syn::NestedMeta` from the
/// start of `text`, or the text of its error.
pub uninterp spec fn nested_meta_rest_of(text: Seq<char>) -> Result<usize, Seq<char>>;

/// Relies on `syn::parse::Parser::parse_str` with `syn::NestedMeta`'s `Parse`: the
/// trees left after the parsed fragment.
#[verifier::external_body]
pub(crate) fn nested_meta_rest(text: &str) -> (r: Result<usize, String>)
    requires
        rendered_valid(text@),
    ensures
        match r {
            Ok(n) => nested_meta_rest_of(text@) == Ok::<usize, Seq<char>>(n),
            Err(m) => nested_meta_rest_of(text@) == Err::<usize, Seq<char>>(m@),
        },
{
    let parser = |input: syn::parse::ParseStream| {
        input.parse::<syn::NestedMeta>()?;
        input.parse::<proc_macro2::TokenStream>()
    };
    match syn::parse::Parser::parse_str(parser, text) {
        Ok(rest) => Ok(rest.into_iter().count()),
        Err(e) => Err(e.to_string()),
    }
}

/// How many token trees are left after `syn` parses a `syn::UnOp` from the
/// start of `text`, or the text of its error.
pub uninterp spec fn un_op_rest_of(text: Seq<char>) -> Result<usize, Seq<char>>;

/// Relies on `syn::parse::Parser::parse_str` with `syn::UnOp`'s `Parse`: the
/// trees left after the parsed fragment.
#[verifier::external_body]
pub(crate) fn un_op_rest(text: &str) -> (r: Result<usize, String>)
    requires
        rendered_valid(text@),
    ensures
        match r {
            Ok(n) => un_op_rest_of(text@) == Ok::<usize, Seq<char>>(n),
            Err(m) => un_op_rest_of(text@) == Err::<usize, Seq<char>>(m@),
        },
{
    let parser = |input: syn::parse::ParseStream| {
        input.parse::<syn::UnOp>()?;
        input.parse::<proc_macro2::TokenStream>()
    };
    match syn::parse::Parser::parse_str(parser, text) {
        Ok(rest) => Ok(rest.into_iter().count()),
        Err(e) => Err(e.to_string()),
    }
}

/// How many token trees are left after `syn` parses a `ty` from the start of `text`.
pub open spec fn syn_rest_of(ty: SynType, text: Seq<char>) -> Result<usize, Seq<char>> {
    match ty {
        SynType::Expr => expr_rest_of(text),
        SynType::ExprArray => expr_array_rest_of(text),
        SynType::ExprAssign => expr_assign_rest_of(text),
        SynType::ExprAssignOp => expr_assign_op_rest_of(text),
        SynType::ExprBinary => expr_binary_rest_of(text),
        SynType::ExprCall => expr_call_rest_of(text),
        SynType::ExprCast => expr_cast_rest_of(text),
        SynType::ExprClosure => expr_closure_rest_of(text),
        SynType::ExprField => expr_field_rest_of(text),
        SynType::ExprIndex => expr_index_rest_of(text),
        SynType::ExprLit => expr_lit_rest_of(text),
        SynType::ExprParen => expr_paren_rest_of(text),
        SynType::ExprPath => expr_path_rest_of(text),
        SynType::ExprRange => expr_range_rest_of(text),
        SynType::ExprReference => expr_reference_rest_of(text),
        SynType::ExprTry => expr_try_rest_of(text),
        SynType::ExprTuple => expr_tuple_rest_of(text),
        SynType::ExprType => expr_type_rest_of(text),
        SynType::ExprUnary => expr_unary_rest_of(text),
        SynType::Lit => lit_rest_of(text),
        SynType::LitBool => lit_bool_rest_of(text),
        SynType::LitByte => lit_byte_rest_of(text),
        SynType::LitByteStr => lit_byte_str_rest_of(text),
        SynType::LitChar => lit_char_rest_of(text),
        SynType::Index => index_rest_of(text),
        SynType::Lifetime => lifetime_rest_of(text),
        SynType::Path => path_rest_of(text),
        SynType::Type => type_rest_of(text),
        SynType::TypeArray => type_array_rest_of(text),
        SynType::TypeBareFn => type_bare_fn_rest_of(text),
        SynType::TypeGroup => type_group_rest_of(text),
        SynType::TypeImplTrait => type_impl_trait_rest_of(text),
        SynType::TypeInfer => type_infer_rest_of(text),
        SynType::TypeMacro => type_macro_rest_of(text),
        SynType::TypeNever => type_never_rest_of(text),
        SynType::TypeParam => type_param_rest_of(text),
        SynType::TypeParen => type_paren_rest_of(text),
        SynType::TypePath => type_path_rest_of(text),
        SynType::TypePtr => type_ptr_rest_of(text),
        SynType::TypeReference => type_reference_rest_of(text),
        SynType::TypeSlice => type_slice_rest_of(text),
        SynType::TypeTraitObject => type_trait_object_rest_of(text),
        SynType::TypeTuple => type_tuple_rest_of(text),
        SynType::Visibility => visibility_rest_of(text),
        SynType::BinOp => bin_op_rest_of(text),
        SynType::GenericArgument => generic_argument_rest_of(text),
        SynType::Meta => meta_rest_of(text),
        SynType::MetaList => meta_list_rest_of(text),
        SynType::MetaNameValue => meta_name_value_rest_of(text),
        SynType::NestedMeta => nested_meta_rest_of(text),
        SynType::UnOp => un_op_rest_of(text),
    }
}

/// How many token trees are left after `syn` parses a `ty` from the start of `text`.
pub fn syn_rest(ty: SynType, text: &str) -> (r: Result<usize, String>)
    requires
        rendered_valid(text@),
    ensures
        match r {
            Ok(n) => syn_rest_of(ty, text@) == Ok::<usize, Seq<char>>(n),
            Err(m) => syn_rest_of(ty, text@) == Err::<usize, Seq<char>>(m@),
        },
{
    match ty {
        SynType::Expr => expr_rest(text),
        SynType::ExprArray => expr_array_rest(text),
        SynType::ExprAssign => expr_assign_rest(text),
        SynType::ExprAssignOp => expr_assign_op_rest(text),
        SynType::ExprBinary => expr_binary_rest(text),
        SynType::ExprCall => expr_call_rest(text),
        SynType::ExprCast => expr_cast_rest(text),
        SynType::ExprClosure => expr_closure_rest(text),
        SynType::ExprField => expr_field_rest(text),
        SynType::ExprIndex => expr_index_rest(text),
        SynType::ExprLit => expr_lit_rest(text),
        SynType::ExprParen => expr_paren_rest(text),
        SynType::ExprPath => expr_path_rest(text),
        SynType::ExprRange => expr_range_rest(text),
        SynType::ExprReference => expr_reference_rest(text),
        SynType::ExprTry => expr_try_rest(text),
        SynType::ExprTuple => expr_tuple_rest(text),
        SynType::ExprType => expr_type_rest(text),
        SynType::ExprUnary => expr_unary_rest(text),
        SynType::Lit => lit_rest(text),
        SynType::LitBool => lit_bool_rest(text),
        SynType::LitByte => lit_byte_rest(text),
        SynType::LitByteStr => lit_byte_str_rest(text),
        SynType::LitChar => lit_char_rest(text),
        SynType::Index => index_rest(text),
        SynType::Lifetime => lifetime_rest(text),
        SynType::Path => path_rest(text),
        SynType::Type => type_rest(text),
        SynType::TypeArray => type_array_rest(text),
        SynType::TypeBareFn => type_bare_fn_rest(text),
        SynType::TypeGroup => type_group_rest(text),
        SynType::TypeImplTrait => type_impl_trait_rest(text),
        SynType::TypeInfer => type_infer_rest(text),
        SynType::TypeMacro => type_macro_rest(text),
        SynType::TypeNever => type_never_rest(text),
        SynType::TypeParam => type_param_rest(text),
        SynType::TypeParen => type_paren_rest(text),
        SynType::TypePath => type_path_rest(text),
        SynType::TypePtr => type_ptr_rest(text),
        SynType::TypeReference => type_reference_rest(text),
        SynType::TypeSlice => type_slice_rest(text),
        SynType::TypeTraitObject => type_trait_object_rest(text),
        SynType::TypeTuple => type_tuple_rest(text),
        SynType::Visibility => visibility_rest(text),
        SynType::BinOp => bin_op_rest(text),
        SynType::GenericArgument => generic_argument_rest(text),
        SynType::Meta => meta_rest(text),
        SynType::MetaList => meta_list_rest(text),
        SynType::MetaNameValue => meta_name_value_rest(text),
        SynType::NestedMeta => nested_meta_rest(text),
        SynType::UnOp => un_op_rest(text),
    }
}


/// The syntax-tree type with the name `name`, if it is one an argument can hold.
pub open spec fn syn_type_named(name: Seq<char>) -> Option<SynType> {
    if false {
        None
    } else if name == "Expr"@ {
        Some(SynType::Expr)
    } else if name == "ExprArray"@ {
        Some(SynType::ExprArray)
    } else if name == "ExprAssign"@ {
        Some(SynType::ExprAssign)
    } else if name == "ExprAssignOp"@ {
        Some(SynType::ExprAssignOp)
    } else if name == "ExprBinary"@ {
        Some(SynType::ExprBinary)
    } else if name == "ExprCall"@ {
        Some(SynType::ExprCall)
    } else if name == "ExprCast"@ {
        Some(SynType::ExprCast)
    } else if name == "ExprClosure"@ {
        Some(SynType::ExprClosure)
    } else if name == "ExprField"@ {
        Some(SynType::ExprField)
    } else if name == "ExprIndex"@ {
        Some(SynType::ExprIndex)
    } else if name == "ExprLit"@ {
        Some(SynType::ExprLit)
    } else if name == "ExprParen"@ {
        Some(SynType::ExprParen)
    } else if name == "ExprPath"@ {
        Some(SynType::ExprPath)
    } else if name == "ExprRange"@ {
        Some(SynType::ExprRange)
    } else if name == "ExprReference"@ {
        Some(SynType::ExprReference)
    } else if name == "ExprTry"@ {
        Some(SynType::ExprTry)
    } else if name == "ExprTuple"@ {
        Some(SynType::ExprTuple)
    } else if name == "ExprType"@ {
        Some(SynType::ExprType)
    } else if name == "ExprUnary"@ {
        Some(SynType::ExprUnary)
    } else if name == "Lit"@ {
        Some(SynType::Lit)
    } else if name == "LitBool"@ {
        Some(SynType::LitBool)
    } else if name == "LitByte"@ {
        Some(SynType::LitByte)
    } else if name == "LitByteStr"@ {
        Some(SynType::LitByteStr)
    } else if name == "LitChar"@ {
        Some(SynType::LitChar)
    } else if name == "Index"@ {
        Some(SynType::Index)
    } else if name == "Lifetime"@ {
        Some(SynType::Lifetime)
    } else if name == "Path"@ {
        Some(SynType::Path)
    } else if name == "Type"@ {
        Some(SynType::Type)
    } else if name == "TypeArray"@ {
        Some(SynType::TypeArray)
    } else if name == "TypeBareFn"@ {
        Some(SynType::TypeBareFn)
    } else if name == "TypeGroup"@ {
        Some(SynType::TypeGroup)
    } else if name == "TypeImplTrait"@ {
        Some(SynType::TypeImplTrait)
    } else if name == "TypeInfer"@ {
        Some(SynType::TypeInfer)
    } else if name == "TypeMacro"@ {
        Some(SynType::TypeMacro)
    } else if name == "TypeNever"@ {
        Some(SynType::TypeNever)
    } else if name == "TypeParam"@ {
        Some(SynType::TypeParam)
    } else if name == "TypeParen"@ {
        Some(SynType::TypeParen)
    } else if name == "TypePath"@ {
        Some(SynType::TypePath)
    } else if name == "TypePtr"@ {
        Some(SynType::TypePtr)
    } else if name == "TypeReference"@ {
        Some(SynType::TypeReference)
    } else if name == "TypeSlice"@ {
        Some(SynType::TypeSlice)
    } else if name == "TypeTraitObject"@ {
        Some(SynType::TypeTraitObject)
    } else if name == "TypeTuple"@ {
        Some(SynType::TypeTuple)
    } else if name == "Visibility"@ {
        Some(SynType::Visibility)
    } else if name == "BinOp"@ {
        Some(SynType::BinOp)
    } else if name == "GenericArgument"@ {
        Some(SynType::GenericArgument)
    } else if name == "Meta"@ {
        Some(SynType::Meta)
    } else if name == "MetaList"@ {
        Some(SynType::MetaList)
    } else if name == "MetaNameValue"@ {
        Some(SynType::MetaNameValue)
    } else if name == "NestedMeta"@ {
        Some(SynType::NestedMeta)
    } else if name == "UnOp"@ {
        Some(SynType::UnOp)
    } else {
        None
    }
}

fn same(name: &str, lit: &str) -> (r: bool)
    ensures
        r == (name@ == lit@),
{
    String::from_str(name) == String::from_str(lit)
}

impl SynType {
    /// The syntax-tree type with the name `name`, if it is one an argument can hold.
    pub fn from_name(name: &str) -> (r: Option<SynType>)
        ensures
            r == syn_type_named(name@),
    {
    if same(name, "Expr") {
        return Some(SynType::Expr);
    }
    if same(name, "ExprArray") {
        return Some(SynType::ExprArray);
    }
    if same(name, "ExprAssign") {
        return Some(SynType::ExprAssign);
    }
    if same(name, "ExprAssignOp") {
        return Some(SynType::ExprAssignOp);
    }
    if same(name, "ExprBinary") {
        return Some(SynType::ExprBinary);
    }
    if same(name, "ExprCall") {
        return Some(SynType::ExprCall);
    }
    if same(name, "ExprCast") {
        return Some(SynType::ExprCast);
    }
    if same(name, "ExprClosure") {
        return Some(SynType::ExprClosure);
    }
    if same(name, "ExprField") {
        return Some(SynType::ExprField);
    }
    if same(name, "ExprIndex") {
        return Some(SynType::ExprIndex);
    }
    if same(name, "ExprLit") {
        return Some(SynType::ExprLit);
    }
    if same(name, "ExprParen") {
        return Some(SynType::ExprParen);
    }
    if same(name, "ExprPath") {
        return Some(SynType::ExprPath);
    }
    if same(name, "ExprRange") {
        return Some(SynType::ExprRange);
    }
    if same(name, "ExprReference") {
        return Some(SynType::ExprReference);
    }
    if same(name, "ExprTry") {
        return Some(SynType::ExprTry);
    }
    if same(name, "ExprTuple") {
        return Some(SynType::ExprTuple);
    }
    if same(name, "ExprType") {
        return Some(SynType::ExprType);
    }
    if same(name, "ExprUnary") {
        return Some(SynType::ExprUnary);
    }
    if same(name, "Lit") {
        return Some(SynType::Lit);
    }
    if same(name, "LitBool") {
        return Some(SynType::LitBool);
    }
    if same(name, "LitByte") {
        return Some(SynType::LitByte);
    }
    if same(name, "LitByteStr") {
        return Some(SynType::LitByteStr);
    }
    if same(name, "LitChar") {
        return Some(SynType::LitChar);
    }
    if same(name, "Index") {
        return Some(SynType::Index);
    }
    if same(name, "Lifetime") {
        return Some(SynType::Lifetime);
    }
    if same(name, "Path") {
        return Some(SynType::Path);
    }
    if same(name, "Type") {
        return Some(SynType::Type);
    }
    if same(name, "TypeArray") {
        return Some(SynType::TypeArray);
    }
    if same(name, "TypeBareFn") {
        return Some(SynType::TypeBareFn);
    }
    if same(name, "TypeGroup") {
        return Some(SynType::TypeGroup);
    }
    if same(name, "TypeImplTrait") {
        return Some(SynType::TypeImplTrait);
    }
    if same(name, "TypeInfer") {
        return Some(SynType::TypeInfer);
    }
    if same(name, "TypeMacro") {
        return Some(SynType::TypeMacro);
    }
    if same(name, "TypeNever") {
        return Some(SynType::TypeNever);
    }
    if same(name, "TypeParam") {
        return Some(SynType::TypeParam);
    }
    if same(name, "TypeParen") {
        return Some(SynType::TypeParen);
    }
    if same(name, "TypePath") {
        return Some(SynType::TypePath);
    }
    if same(name, "TypePtr") {
        return Some(SynType::TypePtr);
    }
    if same(name, "TypeReference") {
        return Some(SynType::TypeReference);
    }
    if same(name, "TypeSlice") {
        return Some(SynType::TypeSlice);
    }
    if same(name, "TypeTraitObject") {
        return Some(SynType::TypeTraitObject);
    }
    if same(name, "TypeTuple") {
        return Some(SynType::TypeTuple);
    }
    if same(name, "Visibility") {
        return Some(SynType::Visibility);
    }
    if same(name, "BinOp") {
        return Some(SynType::BinOp);
    }
    if same(name, "GenericArgument") {
        return Some(SynType::GenericArgument);
    }
    if same(name, "Meta") {
        return Some(SynType::Meta);
    }
    if same(name, "MetaList") {
        return Some(SynType::MetaList);
    }
    if same(name, "MetaNameValue") {
        return Some(SynType::MetaNameValue);
    }
    if same(name, "NestedMeta") {
        return Some(SynType::NestedMeta);
    }
    if same(name, "UnOp") {
        return Some(SynType::UnOp);
    }
        None
    }
}

} // verus!
