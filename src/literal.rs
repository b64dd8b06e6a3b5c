//! The literal and identifier primitives of the syntax-tree library, and the
//! case conversion that derives an annotation name from a record name.
use vstd::prelude::*;

verus! {

/// What `heck` makes of a text in lowercase-with-underscores form.
pub uninterp spec fn snake_case_of(s: Seq<char>) -> Seq<char>;

/// The value of a string literal written as `text`, or `None` where `text` is
/// not one string literal.
pub uninterp spec fn str_lit_value_of(text: Seq<char>) -> Option<Seq<char>>;

/// Whether `text` is one integer literal.
pub uninterp spec fn is_int_lit_text(text: Seq<char>) -> bool;

/// Whether `text` is one floating-point literal.
pub uninterp spec fn is_float_lit_text(text: Seq<char>) -> bool;

/// Whether `text` starts with a character that `syn::Lit::new` recognises as
/// the start of a literal (a quote, `r`, `b`, a digit or `-`). `Lit::new`
/// panics on a literal that starts otherwise, such as a C string `c"x"`.
pub open spec fn lit_text_supported(text: Seq<char>) -> bool {
    text.len() > 0 && {
        let c = text[0];
        c == '"' || c == 'r' || c == 'b' || c == '\'' || c == '-' || ('0' <= c && c <= '9')
    }
}

/// Whether `text` starts as `lit_text_supported` asks.
pub fn lit_text_ok(text: &str) -> (r: bool)
    ensures
        r == lit_text_supported(text@),
{
    if text.unicode_len() == 0 {
        return false;
    }
    let c = text.get_char(0);
    c == '"' || c == 'r' || c == 'b' || c == '\'' || c == '-' || ('0' <= c && c <= '9')
}

/// Relies on `heck::ToSnakeCase::to_snake_case` for `str`: the conversion
/// depends on the text alone.
#[verifier::external_body]
pub(crate) fn snake_case(s: &str) -> (r: String)
    ensures
        r@ == snake_case_of(s@),
{
    heck::ToSnakeCase::to_snake_case(s)
}

/// Relies on `syn::parse_str::<syn::LitStr>` and `syn::LitStr::value`: the
/// text is parsed as one string literal and its escapes are resolved.
#[verifier::external_body]
pub(crate) fn str_lit_value(text: &str) -> (r: Option<String>)
    requires
        lit_text_supported(text@),
    ensures
        match r {
            Some(v) => str_lit_value_of(text@) == Some(v@),
            None => str_lit_value_of(text@) is None,
        },
{
    match syn::parse_str::<syn::LitStr>(text) {
        Ok(lit) => Some(lit.value()),
        Err(_) => None,
    }
}

/// Relies on `syn::parse_str::<syn::LitInt>`: whether the text is one integer literal.
#[verifier::external_body]
pub(crate) fn is_int_lit(text: &str) -> (r: bool)
    requires
        lit_text_supported(text@),
    ensures
        r == is_int_lit_text(text@),
{
    syn::parse_str::<syn::LitInt>(text).is_ok()
}

/// Relies on `syn::parse_str::<syn::LitFloat>`: whether the text is one
/// floating-point literal.
#[verifier::external_body]
pub(crate) fn is_float_lit(text: &str) -> (r: bool)
    requires
        lit_text_supported(text@),
    ensures
        r == is_float_lit_text(text@),
{
    syn::parse_str::<syn::LitFloat>(text).is_ok()
}

/// What `syn::LitInt::base10_parse::<u8>` gives for the integer literal
/// `text`: the value, or the text of the error.
pub uninterp spec fn u8_lit_of(text: Seq<char>) -> Result<u8, Seq<char>>;

/// Relies on `syn::parse_str::<syn::LitInt>` and `syn::LitInt::base10_parse::<u8>`.
#[verifier::external_body]
pub(crate) fn u8_lit(text: &str) -> (r: Result<u8, String>)
    requires
        lit_text_supported(text@),
    ensures
        match r {
            Ok(v) => u8_lit_of(text@) == Ok::<u8, Seq<char>>(v),
            Err(m) => u8_lit_of(text@) == Err::<u8, Seq<char>>(m@),
        },
{
    match syn::parse_str::<syn::LitInt>(text) {
        Ok(lit) => lit.base10_parse::<u8>().map_err(|e| e.to_string()),
        Err(e) => Err(e.to_string()),
    }
}

/// What `syn::LitInt::base10_parse::<u16>` gives for the integer literal
/// `text`: the value, or the text of the error.
pub uninterp spec fn u16_lit_of(text: Seq<char>) -> Result<u16, Seq<char>>;

/// Relies on `syn::parse_str::<syn::LitInt>` and `syn::LitInt::base10_parse::<u16>`.
#[verifier::external_body]
pub(crate) fn u16_lit(text: &str) -> (r: Result<u16, String>)
    requires
        lit_text_supported(text@),
    ensures
        match r {
            Ok(v) => u16_lit_of(text@) == Ok::<u16, Seq<char>>(v),
            Err(m) => u16_lit_of(text@) == Err::<u16, Seq<char>>(m@),
        },
{
    match syn::parse_str::<syn::LitInt>(text) {
        Ok(lit) => lit.base10_parse::<u16>().map_err(|e| e.to_string()),
        Err(e) => Err(e.to_string()),
    }
}

/// What `syn::LitInt::base10_parse::<u32>` gives for the integer literal
/// `text`: the value, or the text of the error.
pub uninterp spec fn u32_lit_of(text: Seq<char>) -> Result<u32, Seq<char>>;

/// Relies on `syn::parse_str::<syn::LitInt>` and `syn::LitInt::base10_parse::<u32>`.
#[verifier::external_body]
pub(crate) fn u32_lit(text: &str) -> (r: Result<u32, String>)
    requires
        lit_text_supported(text@),
    ensures
        match r {
            Ok(v) => u32_lit_of(text@) == Ok::<u32, Seq<char>>(v),
            Err(m) => u32_lit_of(text@) == Err::<u32, Seq<char>>(m@),
        },
{
    match syn::parse_str::<syn::LitInt>(text) {
        Ok(lit) => lit.base10_parse::<u32>().map_err(|e| e.to_string()),
        Err(e) => Err(e.to_string()),
    }
}

/// What `syn::LitInt::base10_parse::<u64>` gives for the integer literal
/// `text`: the value, or the text of the error.
pub uninterp spec fn u64_lit_of(text: Seq<char>) -> Result<u64, Seq<char>>;

/// Relies on `syn::parse_str::<syn::LitInt>` and `syn::LitInt::base10_parse::<u64>`.
#[verifier::external_body]
pub(crate) fn u64_lit(text: &str) -> (r: Result<u64, String>)
    requires
        lit_text_supported(text@),
    ensures
        match r {
            Ok(v) => u64_lit_of(text@) == Ok::<u64, Seq<char>>(v),
            Err(m) => u64_lit_of(text@) == Err::<u64, Seq<char>>(m@),
        },
{
    match syn::parse_str::<syn::LitInt>(text) {
        Ok(lit) => lit.base10_parse::<u64>().map_err(|e| e.to_string()),
        Err(e) => Err(e.to_string()),
    }
}

/// What `syn::LitInt::base10_parse::<u128>` gives for the integer literal
/// `text`: the value, or the text of the error.
pub uninterp spec fn u128_lit_of(text: Seq<char>) -> Result<u128, Seq<char>>;

/// Relies on `syn::parse_str::<syn::LitInt>` and `syn::LitInt::base10_parse::<u128>`.
#[verifier::external_body]
pub(crate) fn u128_lit(text: &str) -> (r: Result<u128, String>)
    requires
        lit_text_supported(text@),
    ensures
        match r {
            Ok(v) => u128_lit_of(text@) == Ok::<u128, Seq<char>>(v),
            Err(m) => u128_lit_of(text@) == Err::<u128, Seq<char>>(m@),
        },
{
    match syn::parse_str::<syn::LitInt>(text) {
        Ok(lit) => lit.base10_parse::<u128>().map_err(|e| e.to_string()),
        Err(e) => Err(e.to_string()),
    }
}

/// What `syn::LitInt::base10_parse::<usize>` gives for the integer literal
/// `text`: the value, or the text of the error.
pub uninterp spec fn usize_lit_of(text: Seq<char>) -> Result<usize, Seq<char>>;

/// Relies on `syn::parse_str::<syn::LitInt>` and `syn::LitInt::base10_parse::<usize>`.
#[verifier::external_body]
pub(crate) fn usize_lit(text: &str) -> (r: Result<usize, String>)
    requires
        lit_text_supported(text@),
    ensures
        match r {
            Ok(v) => usize_lit_of(text@) == Ok::<usize, Seq<char>>(v),
            Err(m) => usize_lit_of(text@) == Err::<usize, Seq<char>>(m@),
        },
{
    match syn::parse_str::<syn::LitInt>(text) {
        Ok(lit) => lit.base10_parse::<usize>().map_err(|e| e.to_string()),
        Err(e) => Err(e.to_string()),
    }
}

/// What `syn::LitInt::base10_parse::<i8>` gives for the integer literal
/// `text`: the value, or the text of the error.
pub uninterp spec fn i8_lit_of(text: Seq<char>) -> Result<i8, Seq<char>>;

/// Relies on `syn::parse_str::<syn::LitInt>` and `syn::LitInt::base10_parse::<i8>`.
#[verifier::external_body]
pub(crate) fn i8_lit(text: &str) -> (r: Result<i8, String>)
    requires
        lit_text_supported(text@),
    ensures
        match r {
            Ok(v) => i8_lit_of(text@) == Ok::<i8, Seq<char>>(v),
            Err(m) => i8_lit_of(text@) == Err::<i8, Seq<char>>(m@),
        },
{
    match syn::parse_str::<syn::LitInt>(text) {
        Ok(lit) => lit.base10_parse::<i8>().map_err(|e| e.to_string()),
        Err(e) => Err(e.to_string()),
    }
}

/// What `syn::LitInt::base10_parse::<i16>` gives for the integer literal
/// `text`: the value, or the text of the error.
pub uninterp spec fn i16_lit_of(text: Seq<char>) -> Result<i16, Seq<char>>;

/// Relies on `syn::parse_str::<syn::LitInt>` and `syn::LitInt::base10_parse::<i16>`.
#[verifier::external_body]
pub(crate) fn i16_lit(text: &str) -> (r: Result<i16, String>)
    requires
        lit_text_supported(text@),
    ensures
        match r {
            Ok(v) => i16_lit_of(text@) == Ok::<i16, Seq<char>>(v),
            Err(m) => i16_lit_of(text@) == Err::<i16, Seq<char>>(m@),
        },
{
    match syn::parse_str::<syn::LitInt>(text) {
        Ok(lit) => lit.base10_parse::<i16>().map_err(|e| e.to_string()),
        Err(e) => Err(e.to_string()),
    }
}

/// What `syn::LitInt::base10_parse::<i32>` gives for the integer literal
/// `text`: the value, or the text of the error.
pub uninterp spec fn i32_lit_of(text: Seq<char>) -> Result<i32, Seq<char>>;

/// Relies on `syn::parse_str::<syn::LitInt>` and `syn::LitInt::base10_parse::<i32>`.
#[verifier::external_body]
pub(crate) fn i32_lit(text: &str) -> (r: Result<i32, String>)
    requires
        lit_text_supported(text@),
    ensures
        match r {
            Ok(v) => i32_lit_of(text@) == Ok::<i32, Seq<char>>(v),
            Err(m) => i32_lit_of(text@) == Err::<i32, Seq<char>>(m@),
        },
{
    match syn::parse_str::<syn::LitInt>(text) {
        Ok(lit) => lit.base10_parse::<i32>().map_err(|e| e.to_string()),
        Err(e) => Err(e.to_string()),
    }
}

/// What `syn::LitInt::base10_parse::<i64>` gives for the integer literal
/// `text`: the value, or the text of the error.
pub uninterp spec fn i64_lit_of(text: Seq<char>) -> Result<i64, Seq<char>>;

/// Relies on `syn::parse_str::<syn::LitInt>` and `syn::LitInt::base10_parse::<i64>`.
#[verifier::external_body]
pub(crate) fn i64_lit(text: &str) -> (r: Result<i64, String>)
    requires
        lit_text_supported(text@),
    ensures
        match r {
            Ok(v) => i64_lit_of(text@) == Ok::<i64, Seq<char>>(v),
            Err(m) => i64_lit_of(text@) == Err::<i64, Seq<char>>(m@),
        },
{
    match syn::parse_str::<syn::LitInt>(text) {
        Ok(lit) => lit.base10_parse::<i64>().map_err(|e| e.to_string()),
        Err(e) => Err(e.to_string()),
    }
}

/// What `syn::LitInt::base10_parse::<i128>` gives for the integer literal
/// `text`: the value, or the text of the error.
pub uninterp spec fn i128_lit_of(text: Seq<char>) -> Result<i128, Seq<char>>;

/// Relies on `syn::parse_str::<syn::LitInt>` and `syn::LitInt::base10_parse::<i128>`.
#[verifier::external_body]
pub(crate) fn i128_lit(text: &str) -> (r: Result<i128, String>)
    requires
        lit_text_supported(text@),
    ensures
        match r {
            Ok(v) => i128_lit_of(text@) == Ok::<i128, Seq<char>>(v),
            Err(m) => i128_lit_of(text@) == Err::<i128, Seq<char>>(m@),
        },
{
    match syn::parse_str::<syn::LitInt>(text) {
        Ok(lit) => lit.base10_parse::<i128>().map_err(|e| e.to_string()),
        Err(e) => Err(e.to_string()),
    }
}

/// What `syn::LitInt::base10_parse::<isize>` gives for the integer literal
/// `text`: the value, or the text of the error.
pub uninterp spec fn isize_lit_of(text: Seq<char>) -> Result<isize, Seq<char>>;

/// Relies on `syn::parse_str::<syn::LitInt>` and `syn::LitInt::base10_parse::<isize>`.
#[verifier::external_body]
pub(crate) fn isize_lit(text: &str) -> (r: Result<isize, String>)
    requires
        lit_text_supported(text@),
    ensures
        match r {
            Ok(v) => isize_lit_of(text@) == Ok::<isize, Seq<char>>(v),
            Err(m) => isize_lit_of(text@) == Err::<isize, Seq<char>>(m@),
        },
{
    match syn::parse_str::<syn::LitInt>(text) {
        Ok(lit) => lit.base10_parse::<isize>().map_err(|e| e.to_string()),
        Err(e) => Err(e.to_string()),
    }
}

} // verus!
