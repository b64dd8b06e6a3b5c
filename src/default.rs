//! The default-value protocol: a value found while parsing, a defaulted value,
//! or no value at all.
use crate::diagnostic::Message;
use crate::kind::{Kind, Value, ValueView};
use crate::record::{kind_default, kind_default_exec};
use crate::span::Span;
use vstd::prelude::*;

verus! {

/// The outcome of a default lookup.
#[derive(Debug)]
pub enum BaeDefaultedValue<T> {
    /// A value found while parsing.
    Present(T),
    /// No value was found; a producer supplied this one.
    Default(T),
    /// No value and no producer.
    NoDefault,
}

impl<T> BaeDefaultedValue<T> {
    /// The value, where there is one; else the error `msg` at `span`.
    pub fn ok_or_syn_error(self, span: Span, msg: String) -> (r: Result<T, Message>)
        ensures
            match self {
                BaeDefaultedValue::Present(v) => r == Ok::<T, Message>(v),
                BaeDefaultedValue::Default(v) => r == Ok::<T, Message>(v),
                BaeDefaultedValue::NoDefault => r matches Err(e) && e.span == span && e.text == msg,
            },
    {
        match self {
            BaeDefaultedValue::Present(v) => Ok(v),
            BaeDefaultedValue::Default(v) => Ok(v),
            BaeDefaultedValue::NoDefault => Err(Message { origin: 0, span, text: msg }),
        }
    }
}

/// Whether a kind supplies a default value, and which.
pub trait BaeDefault: Sized {
    /// The default, in mathematical form.
    spec fn spec_default(&self) -> Option<ValueView>;

    /// `Default` with the kind's default where it has one, else `NoDefault`.
    fn bae_default(&self) -> (r: BaeDefaultedValue<Value>)
        ensures
            match self.spec_default() {
                Some(d) => r matches BaeDefaultedValue::Default(v) && v.view() == d,
                None => r is NoDefault,
            };
}

impl BaeDefault for Kind {
    open spec fn spec_default(&self) -> Option<ValueView> {
        kind_default(*self)
    }

    fn bae_default(&self) -> (r: BaeDefaultedValue<Value>) {
        match kind_default_exec(self) {
            Some(v) => BaeDefaultedValue::Default(v),
            None => BaeDefaultedValue::NoDefault,
        }
    }
}

} // verus!
