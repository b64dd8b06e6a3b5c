//! Diagnostics: one or more messages, each anchored to a span.
use crate::span::Span;
use vstd::prelude::*;

verus! {

/// One message of a diagnostic.
#[derive(Debug)]
pub struct Message {
    /// Which of the annotations handed to a lookup the span lies in.
    pub origin: usize,
    pub span: Span,
    pub text: String,
}

/// A diagnostic made of one or more messages; two diagnostics combine into one
/// that keeps the messages of both, in order.
#[derive(Debug)]
pub struct Diagnostic {
    pub messages: Vec<Message>,
}

impl Diagnostic {
    /// The text of the first message, the one a compiler shows as the error.
    pub open spec fn text(&self) -> Seq<char> {
        self.messages@[0].text@
    }

    pub open spec fn wf(&self) -> bool {
        self.messages@.len() > 0
    }

    pub fn new(span: Span, text: String) -> (r: Diagnostic)
        ensures
            r.messages@ == seq![Message { origin: 0, span, text }],
            r.wf(),
            r.text() == text@,
    {
        let mut messages: Vec<Message> = Vec::new();
        messages.push(Message { origin: 0, span, text });
        Diagnostic { messages }
    }

    /// Appends the messages of `other`.
    pub fn combine(&mut self, other: Diagnostic)
        ensures
            final(self).messages@ == old(self).messages@ + other.messages@,
    {
        let mut other = other;
        self.messages.append(&mut other.messages);
    }

    /// The text of the first message.
    pub fn to_text(&self) -> (r: String)
        requires
            self.wf(),
        ensures
            r@ == self.text(),
    {
        self.messages[0].text.clone()
    }
}

} // verus!
