//! Redaction: a display adapter that, under a safety flag, renders a
//! fixed placeholder instead of a value's real contents, so message
//! bodies never leak into log output.

use vstd::prelude::*;

verus! {

/// What redacted content renders as.
pub open spec fn spec_placeholder() -> Seq<char> {
    "[CENSORED]"@
}

/// How a piece of content is logged: the placeholder when the safety
/// flag is on, the content itself otherwise. The flag affects
/// observability only, never relay behaviour.
pub open spec fn rendered(content: Seq<char>, safe: bool) -> Seq<char> {
    if safe {
        spec_placeholder()
    } else {
        content
    }
}

/// The placeholder that stands in for message content in logs when the
/// safety flag is enabled.
pub fn placeholder_text() -> (r: &'static str)
    ensures
        r@ == spec_placeholder(),
{
    "[CENSORED]"
}

/// A value whose contents must not reach the logs unredacted.
pub struct Sensitive<T> {
    value: T,
}

impl<T> Sensitive<T> {
    pub closed spec fn spec_value(self) -> T {
        self.value
    }

    pub fn new(value: T) -> (r: Sensitive<T>)
        ensures
            r.spec_value() == value,
    {
        Sensitive { value }
    }
}

impl Sensitive<String> {
    /// Renders the value for a log line: the placeholder under the
    /// safety flag, the literal contents otherwise.
    pub fn render(&self, safe: bool) -> (r: String)
        ensures
            r@ == rendered(self.spec_value()@, safe),
    {
        if safe {
            String::from_str(placeholder_text())
        } else {
            self.value.clone()
        }
    }
}

} // verus!
