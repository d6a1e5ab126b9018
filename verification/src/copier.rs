//! What is copied to the clipboard, and the places it can be copied to.

use vstd::prelude::*;
use crate::error::FiniError;
use crate::text::push_str;

verus! {

/// Plain text to copy.
pub struct TextPayload(pub String);

/// HTML to copy, with the plain text to use where HTML is not taken.
pub struct HtmlPayload {
    pub html: String,
    pub alt: String,
}

impl TextPayload {
    /// The text, as the payload shows it.
    pub fn to_string(&self) -> (r: String)
        ensures
            r@ == self.0@,
    {
        self.0.clone()
    }
}

impl HtmlPayload {
    /// The alternative text, as the payload shows it.
    pub fn to_string(&self) -> (r: String)
        ensures
            r@ == self.alt@,
    {
        self.alt.clone()
    }
}

/// What is copied: plain text, or HTML with an alternative text.
pub enum CopyPayload {
    Text(TextPayload),
    Html(HtmlPayload),
}

/// A payload as a mathematical value.
pub enum PayloadView {
    Text(Seq<char>),
    Html(Seq<char>, Seq<char>),
}

impl View for CopyPayload {
    type V = PayloadView;

    open spec fn view(&self) -> PayloadView {
        match self {
            CopyPayload::Text(t) => PayloadView::Text(t.0@),
            CopyPayload::Html(h) => PayloadView::Html(h.html@, h.alt@),
        }
    }
}

/// Content that several tasks give, one after the other.
pub trait CopyContent: Sized {
    /// This content followed by the other.
    fn combine(self, other: Self) -> Self;

    /// The payload that copies this content.
    fn into_payload(self) -> CopyPayload;
}

impl CopyContent for TextPayload {
    /// The two texts on two lines.
    fn combine(self, other: Self) -> (r: Self)
        ensures
            r.0@ == self.0@ + seq!['\n'] + other.0@,
    {
        let mut s = self.0;
        push_str(&mut s, "\n");
        push_str(&mut s, other.0.as_str());
        proof {
            reveal_strlit("\n");
        }
        TextPayload(s)
    }

    fn into_payload(self) -> (r: CopyPayload)
        ensures
            r@ == PayloadView::Text(self.0@),
    {
        CopyPayload::Text(self)
    }
}

impl CopyContent for HtmlPayload {
    /// The two HTML texts with a `<br>` between them, and the two alternative texts
    /// on two lines.
    fn combine(self, other: Self) -> (r: Self)
        ensures
            r.html@ == self.html@ + seq!['<', 'b', 'r', '>'] + other.html@,
            r.alt@ == self.alt@ + seq!['\n'] + other.alt@,
    {
        let mut html = self.html;
        push_str(&mut html, "<br>");
        push_str(&mut html, other.html.as_str());
        let mut alt = self.alt;
        push_str(&mut alt, "\n");
        push_str(&mut alt, other.alt.as_str());
        proof {
            reveal_strlit("<br>");
            reveal_strlit("\n");
        }
        HtmlPayload { html, alt }
    }

    fn into_payload(self) -> (r: CopyPayload)
        ensures
            r@ == PayloadView::Html(self.html@, self.alt@),
    {
        CopyPayload::Html(self)
    }
}

/// A place that payloads are copied to.
pub trait Copier {
    /// The place holds the payload: what a copy of it leaves there (a copier
    /// outside this crate need not give it; what is proved of its use then holds of
    /// whatever it keeps to).
    closed spec fn holds(&self, p: PayloadView) -> bool {
        arbitrary()
    }

    /// Copying to the place does not fail (and leaves it so).
    closed spec fn dependable(&self) -> bool {
        arbitrary()
    }

    /// Copies the payload; once it has succeeded, the place holds it.
    fn copy(&mut self, payload: &CopyPayload) -> (r: Result<(), FiniError>)
        ensures
            r is Ok ==> final(self).holds(payload@),
            r matches Err(e) ==> e is Clipboard,
            old(self).dependable() ==> r is Ok && final(self).dependable(),
    ;
}

/// A copier that keeps what it was given, for tests: the last plain text, and the
/// last HTML with its alternative text.
pub struct MockCopier {
    pub text: String,
    pub html: String,
    pub alt: String,
}

impl MockCopier {
    pub fn new() -> (r: Self)
        ensures
            r.text@ == Seq::<char>::empty(),
            r.html@ == Seq::<char>::empty(),
            r.alt@ == Seq::<char>::empty(),
    {
        MockCopier { text: String::new(), html: String::new(), alt: String::new() }
    }
}

impl Default for MockCopier {
    /// A copier that holds nothing yet.
    fn default() -> (r: Self)
        ensures
            r.text@ == Seq::<char>::empty(),
            r.html@ == Seq::<char>::empty(),
            r.alt@ == Seq::<char>::empty(),
    {
        Self::new()
    }
}

impl Copier for MockCopier {
    open spec fn dependable(&self) -> bool {
        true
    }

    open spec fn holds(&self, p: PayloadView) -> bool {
        match p {
            PayloadView::Text(t) => self.text@ == t,
            PayloadView::Html(h, a) => self.html@ == h && self.alt@ == a,
        }
    }

    /// Keeps the text, or the HTML and its alternative text; the other fields stay.
    fn copy(&mut self, payload: &CopyPayload) -> (r: Result<(), FiniError>)
        ensures
            r is Ok,
            (match payload@ {
                PayloadView::Text(t) => final(self).text@ == t && final(self).html@ == old(self).html@
                    && final(self).alt@ == old(self).alt@,
                PayloadView::Html(h, a) => final(self).html@ == h && final(self).alt@ == a
                    && final(self).text@ == old(self).text@,
            }),
    {
        match payload {
            CopyPayload::Text(t) => {
                self.text = t.0.clone();
            },
            CopyPayload::Html(h) => {
                self.html = h.html.clone();
                self.alt = h.alt.clone();
            },
        }
        Ok(())
    }
}

} // verus!
