//! The editing session: one text buffer, replaced wholesale by pastes, dropped
//! files and transforms, and read wholesale by copies. Reading the clipboard or
//! a file is left to the caller, who hands over what it got.

use crate::sarcasm::{sarcasm, sarcastic};
use crate::segments::{spans_valid, transformed};
use crate::urls::{url_spans_of, UrlMatcher};
use vstd::prelude::*;
use vstd::utf8::encode_utf8;

verus! {

/// The editor's state: the text being edited.
pub struct Session {
    text: String,
}

impl View for Session {
    type V = Seq<char>;

    closed spec fn view(&self) -> Seq<char> {
        self.text@
    }
}

impl Session {
    /// A session with an empty buffer.
    pub fn new() -> (r: Session)
        ensures
            r@ == Seq::<char>::empty(),
    {
        Session { text: String::new() }
    }

    /// The text being edited.
    pub fn text(&self) -> (r: &str)
        ensures
            r@ == self@,
    {
        self.text.as_str()
    }

    /// Replaces the buffer with an edit made by the user.
    pub fn set_text(&mut self, text: String)
        ensures
            final(self)@ == text@,
    {
        self.text = text;
    }

    /// The text to put on the clipboard.
    pub fn copy(&self) -> (r: String)
        ensures
            r@ == self@,
    {
        self.text.clone()
    }

    /// Takes what a clipboard read returned: its text replaces the buffer, and
    /// a failed read leaves the buffer as it was.
    pub fn paste(&mut self, got: Option<String>)
        ensures
            match got {
                Some(t) => final(self)@ == t@,
                None => final(self)@ == old(self)@,
            },
    {
        if let Some(t) = got {
            self.text = t;
        }
    }

    /// Takes what reading a dropped file returned: its text replaces the
    /// buffer, and a failed read leaves the buffer as it was.
    pub fn load_file(&mut self, contents: Option<String>)
        ensures
            match contents {
                Some(t) => final(self)@ == t@,
                None => final(self)@ == old(self)@,
            },
    {
        self.paste(contents);
    }

    /// Replaces the buffer with its uwu form, URLs kept as they are.
    pub fn uwuify(&mut self, matcher: &UrlMatcher)
        ensures
            final(self)@ == transformed(encode_utf8(old(self)@), url_spans_of(old(self)@)),
            spans_valid(encode_utf8(old(self)@), url_spans_of(old(self)@)),
            old(self)@.len() == 0 ==> final(self)@.len() == 0,
    {
        let r = matcher.uwuify(self.text.as_str());
        self.text = r;
    }

    /// Replaces the buffer with its sarcasm form.
    pub fn sarcasm(&mut self)
        ensures
            exists|flips: Seq<bool>|
                flips.len() == old(self)@.len() && final(self)@ == sarcastic(old(self)@, flips),
    {
        let ghost before = self@;
        let r = sarcasm(self.text.as_str());
        let ghost flips = choose|f: Seq<bool>| f.len() == before.len() && r@ == sarcastic(before, f);
        self.text = r;
        assert(flips.len() == before.len() && self@ == sarcastic(before, flips));
    }
}

} // verus!
