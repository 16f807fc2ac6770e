//! A clipboard held in memory: what the editor reads and writes when no
//! system clipboard stands behind it.

use vstd::prelude::*;

verus! {

/// Why a clipboard read or write failed.
#[derive(Debug, Clone, Copy, PartialEq, Eq)]
pub enum ClipboardError {
    /// Nothing has been written yet.
    Empty,
}

/// A clipboard that keeps the last text written to it.
pub struct MemoryClipboard {
    contents: Option<String>,
}

impl View for MemoryClipboard {
    type V = Option<Seq<char>>;

    closed spec fn view(&self) -> Option<Seq<char>> {
        match self.contents {
            Some(s) => Some(s@),
            None => None,
        }
    }
}

impl MemoryClipboard {
    /// An empty clipboard.
    pub fn new() -> (r: MemoryClipboard)
        ensures
            r@ == None::<Seq<char>>,
    {
        MemoryClipboard { contents: None }
    }

    /// Replaces the contents with `text`.
    pub fn write(&mut self, text: &str) -> (r: Result<(), ClipboardError>)
        ensures
            r is Ok,
            final(self)@ == Some(text@),
    {
        self.contents = Some(text.to_owned());
        Ok(())
    }

    /// The contents, or `Empty` when nothing has been written.
    pub fn read(&self) -> (r: Result<String, ClipboardError>)
        ensures
            read_view(self@) == match r {
                Ok(s) => Ok::<Seq<char>, ClipboardError>(s@),
                Err(e) => Err(e),
            },
    {
        match &self.contents {
            Some(s) => Ok(s.clone()),
            None => Err(ClipboardError::Empty),
        }
    }
}

/// What a read of a clipboard holding `v` returns.
pub open spec fn read_view(v: Option<Seq<char>>) -> Result<Seq<char>, ClipboardError> {
    match v {
        Some(t) => Ok(t),
        None => Err(ClipboardError::Empty),
    }
}

/// Reading the clipboard right after writing `text` to it, whatever it held
/// before, gives `text` back: `write` leaves `Some(text)`, and a read of that
/// is `Ok(text)`.
pub proof fn law_read_after_write(text: Seq<char>)
    ensures
        read_view(Some(text)) == Ok::<Seq<char>, ClipboardError>(text),
{
}

} // verus!
