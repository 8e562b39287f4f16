//! The local clipboard, as far as the overlay is concerned: which text the
//! platform's clipboard was last known to hold, so that a change can be told
//! from what is already known.
//!
//! Talking to the platform is the caller's part. The caller hands in the
//! bytes that it has loaded, and stores a text when told to.

use vstd::prelude::*;
use vstd::utf8::{decode_utf8, encode_utf8, valid_utf8};

verus! {

/// Why the contents of the platform's clipboard could not be taken.
#[derive(Debug, PartialEq, Eq, Clone, Copy, Structural)]
pub enum ClipboardReadError {
    /// The bytes loaded are not UTF-8.
    NotUtf8,
}

/// Turns bytes into a string, if they are UTF-8.
///
/// Calls `String::from_utf8`, which fails exactly when the bytes are not
/// valid UTF-8, and otherwise returns the string that the bytes encode.
#[verifier::external_body]
fn string_from_utf8(bytes: Vec<u8>) -> (r: Option<String>)
    ensures
        r is Some <==> valid_utf8(bytes@),
        r is Some ==> encode_utf8(r->Some_0@) == bytes@,
{
    String::from_utf8(bytes).ok()
}

/// The node's knowledge of the local clipboard.
#[derive(Debug)]
pub struct Clipboard {
    last_content: String,
}

impl View for Clipboard {
    type V = Seq<char>;

    /// The text that the platform's clipboard was last known to hold.
    closed spec fn view(&self) -> Seq<char> {
        self.last_content@
    }
}

impl Clipboard {
    /// Starts out with the platform's clipboard taken to be empty.
    pub fn init() -> (clipboard: Clipboard)
        ensures
            clipboard@ == Seq::<char>::empty(),
    {
        Clipboard { last_content: String::new() }
    }

    /// Notes that `data` is to be the contents of the platform's clipboard,
    /// and tells whether it has to be stored there: storing what the
    /// clipboard is known to hold already would be a no-op.
    pub fn set_contents(&mut self, data: String) -> (store: bool)
        ensures
            final(self)@ == data@,
            store == (old(self)@ != data@),
    {
        if self.last_content == data {
            return false;
        }
        self.last_content = data;
        true
    }

    /// Takes the bytes that were loaded from the platform's clipboard.
    /// Returns their text if it differs from what the clipboard was last
    /// known to hold, and remembers it; returns nothing if the clipboard has
    /// not changed.
    pub fn get_contents(&mut self, loaded: Vec<u8>) -> (r: Result<
        Option<String>,
        ClipboardReadError,
    >)
        ensures
            !valid_utf8(loaded@) ==> r == Err::<Option<String>, ClipboardReadError>(
                ClipboardReadError::NotUtf8,
            ) && final(self)@ == old(self)@,
            valid_utf8(loaded@) && decode_utf8(loaded@) == old(self)@ ==> r == Ok::<
                Option<String>,
                ClipboardReadError,
            >(None) && final(self)@ == old(self)@,
            valid_utf8(loaded@) && decode_utf8(loaded@) != old(self)@ ==> (r matches Ok(Some(s))
                && s@ == decode_utf8(loaded@)) && final(self)@ == decode_utf8(loaded@),
    {
        let ghost bytes = loaded@;
        let s = match string_from_utf8(loaded) {
            Some(s) => s,
            None => {
                return Err(ClipboardReadError::NotUtf8);
            },
        };
        proof {
            vstd::utf8::encode_utf8_decode_utf8(s@);
        }
        if s == self.last_content {
            return Ok(None);
        }
        self.last_content = s.clone();
        Ok(Some(s))
    }
}

} // verus!
