//! The library's error type.
use vstd::prelude::*;
use crate::num::{dec, dec_chars};
use crate::text::{push_all, push_str, string_of};

verus! {

/// What went wrong.
#[derive(Debug)]
pub enum Error {
    /// A message ready to show.
    Message(String),
    /// An HTTP error status, with a hint on what to try and the body.
    Http { code: u16, url: String, hint: String, body: Vec<u8> },
    /// URL looks like HLS but the response is a progressive media file.
    Progressive { url: String },
}

/// The text `Error::message` gives for each kind of error.
pub open spec fn error_text(e: Error) -> Seq<char> {
    match e {
        Error::Message(s) => s@,
        Error::Http { code, url, hint, .. } => "play: HTTP "@ + dec(code as nat) + " fetching "@
            + url@ + hint@,
        Error::Progressive { url } => "play: "@ + url@ + " is a media file, not an HLS playlist"@,
    }
}

impl Error {
    /// A plain message.
    pub fn msg(m: &str) -> (e: Error)
        ensures
            e matches Error::Message(s) && s@ == m@,
    {
        Error::Message(m.to_string())
    }

    /// The process exit code for this error.
    pub fn exit_code(&self) -> (c: i32)
        ensures
            c == 1,
    {
        1
    }

    /// The text shown for this error.
    pub fn message(&self) -> (s: String)
        ensures
            s@ == error_text(*self),
    {
        match self {
            Error::Message(s) => s.clone(),
            Error::Http { code, url, hint, .. } => {
                let mut v: Vec<char> = Vec::new();
                push_str(&mut v, "play: HTTP ");
                let d = dec_chars(*code as u64);
                push_all(&mut v, d.as_slice());
                push_str(&mut v, " fetching ");
                push_str(&mut v, url.as_str());
                push_str(&mut v, hint.as_str());
                string_of(v.as_slice())
            },
            Error::Progressive { url } => {
                let mut v: Vec<char> = Vec::new();
                push_str(&mut v, "play: ");
                push_str(&mut v, url.as_str());
                push_str(&mut v, " is a media file, not an HLS playlist");
                string_of(v.as_slice())
            },
        }
    }
}

} // verus!
