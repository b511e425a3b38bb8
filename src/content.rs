//! What a resolver answers with.
use vstd::prelude::*;

verus! {

/// Bytes to send, their MIME type and the HTTP status.
pub struct Content {
    pub data: Vec<u8>,
    pub mime: String,
    pub status: u16,
}

/// The mathematical value of a [`Content`].
pub struct ContentView {
    pub data: Seq<u8>,
    pub mime: Seq<char>,
    pub status: u16,
}

impl View for Content {
    type V = ContentView;

    open spec fn view(&self) -> ContentView {
        ContentView { data: self.data@, mime: self.mime@, status: self.status }
    }
}

pub open spec fn text_plain() -> Seq<char> {
    seq!['t', 'e', 'x', 't', '/', 'p', 'l', 'a', 'i', 'n']
}

/// The bytes of `Not Found`.
pub open spec fn not_found_body() -> Seq<u8> {
    seq![78u8, 111, 116, 32, 70, 111, 117, 110, 100]
}

/// The answer when neither a file nor a default resource is found.
pub open spec fn not_found_view() -> ContentView {
    ContentView { data: not_found_body(), mime: text_plain(), status: 404 }
}

/// A found file: its bytes, the given MIME type and status 200.
pub open spec fn found_view(data: Seq<u8>, mime: Seq<char>) -> ContentView {
    ContentView { data, mime, status: 200 }
}

impl Content {
    /// A file's bytes served with status 200.
    pub fn found(data: Vec<u8>, mime: String) -> (r: Content)
        ensures
            r@ == found_view(data@, mime@),
    {
        Content { data, mime, status: 200 }
    }

    /// The synthetic `404 Not Found`, as `text/plain`.
    pub fn not_found() -> (r: Content)
        ensures
            r@ == not_found_view(),
    {
        let data: Vec<u8> = vec![78u8, 111, 116, 32, 70, 111, 117, 110, 100];
        let mime = String::from_str("text/plain");
        proof {
            reveal_strlit("text/plain");
        }
        assert(data@ =~= not_found_body());
        assert(mime@ =~= text_plain());
        Content { data, mime, status: 404 }
    }

    /// A copy holding the same bytes, MIME type and status.
    pub fn duplicate(&self) -> (r: Content)
        ensures
            r@ == self@,
    {
        Content { data: self.data.clone(), mime: self.mime.clone(), status: self.status }
    }
}

} // verus!
