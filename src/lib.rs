//! Path resolution and content lookup for a static file server.
//!
//! Two resolvers share one contract: a request path maps to content, a MIME
//! type and a status, falling back to a default resource and then to
//! `404 Not Found`. [`disk::FileServing`] decides which files to open and in
//! which order, and leaves the opening to its caller;
//! [`memory::InMemoryServing`] answers from a table built once from every file
//! under the root, read with the worklist of [`walk::Walk`].
//! [`agreement`] states where the two give the same answer.

mod text;

pub mod agreement;
pub mod content;
pub mod disk;
pub mod memory;
pub mod mime;
pub mod path;
pub mod walk;
