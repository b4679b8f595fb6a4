//! Handles onto the embedded dashboard assets. The asset archives
//! themselves live with the server glue; here stand the markers the
//! handlers pass around and the typed reference to one embedded file.

use vstd::prelude::*;

verus! {

/// Marker for the archive of page templates.
#[derive(Clone, Copy, Debug)]
pub struct EmbeddedTemplates;

/// Marker for the archive of static assets.
#[derive(Clone, Copy, Debug)]
pub struct StaticDir;

/// A reference to one file of an embedded archive: the archive as a type,
/// the path into it as a value.
#[derive(Debug)]
pub struct EmbeddedFile<E, T> {
    pub path: T,
    pub embed: core::marker::PhantomData<E>,
}

impl<E, T> EmbeddedFile<E, T> {
    /// Points into the archive `E` at `path`.
    pub fn get(path: T) -> (r: Self)
        ensures
            r.path == path,
    {
        EmbeddedFile { path, embed: core::marker::PhantomData }
    }
}

} // verus!
