//! The filesystem-watch source feed's filter: which change
//! notifications announce a newly-created file. The watcher itself runs
//! outside the library and hands each notification's kind in; only
//! file-creation events become ingestible locations.

use vstd::prelude::*;

verus! {

/// What kind of thing a creation notification is about.
#[derive(Debug, Clone, Copy, PartialEq, Eq, Structural)]
pub enum CreateKind {
    Any,
    File,
    Folder,
    Other,
}

/// The kinds of filesystem change notifications the watcher reports.
#[derive(Debug, Clone, Copy, PartialEq, Eq, Structural)]
pub enum WatchEventKind {
    Any,
    Access,
    Create(CreateKind),
    Modify,
    Remove,
    Other,
}

/// Whether a notification announces a newly-created file: exactly the
/// events the source feed turns into locations — everything else is
/// dropped.
pub fn is_create_file_event(kind: &WatchEventKind) -> (r: bool)
    ensures
        r <==> *kind == WatchEventKind::Create(CreateKind::File),
{
    match kind {
        WatchEventKind::Create(CreateKind::File) => true,
        _ => false,
    }
}

} // verus!
