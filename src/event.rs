use vstd::prelude::*;

verus! {

/// A raw event as the watcher service delivers it, after debouncing.
pub enum RawEvent {
    /// Emitted right after the first write to a path.
    NoticeWrite(String),
    /// Emitted right after a path was removed or renamed away.
    NoticeRemove(String),
    Create(String),
    Write(String),
    /// Only the attributes changed.
    Chmod(String),
    Remove(String),
    /// A rename, from the first path to the second.
    Rename(String, String),
    /// The watched directories have to be scanned again.
    Rescan,
    /// An error surfaced as an event, with the path concerned if known.
    Error(Option<String>),
}

/// The kind of change that a raw event stands for.
#[derive(Clone, Copy, Debug, PartialEq, Eq, Structural)]
pub enum ChangeKind {
    Created,
    Modified,
    Removed,
    Renamed,
    /// The event is not a change to act on.
    Ignored,
}

/// A change to act on: the path that changed, and how.
pub struct ChangeEvent {
    pub path: String,
    pub kind: ChangeKind,
}

pub open spec fn kind_spec(e: RawEvent) -> ChangeKind {
    match e {
        RawEvent::NoticeWrite(_) => ChangeKind::Modified,
        RawEvent::NoticeRemove(_) => ChangeKind::Removed,
        RawEvent::Create(_) => ChangeKind::Created,
        RawEvent::Write(_) => ChangeKind::Modified,
        RawEvent::Remove(_) => ChangeKind::Removed,
        RawEvent::Rename(_, _) => ChangeKind::Renamed,
        _ => ChangeKind::Ignored,
    }
}

/// The path that a relevant event reports as changed (for a rename, the new
/// name); `None` for an event that is ignored.
pub open spec fn changed_path(e: RawEvent) -> Option<Seq<char>> {
    match e {
        RawEvent::NoticeWrite(p) => Some(p@),
        RawEvent::NoticeRemove(p) => Some(p@),
        RawEvent::Create(p) => Some(p@),
        RawEvent::Write(p) => Some(p@),
        RawEvent::Remove(p) => Some(p@),
        RawEvent::Rename(_, to) => Some(to@),
        _ => None,
    }
}

/// The kind of change that `e` stands for.
pub fn classify(e: &RawEvent) -> (k: ChangeKind)
    ensures
        k == kind_spec(*e),
{
    match e {
        RawEvent::NoticeWrite(_) => ChangeKind::Modified,
        RawEvent::NoticeRemove(_) => ChangeKind::Removed,
        RawEvent::Create(_) => ChangeKind::Created,
        RawEvent::Write(_) => ChangeKind::Modified,
        RawEvent::Remove(_) => ChangeKind::Removed,
        RawEvent::Rename(_, _) => ChangeKind::Renamed,
        _ => ChangeKind::Ignored,
    }
}

/// Turns a raw event into a change to act on, or `None` where the event is
/// not one.
pub fn normalize(e: RawEvent) -> (r: Option<ChangeEvent>)
    ensures
        r is None <==> changed_path(e) is None,
        r is None <==> kind_spec(e) is Ignored,
        r matches Some(c) ==> Some(c.path@) == changed_path(e) && c.kind == kind_spec(e),
{
    let kind = classify(&e);
    match e {
        RawEvent::NoticeWrite(p) => Some(ChangeEvent { path: p, kind }),
        RawEvent::NoticeRemove(p) => Some(ChangeEvent { path: p, kind }),
        RawEvent::Create(p) => Some(ChangeEvent { path: p, kind }),
        RawEvent::Write(p) => Some(ChangeEvent { path: p, kind }),
        RawEvent::Remove(p) => Some(ChangeEvent { path: p, kind }),
        RawEvent::Rename(_, to) => Some(ChangeEvent { path: to, kind }),
        _ => None,
    }
}

} // verus!
