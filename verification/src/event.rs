//! The domain event delivered to the UI layer, and its mathematical model.

use vstd::prelude::*;

verus! {

/// An application-level filesystem change event. The monitor only ever
/// produces events for paths ending in `.md` or `.db.json`. The `Renamed`
/// variant is part of the model but is never produced by the current
/// classification rules, which drop raw rename notifications.
#[derive(Debug, Clone)]
pub enum FsEvent {
    Created { path: String },
    Modified { path: String },
    Deleted { path: String },
    Renamed { old_path: String, new_path: String },
}

/// The mathematical model of an [`FsEvent`]: the same four variants, with
/// each path seen as its sequence of characters.
pub enum EventView {
    Created { path: Seq<char> },
    Modified { path: Seq<char> },
    Deleted { path: Seq<char> },
    Renamed { old_path: Seq<char>, new_path: Seq<char> },
}

impl View for FsEvent {
    type V = EventView;

    open spec fn view(&self) -> EventView {
        match self {
            FsEvent::Created { path } => EventView::Created { path: path@ },
            FsEvent::Modified { path } => EventView::Modified { path: path@ },
            FsEvent::Deleted { path } => EventView::Deleted { path: path@ },
            FsEvent::Renamed { old_path, new_path } => EventView::Renamed {
                old_path: old_path@,
                new_path: new_path@,
            },
        }
    }
}

impl PartialEq for FsEvent {
    /// Two events are equal when they carry the same tag and the same paths.
    fn eq(&self, other: &FsEvent) -> (r: bool) {
        match self {
            FsEvent::Created { path: a } => match other {
                FsEvent::Created { path: b } => *a == *b,
                _ => false,
            },
            FsEvent::Modified { path: a } => match other {
                FsEvent::Modified { path: b } => *a == *b,
                _ => false,
            },
            FsEvent::Deleted { path: a } => match other {
                FsEvent::Deleted { path: b } => *a == *b,
                _ => false,
            },
            FsEvent::Renamed { old_path: a, new_path: b } => match other {
                FsEvent::Renamed { old_path: c, new_path: d } => *a == *c && *b == *d,
                _ => false,
            },
        }
    }
}

impl vstd::std_specs::cmp::PartialEqSpecImpl for FsEvent {
    open spec fn obeys_eq_spec() -> bool {
        true
    }

    open spec fn eq_spec(&self, other: &FsEvent) -> bool {
        self@ == other@
    }
}

} // verus!
