//! The classifier/filter: pure logic mapping one raw filesystem notification
//! to zero or one domain event.
//!
//! A raw notification carries a change kind and an ordered list of affected
//! paths. The classifier keeps only paths whose suffix is `.md` or `.db.json`;
//! if none remains, the notification is discarded. Otherwise exactly one event
//! is produced, for the first matching path in order, with the tag given by
//! the change kind; kinds outside create/modify/remove produce nothing.

use vstd::prelude::*;

use crate::event::{EventView, FsEvent};

verus! {

/// The kind of a raw change notification, as reported by the raw change
/// source. Every kind outside create/modify/remove (access, raw renames,
/// unknown kinds) is `Other`.
#[derive(Clone, Copy, PartialEq, Eq, Structural, Debug)]
pub enum RawKind {
    Create,
    Modify,
    Remove,
    Other,
}

/// One raw change notification: a kind and the affected paths, in the order
/// the raw change source reported them.
#[derive(Debug, Clone)]
pub struct RawNotification {
    pub kind: RawKind,
    pub paths: Vec<String>,
}

/// The mathematical model of a [`RawNotification`].
pub struct NotificationView {
    pub kind: RawKind,
    pub paths: Seq<Seq<char>>,
}

impl View for RawNotification {
    type V = NotificationView;

    open spec fn view(&self) -> NotificationView {
        NotificationView { kind: self.kind, paths: self.paths.deep_view() }
    }
}

/// The `.md` suffix, as characters.
pub open spec fn md_suffix() -> Seq<char> {
    seq!['.', 'm', 'd']
}

/// The `.db.json` suffix, as characters.
pub open spec fn db_json_suffix() -> Seq<char> {
    seq!['.', 'd', 'b', '.', 'j', 's', 'o', 'n']
}

/// `s` ends with `suffix`.
pub open spec fn ends_with(s: Seq<char>, suffix: Seq<char>) -> bool {
    suffix.len() <= s.len() && s.skip(s.len() - suffix.len()) == suffix
}

/// A path the monitor cares about: one ending in `.md` or `.db.json`.
/// The suffix set is fixed, not configurable.
pub open spec fn is_relevant(p: Seq<char>) -> bool {
    ends_with(p, md_suffix()) || ends_with(p, db_json_suffix())
}

/// The first relevant path of `paths`, in order, if any.
pub open spec fn first_relevant(paths: Seq<Seq<char>>) -> Option<Seq<char>>
    decreases paths.len(),
{
    if paths.len() == 0 {
        None
    } else if is_relevant(paths[0]) {
        Some(paths[0])
    } else {
        first_relevant(paths.skip(1))
    }
}

/// What the classifier produces for one raw notification: an event for the
/// first relevant path, tagged by the change kind, or nothing.
pub open spec fn spec_classify(n: NotificationView) -> Option<EventView> {
    match first_relevant(n.paths) {
        None => None,
        Some(p) => match n.kind {
            RawKind::Create => Some(EventView::Created { path: p }),
            RawKind::Modify => Some(EventView::Modified { path: p }),
            RawKind::Remove => Some(EventView::Deleted { path: p }),
            RawKind::Other => None,
        },
    }
}

/// `s` ends with `suffix`, decided character by character.
fn has_suffix(s: &str, suffix: &str) -> (r: bool)
    ensures
        r == ends_with(s@, suffix@),
{
    let n: usize = s.unicode_len();
    let m: usize = suffix.unicode_len();
    if m > n {
        return false;
    }
    let mut i: usize = 0;
    while i < m
        invariant
            i <= m <= n,
            n == s@.len(),
            m == suffix@.len(),
            forall|j: int| 0 <= j < i ==> s@[n - m + j] == suffix@[j],
        decreases m - i,
    {
        if s.get_char(n - m + i) != suffix.get_char(i) {
            proof {
                assert(s@.skip(n - m)[i as int] == s@[n - m + i]);
            }
            return false;
        }
        i += 1;
    }
    proof {
        assert(s@.skip(n - m) =~= suffix@);
    }
    true
}

/// Whether the monitor cares about this path.
pub fn path_is_relevant(p: &str) -> (r: bool)
    ensures
        r == is_relevant(p@),
{
    let r = has_suffix(p, ".md") || has_suffix(p, ".db.json");
    proof {
        reveal_strlit(".md");
        reveal_strlit(".db.json");
        assert(".md"@ =~= md_suffix());
        assert(".db.json"@ =~= db_json_suffix());
    }
    r
}

/// Classify one raw notification: an event for the first relevant path,
/// tagged by the change kind, or `None` when no path is relevant or the kind
/// is outside create/modify/remove.
pub fn classify(n: &RawNotification) -> (r: Option<FsEvent>)
    ensures
        match r {
            Some(e) => spec_classify(n@) == Some(e@),
            None => spec_classify(n@) is None,
        },
{
    let len = n.paths.len();
    let mut i: usize = 0;
    proof {
        assert(n@.paths.skip(0) =~= n@.paths);
    }
    while i < len
        invariant
            i <= len,
            len == n.paths.len(),
            first_relevant(n@.paths) == first_relevant(n@.paths.skip(i as int)),
        decreases len - i,
    {
        let p = &n.paths[i];
        proof {
            assert(n@.paths[i as int] == n.paths[i as int]@);
            assert(n@.paths.skip(i as int)[0] == n@.paths[i as int]);
        }
        if path_is_relevant(p.as_str()) {
            let path = p.clone();
            let e = match n.kind {
                RawKind::Create => Some(FsEvent::Created { path }),
                RawKind::Modify => Some(FsEvent::Modified { path }),
                RawKind::Remove => Some(FsEvent::Deleted { path }),
                RawKind::Other => None,
            };
            return e;
        }
        proof {
            assert(n@.paths.skip(i as int).skip(1) =~= n@.paths.skip(i + 1));
        }
        i += 1;
    }
    proof {
        assert(n@.paths.skip(len as int) =~= Seq::<Seq<char>>::empty());
    }
    None
}

/// Every notification none of whose paths is relevant is discarded: no
/// event is produced for it, whatever its kind.
pub proof fn lemma_no_relevant_path_no_event(n: NotificationView)
    requires
        forall|i: int| 0 <= i < n.paths.len() ==> !is_relevant(n.paths[i]),
    ensures
        spec_classify(n) is None,
{
    lemma_first_relevant_none(n.paths);
}

proof fn lemma_first_relevant_none(paths: Seq<Seq<char>>)
    requires
        forall|i: int| 0 <= i < paths.len() ==> !is_relevant(paths[i]),
    ensures
        first_relevant(paths) is None,
    decreases paths.len(),
{
    if paths.len() > 0 {
        assert(forall|i: int|
            0 <= i < paths.skip(1).len() ==> paths.skip(1)[i] == paths[i + 1]);
        lemma_first_relevant_none(paths.skip(1));
    }
}

/// A notification whose kind is outside create/modify/remove produces no
/// event, whatever its paths.
pub proof fn lemma_other_kind_no_event(n: NotificationView)
    requires
        n.kind == RawKind::Other,
    ensures
        spec_classify(n) is None,
{
}

/// The paths an event carries are all relevant ones.
pub open spec fn event_paths_relevant(e: EventView) -> bool {
    match e {
        EventView::Created { path } => is_relevant(path),
        EventView::Modified { path } => is_relevant(path),
        EventView::Deleted { path } => is_relevant(path),
        EventView::Renamed { old_path, new_path } => is_relevant(old_path) && is_relevant(
            new_path,
        ),
    }
}

/// The monitor only ever produces events for paths ending in `.md` or
/// `.db.json`.
pub proof fn lemma_produced_paths_relevant(n: NotificationView)
    ensures
        spec_classify(n) matches Some(e) ==> event_paths_relevant(e),
{
    lemma_first_relevant_is_relevant(n.paths);
}

proof fn lemma_first_relevant_is_relevant(paths: Seq<Seq<char>>)
    ensures
        first_relevant(paths) matches Some(p) ==> is_relevant(p),
    decreases paths.len(),
{
    if paths.len() > 0 && !is_relevant(paths[0]) {
        lemma_first_relevant_is_relevant(paths.skip(1));
    }
}

/// The classifier never constructs a `Renamed` event: raw rename
/// notifications arrive as `Other` and are dropped, leaving the variant
/// unreachable from classification.
pub proof fn lemma_renamed_unreachable(n: NotificationView)
    ensures
        !(spec_classify(n) matches Some(EventView::Renamed { .. })),
{
}

/// The views of a sequence of raw notifications.
pub open spec fn notification_views(ns: Seq<RawNotification>) -> Seq<NotificationView> {
    ns.map_values(|n: RawNotification| n@)
}

/// The views of a sequence of events.
pub open spec fn event_views(es: Seq<FsEvent>) -> Seq<EventView> {
    es.map_values(|e: FsEvent| e@)
}

/// The events a session publishes for the notifications `ns`, in the order
/// the notifications arrived: each notification contributes its classified
/// event, or nothing, in place.
pub open spec fn spec_process(ns: Seq<NotificationView>) -> Seq<EventView>
    decreases ns.len(),
{
    if ns.len() == 0 {
        Seq::empty()
    } else {
        spec_process(ns.drop_last()) + match spec_classify(ns.last()) {
            Some(e) => seq![e],
            None => Seq::<EventView>::empty(),
        }
    }
}

/// Process a whole sequence of raw notifications, in order, keeping each
/// produced event: the observable output of one session's consumer loop for
/// that sequence of arrivals.
pub fn process_all(ns: &Vec<RawNotification>) -> (r: Vec<FsEvent>)
    ensures
        event_views(r@) == spec_process(notification_views(ns@)),
{
    let mut out: Vec<FsEvent> = Vec::new();
    let len = ns.len();
    let mut i: usize = 0;
    proof {
        assert(event_views(out@) =~= spec_process(notification_views(ns@).take(0)));
    }
    while i < len
        invariant
            i <= len,
            len == ns.len(),
            event_views(out@) == spec_process(notification_views(ns@).take(i as int)),
        decreases len - i,
    {
        let ghost vs = notification_views(ns@);
        let ghost prev = out@;
        if let Some(e) = classify(&ns[i]) {
            out.push(e);
        }
        proof {
            assert(vs.take(i + 1).drop_last() =~= vs.take(i as int));
            assert(vs.take(i + 1).last() == vs[i as int]);
            assert(vs[i as int] == ns@[i as int]@);
            match spec_classify(vs[i as int]) {
                Some(ev) => {
                    assert(event_views(out@) =~= event_views(prev) + seq![ev]);
                },
                None => {
                    assert(event_views(out@) =~= event_views(prev));
                    assert(spec_process(vs.take(i + 1)) =~= spec_process(vs.take(i as int)));
                },
            }
        }
        i += 1;
    }
    proof {
        assert(notification_views(ns@).take(len as int) =~= notification_views(ns@));
    }
    out
}

/// Where the event of notification `k` stands in the session's output: right
/// after the events of the notifications before `k`, and carrying exactly the
/// event classified from notification `k`.
pub proof fn lemma_process_index(ns: Seq<NotificationView>, k: int)
    requires
        0 <= k < ns.len(),
        spec_classify(ns[k]) is Some,
    ensures
        spec_process(ns.take(k)).len() < spec_process(ns).len(),
        spec_process(ns)[spec_process(ns.take(k)).len() as int] == spec_classify(ns[k]).unwrap(),
    decreases ns.len(),
{
    if k == ns.len() - 1 {
        assert(ns.take(k) =~= ns.drop_last());
    } else {
        lemma_process_index(ns.drop_last(), k);
        assert(ns.drop_last().take(k) =~= ns.take(k));
        assert(ns.drop_last()[k] == ns[k]);
    }
}

/// Per-session FIFO order: if notifications `i` and `j` arrive in that order
/// and both pass the filter, their events stand in the session's output in
/// that same relative order.
pub proof fn lemma_fifo_order(ns: Seq<NotificationView>, i: int, j: int)
    requires
        0 <= i < j < ns.len(),
        spec_classify(ns[i]) is Some,
        spec_classify(ns[j]) is Some,
    ensures
        spec_process(ns.take(i)).len() < spec_process(ns.take(j)).len() < spec_process(ns).len(),
        spec_process(ns)[spec_process(ns.take(i)).len() as int] == spec_classify(ns[i]).unwrap(),
        spec_process(ns)[spec_process(ns.take(j)).len() as int] == spec_classify(ns[j]).unwrap(),
{
    lemma_process_index(ns, i);
    lemma_process_index(ns, j);
    lemma_process_index(ns.take(j), i);
    assert(ns.take(j).take(i) =~= ns.take(i));
    assert(ns.take(j)[i] == ns[i]);
    lemma_process_prefix(ns, j);
}

/// The events of a prefix of the arrivals are a prefix of the events of the
/// whole: processing never reorders and never goes back.
pub proof fn lemma_process_prefix(ns: Seq<NotificationView>, k: int)
    requires
        0 <= k <= ns.len(),
    ensures
        spec_process(ns.take(k)).len() <= spec_process(ns).len(),
        spec_process(ns.take(k)) == spec_process(ns).take(spec_process(ns.take(k)).len() as int),
    decreases ns.len(),
{
    if k == ns.len() {
        assert(ns.take(k) =~= ns);
        assert(spec_process(ns).take(spec_process(ns).len() as int) =~= spec_process(ns));
    } else {
        lemma_process_prefix(ns.drop_last(), k);
        assert(ns.drop_last().take(k) =~= ns.take(k));
        let p = spec_process(ns.take(k));
        let whole = spec_process(ns.drop_last());
        assert(spec_process(ns).take(p.len() as int) =~= whole.take(p.len() as int));
    }
}

} // verus!
