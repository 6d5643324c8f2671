//! The watch loop's decisions: which ticket to process next, one at a time.
use vstd::prelude::*;

verus! {

/// What happened to the paths of a filesystem event.
#[derive(Clone, Copy, Debug, PartialEq, Eq, Structural)]
pub enum WatchKind {
    Created,
    Other,
}

/// One filesystem event: its kind and the paths it concerns.
pub struct WatchEvent {
    pub kind: WatchKind,
    pub paths: Vec<String>,
}

/// The ticket being processed, if any, and the created paths waiting their turn, oldest
/// first. Nothing waits while nothing is processed.
pub struct Orchestrator {
    pub current: Option<String>,
    pub pending: Vec<String>,
}

pub struct OrchestratorView {
    pub current: Option<Seq<char>>,
    pub pending: Seq<Seq<char>>,
}

pub open spec fn path_views(v: Seq<String>) -> Seq<Seq<char>> {
    v.map_values(|s: String| s@)
}

impl View for Orchestrator {
    type V = OrchestratorView;

    open spec fn view(&self) -> OrchestratorView {
        OrchestratorView {
            current: match self.current {
                Some(s) => Some(s@),
                None => None,
            },
            pending: path_views(self.pending@),
        }
    }
}

impl OrchestratorView {
    pub open spec fn wf(self) -> bool {
        self.current is None ==> self.pending.len() == 0
    }

    pub open spec fn is_processing(self) -> bool {
        self.current is Some
    }

    /// The state after `ev`, and the path whose processing it starts.
    pub open spec fn on_event(self, kind: WatchKind, paths: Seq<Seq<char>>) -> (
        OrchestratorView,
        Option<Seq<char>>,
    ) {
        if kind == WatchKind::Other {
            (self, None)
        } else if self.current is Some {
            (OrchestratorView { current: self.current, pending: self.pending + paths }, None)
        } else if paths.len() == 0 {
            (self, None)
        } else {
            (
                OrchestratorView { current: Some(paths[0]), pending: paths.drop_first() },
                Some(paths[0]),
            )
        }
    }

    /// The state after the current ticket is done, and the path whose processing starts next.
    pub open spec fn on_done(self) -> (OrchestratorView, Option<Seq<char>>) {
        if self.pending.len() == 0 {
            (OrchestratorView { current: None, pending: self.pending }, None)
        } else {
            (
                OrchestratorView { current: Some(self.pending[0]), pending: self.pending.drop_first() },
                Some(self.pending[0]),
            )
        }
    }
}

impl Orchestrator {
    /// Idle, with nothing waiting.
    pub fn new() -> (r: Orchestrator)
        ensures
            r@.current is None,
            r@.pending.len() == 0,
            r@.wf(),
    {
        Orchestrator { current: None, pending: Vec::new() }
    }

    pub fn is_processing(&self) -> (r: bool)
        ensures
            r == self@.is_processing(),
    {
        self.current.is_some()
    }

    /// The number of created paths waiting their turn.
    pub fn pending_len(&self) -> (r: usize)
        ensures
            r == self@.pending.len(),
    {
        self.pending.len()
    }

    /// Takes one filesystem event. Created paths are queued; where nothing was being
    /// processed, the first of them starts and is returned.
    pub fn on_event(&mut self, ev: WatchEvent) -> (r: Option<String>)
        requires
            old(self)@.wf(),
        ensures
            (final(self)@, opt_path(r)) == old(self)@.on_event(ev.kind, path_views(ev.paths@)),
            final(self)@.wf(),
    {
        let mut paths = ev.paths;
        match ev.kind {
            WatchKind::Other => None,
            WatchKind::Created => {
                if self.current.is_some() {
                    self.pending.append(&mut paths);
                    assert(path_views(self.pending@) =~= old(self)@.pending + path_views(
                        ev.paths@,
                    ));
                    None
                } else if paths.len() == 0 {
                    None
                } else {
                    let first = paths.remove(0);
                    assert(path_views(paths@) =~= path_views(ev.paths@).drop_first());
                    let r = first.clone();
                    self.pending = paths;
                    self.current = Some(first);
                    Some(r)
                }
            },
        }
    }

    /// Marks the current ticket done (whether it succeeded or failed) and starts the next
    /// waiting path, which is returned.
    pub fn on_done(&mut self) -> (r: Option<String>)
        requires
            old(self)@.wf(),
        ensures
            (final(self)@, opt_path(r)) == old(self)@.on_done(),
            final(self)@.wf(),
    {
        if self.pending.len() == 0 {
            self.current = None;
            None
        } else {
            let next = self.pending.remove(0);
            assert(path_views(self.pending@) =~= old(self)@.pending.drop_first());
            let r = next.clone();
            self.current = Some(next);
            Some(r)
        }
    }
}

pub open spec fn opt_path(o: Option<String>) -> Option<Seq<char>> {
    match o {
        Some(s) => Some(s@),
        None => None,
    }
}

} // verus!

verus! {

/// While a ticket is processed, no event starts another one: created paths wait, in
/// order, and the current ticket stays current.
pub proof fn law_one_ticket_at_a_time(
    st: OrchestratorView,
    kind: WatchKind,
    paths: Seq<Seq<char>>,
)
    requires
        st.wf(),
        st.is_processing(),
    ensures
        st.on_event(kind, paths).1 is None,
        st.on_event(kind, paths).0.current == st.current,
        kind == WatchKind::Created ==> st.on_event(kind, paths).0.pending == st.pending + paths,
{
}

/// A waiting path starts only once the current ticket is done, and the oldest goes first.
pub proof fn law_done_starts_oldest(st: OrchestratorView)
    requires
        st.wf(),
        st.pending.len() > 0,
    ensures
        st.on_done().1 == Some(st.pending[0]),
        st.on_done().0.wf(),
{
}

} // verus!
