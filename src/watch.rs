//! The decisions of the file watcher: which changed paths get injection,
//! and in what order. A failed injection changes nothing that follows.

use vstd::prelude::*;
use crate::error::FrontmatterError;
use crate::text::same_text;

verus! {

/// The extension of a path, as `std::path::Path::extension` gives it.
pub uninterp spec fn path_extension(p: Seq<char>) -> Option<Seq<char>>;

/// Relies on `Path::extension`: the extension of `p`, a function of `p`.
#[verifier::external_body]
fn extension_of(p: &str) -> (r: Option<String>)
    ensures
        match r {
            Some(e) => path_extension(p@) == Some(e@),
            None => path_extension(p@) is None,
        },
{
    std::path::Path::new(p).extension().map(|e| e.to_string_lossy().into_owned())
}

pub open spec fn is_markdown_spec(p: Seq<char>) -> bool {
    path_extension(p) == Some(seq!['m', 'd'])
}

/// The path names a markdown file: its extension is `md`.
pub fn is_markdown(path: &str) -> (r: bool)
    ensures
        r == is_markdown_spec(path@),
{
    proof {
        reveal_strlit("md");
        assert("md"@ =~= seq!['m', 'd']);
    }
    match extension_of(path) {
        Some(e) => same_text(e.as_str(), "md"),
        None => false,
    }
}

/// The markdown paths among `ps`, in order.
pub open spec fn markdown_only(ps: Seq<Seq<char>>) -> Seq<Seq<char>>
    decreases ps.len(),
{
    if ps.len() == 0 {
        Seq::empty()
    } else if is_markdown_spec(ps.last()) {
        markdown_only(ps.drop_last()).push(ps.last())
    } else {
        markdown_only(ps.drop_last())
    }
}

/// What the watcher learns.
pub enum WatchEvent {
    /// A batch of changed paths.
    Changed(Vec<String>),
    /// The injection last asked for has ended, well or not.
    Finished(Result<(), FrontmatterError>),
    /// Nothing happened while waiting.
    Idle,
}

/// What the watcher asks for next.
pub enum WatchAction {
    /// Inject frontmatter into this file.
    Inject(String),
    /// Wait for the next event.
    Wait,
}

pub open spec fn paths_view(ps: Seq<String>) -> Seq<Seq<char>> {
    Seq::new(ps.len(), |i: int| ps[i]@)
}

/// The paths that `ev` adds to the queue.
pub open spec fn arrivals(ev: WatchEvent) -> Seq<Seq<char>> {
    match ev {
        WatchEvent::Changed(ps) => markdown_only(paths_view(ps@)),
        _ => Seq::empty(),
    }
}

/// The queue after `ev`, before the next path is taken from it.
pub open spec fn queued(q: Seq<Seq<char>>, ev: WatchEvent) -> Seq<Seq<char>> {
    q + arrivals(ev)
}

/// The path injected next after `ev` (none: wait), and the queue left.
pub open spec fn step_spec(q: Seq<Seq<char>>, ev: WatchEvent) -> (Option<Seq<char>>, Seq<Seq<char>>) {
    let q1 = queued(q, ev);
    if q1.len() > 0 {
        (Some(q1[0]), q1.drop_first())
    } else {
        (None, q1)
    }
}

/// The watcher's state: the markdown paths waiting for injection.
pub struct WatchState {
    pending: Vec<String>,
}

impl WatchState {
    pub closed spec fn view(&self) -> Seq<Seq<char>> {
        paths_view(self.pending@)
    }

    pub fn new() -> (r: WatchState)
        ensures
            r.view() == Seq::<Seq<char>>::empty(),
    {
        let r = WatchState { pending: Vec::new() };
        assert(r.view() =~= Seq::<Seq<char>>::empty());
        r
    }

    /// Takes in `ev` and says what to do next.
    pub fn step(&mut self, ev: WatchEvent) -> (r: WatchAction)
        ensures
            step_spec(old(self).view(), ev) == (
                match r {
                    WatchAction::Inject(p) => Some(p@),
                    WatchAction::Wait => None,
                },
                final(self).view(),
            ),
    {
        let ghost q = self.view();
        let ghost e = ev;
        match ev {
            WatchEvent::Changed(ps) => {
                let mut i: usize = 0;
                while i < ps.len()
                    invariant
                        i <= ps@.len(),
                        e == WatchEvent::Changed(ps),
                        self.view() == q + markdown_only(paths_view(ps@.subrange(0, i as int))),
                    decreases ps@.len() - i,
                {
                    let ghost before = self.view();
                    assert(paths_view(ps@.subrange(0, i + 1)).drop_last() =~= paths_view(
                        ps@.subrange(0, i as int),
                    ));
                    if is_markdown(ps[i].as_str()) {
                        self.pending.push(ps[i].clone());
                        assert(self.view() =~= before.push(ps@[i as int]@));
                    }
                    i = i + 1;
                }
                assert(ps@.subrange(0, i as int) =~= ps@);
            },
            _ => {
                assert(queued(q, e) =~= q);
            },
        }
        if self.pending.len() > 0 {
            let ghost q1 = self.view();
            let p = self.pending.remove(0);
            assert(self.view() =~= q1.drop_first());
            WatchAction::Inject(p)
        } else {
            WatchAction::Wait
        }
    }
}

/// A failed injection does not stop the watcher: whatever the error, the
/// next step does what it does after a successful one, and the markdown paths
/// of a later change still join the queue behind those already waiting.
pub proof fn lemma_failure_keeps_watching(q: Seq<Seq<char>>, err: FrontmatterError, later: Vec<String>)
    ensures
        step_spec(q, WatchEvent::Finished(Err(err))) == step_spec(q, WatchEvent::Finished(Ok(()))),
        ({
            let rest = step_spec(q, WatchEvent::Finished(Err(err))).1;
            queued(rest, WatchEvent::Changed(later)) == rest + markdown_only(paths_view(later@))
        }),
{
}

} // verus!
