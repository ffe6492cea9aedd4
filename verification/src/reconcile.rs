//! The reconciliation loop's decisions: a two-phase state machine that
//! renders once, then polls at a fixed interval and renders again
//! exactly when the freshly resolved context differs from the one last
//! rendered.  The caller performs the I/O each decision calls for —
//! resolving, rendering, sleeping, launching the post-render command —
//! and reports back; every decision is taken here.

use vstd::prelude::*;
use crate::context::{equal, ResolvedContext};
use crate::value::ValueModel;

verus! {

/// What the reconciliation loop asks its caller to do next.
#[derive(Clone, Copy, PartialEq, Eq, Structural, Debug)]
pub enum Action {
    /// Perform a full resolution pass and report its context with
    /// `on_context`.
    Resolve,
    /// Build the synthesized all-`Null` fast-start context — no DNS
    /// work — and report it with `on_context`.
    Synthesize,
    /// Render the pending context, hand the post-render command (if
    /// any) to the process supervisor, and report with `on_rendered`.
    Render,
    /// Sleep for the poll interval, then perform a full resolution pass
    /// and report its context with `on_context`.
    SleepResolve,
    /// Stop: the single render of a non-watch invocation is done.
    Halt,
}

/// The phase the loop is in.
#[derive(Clone, Copy, PartialEq, Eq, Structural, Debug)]
pub enum Phase {
    /// Waiting for the first context.
    Seeding,
    /// A context awaits rendering.
    Rendering,
    /// Watching for a context that differs from the last rendered one.
    Polling,
    /// A non-watch invocation has rendered and is done.
    Finished,
}

/// The reconciliation state machine.  It owns the pending context while
/// one awaits rendering and retains exactly one last-rendered snapshot,
/// replaced when a render completes.
pub struct Reconciler {
    watch: bool,
    phase: Phase,
    pending: Option<ResolvedContext>,
    last: Option<ResolvedContext>,
}

impl Reconciler {
    /// Whether this invocation watches for changes.
    pub closed spec fn spec_watch(&self) -> bool {
        self.watch
    }

    /// The current phase.
    pub closed spec fn spec_phase(&self) -> Phase {
        self.phase
    }

    /// The model of the context awaiting rendering, if one does.
    pub closed spec fn spec_pending(&self) -> Option<Map<Seq<char>, ValueModel>> {
        match self.pending {
            Option::Some(c) => Option::Some(c@),
            Option::None => Option::None,
        }
    }

    /// The model of the last rendered context, if any render happened.
    pub closed spec fn spec_last(&self) -> Option<Map<Seq<char>, ValueModel>> {
        match self.last {
            Option::Some(c) => Option::Some(c@),
            Option::None => Option::None,
        }
    }

    /// A context is pending exactly in the rendering phase, polling
    /// always has a last-rendered snapshot to compare against, and the
    /// held contexts are well formed.
    pub closed spec fn wf(&self) -> bool {
        &&& (self.phase is Rendering <==> self.pending is Some)
        &&& (self.phase is Polling ==> self.last is Some)
        &&& (match self.pending {
            Option::Some(c) => c.wf(),
            Option::None => true,
        })
        &&& (match self.last {
            Option::Some(c) => c.wf(),
            Option::None => true,
        })
    }

    /// Starts an invocation.  A watching fast start renders before any
    /// DNS work: the first action is then to synthesize the all-`Null`
    /// context; every other invocation seeds itself with a real
    /// resolution pass.
    pub fn new(watch: bool, fast_start: bool) -> (r: (Reconciler, Action))
        ensures
            r.0.wf(),
            r.0.spec_watch() == watch,
            r.0.spec_phase() is Seeding,
            r.0.spec_last() is None,
            r.1 == if watch && fast_start {
                Action::Synthesize
            } else {
                Action::Resolve
            },
    {
        let a = if watch && fast_start {
            Action::Synthesize
        } else {
            Action::Resolve
        };
        (Reconciler { watch, phase: Phase::Seeding, pending: Option::None, last: Option::None }, a)
    }

    /// Takes the context a resolution pass (or the fast-start synthesis)
    /// produced.  The first context is always rendered; while polling, a
    /// context equal to the last rendered one keeps the loop polling,
    /// and only an unequal one moves it to the rendering phase.
    pub fn on_context(&mut self, ctx: ResolvedContext) -> (a: Action)
        requires
            old(self).wf(),
            ctx.wf(),
            old(self).spec_phase() is Seeding || old(self).spec_phase() is Polling,
        ensures
            final(self).wf(),
            final(self).spec_watch() == old(self).spec_watch(),
            old(self).spec_phase() is Seeding ==> a == Action::Render
                && final(self).spec_phase() is Rendering
                && final(self).spec_pending() == Option::Some(ctx@)
                && final(self).spec_last() == old(self).spec_last(),
            old(self).spec_phase() is Polling && ctx@ == old(self).spec_last()->0
                ==> a == Action::SleepResolve && *final(self) == *old(self),
            old(self).spec_phase() is Polling && ctx@ != old(self).spec_last()->0
                ==> a == Action::Render
                && final(self).spec_phase() is Rendering
                && final(self).spec_pending() == Option::Some(ctx@)
                && final(self).spec_last() == old(self).spec_last(),
    {
        match self.phase {
            Phase::Seeding => {
                self.pending = Option::Some(ctx);
                self.phase = Phase::Rendering;
                Action::Render
            },
            Phase::Polling => {
                let same = match &self.last {
                    Option::Some(lc) => equal(lc, &ctx),
                    Option::None => vstd::pervasive::unreached(),
                };
                if same {
                    Action::SleepResolve
                } else {
                    self.pending = Option::Some(ctx);
                    self.phase = Phase::Rendering;
                    Action::Render
                }
            },
            Phase::Rendering => vstd::pervasive::unreached(),
            Phase::Finished => vstd::pervasive::unreached(),
        }
    }

    /// The context awaiting rendering.
    pub fn pending_context(&self) -> (r: &ResolvedContext)
        requires
            self.wf(),
            self.spec_phase() is Rendering,
        ensures
            r.wf(),
            Option::Some(r@) == self.spec_pending(),
    {
        match &self.pending {
            Option::Some(c) => c,
            Option::None => vstd::pervasive::unreached(),
        }
    }

    /// Takes notice that the pending context has been rendered (and the
    /// post-render command, if any, handed to the supervisor): that
    /// context becomes the last-rendered snapshot.  A watching
    /// invocation moves on to polling; any other is finished.
    pub fn on_rendered(&mut self) -> (a: Action)
        requires
            old(self).wf(),
            old(self).spec_phase() is Rendering,
        ensures
            final(self).wf(),
            final(self).spec_watch() == old(self).spec_watch(),
            final(self).spec_last() == old(self).spec_pending(),
            final(self).spec_pending() is None,
            old(self).spec_watch() ==> final(self).spec_phase() is Polling && a
                == Action::SleepResolve,
            !old(self).spec_watch() ==> final(self).spec_phase() is Finished && a == Action::Halt,
    {
        let mut p: Option<ResolvedContext> = Option::None;
        core::mem::swap(&mut p, &mut self.pending);
        self.last = p;
        if self.watch {
            self.phase = Phase::Polling;
            Action::SleepResolve
        } else {
            self.phase = Phase::Finished;
            Action::Halt
        }
    }
}

} // verus!
