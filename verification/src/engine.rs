//! The engine driver's state machine. The surrounding layer owns the
//! actual loop (pull an event, process it, dispatch the action); the
//! decisions - what state the engine is in, when a lost source is fatal,
//! and that nothing is processed once shutdown begins - live here.

use vstd::prelude::*;

use crate::event::Event;
use crate::event::key_char_spec;
use crate::event::typed_step;
use crate::process::AppContext;
use crate::process::ProcessOutput;
use crate::process::Processor;
use crate::process::active_ids_spec;
use crate::process::output_is_noop;
use crate::process::output_ok;
use crate::rolling::CompletedMatch;
use crate::rolling::bump;
use crate::rolling::candidates_ok;

verus! {

/// The engine's lifecycle.
#[derive(Clone, Copy, PartialEq, Eq, Structural, Debug)]
pub enum EngineState {
    Idle,
    Running,
    ShuttingDown,
    Stopped,
}

/// The engine: its lifecycle state, the processor it drives, and the
/// number of live input sources feeding the funnel.
pub struct Engine {
    pub state: EngineState,
    pub processor: Processor,
    pub sources: usize,
}

impl Engine {
    pub open spec fn wf(&self) -> bool {
        self.processor.wf()
    }

    pub fn new(processor: Processor, sources: usize) -> (e: Engine)
        requires
            processor.wf(),
        ensures
            e.wf(),
            e.state == EngineState::Idle,
            e.processor == processor,
            e.sources == sources,
    {
        Engine { state: EngineState::Idle, processor, sources }
    }

    /// Enters the running loop.
    pub fn start(&mut self)
        requires
            old(self).wf(),
            old(self).state == EngineState::Idle,
        ensures
            final(self).wf(),
            final(self).state == EngineState::Running,
            final(self).processor == old(self).processor,
            final(self).sources == old(self).sources,
    {
        self.state = EngineState::Running;
    }

    /// One iteration of the running loop: processes the next event in the
    /// given application context. Only a running engine processes events,
    /// so no event is processed - and no action produced - once shutdown
    /// has begun.
    pub fn handle_event(&mut self, ev: &Event, ctx: &AppContext) -> (out: ProcessOutput)
        requires
            old(self).wf(),
            old(self).state == EngineState::Running,
        ensures
            final(self).wf(),
            final(self).state == EngineState::Running,
            final(self).sources == old(self).sources,
            final(self).processor.config == old(self).processor.config,
            final(self).processor.matcher.defs == old(self).processor.matcher.defs,
            final(self).processor.matcher.typed@ == typed_step(
                old(self).processor.matcher.typed@,
                *ev,
            ),
            (match *ev {
                Event::Key(k) => match key_char_spec(k) {
                    Some(c) => exists|cands: Seq<CompletedMatch>|
                        {
                            &&& #[trigger] candidates_ok(
                                old(self).processor.matcher.defs@,
                                old(self).processor.matcher.typed@,
                                c,
                                bump(old(self).processor.matcher.events_seen),
                                cands,
                            )
                            &&& output_ok(
                                old(self).processor.matcher.defs@,
                                active_ids_spec(old(self).processor.config, *ctx),
                                cands,
                                out,
                            )
                        },
                    None => output_is_noop(out),
                },
                _ => output_is_noop(out),
            }),
    {
        self.processor.process(ev, ctx)
    }

    /// Records the loss of one input source. The engine keeps serving the
    /// remaining sources; losing the last one is fatal and begins the
    /// shutdown.
    pub fn source_lost(&mut self) -> (fatal: bool)
        requires
            old(self).wf(),
            old(self).state == EngineState::Running,
        ensures
            final(self).wf(),
            final(self).processor == old(self).processor,
            final(self).sources == (if old(self).sources > 0 {
                (old(self).sources - 1) as usize
            } else {
                0usize
            }),
            fatal == (final(self).sources == 0),
            fatal ==> final(self).state == EngineState::ShuttingDown,
            !fatal ==> final(self).state == EngineState::Running,
    {
        if self.sources > 0 {
            self.sources = self.sources - 1;
        }
        if self.sources == 0 {
            self.state = EngineState::ShuttingDown;
            true
        } else {
            false
        }
    }

    /// Begins an orderly shutdown: no further event will be processed.
    pub fn shutdown(&mut self)
        requires
            old(self).wf(),
            old(self).state == EngineState::Running,
        ensures
            final(self).wf(),
            final(self).state == EngineState::ShuttingDown,
            final(self).processor == old(self).processor,
            final(self).sources == old(self).sources,
    {
        self.state = EngineState::ShuttingDown;
    }

    /// Finishes the shutdown once the surrounding layer has released its
    /// sources and executor.
    pub fn finish(&mut self)
        requires
            old(self).wf(),
            old(self).state == EngineState::ShuttingDown,
        ensures
            final(self).wf(),
            final(self).state == EngineState::Stopped,
            final(self).processor == old(self).processor,
            final(self).sources == old(self).sources,
    {
        self.state = EngineState::Stopped;
    }

    /// The engine's current lifecycle state.
    pub fn current_state(&self) -> (s: EngineState)
        ensures
            s == self.state,
    {
        self.state
    }
}

} // verus!
