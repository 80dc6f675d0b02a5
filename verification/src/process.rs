//! The processor: per event, resolve the application context against the
//! configuration, run the rolling matcher, select among the completed
//! triggers, and produce at most one output action.

use vstd::prelude::*;

use crate::event::Event;
use crate::event::key_char_spec;
use crate::event::typed_step;
use crate::rolling::CompletedMatch;
use crate::rolling::RollingMatcher;
use crate::rolling::bump;
use crate::rolling::candidates_ok;
use crate::select::Selection;
use crate::select::best_active;
use crate::select::lemma_best_active_in_range;
use crate::select::select_candidate;
use crate::select::selection_ok;
use crate::select::tied_active;
use crate::triggers::MatchDef;

verus! {

/// The identity of the focused application, snapshotted once per event
/// cycle by the surrounding layer.
pub struct AppContext {
    pub app: String,
    pub title: String,
}

/// A per-application scope: `None` fields match any value, `Some` fields
/// must equal the context's value.
pub struct AppFilter {
    pub app: Option<String>,
    pub title: Option<String>,
}

/// One configuration profile: the applications it applies to and the
/// identifiers of the match definitions active there.
pub struct ConfigProfile {
    pub filter: AppFilter,
    pub active_ids: Vec<u64>,
}

/// The configuration snapshot: profiles tried in order, and the global
/// fallback set used when no profile matches the context (so an
/// unresolved context degrades to the default set, never to a failure).
pub struct ConfigStore {
    pub profiles: Vec<ConfigProfile>,
    pub default_ids: Vec<u64>,
}

pub open spec fn filter_matches_spec(f: AppFilter, ctx: AppContext) -> bool {
    &&& match f.app {
        Some(s) => s@ == ctx.app@,
        None => true,
    }
    &&& match f.title {
        Some(s) => s@ == ctx.title@,
        None => true,
    }
}

/// The index of the first profile at or after `j` whose filter matches
/// the context, or `-1` when none does.
pub open spec fn first_profile(profiles: Seq<ConfigProfile>, ctx: AppContext, j: int) -> int
    decreases profiles.len() - j,
{
    if j < 0 || j >= profiles.len() {
        -1
    } else if filter_matches_spec(profiles[j].filter, ctx) {
        j
    } else {
        first_profile(profiles, ctx, j + 1)
    }
}

/// The identifiers active in the given context: the first matching
/// profile's set, or the default set when no profile matches.
pub open spec fn active_ids_spec(store: ConfigStore, ctx: AppContext) -> Seq<u64> {
    let p = first_profile(store.profiles@, ctx, 0);
    if p < 0 {
        store.default_ids@
    } else {
        store.profiles@[p].active_ids@
    }
}

fn filter_matches(f: &AppFilter, ctx: &AppContext) -> (b: bool)
    ensures
        b == filter_matches_spec(*f, *ctx),
{
    let app_ok = match &f.app {
        Some(s) => *s == ctx.app,
        None => true,
    };
    let title_ok = match &f.title {
        Some(s) => *s == ctx.title,
        None => true,
    };
    app_ok && title_ok
}

impl ConfigStore {
    /// The active identifier set for a context, with snapshot semantics:
    /// the result is read-only and recomputed per call.
    pub fn active_ids(&self, ctx: &AppContext) -> (ids: &Vec<u64>)
        ensures
            ids@ == active_ids_spec(*self, *ctx),
    {
        let mut j: usize = 0;
        while j < self.profiles.len()
            invariant
                j <= self.profiles@.len(),
                first_profile(self.profiles@, *ctx, 0) == first_profile(
                    self.profiles@,
                    *ctx,
                    j as int,
                ),
            decreases self.profiles@.len() - j,
        {
            if filter_matches(&self.profiles[j].filter, ctx) {
                return &self.profiles[j].active_ids;
            }
            j += 1;
        }
        &self.default_ids
    }
}

/// The single unit of output work produced by one event cycle: delete the
/// typed trigger, then insert the replacement - or do nothing.
pub enum Action {
    Inject { delete_count: usize, text: String },
    NoOp,
}

pub open spec fn is_noop(a: Action) -> bool {
    match a {
        Action::NoOp => true,
        _ => false,
    }
}

/// The text injected for a fired candidate: the replacement, with the
/// firing boundary key re-typed after it when one was consumed.
pub open spec fn inject_text_spec(defs: Seq<MatchDef>, m: CompletedMatch) -> Seq<char> {
    match m.delimiter {
        Some(c) => defs[m.idx as int].replacement@.push(c),
        None => defs[m.idx as int].replacement@,
    }
}

/// How many already-typed characters must be erased before injecting:
/// the typed trigger itself, plus the boundary key when one fired it.
pub open spec fn delete_count_spec(m: CompletedMatch) -> int {
    match m.delimiter {
        Some(_) => if m.matched@.len() + 1 <= usize::MAX {
            m.matched@.len() as int + 1
        } else {
            usize::MAX as int
        },
        None => m.matched@.len() as int,
    }
}

/// The action `a` is exactly the injection for candidate `m`.
pub open spec fn action_for(defs: Seq<MatchDef>, m: CompletedMatch, a: Action) -> bool {
    match a {
        Action::Inject { delete_count, text } => {
            &&& delete_count == delete_count_spec(m)
            &&& text@ == inject_text_spec(defs, m)
        },
        Action::NoOp => false,
    }
}

/// Relies on String::push: it appends the given character at the end of
/// the string.
#[verifier::external_body]
fn push_char(s: &mut String, c: char)
    ensures
        final(s)@ == old(s)@.push(c),
{
    s.push(c);
}

/// Builds the injection action for a fired candidate.
fn build_action(defs: &Vec<MatchDef>, m: &CompletedMatch) -> (a: Action)
    requires
        m.idx < defs@.len(),
    ensures
        action_for(defs@, *m, a),
{
    let mut text = defs[m.idx].replacement.clone();
    let delete_count: usize = match m.delimiter {
        Some(c) => {
            push_char(&mut text, c);
            if m.matched.len() < usize::MAX {
                m.matched.len() + 1
            } else {
                usize::MAX
            }
        },
        None => m.matched.len(),
    };
    Action::Inject { delete_count, text }
}

/// What one event cycle hands back: a single authoritative action, or a
/// suspended cycle whose tied candidates await a user choice.
pub enum ProcessOutput {
    Done { action: Action },
    NeedsChoice { candidates: Vec<CompletedMatch>, tied: Vec<usize> },
}

pub open spec fn output_is_noop(out: ProcessOutput) -> bool {
    match out {
        ProcessOutput::Done { action } => is_noop(action),
        _ => false,
    }
}

/// The output follows from the candidate set under the selection policy:
/// no active candidate gives no action; a unique best active candidate
/// gives exactly its injection; a tie surfaces the candidates and the
/// tied indices unchanged.
pub open spec fn output_ok(
    defs: Seq<MatchDef>,
    ids: Seq<u64>,
    cands: Seq<CompletedMatch>,
    out: ProcessOutput,
) -> bool {
    let b = best_active(ids, defs, cands);
    let tied = tied_active(ids, defs, cands, b, cands.len() as int);
    match out {
        ProcessOutput::Done { action } => {
            if b < 0 {
                is_noop(action)
            } else {
                tied.len() == 1 && action_for(defs, cands[b], action)
            }
        },
        ProcessOutput::NeedsChoice { candidates, tied: t } => {
            &&& b >= 0
            &&& tied.len() >= 2
            &&& candidates@ == cands
            &&& t@ == tied
        },
    }
}

/// The processor: the rolling matcher over its immutable definition
/// snapshot, plus the configuration used to scope matches per context.
pub struct Processor {
    pub matcher: RollingMatcher,
    pub config: ConfigStore,
}

impl Processor {
    pub open spec fn wf(&self) -> bool {
        self.matcher.wf()
    }

    pub fn new(matcher: RollingMatcher, config: ConfigStore) -> (p: Processor)
        requires
            matcher.wf(),
        ensures
            p.wf(),
            p.matcher == matcher,
            p.config == config,
    {
        Processor { matcher, config }
    }

    /// One event cycle: step the matcher, scope the completed candidates
    /// by the context's active set, select, and emit at most one action.
    /// The processor never touches the surrounding system; it only
    /// produces the action.
    pub fn process(&mut self, ev: &Event, ctx: &AppContext) -> (out: ProcessOutput)
        requires
            old(self).wf(),
        ensures
            final(self).wf(),
            final(self).config == old(self).config,
            final(self).matcher.defs == old(self).matcher.defs,
            final(self).matcher.typed@ == typed_step(old(self).matcher.typed@, *ev),
            final(self).matcher.events_seen == bump(old(self).matcher.events_seen),
            (match *ev {
                Event::Key(k) => match key_char_spec(k) {
                    Some(c) => exists|cands: Seq<CompletedMatch>|
                        {
                            &&& #[trigger] candidates_ok(
                                old(self).matcher.defs@,
                                old(self).matcher.typed@,
                                c,
                                bump(old(self).matcher.events_seen),
                                cands,
                            )
                            &&& output_ok(
                                old(self).matcher.defs@,
                                active_ids_spec(old(self).config, *ctx),
                                cands,
                                out,
                            )
                        },
                    None => output_is_noop(out),
                },
                _ => output_is_noop(out),
            }),
    {
        let candidates = self.matcher.handle(ev);
        let ghost defs0 = self.matcher.defs@;
        let ghost cands0 = candidates@;
        let ghost ids0 = active_ids_spec(self.config, *ctx);
        if candidates.len() == 0 {
            proof {
                assert(best_active(ids0, defs0, cands0) == -1);
            }
            return ProcessOutput::Done { action: Action::NoOp };
        }
        let ids = self.config.active_ids(ctx);
        let sel = select_candidate(ids, &self.matcher.defs, &candidates);
        match sel {
            Selection::Empty => ProcessOutput::Done { action: Action::NoOp },
            Selection::Chosen { index } => {
                proof {
                    lemma_best_active_in_range(ids0, defs0, cands0);
                }
                let a = build_action(&self.matcher.defs, &candidates[index]);
                ProcessOutput::Done { action: a }
            },
            Selection::Ambiguous { tied } => ProcessOutput::NeedsChoice { candidates, tied },
        }
    }

    /// Resolves a surfaced ambiguity with the user's pick among the
    /// candidates handed back earlier: a valid pick yields exactly that
    /// candidate's injection; a cancelled or out-of-range pick resolves
    /// to no action.
    pub fn apply_choice(&self, candidates: &Vec<CompletedMatch>, pick: Option<usize>) -> (a:
        Action)
        ensures
            match pick {
                Some(p) => if p < candidates@.len() && candidates@[p as int].idx
                    < self.matcher.defs@.len() {
                    action_for(self.matcher.defs@, candidates@[p as int], a)
                } else {
                    is_noop(a)
                },
                None => is_noop(a),
            },
    {
        match pick {
            Some(p) => {
                if p < candidates.len() && candidates[p].idx < self.matcher.defs.len() {
                    build_action(&self.matcher.defs, &candidates[p])
                } else {
                    Action::NoOp
                }
            },
            None => Action::NoOp,
        }
    }
}

} // verus!
