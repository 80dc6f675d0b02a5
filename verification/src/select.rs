//! Match selection: when several triggers complete on the same event,
//! pick one deterministically, or report a tie for the surrounding layer
//! to resolve through its user interface.
//!
//! The policy is explicit: only candidates whose definition is active in
//! the current application context take part; the longest trigger wins;
//! equal lengths are ranked by the definition's configured priority; what
//! remains tied is reported as ambiguous.

use vstd::prelude::*;

use crate::rolling::CompletedMatch;
use crate::triggers::MatchDef;

verus! {

/// The pattern length of a candidate's trigger.
pub open spec fn cand_len(defs: Seq<MatchDef>, m: CompletedMatch) -> int {
    defs[m.idx as int].pattern@.len() as int
}

/// The configured tie-break priority of a candidate's trigger.
pub open spec fn cand_prio(defs: Seq<MatchDef>, m: CompletedMatch) -> int {
    defs[m.idx as int].priority as int
}

/// Strict ranking between two candidates: a longer trigger wins, equal
/// lengths are ranked by higher priority.
pub open spec fn beats(defs: Seq<MatchDef>, a: CompletedMatch, b: CompletedMatch) -> bool {
    cand_len(defs, a) > cand_len(defs, b) || (cand_len(defs, a) == cand_len(defs, b) && cand_prio(
        defs,
        a,
    ) > cand_prio(defs, b))
}

/// Two candidates rank equal: same trigger length and same priority.
pub open spec fn rank_eq(defs: Seq<MatchDef>, a: CompletedMatch, b: CompletedMatch) -> bool {
    cand_len(defs, a) == cand_len(defs, b) && cand_prio(defs, a) == cand_prio(defs, b)
}

/// A candidate takes part in selection when its definition is active.
pub open spec fn is_active(ids: Seq<u64>, m: CompletedMatch) -> bool {
    ids.contains(m.id)
}

/// The index of the winning active candidate: the first candidate that no
/// later active candidate strictly beats; `-1` when no candidate is
/// active.
pub open spec fn best_active(ids: Seq<u64>, defs: Seq<MatchDef>, cands: Seq<CompletedMatch>) -> int
    decreases cands.len(),
{
    if cands.len() == 0 {
        -1
    } else {
        let rest = best_active(ids, defs, cands.drop_last());
        let last = cands.len() - 1;
        if !is_active(ids, cands[last]) {
            rest
        } else if rest < 0 {
            last
        } else if beats(defs, cands[last], cands[rest]) {
            last
        } else {
            rest
        }
    }
}

/// The indices, in order, of the active candidates among the first `j`
/// that rank equal to the winner `cands[b]`.
pub open spec fn tied_active(
    ids: Seq<u64>,
    defs: Seq<MatchDef>,
    cands: Seq<CompletedMatch>,
    b: int,
    j: int,
) -> Seq<usize>
    decreases j,
{
    if j <= 0 {
        Seq::empty()
    } else {
        let pre = tied_active(ids, defs, cands, b, j - 1);
        if is_active(ids, cands[j - 1]) && rank_eq(defs, cands[j - 1], cands[b]) {
            pre.push((j - 1) as usize)
        } else {
            pre
        }
    }
}

/// The outcome of selection over one candidate set.
pub enum Selection {
    /// No active candidate: nothing fires on this event.
    Empty,
    /// A single best candidate, at this index of the candidate set.
    Chosen { index: usize },
    /// Two or more active candidates rank equal at the top; their indices
    /// are reported for the user interface to resolve.
    Ambiguous { tied: Vec<usize> },
}

/// What `select_candidate` promises: the outcome is the pure function of
/// the candidate set, the active set and the tie-break data given by
/// `best_active` and `tied_active`.
pub open spec fn selection_ok(
    ids: Seq<u64>,
    defs: Seq<MatchDef>,
    cands: Seq<CompletedMatch>,
    s: Selection,
) -> bool {
    let b = best_active(ids, defs, cands);
    let tied = tied_active(ids, defs, cands, b, cands.len() as int);
    match s {
        Selection::Empty => b < 0,
        Selection::Chosen { index } => b >= 0 && index == b && tied.len() == 1,
        Selection::Ambiguous { tied: t } => b >= 0 && t@ == tied && tied.len() >= 2,
    }
}

/// The winner is in range, active, and no candidate in the set beats it;
/// every candidate it ties with is recorded among the tied indices.
pub proof fn lemma_best_active_maximal(
    ids: Seq<u64>,
    defs: Seq<MatchDef>,
    cands: Seq<CompletedMatch>,
    n: int,
)
    requires
        0 <= n < cands.len(),
        is_active(ids, cands[n]),
    ensures
        0 <= best_active(ids, defs, cands) < cands.len(),
        is_active(ids, cands[best_active(ids, defs, cands)]),
        !beats(defs, cands[n], cands[best_active(ids, defs, cands)]),
    decreases cands.len(),
{
    let b = best_active(ids, defs, cands);
    let last = cands.len() - 1;
    if n < last {
        assert(cands.drop_last()[n] == cands[n]);
        lemma_best_active_maximal(ids, defs, cands.drop_last(), n);
        let rb = best_active(ids, defs, cands.drop_last());
        assert(cands.drop_last()[rb] == cands[rb]);
    } else {
        let rb = best_active(ids, defs, cands.drop_last());
        if cands.len() == 1 {
            assert(cands.drop_last().len() == 0);
            assert(rb == -1);
        } else if rb >= 0 {
            lemma_best_active_in_range(ids, defs, cands.drop_last());
            assert(cands.drop_last()[rb] == cands[rb]);
        }
    }
}

/// When some active candidate exists the winner is a valid, active index.
pub proof fn lemma_best_active_in_range(
    ids: Seq<u64>,
    defs: Seq<MatchDef>,
    cands: Seq<CompletedMatch>,
)
    requires
        best_active(ids, defs, cands) >= 0,
    ensures
        best_active(ids, defs, cands) < cands.len(),
        is_active(ids, cands[best_active(ids, defs, cands)]),
    decreases cands.len(),
{
    if cands.len() > 0 {
        let rb = best_active(ids, defs, cands.drop_last());
        if rb >= 0 {
            lemma_best_active_in_range(ids, defs, cands.drop_last());
            assert(cands.drop_last()[rb] == cands[rb]);
        }
    }
}

/// Selector determinism: the selection is a pure function of the
/// candidate set, the active set and the tie-break data. Two outcomes
/// admissible for the same inputs are the same outcome.
pub proof fn lemma_selector_deterministic(
    ids: Seq<u64>,
    defs: Seq<MatchDef>,
    cands: Seq<CompletedMatch>,
    s1: Selection,
    s2: Selection,
)
    requires
        selection_ok(ids, defs, cands, s1),
        selection_ok(ids, defs, cands, s2),
    ensures
        match (s1, s2) {
            (Selection::Empty, Selection::Empty) => true,
            (Selection::Chosen { index: i1 }, Selection::Chosen { index: i2 }) => i1 == i2,
            (Selection::Ambiguous { tied: t1 }, Selection::Ambiguous { tied: t2 }) => t1@ == t2@,
            _ => false,
        },
{
}

/// The winner itself is always recorded among the tied indices.
proof fn lemma_tied_contains_best(
    ids: Seq<u64>,
    defs: Seq<MatchDef>,
    cands: Seq<CompletedMatch>,
    b: int,
    j: int,
)
    requires
        0 <= b < j,
        b < cands.len(),
        is_active(ids, cands[b]),
    ensures
        tied_active(ids, defs, cands, b, j).len() >= 1,
    decreases j,
{
    if j - 1 > b {
        lemma_tied_contains_best(ids, defs, cands, b, j - 1);
    }
}

/// Whether `ids` lists the identifier `id`.
pub fn contains_id(ids: &Vec<u64>, id: u64) -> (b: bool)
    ensures
        b == ids@.contains(id),
{
    let mut n: usize = 0;
    while n < ids.len()
        invariant
            n <= ids@.len(),
            forall|m: int| 0 <= m < n ==> ids@[m] != id,
        decreases ids@.len() - n,
    {
        if ids[n] == id {
            return true;
        }
        n += 1;
    }
    false
}

/// Picks the winning candidate, or reports the tied ones. The outcome is
/// deterministic: it equals the spec-level selection exactly.
pub fn select_candidate(
    ids: &Vec<u64>,
    defs: &Vec<MatchDef>,
    cands: &Vec<CompletedMatch>,
) -> (s: Selection)
    requires
        forall|n: int| 0 <= n < cands@.len() ==> (#[trigger] cands@[n]).idx < defs@.len(),
    ensures
        selection_ok(ids@, defs@, cands@, s),
{
    let mut best: Option<usize> = None;
    let mut n: usize = 0;
    while n < cands.len()
        invariant
            n <= cands@.len(),
            forall|m: int| 0 <= m < cands@.len() ==> (#[trigger] cands@[m]).idx < defs@.len(),
            match best {
                Some(b) => b == best_active(ids@, defs@, cands@.take(n as int)) && b < n,
                None => best_active(ids@, defs@, cands@.take(n as int)) < 0,
            },
        decreases cands@.len() - n,
    {
        let ghost pre = cands@.take(n as int);
        proof {
            assert(cands@.take(n as int + 1).drop_last() =~= pre);
            assert(cands@.take(n as int + 1)[n as int] == cands@[n as int]);
        }
        if contains_id(ids, cands[n].id) {
            match best {
                None => {
                    best = Some(n);
                },
                Some(b) => {
                    let db = &defs[cands[b].idx];
                    let dn = &defs[cands[n].idx];
                    let better = dn.pattern.len() > db.pattern.len() || (dn.pattern.len()
                        == db.pattern.len() && dn.priority > db.priority);
                    if better {
                        best = Some(n);
                    }
                },
            }
        }
        n += 1;
        proof {
            assert(cands@.take(n as int).drop_last() =~= cands@.take(n as int - 1));
        }
    }
    proof {
        assert(cands@.take(cands@.len() as int) =~= cands@);
    }
    match best {
        None => Selection::Empty,
        Some(b) => {
            let ghost gb = best_active(ids@, defs@, cands@);
            let mut tied: Vec<usize> = Vec::new();
            let mut j: usize = 0;
            while j < cands.len()
                invariant
                    j <= cands@.len(),
                    forall|m: int|
                        0 <= m < cands@.len() ==> (#[trigger] cands@[m]).idx < defs@.len(),
                    b < cands@.len(),
                    b == best_active(ids@, defs@, cands@),
                    tied@ == tied_active(ids@, defs@, cands@, b as int, j as int),
                decreases cands@.len() - j,
            {
                if contains_id(ids, cands[j].id) {
                    let dj = &defs[cands[j].idx];
                    let db = &defs[cands[b].idx];
                    if dj.pattern.len() == db.pattern.len() && dj.priority == db.priority {
                        tied.push(j);
                    }
                }
                j += 1;
            }
            proof {
                lemma_best_active_in_range(ids@, defs@, cands@);
                lemma_tied_contains_best(ids@, defs@, cands@, b as int, cands@.len() as int);
            }
            if tied.len() == 1 {
                Selection::Chosen { index: b }
            } else {
                Selection::Ambiguous { tied }
            }
        },
    }
}

} // verus!
