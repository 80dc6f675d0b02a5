//! The rolling matcher: incremental multi-pattern matching over an
//! unbounded keystroke stream.
//!
//! The matcher keeps, per configured trigger, every length `k` such that
//! the last `k` typed characters equal the first `k` pattern characters
//! under the trigger's case rule. Keeping all such lengths (not only the
//! longest) is what lets a trigger start matching again mid-stream, e.g.
//! "aab" still fires inside "aaab". Each key press updates this state with
//! work bounded by the number of live partial matches plus the number of
//! triggers, never by the length of the stream.

use vstd::prelude::*;

use crate::chars::ch_eq;
use crate::chars::ch_eq_spec;
use crate::chars::is_boundary;
use crate::chars::is_boundary_spec;
use crate::event::Event;
use crate::event::Key;
use crate::event::key_char;
use crate::event::key_char_spec;
use crate::event::typed_step;
use crate::triggers::MatchDef;
use crate::triggers::def_wf;
use crate::triggers::defs_wf;

verus! {

/// The last `k` characters of `typed` equal the first `k` characters of
/// `pattern` under the case rule `cs`.
pub open spec fn suffix_matches(typed: Seq<char>, pattern: Seq<char>, cs: bool, k: int) -> bool {
    &&& 0 <= k <= typed.len()
    &&& k <= pattern.len()
    &&& forall|j: int|
        0 <= j < k ==> ch_eq_spec(typed[typed.len() - k + j], #[trigger] pattern[j], cs)
}

/// The character just before the last `k` typed characters is a word
/// boundary, or those `k` characters are the whole stream.
pub open spec fn left_ok_spec(typed: Seq<char>, k: int) -> bool {
    k == typed.len() || is_boundary_spec(typed[typed.len() - k - 1])
}

/// One in-progress match: `matched` holds the literally typed characters
/// (needed to recover the original casing of a case-insensitive match),
/// and `left_ok` records whether a word boundary preceded them.
pub struct PartialEntry {
    pub idx: usize,
    pub matched: Vec<char>,
    pub left_ok: bool,
}

/// What a well-formed entry says about the typed stream.
pub open spec fn entry_wf(defs: Seq<MatchDef>, typed: Seq<char>, e: PartialEntry) -> bool {
    let k = e.matched@.len() as int;
    &&& e.idx < defs.len()
    &&& 1 <= k <= defs[e.idx as int].pattern@.len()
    &&& (k == defs[e.idx as int].pattern@.len() ==> defs[e.idx as int].right_word)
    &&& k <= typed.len()
    &&& e.matched@ == typed.skip(typed.len() - k)
    &&& forall|j: int|
        0 <= j < k ==> ch_eq_spec(
            e.matched@[j],
            #[trigger] defs[e.idx as int].pattern@[j],
            defs[e.idx as int].case_sensitive,
        )
    &&& e.left_ok == left_ok_spec(typed, k)
}

/// Trigger `i` should hold a partial entry of length `k`: the stream's tail
/// matches that much of the pattern, and either the pattern is not yet
/// exhausted or the trigger waits for a right boundary key.
pub open spec fn valid_slot(defs: Seq<MatchDef>, typed: Seq<char>, i: int, k: int) -> bool {
    &&& 0 <= i < defs.len()
    &&& 1 <= k <= defs[i].pattern@.len()
    &&& k <= typed.len()
    &&& (k < defs[i].pattern@.len() || defs[i].right_word)
    &&& suffix_matches(typed, defs[i].pattern@, defs[i].case_sensitive, k)
}

/// Some entry of `ps` records a partial match of length `k` for trigger `i`.
pub open spec fn has_entry(ps: Seq<PartialEntry>, i: int, k: int) -> bool {
    exists|n: int|
        0 <= n < ps.len() && ps[n].idx == i && #[trigger] ps[n].matched@.len() == k
}

/// The partial-entry set is exactly the set of valid slots, without
/// duplicates, and every entry is internally consistent with the stream.
pub open spec fn frame_wf(defs: Seq<MatchDef>, typed: Seq<char>, ps: Seq<PartialEntry>) -> bool {
    &&& forall|n: int| 0 <= n < ps.len() ==> entry_wf(defs, typed, #[trigger] ps[n])
    &&& forall|n1: int, n2: int|
        0 <= n1 < n2 < ps.len() ==> !(ps[n1].idx == ps[n2].idx && #[trigger] ps[n1].matched@.len()
            == #[trigger] ps[n2].matched@.len())
    &&& forall|i: int, k: int| #[trigger] valid_slot(defs, typed, i, k) ==> has_entry(ps, i, k)
}

/// A trigger fires on key `c` given the stream `typed` before the key:
/// either it needs no right boundary and `c` itself finishes the pattern,
/// or it waits for a right boundary and `c` is one while the pattern is
/// already fully typed. In both cases the left boundary rule, if the
/// trigger has one, must hold where the match starts.
pub open spec fn completes_now(def: MatchDef, typed: Seq<char>, c: char) -> bool {
    let p = def.pattern@;
    if !def.right_word {
        &&& suffix_matches(typed.push(c), p, def.case_sensitive, p.len() as int)
        &&& (!def.left_word || left_ok_spec(typed.push(c), p.len() as int))
    } else {
        &&& is_boundary_spec(c)
        &&& suffix_matches(typed, p, def.case_sensitive, p.len() as int)
        &&& (!def.left_word || left_ok_spec(typed, p.len() as int))
    }
}

/// The literally typed text of a trigger firing on key `c`.
pub open spec fn completed_text(def: MatchDef, typed: Seq<char>, c: char) -> Seq<char> {
    let p = def.pattern@;
    if !def.right_word {
        typed.push(c).skip(typed.len() + 1 - p.len())
    } else {
        typed.skip(typed.len() - p.len())
    }
}

/// A trigger that reached full length and passed its boundary checks,
/// reported to the processor.
pub struct CompletedMatch {
    /// Index of the definition in the matcher's snapshot.
    pub idx: usize,
    /// The definition's stable identifier.
    pub id: u64,
    /// The literally typed trigger text, for case-preserving replacement.
    pub matched: Vec<char>,
    /// The boundary key that fired a right-boundary trigger, if any.
    pub delimiter: Option<char>,
    /// The event at which the trigger completed.
    pub event_index: u64,
}

/// The candidate set handed back by one matcher step is sound (every
/// candidate really fires on this key, with the right text and delimiter),
/// complete (every firing trigger is represented), and lists each trigger
/// at most once.
pub open spec fn candidates_ok(
    defs: Seq<MatchDef>,
    typed: Seq<char>,
    c: char,
    ev_idx: u64,
    res: Seq<CompletedMatch>,
) -> bool {
    &&& forall|n: int|
        0 <= n < res.len() ==> {
            let m = #[trigger] res[n];
            &&& m.idx < defs.len()
            &&& completes_now(defs[m.idx as int], typed, c)
            &&& m.id == defs[m.idx as int].id
            &&& m.matched@ == completed_text(defs[m.idx as int], typed, c)
            &&& m.delimiter == (if defs[m.idx as int].right_word {
                Some(c)
            } else {
                Option::<char>::None
            })
            &&& m.event_index == ev_idx
        }
    &&& forall|i: int|
        0 <= i < defs.len() && completes_now(#[trigger] defs[i], typed, c) ==> exists|n: int|
            0 <= n < res.len() && #[trigger] res[n].idx == i
    &&& forall|n1: int, n2: int| 0 <= n1 < n2 < res.len() ==> res[n1].idx != res[n2].idx
}

/// Copies a character vector.
fn clone_chars(v: &Vec<char>) -> (r: Vec<char>)
    ensures
        r@ == v@,
{
    let mut r: Vec<char> = Vec::new();
    let mut j: usize = 0;
    while j < v.len()
        invariant
            j <= v.len(),
            r@ == v@.take(j as int),
        decreases v.len() - j,
    {
        r.push(v[j]);
        j += 1;
        proof {
            assert(r@ =~= v@.take(j as int));
        }
    }
    proof {
        assert(r@ =~= v@);
    }
    r
}

/// Copies a character vector and appends one character.
fn extend_copy(v: &Vec<char>, c: char) -> (r: Vec<char>)
    ensures
        r@ == v@.push(c),
{
    let mut r = clone_chars(v);
    r.push(c);
    r
}

/// Copies the last `k` characters of `v`.
fn copy_tail(v: &Vec<char>, k: usize) -> (r: Vec<char>)
    requires
        k <= v@.len(),
    ensures
        r@ == v@.skip(v@.len() - k),
{
    let mut r: Vec<char> = Vec::new();
    let start: usize = v.len() - k;
    let mut j: usize = start;
    while j < v.len()
        invariant
            start <= j <= v@.len(),
            start == v@.len() - k,
            r@ == v@.subrange(start as int, j as int),
        decreases v.len() - j,
    {
        r.push(v[j]);
        j += 1;
        proof {
            assert(r@ =~= v@.subrange(start as int, j as int));
        }
    }
    proof {
        assert(r@ =~= v@.skip(v@.len() - k));
    }
    r
}

/// Whether the last `k` characters of `typed` match the first `k` pattern
/// characters of `def`.
fn suffix_check(def: &MatchDef, typed: &Vec<char>, k: usize) -> (r: bool)
    requires
        1 <= k <= typed@.len(),
        k <= def.pattern@.len(),
    ensures
        r == suffix_matches(typed@, def.pattern@, def.case_sensitive, k as int),
{
    let n: usize = typed.len();
    let start: usize = n - k;
    let mut j: usize = 0;
    while j < k
        invariant
            0 <= j <= k,
            k <= n,
            n == typed@.len(),
            k <= def.pattern@.len(),
            start == n - k,
            forall|jj: int|
                0 <= jj < j ==> ch_eq_spec(
                    typed@[typed@.len() - k + jj],
                    #[trigger] def.pattern@[jj],
                    def.case_sensitive,
                ),
        decreases k - j,
    {
        if !ch_eq(typed[start + j], def.pattern[j], def.case_sensitive) {
            return false;
        }
        j += 1;
    }
    true
}

/// Rebuilds the full partial-entry set for the given stream by checking,
/// for every definition, each candidate tail length. Used after a
/// backspace: un-typing a character is, by definition, equivalent to
/// replaying the stream without it, and the stream kept by the matcher is
/// exactly the history needed to do so without rescanning from the start.
fn compute_frame(defs: &Vec<MatchDef>, typed: &Vec<char>) -> (ps: Vec<PartialEntry>)
    requires
        defs_wf(defs@),
    ensures
        frame_wf(defs@, typed@, ps@),
{
    let mut ps: Vec<PartialEntry> = Vec::new();
    let tn: usize = typed.len();
    let mut i: usize = 0;
    while i < defs.len()
        invariant
            i <= defs.len(),
            tn == typed@.len(),
            defs_wf(defs@),
            forall|n: int| 0 <= n < ps@.len() ==> entry_wf(defs@, typed@, #[trigger] ps@[n]),
            forall|n: int| 0 <= n < ps@.len() ==> (#[trigger] ps@[n]).idx < i,
            forall|n1: int, n2: int|
                0 <= n1 < n2 < ps@.len() ==> !(ps@[n1].idx == ps@[n2].idx
                    && #[trigger] ps@[n1].matched@.len() == #[trigger] ps@[n2].matched@.len()),
            forall|ii: int, k: int|
                #[trigger] valid_slot(defs@, typed@, ii, k) && ii < i ==> has_entry(ps@, ii, k),
        decreases defs.len() - i,
    {
        let d = &defs[i];
        proof {
            assert(def_wf(defs@[i as int]));
        }
        let lim: usize = if d.right_word {
            d.pattern.len()
        } else {
            d.pattern.len() - 1
        };
        let kmax: usize = if lim <= tn {
            lim
        } else {
            tn
        };
        let mut kprev: usize = 0;
        while kprev < kmax
            invariant
                kprev <= kmax,
                i < defs.len(),
                tn == typed@.len(),
                kmax <= tn,
                kmax <= defs@[i as int].pattern@.len(),
                defs@[i as int].right_word || kmax < defs@[i as int].pattern@.len(),
                kmax == if lim <= tn { lim as int } else { tn as int },
                lim == if defs@[i as int].right_word {
                    defs@[i as int].pattern@.len() as int
                } else {
                    defs@[i as int].pattern@.len() - 1
                },
                defs_wf(defs@),
                d == defs@[i as int],
                forall|n: int| 0 <= n < ps@.len() ==> entry_wf(defs@, typed@, #[trigger] ps@[n]),
                forall|n: int| 0 <= n < ps@.len() ==> (#[trigger] ps@[n]).idx <= i,
                forall|n: int|
                    0 <= n < ps@.len() && (#[trigger] ps@[n]).idx == i ==> ps@[n].matched@.len()
                        <= kprev,
                forall|n1: int, n2: int|
                    0 <= n1 < n2 < ps@.len() ==> !(ps@[n1].idx == ps@[n2].idx
                        && #[trigger] ps@[n1].matched@.len() == #[trigger] ps@[n2].matched@.len()),
                forall|ii: int, kk: int|
                    #[trigger] valid_slot(defs@, typed@, ii, kk) && ii < i ==> has_entry(
                        ps@,
                        ii,
                        kk,
                    ),
                forall|kk: int|
                    #[trigger] valid_slot(defs@, typed@, i as int, kk) && kk <= kprev
                        ==> has_entry(ps@, i as int, kk),
            decreases kmax - kprev,
        {
            let k: usize = kprev + 1;
            if suffix_check(d, typed, k) {
                let matched = copy_tail(typed, k);
                let left_ok = if k == tn {
                    true
                } else {
                    is_boundary(typed[tn - k - 1])
                };
                let ghost ps_old = ps@;
                ps.push(PartialEntry { idx: i, matched, left_ok });
                proof {
                    let e = ps@[ps@.len() - 1];
                    assert(entry_wf(defs@, typed@, e)) by {
                        assert forall|j: int| 0 <= j < k implies ch_eq_spec(
                            e.matched@[j],
                            #[trigger] defs@[i as int].pattern@[j],
                            defs@[i as int].case_sensitive,
                        ) by {
                            assert(e.matched@[j] == typed@[typed@.len() - k + j]);
                        }
                    }
                    assert forall|ii: int, kk: int|
                        #[trigger] valid_slot(defs@, typed@, ii, kk) && (ii < i || (ii == i && kk
                            < k + 1)) implies has_entry(ps@, ii, kk) by {
                        if ii == i && kk == k {
                            assert(ps@[ps@.len() - 1].idx == ii && ps@[ps@.len() - 1].matched@.len()
                                == kk);
                        } else {
                            assert(has_entry(ps_old, ii, kk));
                            let n = choose|n: int|
                                0 <= n < ps_old.len() && ps_old[n].idx == ii
                                    && #[trigger] ps_old[n].matched@.len() == kk;
                            assert(ps@[n].idx == ii && ps@[n].matched@.len() == kk);
                        }
                    }
                }
            }
            kprev = k;
        }
        proof {
            assert forall|kk: int| #[trigger] valid_slot(
                defs@,
                typed@,
                i as int,
                kk,
            ) implies has_entry(ps@, i as int, kk) by {
                assert(kk <= kmax);
            }
        }
        i += 1;
    }
    ps
}

/// The typed character `c` carries entry `e` forward into a longer
/// partial match (the pattern continues and is not finished, or the entry
/// becomes a full match waiting for its right boundary key).
pub open spec fn entry_extends(defs: Seq<MatchDef>, e: PartialEntry, c: char) -> bool {
    let k = e.matched@.len() as int;
    let d = defs[e.idx as int];
    &&& k < d.pattern@.len()
    &&& ch_eq_spec(c, d.pattern@[k], d.case_sensitive)
    &&& (k + 1 < d.pattern@.len() || d.right_word)
}

/// The typed character `c` makes entry `e` fire: it finishes a pattern
/// with no right boundary rule, or it is a boundary key arriving after a
/// fully matched right-boundary pattern; the left rule must hold too.
pub open spec fn entry_fires(defs: Seq<MatchDef>, e: PartialEntry, c: char) -> bool {
    let k = e.matched@.len() as int;
    let d = defs[e.idx as int];
    if !d.right_word {
        &&& k + 1 == d.pattern@.len()
        &&& ch_eq_spec(c, d.pattern@[k], d.case_sensitive)
        &&& (!d.left_word || e.left_ok)
    } else {
        &&& k == d.pattern@.len()
        &&& is_boundary_spec(c)
        &&& (!d.left_word || e.left_ok)
    }
}

/// The length an entry must have reached for trigger `i` to fire on the
/// next key.
pub open spec fn fire_len(defs: Seq<MatchDef>, i: int) -> int {
    if defs[i].right_word {
        defs[i].pattern@.len() as int
    } else {
        defs[i].pattern@.len() - 1
    }
}

/// Some entry among the first `t` of `ps` is the source firing `cm`.
pub open spec fn completion_sourced(
    defs: Seq<MatchDef>,
    ps: Seq<PartialEntry>,
    t: int,
    cm: CompletedMatch,
) -> bool {
    exists|m: int|
        0 <= m < t && (#[trigger] ps[m]).idx == cm.idx && ps[m].matched@.len() == fire_len(
            defs,
            cm.idx as int,
        )
}

/// Some entry among the first `t` of `ps` is one character shorter than
/// `e` and belongs to the same trigger.
pub open spec fn extension_sourced(ps: Seq<PartialEntry>, t: int, e: PartialEntry) -> bool {
    exists|m: int|
        0 <= m < t && (#[trigger] ps[m]).idx == e.idx && ps[m].matched@.len() + 1
            == e.matched@.len()
}

/// Appending an element does not remove a recorded partial match.
proof fn lemma_push_keeps_entry(s: Seq<PartialEntry>, x: PartialEntry, i: int, k: int)
    requires
        has_entry(s, i, k),
    ensures
        has_entry(s.push(x), i, k),
{
    let n0 = choose|n: int|
        0 <= n < s.len() && s[n].idx == i && #[trigger] s[n].matched@.len() == k;
    assert(s.push(x)[n0].idx == i && s.push(x)[n0].matched@.len() == k);
}

/// Appending an element does not remove a recorded completion.
proof fn lemma_push_keeps_completion(s: Seq<CompletedMatch>, x: CompletedMatch, i: int)
    requires
        exists|n: int| 0 <= n < s.len() && #[trigger] s[n].idx == i,
    ensures
        exists|n: int| 0 <= n < s.push(x).len() && #[trigger] s.push(x)[n].idx == i,
{
    let n0 = choose|n: int| 0 <= n < s.len() && #[trigger] s[n].idx == i;
    assert(s.push(x)[n0].idx == i);
}

/// Appending `c` extends a tail match by exactly one position: the last
/// `k` characters of `typed + c` match the pattern's first `k` characters
/// iff the last `k - 1` characters of `typed` matched the first `k - 1`
/// and `c` matches position `k - 1`.
proof fn lemma_suffix_push(typed: Seq<char>, c: char, p: Seq<char>, cs: bool, k: int)
    requires
        1 <= k <= typed.len() + 1,
        k <= p.len(),
    ensures
        suffix_matches(typed.push(c), p, cs, k) <==> (suffix_matches(typed, p, cs, k - 1)
            && ch_eq_spec(c, p[k - 1], cs)),
{
    let t1 = typed.push(c);
    if suffix_matches(t1, p, cs, k) {
        assert(ch_eq_spec(t1[t1.len() - k + (k - 1)], p[k - 1], cs));
        assert(t1[t1.len() - 1] == c);
        assert forall|j: int| 0 <= j < k - 1 implies ch_eq_spec(
            typed[typed.len() - (k - 1) + j],
            #[trigger] p[j],
            cs,
        ) by {
            assert(t1[t1.len() - k + j] == typed[typed.len() - (k - 1) + j]);
        }
    }
    if suffix_matches(typed, p, cs, k - 1) && ch_eq_spec(c, p[k - 1], cs) {
        assert forall|j: int| 0 <= j < k implies ch_eq_spec(
            t1[t1.len() - k + j],
            #[trigger] p[j],
            cs,
        ) by {
            if j < k - 1 {
                assert(t1[t1.len() - k + j] == typed[typed.len() - (k - 1) + j]);
            } else {
                assert(t1[t1.len() - k + j] == c);
            }
        }
    }
}

/// Appending a character does not change which word boundary precedes a
/// tail match that now extends one position further.
proof fn lemma_left_push(typed: Seq<char>, c: char, k: int)
    requires
        1 <= k <= typed.len() + 1,
    ensures
        left_ok_spec(typed.push(c), k) == left_ok_spec(typed, k - 1),
{
    let t1 = typed.push(c);
    if k < t1.len() {
        assert(t1[t1.len() - k - 1] == typed[typed.len() - (k - 1) - 1]);
    }
}

/// The rolling matcher: an immutable snapshot of match definitions, the
/// characters typed since the last reset, and the live partial matches.
pub struct RollingMatcher {
    pub defs: Vec<MatchDef>,
    pub typed: Vec<char>,
    pub partials: Vec<PartialEntry>,
    pub events_seen: u64,
}

/// The event counter advances by one per event and saturates.
pub open spec fn bump(e: u64) -> u64 {
    if e < u64::MAX {
        (e + 1) as u64
    } else {
        e
    }
}

impl RollingMatcher {
    pub open spec fn wf(&self) -> bool {
        &&& defs_wf(self.defs@)
        &&& frame_wf(self.defs@, self.typed@, self.partials@)
    }

    /// Trigger `i` currently has a partial match covering the last `k`
    /// typed characters.
    pub open spec fn has_partial(&self, i: int, k: int) -> bool {
        has_entry(self.partials@, i, k)
    }

    /// Builds a matcher over an immutable snapshot of definitions, with an
    /// empty stream and no partial matches.
    pub fn new(defs: Vec<MatchDef>) -> (m: RollingMatcher)
        requires
            defs_wf(defs@),
        ensures
            m.wf(),
            m.defs@ == defs@,
            m.typed@ == Seq::<char>::empty(),
            m.partials@.len() == 0,
            m.events_seen == 0,
    {
        let m = RollingMatcher { defs, typed: Vec::new(), partials: Vec::new(), events_seen: 0 };
        proof {
            assert forall|i: int, k: int| #[trigger]
                valid_slot(m.defs@, m.typed@, i, k) implies has_entry(m.partials@, i, k) by {
                assert(k <= m.typed@.len());
            }
        }
        m
    }

    /// One step of the rolling match: consumes one event, updates the
    /// typed stream and the partial-match set, and returns the candidate
    /// set of triggers completing on this event.
    pub fn handle(&mut self, ev: &Event) -> (completed: Vec<CompletedMatch>)
        requires
            old(self).wf(),
        ensures
            final(self).wf(),
            final(self).defs == old(self).defs,
            final(self).typed@ == typed_step(old(self).typed@, *ev),
            final(self).events_seen == bump(old(self).events_seen),
            (match *ev {
                Event::Key(k) => match key_char_spec(k) {
                    Some(c) => candidates_ok(
                        final(self).defs@,
                        old(self).typed@,
                        c,
                        final(self).events_seen,
                        completed@,
                    ),
                    None => completed@.len() == 0,
                },
                _ => completed@.len() == 0,
            }),
    {
        self.events_seen = if self.events_seen < u64::MAX {
            self.events_seen + 1
        } else {
            self.events_seen
        };
        match ev {
            Event::Reset => {
                self.clear();
                Vec::new()
            },
            Event::Backspace => {
                if self.typed.len() > 0 {
                    self.typed.pop();
                    proof {
                        assert(self.typed@ =~= old(self).typed@.drop_last());
                    }
                }
                self.partials = compute_frame(&self.defs, &self.typed);
                Vec::new()
            },
            Event::Key(k) => match key_char(*k) {
                Some(c) => self.step_key(c),
                None => {
                    self.clear();
                    Vec::new()
                },
            },
        }
    }

    /// Advances every live partial match by the typed character `c`,
    /// starts new partial matches at `c`, and collects the triggers that
    /// complete on this key.
    fn step_key(&mut self, c: char) -> (completed: Vec<CompletedMatch>)
        requires
            defs_wf(old(self).defs@),
            frame_wf(old(self).defs@, old(self).typed@, old(self).partials@),
        ensures
            final(self).defs == old(self).defs,
            final(self).events_seen == old(self).events_seen,
            final(self).typed@ == old(self).typed@.push(c),
            frame_wf(final(self).defs@, final(self).typed@, final(self).partials@),
            candidates_ok(
                final(self).defs@,
                old(self).typed@,
                c,
                final(self).events_seen,
                completed@,
            ),
    {
        let ghost defs0 = self.defs@;
        let ghost typed0 = self.typed@;
        let ghost typed1 = self.typed@.push(c);
        let ghost ps0 = self.partials@;
        let mut newps: Vec<PartialEntry> = Vec::new();
        let mut completed: Vec<CompletedMatch> = Vec::new();
        let tn: usize = self.typed.len();
        let left0: bool = if tn == 0 {
            true
        } else {
            is_boundary(self.typed[tn - 1])
        };
        proof {
            assert(typed1[typed1.len() - 1] == c);
            if tn > 0 {
                assert(typed1[typed1.len() - 1 - 1] == typed0[typed0.len() - 1]);
            }
            assert(left0 == left_ok_spec(typed1, 1));
        }
        let pn: usize = self.partials.len();
        let mut t: usize = 0;
        while t < pn
            invariant
                t <= pn,
                pn == ps0.len(),
                self.defs@ == defs0,
                self.typed@ == typed0,
                self.partials@ == ps0,
                self.events_seen == old(self).events_seen,
                tn == typed0.len(),
                typed1 == typed0.push(c),
                defs_wf(defs0),
                frame_wf(defs0, typed0, ps0),
                left0 == left_ok_spec(typed1, 1),
                // entries built so far are consistent with the extended stream
                forall|n: int|
                    0 <= n < newps@.len() ==> entry_wf(defs0, typed1, #[trigger] newps@[n]),
                forall|n: int| 0 <= n < newps@.len() ==> (#[trigger] newps@[n]).matched@.len() >= 2,
                // each built entry extends a distinct already-processed entry
                forall|n: int|
                    0 <= n < newps@.len() ==> extension_sourced(ps0, t as int, #[trigger] newps@[n]),
                forall|n1: int, n2: int|
                    0 <= n1 < n2 < newps@.len() ==> !(newps@[n1].idx == newps@[n2].idx
                        && #[trigger] newps@[n1].matched@.len()
                        == #[trigger] newps@[n2].matched@.len()),
                // every processed entry that extends is represented
                forall|m: int|
                    0 <= m < t && entry_extends(defs0, ps0[m], c) ==> has_entry(
                        newps@,
                        (#[trigger] ps0[m]).idx as int,
                        ps0[m].matched@.len() as int + 1,
                    ),
                // completions collected so far are sound
                forall|n: int|
                    0 <= n < completed@.len() ==> {
                        let m = #[trigger] completed@[n];
                        &&& m.idx < defs0.len()
                        &&& completes_now(defs0[m.idx as int], typed0, c)
                        &&& m.id == defs0[m.idx as int].id
                        &&& m.matched@ == completed_text(defs0[m.idx as int], typed0, c)
                        &&& m.delimiter == (if defs0[m.idx as int].right_word {
                            Some(c)
                        } else {
                            Option::<char>::None
                        })
                        &&& m.event_index == self.events_seen
                        &&& (defs0[m.idx as int].right_word || defs0[m.idx as int].pattern@.len()
                            >= 2)
                    },
                forall|n: int|
                    0 <= n < completed@.len() ==> completion_sourced(
                        defs0,
                        ps0,
                        t as int,
                        #[trigger] completed@[n],
                    ),
                forall|n1: int, n2: int|
                    0 <= n1 < n2 < completed@.len() ==> completed@[n1].idx != completed@[n2].idx,
                // every processed entry that fires is represented
                forall|m: int|
                    0 <= m < t && entry_fires(defs0, ps0[m], c) ==> exists|n: int|
                        0 <= n < completed@.len() && completed@[n].idx == (
                        #[trigger] ps0[m]).idx,
            decreases pn - t,
        {
            proof {
                assert(entry_wf(defs0, typed0, ps0[t as int]));
            }
            let k = self.partials[t].matched.len();
            let i = self.partials[t].idx;
            let d = &self.defs[i];
            let ll = d.pattern.len();
            let ghost e = ps0[t as int];
            proof {
                // the stored text is literally the stream tail, so the
                // stream itself matches the pattern prefix
                assert forall|j: int| 0 <= j < k implies ch_eq_spec(
                    typed0[typed0.len() - k + j],
                    #[trigger] defs0[i as int].pattern@[j],
                    defs0[i as int].case_sensitive,
                ) by {
                    assert(e.matched@[j] == typed0[typed0.len() - k + j]);
                }
                assert(suffix_matches(typed0, defs0[i as int].pattern@, defs0[
                    i as int].case_sensitive, k as int));
            }
            if k < ll {
                if ch_eq(c, d.pattern[k], d.case_sensitive) {
                    proof {
                        lemma_suffix_push(
                            typed0,
                            c,
                            defs0[i as int].pattern@,
                            defs0[i as int].case_sensitive,
                            k + 1,
                        );
                        lemma_left_push(typed0, c, k + 1);
                    }
                    if k + 1 == ll && !d.right_word {
                        if !d.left_word || self.partials[t].left_ok {
                            let matched = extend_copy(&self.partials[t].matched, c);
                            let ghost completed_old = completed@;
                            completed.push(
                                CompletedMatch {
                                    idx: i,
                                    id: d.id,
                                    matched,
                                    delimiter: None,
                                    event_index: self.events_seen,
                                },
                            );
                            proof {
                                let ci = completed@.len() - 1;
                                assert(suffix_matches(typed1, defs0[i as int].pattern@, defs0[
                                    i as int].case_sensitive, k + 1));
                                assert(completes_now(defs0[i as int], typed0, c));
                                assert(completed@[ci].matched@ =~= completed_text(
                                    defs0[i as int],
                                    typed0,
                                    c,
                                ));
                                assert(entry_fires(defs0, ps0[t as int], c));
                                assert(ps0[t as int].matched@.len() == fire_len(defs0, i as int));
                                assert(completion_sourced(defs0, ps0, t as int + 1, completed@[ci]));
                                assert forall|n: int|
                                    0 <= n < ci implies (#[trigger] completed@[n]).idx != i by {
                                    if completed@[n].idx == i {
                                        assert(completed@[n] == completed_old[n]);
                                        assert(completion_sourced(
                                            defs0,
                                            ps0,
                                            t as int,
                                            completed_old[n],
                                        ));
                                        let m = choose|m: int|
                                            0 <= m < t && (#[trigger] ps0[m]).idx
                                                == completed_old[n].idx && ps0[m].matched@.len()
                                                == fire_len(defs0, completed_old[n].idx as int);
                                        assert(ps0[m].matched@.len() == ps0[
                                            t as int].matched@.len());
                                        assert(false);
                                    }
                                }
                                assert forall|n: int|
                                    0 <= n < completed@.len() implies completion_sourced(
                                    defs0,
                                    ps0,
                                    t as int + 1,
                                    #[trigger] completed@[n],
                                ) by {
                                    if n < ci {
                                        assert(completed@[n] == completed_old[n]);
                                        let m = choose|m: int|
                                            0 <= m < t && (#[trigger] ps0[m]).idx
                                                == completed_old[n].idx && ps0[m].matched@.len()
                                                == fire_len(defs0, completed_old[n].idx as int);
                                        assert(0 <= m < t + 1 && ps0[m].idx == completed@[n].idx
                                            && ps0[m].matched@.len() == fire_len(
                                            defs0,
                                            completed@[n].idx as int,
                                        ));
                                    }
                                }
                                assert forall|m: int|
                                    0 <= m < t + 1 && entry_fires(
                                        defs0,
                                        #[trigger] ps0[m],
                                        c,
                                    ) implies exists|n: int|
                                    0 <= n < completed@.len() && #[trigger] completed@[n].idx
                                        == ps0[m].idx by {
                                    if m == t {
                                        assert(completed@[ci].idx == ps0[m].idx);
                                    } else {
                                        lemma_push_keeps_completion(
                                            completed_old,
                                            completed@[ci],
                                            ps0[m].idx as int,
                                        );
                                    }
                                }
                            }
                        }
                    } else {
                        let matched = extend_copy(&self.partials[t].matched, c);
                        let le = self.partials[t].left_ok;
                        let ghost newps_old = newps@;
                        newps.push(PartialEntry { idx: i, matched, left_ok: le });
                        proof {
                            let ni = newps@.len() - 1;
                            let ne = newps@[ni];
                            assert(ne.matched@ =~= typed1.skip(typed1.len() - (k + 1)));
                            assert(entry_wf(defs0, typed1, ne)) by {
                                assert forall|j: int| 0 <= j < k + 1 implies ch_eq_spec(
                                    ne.matched@[j],
                                    #[trigger] defs0[i as int].pattern@[j],
                                    defs0[i as int].case_sensitive,
                                ) by {
                                    if j < k {
                                        assert(ne.matched@[j] == e.matched@[j]);
                                        assert(e.matched@[j] == typed0[typed0.len() - k + j]);
                                    } else {
                                        assert(ne.matched@[j] == c);
                                    }
                                }
                            }
                            assert(entry_extends(defs0, ps0[t as int], c));
                            assert(extension_sourced(ps0, t as int + 1, ne));
                            assert forall|n: int|
                                0 <= n < ni implies !((#[trigger] newps@[n]).idx == ne.idx
                                && newps@[n].matched@.len() == ne.matched@.len()) by {
                                if newps@[n].idx == ne.idx && newps@[n].matched@.len()
                                    == ne.matched@.len() {
                                    assert(newps@[n] == newps_old[n]);
                                    assert(extension_sourced(ps0, t as int, newps_old[n]));
                                    let m = choose|m: int|
                                        0 <= m < t && (#[trigger] ps0[m]).idx == newps_old[n].idx
                                            && ps0[m].matched@.len() + 1
                                            == newps_old[n].matched@.len();
                                    assert(ps0[m].matched@.len() == ps0[t as int].matched@.len());
                                    assert(false);
                                }
                            }
                            assert forall|n: int|
                                0 <= n < newps@.len() implies extension_sourced(
                                ps0,
                                t as int + 1,
                                #[trigger] newps@[n],
                            ) by {
                                if n < ni {
                                    assert(newps@[n] == newps_old[n]);
                                    let m = choose|m: int|
                                        0 <= m < t && (#[trigger] ps0[m]).idx == newps_old[n].idx
                                            && ps0[m].matched@.len() + 1
                                            == newps_old[n].matched@.len();
                                    assert(0 <= m < t + 1 && ps0[m].idx == newps@[n].idx && ps0[
                                        m
                                    ].matched@.len() + 1 == newps@[n].matched@.len());
                                }
                            }
                            assert forall|m: int|
                                0 <= m < t + 1 && entry_extends(
                                    defs0,
                                    #[trigger] ps0[m],
                                    c,
                                ) implies has_entry(
                                newps@,
                                ps0[m].idx as int,
                                ps0[m].matched@.len() as int + 1,
                            ) by {
                                if m == t {
                                    assert(newps@[ni].idx == ps0[m].idx && newps@[
                                        ni
                                    ].matched@.len() == ps0[m].matched@.len() + 1);
                                } else {
                                    lemma_push_keeps_entry(
                                        newps_old,
                                        ne,
                                        ps0[m].idx as int,
                                        ps0[m].matched@.len() as int + 1,
                                    );
                                }
                            }
                        }
                    }
                }
            } else {
                // fully matched and waiting for a right boundary key
                if is_boundary(c) && (!d.left_word || self.partials[t].left_ok) {
                    let matched = clone_chars(&self.partials[t].matched);
                    let ghost completed_old = completed@;
                    completed.push(
                        CompletedMatch {
                            idx: i,
                            id: d.id,
                            matched,
                            delimiter: Some(c),
                            event_index: self.events_seen,
                        },
                    );
                    proof {
                        let ci = completed@.len() - 1;
                        assert(k == defs0[i as int].pattern@.len());
                        assert(defs0[i as int].right_word);
                        assert(completes_now(defs0[i as int], typed0, c));
                        assert(completed@[ci].matched@ =~= completed_text(
                            defs0[i as int],
                            typed0,
                            c,
                        ));
                        assert(entry_fires(defs0, ps0[t as int], c));
                        assert(ps0[t as int].matched@.len() == fire_len(defs0, i as int));
                        assert(completion_sourced(defs0, ps0, t as int + 1, completed@[ci]));
                        assert forall|n: int|
                            0 <= n < ci implies (#[trigger] completed@[n]).idx != i by {
                            if completed@[n].idx == i {
                                assert(completed@[n] == completed_old[n]);
                                assert(completion_sourced(defs0, ps0, t as int, completed_old[n]));
                                let m = choose|m: int|
                                    0 <= m < t && (#[trigger] ps0[m]).idx == completed_old[n].idx
                                        && ps0[m].matched@.len() == fire_len(
                                        defs0,
                                        completed_old[n].idx as int,
                                    );
                                assert(ps0[m].matched@.len() == ps0[t as int].matched@.len());
                                assert(false);
                            }
                        }
                        assert forall|n: int|
                            0 <= n < completed@.len() implies completion_sourced(
                            defs0,
                            ps0,
                            t as int + 1,
                            #[trigger] completed@[n],
                        ) by {
                            if n < ci {
                                assert(completed@[n] == completed_old[n]);
                                let m = choose|m: int|
                                    0 <= m < t && (#[trigger] ps0[m]).idx == completed_old[n].idx
                                        && ps0[m].matched@.len() == fire_len(
                                        defs0,
                                        completed_old[n].idx as int,
                                    );
                                assert(0 <= m < t + 1 && ps0[m].idx == completed@[n].idx && ps0[
                                    m
                                ].matched@.len() == fire_len(defs0, completed@[n].idx as int));
                            }
                        }
                        assert forall|m: int|
                            0 <= m < t + 1 && entry_fires(defs0, #[trigger] ps0[m], c) implies
                        exists|n: int|
                            0 <= n < completed@.len() && #[trigger] completed@[n].idx == ps0[
                            m].idx by {
                            if m == t {
                                assert(completed@[ci].idx == ps0[m].idx);
                            } else {
                                lemma_push_keeps_completion(
                                    completed_old,
                                    completed@[ci],
                                    ps0[m].idx as int,
                                );
                            }
                        }
                    }
                }
            }
            t += 1;
        }
        proof {
            // every slot the extended stream calls for, except fresh starts,
            // comes from extending an entry the old frame was bound to hold
            assert forall|i: int, kk: int|
                valid_slot(defs0, typed1, i, kk) && kk >= 2 implies has_entry(
                newps@,
                i,
                kk,
            ) by {
                lemma_suffix_push(typed0, c, defs0[i].pattern@, defs0[i].case_sensitive, kk);
                assert(valid_slot(defs0, typed0, i, kk - 1));
                assert(has_entry(ps0, i, kk - 1));
                let m = choose|m: int|
                    0 <= m < ps0.len() && ps0[m].idx == i && #[trigger] ps0[m].matched@.len() == kk
                        - 1;
                assert(entry_extends(defs0, ps0[m], c));
            }
            // every trigger that fires other than from a fresh one-key match
            // fires from an entry the old frame was bound to hold
            assert forall|i: int|
                0 <= i < defs0.len() && completes_now(#[trigger] defs0[i], typed0, c) && !(
                defs0[i].pattern@.len() == 1 && !defs0[i].right_word) implies exists|n: int|
                0 <= n < completed@.len() && #[trigger] completed@[n].idx == i by {
                let p = defs0[i].pattern@;
                let ll = p.len() as int;
                if !defs0[i].right_word {
                    lemma_suffix_push(typed0, c, p, defs0[i].case_sensitive, ll);
                    lemma_left_push(typed0, c, ll);
                    assert(valid_slot(defs0, typed0, i, ll - 1));
                    assert(has_entry(ps0, i, ll - 1));
                    let m = choose|m: int|
                        0 <= m < ps0.len() && ps0[m].idx == i && #[trigger] ps0[m].matched@.len()
                            == ll - 1;
                    assert(ps0[m].left_ok == left_ok_spec(typed0, ll - 1));
                    assert(entry_fires(defs0, ps0[m], c));
                } else {
                    assert(valid_slot(defs0, typed0, i, ll));
                    assert(has_entry(ps0, i, ll));
                    let m = choose|m: int|
                        0 <= m < ps0.len() && ps0[m].idx == i && #[trigger] ps0[m].matched@.len()
                            == ll;
                    assert(entry_fires(defs0, ps0[m], c));
                }
            }
        }
        let ghost n_mid = newps@.len() as int;
        let dn: usize = self.defs.len();
        let mut i2: usize = 0;
        while i2 < dn
            invariant
                i2 <= dn,
                dn == defs0.len(),
                self.defs@ == defs0,
                self.typed@ == typed0,
                self.events_seen == old(self).events_seen,
                tn == typed0.len(),
                typed1 == typed0.push(c),
                defs_wf(defs0),
                left0 == left_ok_spec(typed1, 1),
                0 <= n_mid <= newps@.len(),
                forall|n: int|
                    0 <= n < newps@.len() ==> entry_wf(defs0, typed1, #[trigger] newps@[n]),
                forall|n: int|
                    0 <= n < n_mid ==> (#[trigger] newps@[n]).matched@.len() >= 2,
                forall|n: int|
                    n_mid <= n < newps@.len() ==> (#[trigger] newps@[n]).matched@.len() == 1
                        && newps@[n].idx < i2,
                forall|n1: int, n2: int|
                    0 <= n1 < n2 < newps@.len() ==> !(newps@[n1].idx == newps@[n2].idx
                        && #[trigger] newps@[n1].matched@.len()
                        == #[trigger] newps@[n2].matched@.len()),
                forall|i: int, kk: int|
                    #[trigger] valid_slot(defs0, typed1, i, kk) && kk >= 2 ==> has_entry(
                        newps@,
                        i,
                        kk,
                    ),
                forall|i: int|
                    #[trigger] valid_slot(defs0, typed1, i, 1) && i < i2 ==> has_entry(
                        newps@,
                        i,
                        1,
                    ),
                forall|n: int|
                    0 <= n < completed@.len() ==> {
                        let m = #[trigger] completed@[n];
                        &&& m.idx < defs0.len()
                        &&& completes_now(defs0[m.idx as int], typed0, c)
                        &&& m.id == defs0[m.idx as int].id
                        &&& m.matched@ == completed_text(defs0[m.idx as int], typed0, c)
                        &&& m.delimiter == (if defs0[m.idx as int].right_word {
                            Some(c)
                        } else {
                            Option::<char>::None
                        })
                        &&& m.event_index == self.events_seen
                        &&& (defs0[m.idx as int].right_word || defs0[m.idx as int].pattern@.len()
                            >= 2 || m.idx < i2)
                    },
                forall|n1: int, n2: int|
                    0 <= n1 < n2 < completed@.len() ==> completed@[n1].idx != completed@[n2].idx,
                forall|i: int|
                    0 <= i < defs0.len() && completes_now(#[trigger] defs0[i], typed0, c) && !(
                    defs0[i].pattern@.len() == 1 && !defs0[i].right_word) ==> exists|n: int|
                        0 <= n < completed@.len() && #[trigger] completed@[n].idx == i,
                forall|i: int|
                    0 <= i < i2 && completes_now(#[trigger] defs0[i], typed0, c) && defs0[
                        i
                    ].pattern@.len() == 1 && !defs0[i].right_word ==> exists|n: int|
                        0 <= n < completed@.len() && #[trigger] completed@[n].idx == i,
            decreases dn - i2,
        {
            proof {
                assert(def_wf(defs0[i2 as int]));
            }
            let d = &self.defs[i2];
            let ll = d.pattern.len();
            if ch_eq(c, d.pattern[0], d.case_sensitive) {
                proof {
                    assert(typed1[typed1.len() - 1] == c);
                    assert(suffix_matches(typed1, defs0[i2 as int].pattern@, defs0[
                        i2 as int].case_sensitive, 1));
                }
                if ll == 1 && !d.right_word {
                    if !d.left_word || left0 {
                        let mut matched: Vec<char> = Vec::new();
                        matched.push(c);
                        let ghost completed_old = completed@;
                        completed.push(
                            CompletedMatch {
                                idx: i2,
                                id: d.id,
                                matched,
                                delimiter: None,
                                event_index: self.events_seen,
                            },
                        );
                        proof {
                            assert(completes_now(defs0[i2 as int], typed0, c));
                            assert(completed@.last().matched@ =~= completed_text(
                                defs0[i2 as int],
                                typed0,
                                c,
                            ));
                            assert forall|n1: int, n2: int|
                                0 <= n1 < n2 < completed@.len() implies completed@[n1].idx
                                != completed@[n2].idx by {
                                if n2 == completed@.len() - 1 {
                                    assert(completed_old[n1] == completed@[n1]);
                                }
                            }
                            assert forall|i: int|
                                0 <= i < defs0.len() && completes_now(
                                    #[trigger] defs0[i],
                                    typed0,
                                    c,
                                ) && !(defs0[i].pattern@.len() == 1
                                    && !defs0[i].right_word) implies exists|n: int|
                                0 <= n < completed@.len() && #[trigger] completed@[n].idx
                                    == i by {
                                let n0 = choose|n: int|
                                    0 <= n < completed_old.len() && #[trigger] completed_old[n].idx
                                        == i;
                                assert(completed@[n0].idx == i);
                            }
                            assert forall|i: int|
                                0 <= i < i2 + 1 && completes_now(#[trigger] defs0[i], typed0, c)
                                    && defs0[i].pattern@.len() == 1
                                    && !defs0[i].right_word implies exists|n: int|
                                0 <= n < completed@.len() && #[trigger] completed@[n].idx
                                    == i by {
                                if i == i2 {
                                    assert(completed@[completed@.len() - 1].idx == i);
                                } else {
                                    let n0 = choose|n: int|
                                        0 <= n < completed_old.len()
                                            && #[trigger] completed_old[n].idx == i;
                                    assert(completed@[n0].idx == i);
                                }
                            }
                        }
                    } else {
                        proof {
                            // the left boundary rule failed, so this
                            // trigger does not fire on this key
                            lemma_left_push(typed0, c, 1);
                            assert(!completes_now(defs0[i2 as int], typed0, c));
                        }
                    }
                } else {
                    let mut matched: Vec<char> = Vec::new();
                    matched.push(c);
                    let ghost newps_old = newps@;
                    newps.push(PartialEntry { idx: i2, matched, left_ok: left0 });
                    proof {
                        let ne = newps@.last();
                        assert(ne.matched@ =~= typed1.skip(typed1.len() - 1));
                        assert(entry_wf(defs0, typed1, ne));
                        assert forall|i: int, kk: int|
                            #[trigger] valid_slot(defs0, typed1, i, kk) && kk >= 2 implies
                        has_entry(newps@, i, kk) by {
                            let n0 = choose|n: int|
                                0 <= n < newps_old.len() && newps_old[n].idx == i
                                    && #[trigger] newps_old[n].matched@.len() == kk;
                            assert(newps@[n0].idx == i && newps@[n0].matched@.len() == kk);
                        }
                        assert forall|i: int|
                            #[trigger] valid_slot(defs0, typed1, i, 1) && i < i2 + 1 implies
                        has_entry(newps@, i, 1) by {
                            if i == i2 {
                                assert(newps@[newps@.len() - 1].idx == i && newps@[newps@.len()
                                    - 1].matched@.len() == 1);
                            } else {
                                let n0 = choose|n: int|
                                    0 <= n < newps_old.len() && newps_old[n].idx == i
                                        && #[trigger] newps_old[n].matched@.len() == 1;
                                assert(newps@[n0].idx == i && newps@[n0].matched@.len() == 1);
                            }
                        }
                    }
                }
            } else {
                proof {
                    // no one-character tail of the extended stream matches
                    // this pattern, so no fresh slot or one-key fire exists
                    assert(typed1[typed1.len() - 1] == c);
                    if valid_slot(defs0, typed1, i2 as int, 1) {
                        assert(ch_eq_spec(c, defs0[i2 as int].pattern@[0], defs0[
                            i2 as int].case_sensitive));
                    }
                    if completes_now(defs0[i2 as int], typed0, c) && defs0[
                        i2 as int
                    ].pattern@.len() == 1 && !defs0[i2 as int].right_word {
                        assert(ch_eq_spec(c, defs0[i2 as int].pattern@[0], defs0[
                            i2 as int].case_sensitive));
                    }
                }
            }
            i2 += 1;
        }
        self.typed.push(c);
        self.partials = newps;
        proof {
            assert forall|i: int, kk: int| #[trigger]
                valid_slot(defs0, typed1, i, kk) implies has_entry(self.partials@, i, kk) by {
                if kk >= 2 {
                } else {
                    assert(kk == 1);
                }
            }
            assert forall|i: int|
                0 <= i < defs0.len() && completes_now(#[trigger] defs0[i], typed0, c) implies
            exists|n: int| 0 <= n < completed@.len() && #[trigger] completed@[n].idx == i by {
                assert(def_wf(defs0[i]));
            }
        }
        completed
    }

    /// Number of characters typed since the last reset.
    pub fn typed_len(&self) -> (n: usize)
        ensures
            n == self.typed@.len(),
    {
        self.typed.len()
    }

    /// Number of live partial matches.
    pub fn partial_count(&self) -> (n: usize)
        ensures
            n == self.partials@.len(),
    {
        self.partials.len()
    }

    /// Whether trigger `idx` currently has a partial match covering the
    /// last `k` typed characters.
    pub fn has_partial_of_len(&self, idx: usize, k: usize) -> (b: bool)
        ensures
            b == self.has_partial(idx as int, k as int),
    {
        let mut n: usize = 0;
        while n < self.partials.len()
            invariant
                n <= self.partials@.len(),
                forall|m: int|
                    0 <= m < n ==> !(self.partials@[m].idx == idx
                        && #[trigger] self.partials@[m].matched@.len() == k),
            decreases self.partials@.len() - n,
        {
            if self.partials[n].idx == idx && self.partials[n].matched.len() == k {
                return true;
            }
            n += 1;
        }
        false
    }

    /// Discards the typed stream and every partial match.
    fn clear(&mut self)
        ensures
            final(self).defs == old(self).defs,
            final(self).events_seen == old(self).events_seen,
            final(self).typed@ == Seq::<char>::empty(),
            final(self).partials@.len() == 0,
            frame_wf(final(self).defs@, final(self).typed@, final(self).partials@),
    {
        self.typed = Vec::new();
        self.partials = Vec::new();
        proof {
            assert forall|i: int, k: int| #[trigger]
                valid_slot(self.defs@, self.typed@, i, k) implies has_entry(
                self.partials@,
                i,
                k,
            ) by {
                assert(k <= self.typed@.len());
            }
        }
    }
}

/// Incremental and batch matching agree: after any sequence of events,
/// the matcher holds a partial match of length `k` for trigger `i`
/// exactly when replaying the whole typed history from an empty state
/// calls for one (`valid_slot` is that replayed, declarative state).
pub proof fn lemma_incremental_matches_batch(m: &RollingMatcher, i: int, k: int)
    requires
        m.wf(),
    ensures
        m.has_partial(i, k) <==> valid_slot(m.defs@, m.typed@, i, k),
{
    if m.has_partial(i, k) {
        let n = choose|n: int|
            0 <= n < m.partials@.len() && m.partials@[n].idx == i
                && #[trigger] m.partials@[n].matched@.len() == k;
        assert(entry_wf(m.defs@, m.typed@, m.partials@[n]));
        assert forall|j: int| 0 <= j < k implies ch_eq_spec(
            m.typed@[m.typed@.len() - k + j],
            #[trigger] m.defs@[i].pattern@[j],
            m.defs@[i].case_sensitive,
        ) by {
            assert(m.partials@[n].matched@[j] == m.typed@[m.typed@.len() - k + j]);
        }
    }
}

/// A backspace is the exact inverse of the preceding key press for the
/// partial-match state: pressing any key `c` and then backspace leaves
/// the typed stream, and with it every partial match of every trigger,
/// exactly as they were before the key press.
pub proof fn lemma_backspace_inverts_key(
    before: &RollingMatcher,
    mid: &RollingMatcher,
    after: &RollingMatcher,
    c: char,
)
    requires
        before.wf(),
        mid.wf(),
        after.wf(),
        before.defs@ == mid.defs@,
        mid.defs@ == after.defs@,
        mid.typed@ == typed_step(before.typed@, Event::Key(Key::Char(c))),
        after.typed@ == typed_step(mid.typed@, Event::Backspace),
    ensures
        after.typed@ == before.typed@,
        forall|i: int, k: int| after.has_partial(i, k) <==> before.has_partial(i, k),
{
    assert(after.typed@ =~= before.typed@);
    assert forall|i: int, k: int|
        after.has_partial(i, k) <==> before.has_partial(i, k) by {
        lemma_incremental_matches_batch(after, i, k);
        lemma_incremental_matches_batch(before, i, k);
    }
}

/// A trigger with no boundary requirement completes exactly when the
/// last characters typed, the new key included, spell its pattern under
/// its case rule - whatever preceded them.
pub proof fn lemma_plain_trigger_completes(def: MatchDef, typed: Seq<char>, c: char)
    requires
        !def.left_word,
        !def.right_word,
    ensures
        completes_now(def, typed, c) <==> suffix_matches(
            typed.push(c),
            def.pattern@,
            def.case_sensitive,
            def.pattern@.len() as int,
        ),
{
}

/// When one trigger's pattern is a suffix of another's (under the shared
/// case rule) and the suffix trigger has no boundary requirement, any key
/// completing the longer trigger completes the shorter one on the same
/// event as well - both end up in the candidate set together.
pub proof fn lemma_suffix_trigger_completes_too(
    d1: MatchDef,
    d2: MatchDef,
    typed: Seq<char>,
    c: char,
)
    requires
        !d1.right_word,
        !d2.right_word,
        !d2.left_word,
        d1.case_sensitive == d2.case_sensitive,
        d2.pattern@.len() <= d1.pattern@.len(),
        forall|j: int|
            0 <= j < d2.pattern@.len() ==> ch_eq_spec(
                d1.pattern@[d1.pattern@.len() - d2.pattern@.len() + j],
                #[trigger] d2.pattern@[j],
                d2.case_sensitive,
            ),
        completes_now(d1, typed, c),
    ensures
        completes_now(d2, typed, c),
{
    let t1 = typed.push(c);
    let l1 = d1.pattern@.len() as int;
    let l2 = d2.pattern@.len() as int;
    assert forall|j: int| 0 <= j < l2 implies ch_eq_spec(
        t1[t1.len() - l2 + j],
        #[trigger] d2.pattern@[j],
        d2.case_sensitive,
    ) by {
        assert(ch_eq_spec(t1[t1.len() - l1 + (l1 - l2 + j)], d1.pattern@[l1 - l2 + j],
            d1.case_sensitive));
        assert(ch_eq_spec(d1.pattern@[l1 - l2 + j], d2.pattern@[j], d2.case_sensitive));
    }
}


/// The candidate-set form of the statement above: on an event where the
/// longer trigger completes, the candidate set returned by the matcher
/// step lists the longer and the shorter (suffix) trigger together.
pub proof fn lemma_suffix_triggers_in_candidate_set(
    defs: Seq<MatchDef>,
    typed: Seq<char>,
    c: char,
    ev_idx: u64,
    res: Seq<CompletedMatch>,
    i1: int,
    i2: int,
)
    requires
        candidates_ok(defs, typed, c, ev_idx, res),
        0 <= i1 < defs.len(),
        0 <= i2 < defs.len(),
        !defs[i1].right_word,
        !defs[i2].right_word,
        !defs[i2].left_word,
        defs[i1].case_sensitive == defs[i2].case_sensitive,
        defs[i2].pattern@.len() <= defs[i1].pattern@.len(),
        forall|j: int|
            0 <= j < defs[i2].pattern@.len() ==> ch_eq_spec(
                defs[i1].pattern@[defs[i1].pattern@.len() - defs[i2].pattern@.len() + j],
                #[trigger] defs[i2].pattern@[j],
                defs[i2].case_sensitive,
            ),
        completes_now(defs[i1], typed, c),
    ensures
        exists|n: int| 0 <= n < res.len() && #[trigger] res[n].idx == i1,
        exists|n: int| 0 <= n < res.len() && #[trigger] res[n].idx == i2,
{
    lemma_suffix_trigger_completes_too(defs[i1], defs[i2], typed, c);
}

/// A reset discards all typing context: afterwards no trigger holds any
/// partial match, and a trigger of more than one character - even one
/// fully typed just before the reset - cannot complete on the next key.
pub proof fn lemma_reset_discards_progress(m: &RollingMatcher, i: int, k: int, c: char)
    requires
        m.wf(),
        m.typed@.len() == 0,
    ensures
        !m.has_partial(i, k),
        0 <= i < m.defs@.len() && m.defs@[i].pattern@.len() >= 2 ==> !completes_now(
            m.defs@[i],
            m.typed@,
            c,
        ),
{
    if m.has_partial(i, k) {
        let n = choose|n: int|
            0 <= n < m.partials@.len() && m.partials@[n].idx == i
                && #[trigger] m.partials@[n].matched@.len() == k;
        assert(entry_wf(m.defs@, m.typed@, m.partials@[n]));
    }
}

} // verus!
