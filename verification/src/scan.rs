use vstd::prelude::*;

use crate::boundary::{
    boundary_parts_match, boundary_text_match, lemma_boundary_extend, match_boundary_parts,
};
use crate::errors::PathError;
use crate::text::{
    all_valid_parts, clone_range, concat_parts, drop_last_part, is_abs_text, join_abs,
    join_abs_parts, lemma_parts_of_join_abs, lemma_parts_of_valid, parse_path, parts_of, seg_eq,
    snapshot_push, up_seg, valid_part,
};

verus! {

// The indirect symlink scanner, as a pure state machine. An ordinary
// symlink anywhere in the filesystem may point, directly or through a
// chain, at a boundary marker that the lexical matcher cannot see, so
// the boundary must be found by simulating what following each symlink
// resolves to. The walk processes the components of an absolute
// candidate path left to right: it keeps an accumulated resolved-so-far
// prefix, re-tests the accumulation for a boundary after every
// parent-reference pop, and asks its driver to probe each named
// component for a symlink before appending it. A discovered symlink
// substitutes a new candidate and the walk restarts against it, under a
// budget that shrinks with every substitution, so the whole scan makes
// only a bounded number of probes. The machine itself performs no I/O:
// a host-side driver performs each requested probe and feeds the answer
// back in through `scan_feed`.

/// The scanner's transient state between two probes. It lives only for
/// the duration of one top-level scan; nothing survives across calls.
pub struct ScanState {
    /// Components of the current absolute candidate path; a parent
    /// reference stays as the two-dot component.
    pub candidate: Vec<String>,
    /// Components resolved so far; never holds a parent reference.
    pub acc: Vec<String>,
    /// The cursor: the index of the next component of `candidate` to
    /// process.
    pub idx: usize,
    /// How many symlink substitutions are still allowed.
    pub budget: u32,
}

impl ScanState {
    /// Well-formedness: the cursor is within the candidate, at least one
    /// substitution is still allowed, and all components are well
    /// formed, with no parent reference in the accumulation.
    pub open spec fn wf(&self) -> bool {
        &&& self.idx <= self.candidate@.len()
        &&& self.budget >= 1
        &&& all_valid_parts(self.candidate.deep_view())
        &&& all_valid_parts(self.acc.deep_view())
        &&& forall|k: int|
            0 <= k < self.acc.deep_view().len() ==> #[trigger] self.acc.deep_view()[k] != up_seg()
    }
}

/// What a probe of one named component reported.
pub enum ProbeOutcome {
    /// The entry exists and is not a symlink.
    NotSymlink,
    /// The entry does not exist: it is treated as an ordinary segment,
    /// and the downstream resolution reports it if it matters.
    Missing,
    /// The entry is a symlink with this target text.
    LinkTo { target: String },
    /// The probe failed in some other way: the scan aborts with that
    /// error.
    Failed { error: PathError },
}

/// What the machine asks for or concluded.
pub enum ScanStep {
    /// The walk reconstructed a boundary path.
    Found { path: String },
    /// The walk needs to know whether `probe` names a symlink; the
    /// driver answers by calling `scan_feed` on `state`.
    Probe { state: ScanState, probe: String },
    /// No boundary involvement was found, or the budget ran out.
    NotInvolved,
    /// A probe failed; the scan surfaces that error.
    Aborted { error: PathError },
}

/// The specification-level mirror of `ScanStep`.
pub enum SpecStep {
    Found { path: Seq<char> },
    Probe {
        candidate: Seq<Seq<char>>,
        acc: Seq<Seq<char>>,
        idx: int,
        budget: int,
        probe: Seq<char>,
    },
    NotInvolved,
    Aborted { error: PathError },
}

/// The specification-level view of a probe answer.
pub enum SpecProbe {
    NotLink,
    LinkTo { target: Seq<char> },
    Fail { error: PathError },
}

/// What a `ScanStep` states.
pub open spec fn step_view(r: ScanStep) -> SpecStep {
    match r {
        ScanStep::Found { path } => SpecStep::Found { path: path@ },
        ScanStep::Probe { state, probe } => SpecStep::Probe {
            candidate: state.candidate.deep_view(),
            acc: state.acc.deep_view(),
            idx: state.idx as int,
            budget: state.budget as int,
            probe: probe@,
        },
        ScanStep::NotInvolved => SpecStep::NotInvolved,
        ScanStep::Aborted { error } => SpecStep::Aborted { error },
    }
}

/// What a `ProbeOutcome` states: an absent entry walks like an ordinary
/// segment.
pub open spec fn probe_view(o: ProbeOutcome) -> SpecProbe {
    match o {
        ProbeOutcome::NotSymlink => SpecProbe::NotLink,
        ProbeOutcome::Missing => SpecProbe::NotLink,
        ProbeOutcome::LinkTo { target } => SpecProbe::LinkTo { target: target@ },
        ProbeOutcome::Failed { error } => SpecProbe::Fail { error },
    }
}

/// The walk itself, in mathematics: from the cursor on, a parent
/// reference pops the accumulation and immediately re-tests it for a
/// boundary, a named component asks for a probe, and the exhausted
/// cursor tests the accumulation one final time.
pub open spec fn walk_spec(
    candidate: Seq<Seq<char>>,
    acc: Seq<Seq<char>>,
    idx: int,
    budget: int,
) -> SpecStep
    decreases candidate.len() - idx,
    when 0 <= idx <= candidate.len()
{
    if idx >= candidate.len() {
        if boundary_parts_match(true, acc) {
            SpecStep::Found { path: join_abs(acc) }
        } else {
            SpecStep::NotInvolved
        }
    } else if candidate[idx] == up_seg() {
        let acc2 = if acc.len() > 0 {
            acc.drop_last()
        } else {
            acc
        };
        if boundary_parts_match(true, acc2) {
            SpecStep::Found { path: join_abs(acc2 + candidate.skip(idx + 1)) }
        } else {
            walk_spec(candidate, acc2, idx + 1, budget)
        }
    } else {
        SpecStep::Probe {
            candidate,
            acc,
            idx,
            budget,
            probe: join_abs(acc.push(candidate[idx])),
        }
    }
}

/// Starting (or restarting) the scan against a candidate: a spent budget
/// ends the scan, a candidate that is itself a boundary path is the
/// answer, anything else is walked.
pub open spec fn begin_spec(candidate: Seq<Seq<char>>, budget: int) -> SpecStep {
    if budget <= 0 {
        SpecStep::NotInvolved
    } else if boundary_parts_match(true, candidate) {
        SpecStep::Found { path: join_abs(candidate) }
    } else {
        walk_spec(candidate, Seq::<Seq<char>>::empty(), 0, budget)
    }
}

/// Feeding a probe answer into a waiting state: a failure aborts, an
/// ordinary entry is appended and the walk goes on, and a symlink
/// substitutes a new candidate — its target resolved against the
/// accumulation when relative, taken verbatim when absolute, with the
/// unprocessed components re-attached — and restarts the walk with one
/// substitution less allowed.
pub open spec fn feed_spec(
    candidate: Seq<Seq<char>>,
    acc: Seq<Seq<char>>,
    idx: int,
    budget: int,
    o: SpecProbe,
) -> SpecStep {
    match o {
        SpecProbe::Fail { error } => SpecStep::Aborted { error },
        SpecProbe::NotLink => walk_spec(candidate, acc.push(candidate[idx]), idx + 1, budget),
        SpecProbe::LinkTo { target } => begin_spec(
            (if is_abs_text(target) {
                parts_of(target)
            } else {
                acc + parts_of(target)
            }) + candidate.skip(idx + 1),
            budget - 1,
        ),
    }
}

/// The walk hands back probes only for named components of the same
/// candidate, at or after the cursor, under the same budget.
pub proof fn lemma_walk_spec_probe(
    candidate: Seq<Seq<char>>,
    acc: Seq<Seq<char>>,
    idx: int,
    budget: int,
)
    requires
        0 <= idx <= candidate.len(),
    ensures
        walk_spec(candidate, acc, idx, budget) matches SpecStep::Probe {
            candidate: c2,
            idx: i2,
            budget: b2,
            ..
        } ==> c2 == candidate && b2 == budget && idx <= i2 < candidate.len() && candidate[i2]
            != up_seg(),
    decreases candidate.len() - idx,
{
    if idx < candidate.len() && candidate[idx] == up_seg() {
        let acc2 = if acc.len() > 0 {
            acc.drop_last()
        } else {
            acc
        };
        if !boundary_parts_match(true, acc2) {
            lemma_walk_spec_probe(candidate, acc2, idx + 1, budget);
        }
    }
}

/// Loop termination: every answer fed into a waiting scan either lowers
/// the budget (a symlink substitution) or keeps the budget and the
/// candidate while moving the cursor strictly forward. Under the
/// lexicographic measure of budget, then components left, every scan
/// ends within a bounded number of probes, whatever cycle of symlinks
/// is on disk.
pub proof fn lemma_scan_terminates(
    candidate: Seq<Seq<char>>,
    acc: Seq<Seq<char>>,
    idx: int,
    budget: int,
    o: SpecProbe,
)
    requires
        0 <= idx < candidate.len(),
        budget >= 1,
    ensures
        feed_spec(candidate, acc, idx, budget, o) matches SpecStep::Probe {
            candidate: c2,
            idx: i2,
            budget: b2,
            ..
        } ==> b2 < budget || (b2 == budget && c2 == candidate && idx < i2),
{
    match o {
        SpecProbe::NotLink => {
            lemma_walk_spec_probe(candidate, acc.push(candidate[idx]), idx + 1, budget);
        },
        SpecProbe::LinkTo { target } => {
            let newc = (if is_abs_text(target) {
                parts_of(target)
            } else {
                acc + parts_of(target)
            }) + candidate.skip(idx + 1);
            if budget - 1 >= 1 && !boundary_parts_match(true, newc) {
                lemma_walk_spec_probe(newc, Seq::<Seq<char>>::empty(), 0, budget - 1);
            }
        },
        SpecProbe::Fail { .. } => {},
    }
}

/// The executable walk; its result is exactly `walk_spec` of the state.
#[verifier::loop_isolation(false)]
fn scan_walk(st: ScanState) -> (r: ScanStep)
    requires
        st.wf(),
    ensures
        step_view(r) == walk_spec(
            st.candidate.deep_view(),
            st.acc.deep_view(),
            st.idx as int,
            st.budget as int,
        ),
        r matches ScanStep::Probe { state, .. } ==> state.wf() && state.idx
            < state.candidate@.len() && state.candidate.deep_view()[state.idx as int] != up_seg(),
{
    let ScanState { candidate, mut acc, mut idx, budget } = st;
    let n = candidate.len();
    let ghost cdv = candidate.deep_view();
    let ghost goal = walk_spec(cdv, st.acc.deep_view(), st.idx as int, st.budget as int);
    while idx < n
        invariant
            idx <= n,
            n == candidate@.len(),
            budget >= 1,
            cdv == candidate.deep_view(),
            all_valid_parts(cdv),
            all_valid_parts(acc.deep_view()),
            forall|k: int|
                0 <= k < acc.deep_view().len() ==> #[trigger] acc.deep_view()[k] != up_seg(),
            walk_spec(cdv, acc.deep_view(), idx as int, budget as int) == goal,
        decreases n - idx,
    {
        let ghost pre_acc = acc.deep_view();
        let ghost pre_idx = idx as int;
        let is_up = seg_eq(&candidate[idx], "..");
        if is_up {
            proof {
                reveal_strlit("..");
                assert(cdv[pre_idx] == up_seg());
            }
            drop_last_part(&mut acc);
            proof {
                if pre_acc.len() > 0 {
                    assert(acc.deep_view() == pre_acc.drop_last());
                    assert forall|k: int|
                        0 <= k < acc.deep_view().len() implies #[trigger] acc.deep_view()[k]
                        != up_seg() && valid_part(acc.deep_view()[k]) by {
                        assert(acc.deep_view()[k] == pre_acc[k]);
                        assert(valid_part(pre_acc[k]));
                    }
                } else {
                    assert(acc.deep_view() == pre_acc);
                }
                assert(acc.deep_view() == (if pre_acc.len() > 0 {
                    pre_acc.drop_last()
                } else {
                    pre_acc
                }));
            }
            idx += 1;
            let hit = match_boundary_parts(true, &acc);
            if hit.is_some() {
                let rest = clone_range(&candidate, idx, n);
                proof {
                    assert(rest.deep_view() =~= cdv.skip(idx as int));
                }
                let joined = concat_parts(&acc, &rest);
                let path = join_abs_parts(&joined);
                proof {
                    assert(walk_spec(cdv, pre_acc, pre_idx, budget as int) == SpecStep::Found {
                        path: join_abs(acc.deep_view() + cdv.skip(idx as int)),
                    });
                    assert(path@ == join_abs(acc.deep_view() + cdv.skip(idx as int)));
                }
                return ScanStep::Found { path };
            }
            proof {
                assert(walk_spec(cdv, pre_acc, pre_idx, budget as int) == walk_spec(
                    cdv,
                    acc.deep_view(),
                    idx as int,
                    budget as int,
                ));
            }
        } else {
            proof {
                reveal_strlit("..");
                assert(cdv[pre_idx] != up_seg());
            }
            let pv = snapshot_push(&acc, &candidate[idx]);
            let probe = join_abs_parts(&pv);
            proof {
                assert(pv.deep_view() == acc.deep_view().push(cdv[pre_idx]));
                assert(walk_spec(cdv, acc.deep_view(), pre_idx, budget as int) == (SpecStep::Probe {
                    candidate: cdv,
                    acc: acc.deep_view(),
                    idx: pre_idx,
                    budget: budget as int,
                    probe: join_abs(acc.deep_view().push(cdv[pre_idx])),
                }));
            }
            return ScanStep::Probe { state: ScanState { candidate, acc, idx, budget }, probe };
        }
    }
    proof {
        assert(walk_spec(cdv, acc.deep_view(), idx as int, budget as int) == (
        if boundary_parts_match(true, acc.deep_view()) {
            SpecStep::Found { path: join_abs(acc.deep_view()) }
        } else {
            SpecStep::NotInvolved
        }));
    }
    let hit = match_boundary_parts(true, &acc);
    if hit.is_some() {
        ScanStep::Found { path: join_abs_parts(&acc) }
    } else {
        ScanStep::NotInvolved
    }
}

/// Starts a scan over a candidate given in component form.
fn scan_begin_parts(candidate: Vec<String>, budget: u32) -> (r: ScanStep)
    requires
        all_valid_parts(candidate.deep_view()),
    ensures
        step_view(r) == begin_spec(candidate.deep_view(), budget as int),
        r matches ScanStep::Probe { state, .. } ==> state.wf() && state.idx
            < state.candidate@.len() && state.candidate.deep_view()[state.idx as int] != up_seg(),
{
    if budget == 0 {
        return ScanStep::NotInvolved;
    }
    let hit = match_boundary_parts(true, &candidate);
    if hit.is_some() {
        return ScanStep::Found { path: join_abs_parts(&candidate) };
    }
    let acc: Vec<String> = Vec::new();
    proof {
        assert(acc.deep_view() =~= Seq::<Seq<char>>::empty());
    }
    scan_walk(ScanState { candidate, acc, idx: 0, budget })
}

/// Starts a scan of a path. The path must already be absolute: a
/// relative input is resolved against the current working directory
/// before any scan begins. The budget bounds how many symlinks the whole
/// scan will follow.
pub fn scan_begin(path: &str, budget: u32) -> (r: ScanStep)
    requires
        is_abs_text(path@),
    ensures
        step_view(r) == begin_spec(parts_of(path@), budget as int),
        r matches ScanStep::Probe { state, .. } ==> state.wf() && state.idx
            < state.candidate@.len() && state.candidate.deep_view()[state.idx as int] != up_seg(),
{
    let (_, parts) = parse_path(path);
    proof {
        lemma_parts_of_valid(path@);
    }
    scan_begin_parts(parts, budget)
}

/// Continues a waiting scan with the answer to its probe.
pub fn scan_feed(st: ScanState, outcome: ProbeOutcome) -> (r: ScanStep)
    requires
        st.wf(),
        st.idx < st.candidate@.len(),
        st.candidate.deep_view()[st.idx as int] != up_seg(),
    ensures
        step_view(r) == feed_spec(
            st.candidate.deep_view(),
            st.acc.deep_view(),
            st.idx as int,
            st.budget as int,
            probe_view(outcome),
        ),
        r matches ScanStep::Probe { state, .. } ==> state.wf() && state.idx
            < state.candidate@.len() && state.candidate.deep_view()[state.idx as int] != up_seg(),
{
    match outcome {
        ProbeOutcome::Failed { error } => ScanStep::Aborted { error },
        ProbeOutcome::NotSymlink => scan_feed_ordinary(st),
        ProbeOutcome::Missing => scan_feed_ordinary(st),
        ProbeOutcome::LinkTo { target } => {
            let (t_abs, t_parts) = parse_path(target.as_str());
            proof {
                lemma_parts_of_valid(target@);
            }
            let base = if t_abs {
                t_parts
            } else {
                concat_parts(&st.acc, &t_parts)
            };
            proof {
                assert forall|k: int|
                    0 <= k < base.deep_view().len() implies valid_part(
                    #[trigger] base.deep_view()[k]) by {
                    if !is_abs_text(target@) {
                        assert(base.deep_view() == st.acc.deep_view() + parts_of(target@));
                        if k < st.acc.deep_view().len() {
                            assert(base.deep_view()[k] == st.acc.deep_view()[k]);
                        } else {
                            assert(base.deep_view()[k] == parts_of(target@)[k - st.acc.deep_view().len()]);
                        }
                    }
                }
            }
            let cn = st.candidate.len();
            let rest = clone_range(&st.candidate, st.idx + 1, cn);
            proof {
                assert(rest.deep_view() =~= st.candidate.deep_view().skip(st.idx + 1));
            }
            let cand2 = concat_parts(&base, &rest);
            proof {
                assert forall|k: int|
                    0 <= k < cand2.deep_view().len() implies valid_part(
                    #[trigger] cand2.deep_view()[k]) by {
                    if k < base.deep_view().len() {
                        assert(cand2.deep_view()[k] == base.deep_view()[k]);
                    } else {
                        assert(cand2.deep_view()[k] == rest.deep_view()[k
                            - base.deep_view().len()]);
                        assert(rest.deep_view()[k - base.deep_view().len()] == st
                            .candidate.deep_view()[st.idx + 1 + k - base.deep_view().len()]);
                    }
                }
            }
            let b2 = st.budget - 1;
            scan_begin_parts(cand2, b2)
        },
    }
}

/// The ordinary-entry continuation: append the probed component and walk
/// on.
fn scan_feed_ordinary(st: ScanState) -> (r: ScanStep)
    requires
        st.wf(),
        st.idx < st.candidate@.len(),
        st.candidate.deep_view()[st.idx as int] != up_seg(),
    ensures
        step_view(r) == walk_spec(
            st.candidate.deep_view(),
            st.acc.deep_view().push(st.candidate.deep_view()[st.idx as int]),
            st.idx + 1,
            st.budget as int,
        ),
        r matches ScanStep::Probe { state, .. } ==> state.wf() && state.idx
            < state.candidate@.len() && state.candidate.deep_view()[state.idx as int] != up_seg(),
{
    let ScanState { candidate, mut acc, idx, budget } = st;
    let n = candidate.len();
    let ghost pre = acc.deep_view();
    let name = candidate[idx].clone();
    let ghost nv = name@;
    acc.push(name);
    proof {
        assert(nv == candidate.deep_view()[idx as int]);
        assert forall|j: int|
            0 <= j < acc@.len() implies #[trigger] acc.deep_view()[j] == pre.push(
            candidate.deep_view()[idx as int],
        )[j] by {
            if j < pre.len() {
                assert(acc.deep_view()[j] == pre[j]);
            } else {
                assert(acc.deep_view()[j] == nv);
            }
        }
        assert(acc.deep_view() =~= pre.push(candidate.deep_view()[idx as int]));
        assert(valid_part(candidate.deep_view()[idx as int]));
    }
    proof {
        assert(idx < n);
    }
    scan_walk(ScanState { candidate, acc, idx: idx + 1, budget })
}

/// What the walk claims to have found, it has found: every path the walk
/// reports is a genuine lexical boundary match. The scanner never
/// asserts a boundary that the matcher would not confirm.
pub proof fn lemma_walk_found_is_boundary(
    candidate: Seq<Seq<char>>,
    acc: Seq<Seq<char>>,
    idx: int,
    budget: int,
)
    requires
        0 <= idx <= candidate.len(),
        all_valid_parts(candidate),
        all_valid_parts(acc),
    ensures
        walk_spec(candidate, acc, idx, budget) matches SpecStep::Found { path }
            ==> boundary_text_match(path),
    decreases candidate.len() - idx,
{
    if idx >= candidate.len() {
        if boundary_parts_match(true, acc) {
            lemma_parts_of_join_abs(acc);
        }
    } else if candidate[idx] == up_seg() {
        let acc2 = if acc.len() > 0 {
            acc.drop_last()
        } else {
            acc
        };
        assert forall|k: int| 0 <= k < acc2.len() implies valid_part(#[trigger] acc2[k]) by {
            assert(acc2[k] == acc[k]);
        }
        if boundary_parts_match(true, acc2) {
            let whole = acc2 + candidate.skip(idx + 1);
            assert forall|k: int| 0 <= k < whole.len() implies valid_part(#[trigger] whole[k]) by {
                if k < acc2.len() {
                    assert(whole[k] == acc2[k]);
                } else {
                    assert(whole[k] == candidate.skip(idx + 1)[k - acc2.len()]);
                    assert(candidate.skip(idx + 1)[k - acc2.len()] == candidate[idx + 1 + k
                        - acc2.len()]);
                }
            }
            lemma_parts_of_join_abs(whole);
            lemma_boundary_extend(acc2, candidate.skip(idx + 1));
        } else {
            lemma_walk_found_is_boundary(candidate, acc2, idx + 1, budget);
        }
    }
}

/// The same, for starting a scan: a candidate the scan reports as a
/// boundary path is one.
pub proof fn lemma_begin_found_is_boundary(candidate: Seq<Seq<char>>, budget: int)
    requires
        all_valid_parts(candidate),
    ensures
        begin_spec(candidate, budget) matches SpecStep::Found { path }
            ==> boundary_text_match(path),
{
    if budget > 0 {
        if boundary_parts_match(true, candidate) {
            lemma_parts_of_join_abs(candidate);
        } else {
            lemma_walk_found_is_boundary(candidate, Seq::<Seq<char>>::empty(), 0, budget);
        }
    }
}

/// And for continuing one: whatever answer the driver feeds in, a path
/// the scan then reports as a boundary path is one.
pub proof fn lemma_feed_found_is_boundary(
    candidate: Seq<Seq<char>>,
    acc: Seq<Seq<char>>,
    idx: int,
    budget: int,
    o: SpecProbe,
)
    requires
        0 <= idx < candidate.len(),
        all_valid_parts(candidate),
        all_valid_parts(acc),
    ensures
        feed_spec(candidate, acc, idx, budget, o) matches SpecStep::Found { path }
            ==> boundary_text_match(path),
{
    match o {
        SpecProbe::NotLink => {
            let acc2 = acc.push(candidate[idx]);
            assert forall|k: int| 0 <= k < acc2.len() implies valid_part(#[trigger] acc2[k]) by {
                if k < acc.len() {
                    assert(acc2[k] == acc[k]);
                } else {
                    assert(acc2[k] == candidate[idx]);
                }
            }
            lemma_walk_found_is_boundary(candidate, acc2, idx + 1, budget);
        },
        SpecProbe::LinkTo { target } => {
            let base = if is_abs_text(target) {
                parts_of(target)
            } else {
                acc + parts_of(target)
            };
            let newc = base + candidate.skip(idx + 1);
            crate::text::lemma_parts_of_valid(target);
            assert forall|k: int| 0 <= k < newc.len() implies valid_part(#[trigger] newc[k]) by {
                if k < base.len() {
                    assert(newc[k] == base[k]);
                    if !is_abs_text(target) {
                        if k < acc.len() {
                            assert(base[k] == acc[k]);
                        } else {
                            assert(base[k] == parts_of(target)[k - acc.len()]);
                        }
                    }
                } else {
                    assert(newc[k] == candidate.skip(idx + 1)[k - base.len()]);
                    assert(candidate.skip(idx + 1)[k - base.len()] == candidate[idx + 1 + k
                        - base.len()]);
                }
            }
            lemma_begin_found_is_boundary(newc, budget - 1);
        },
        SpecProbe::Fail { .. } => {},
    }
}

} // verus!
