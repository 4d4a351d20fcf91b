//! The worker pool's scheduling rules: backpressure bookkeeping and the
//! campaign duration estimator.
//!
//! The pool itself is a fixed set of worker threads fed by a synchronous
//! hand-off channel; what is verified here is its accounting (never more
//! trials in flight than workers) and the wall-clock estimate computed from
//! the trials' static durations.

use vstd::prelude::*;
use crate::engine::sat_add;

verus! {

/// Why a campaign cannot be scheduled.
#[derive(Clone, Copy, PartialEq, Eq, Structural, Debug)]
pub enum ScheduleError {
    /// An estimate over zero workers is meaningless.
    NoWorkers,
    /// Submission was aborted by cancellation.
    Cancelled,
}

/// The accounting of a fixed-size worker pool: how many trials are being
/// processed right now.  The pool never processes more trials concurrently
/// than its worker count.
pub struct PoolModel {
    pub worker_count: usize,
    pub in_flight: usize,
}

impl PoolModel {
    /// The pool invariant: trials in flight never exceed the workers.
    pub open spec fn wf(&self) -> bool {
        self.in_flight <= self.worker_count
    }

    pub fn new(worker_count: usize) -> (r: Self)
        ensures
            r.worker_count == worker_count,
            r.in_flight == 0,
            r.wf(),
    {
        PoolModel { worker_count, in_flight: 0 }
    }

    /// Hands one trial to a worker; refused when every worker is busy, so
    /// the submitter blocks instead.
    pub fn try_dispatch(&mut self) -> (r: bool)
        requires
            old(self).wf(),
        ensures
            final(self).wf(),
            final(self).worker_count == old(self).worker_count,
            r ==> final(self).in_flight == old(self).in_flight + 1,
            !r ==> *final(self) == *old(self) && old(self).in_flight == old(self).worker_count,
    {
        if self.in_flight < self.worker_count {
            self.in_flight += 1;
            true
        } else {
            false
        }
    }

    /// A worker finished one trial.
    pub fn complete(&mut self)
        requires
            old(self).wf(),
            old(self).in_flight > 0,
        ensures
            final(self).wf(),
            final(self).worker_count == old(self).worker_count,
            final(self).in_flight == old(self).in_flight - 1,
    {
        self.in_flight -= 1;
    }
}

/// What submitting a trial does: a set cancellation flag aborts the
/// submission; otherwise the trial goes to the hand-off channel.
pub fn add_task_outcome(cancelled: bool) -> (r: Result<(), ScheduleError>)
    ensures
        cancelled ==> r == Result::<(), ScheduleError>::Err(ScheduleError::Cancelled),
        !cancelled ==> r is Ok,
{
    if cancelled {
        Err(ScheduleError::Cancelled)
    } else {
        Ok(())
    }
}

/// The index of the first minimum of a worker-availability vector.
pub open spec fn spec_min_index(s: Seq<u64>, i: int, best: int) -> int
    decreases s.len() - i,
{
    if i < 0 || i >= s.len() || best < 0 || best >= s.len() {
        best
    } else if s[i] < s[best] {
        spec_min_index(s, i + 1, i)
    } else {
        spec_min_index(s, i + 1, best)
    }
}

/// One greedy scheduling round per trial: the earliest-free worker takes
/// the trial and becomes free again after its duration (saturating).
pub open spec fn spec_schedule(durations: Seq<u64>, avail: Seq<u64>, i: int) -> Seq<u64>
    decreases durations.len() - i,
{
    if i < 0 || i >= durations.len() || avail.len() == 0 {
        avail
    } else {
        let m = spec_min_index(avail, 1, 0);
        let t = if avail[m] + durations[i] <= u64::MAX {
            (avail[m] + durations[i]) as u64
        } else {
            u64::MAX
        };
        spec_schedule(durations, avail.update(m, t), i + 1)
    }
}

/// The largest element of a non-empty vector.
pub open spec fn spec_max(s: Seq<u64>, i: int, best: u64) -> u64
    decreases s.len() - i,
{
    if i < 0 || i >= s.len() {
        best
    } else if s[i] > best {
        spec_max(s, i + 1, s[i])
    } else {
        spec_max(s, i + 1, best)
    }
}

/// The initial availability of each worker: its staggered start time of
/// 100 ms per index.
pub open spec fn spec_initial_avail(workers: int) -> Seq<u64> {
    Seq::new(workers as nat, |i: int| (i * 100) as u64)
}

/// The wall-clock estimate of a campaign: each trial goes to the earliest
/// free worker; the answer is the time the last worker becomes free.  With
/// more workers than trials the extra workers contribute only their
/// staggered start time.  Zero workers is a configuration error.
pub open spec fn spec_estimate(durations: Seq<u64>, workers: int) -> u64 {
    spec_max(spec_schedule(durations, spec_initial_avail(workers), 0), 0, 0)
}

/// How many workers the estimator will consider at most.
pub const MAX_ESTIMATE_WORKERS: usize = 10000;

/// Estimates the wall-clock time of a campaign from its trials' static
/// durations, over `workers` workers.
#[verifier::loop_isolation(false)]
pub fn estimate_total_duration_ms(durations: &Vec<u64>, workers: usize) -> (r: Result<
    u64,
    ScheduleError,
>)
    ensures
        workers == 0 ==> r == Result::<u64, ScheduleError>::Err(ScheduleError::NoWorkers),
        workers > 0 ==> ({
            let w = if workers <= MAX_ESTIMATE_WORKERS {
                workers as int
            } else {
                MAX_ESTIMATE_WORKERS as int
            };
            r == Result::<u64, ScheduleError>::Ok(spec_estimate(durations@, w))
        }),
{
    if workers == 0 {
        return Err(ScheduleError::NoWorkers);
    }
    let w = if workers <= MAX_ESTIMATE_WORKERS {
        workers
    } else {
        MAX_ESTIMATE_WORKERS
    };
    let mut avail: Vec<u64> = Vec::new();
    let mut id: usize = 0;
    while id < w
        invariant
            0 <= id <= w,
            avail@.len() == id,
            forall|l: int| 0 <= l < id ==> avail@[l] == l * 100,
        decreases w - id,
    {
        avail.push((id as u64) * 100);
        id += 1;
    }
    proof {
        assert(avail@ =~= spec_initial_avail(w as int));
    }
    let n = durations.len();
    let mut i: usize = 0;
    while i < n
        invariant
            0 <= i <= n == durations@.len(),
            avail@.len() == w,
            spec_schedule(durations@, avail@, i as int) == spec_schedule(
                durations@,
                spec_initial_avail(w as int),
                0,
            ),
        decreases n - i,
    {
        let mut m: usize = 0;
        let mut k: usize = 1;
        while k < w
            invariant
                0 <= m < w == avail@.len(),
                1 <= k <= w,
                spec_min_index(avail@, k as int, m as int) == spec_min_index(avail@, 1, 0),
            decreases w - k,
        {
            if avail[k] < avail[m] {
                m = k;
            }
            k += 1;
        }
        let t = sat_add(avail[m], durations[i]);
        avail[m] = t;
        i += 1;
    }
    let mut best: u64 = 0;
    let mut k: usize = 0;
    while k < w
        invariant
            0 <= k <= w == avail@.len(),
            spec_max(avail@, k as int, best) == spec_max(avail@, 0, 0),
        decreases w - k,
    {
        if avail[k] > best {
            best = avail[k];
        }
        k += 1;
    }
    Ok(best)
}

/// One campaign group: a template name, the trial numbers to run it for,
/// and the configuration pairs handed to the renderer.
pub struct BenchGroup {
    pub template: Vec<u8>,
    pub trials: Vec<u64>,
    pub config: Vec<(Vec<u8>, Vec<u8>)>,
}

/// One rendering to perform: a template name and the configuration with
/// `trial` bound to this trial's number.
pub struct RenderRequest {
    pub template: Vec<u8>,
    pub config: Vec<(Vec<u8>, Vec<u8>)>,
}

/// The key a trial's number is bound under.
pub open spec fn spec_trial_key() -> Seq<u8> {
    seq![0x74u8, 0x72u8, 0x69u8, 0x61u8, 0x6cu8]
}

/// The render requests of one group at or after trial index `t`: its
/// template with the group's configuration and `trial` bound to the
/// trial's number in decimal.
pub open spec fn spec_group_requests(
    template: Seq<u8>,
    config: Seq<(Seq<u8>, Seq<u8>)>,
    trials: Seq<u64>,
    t: int,
) -> Seq<(Seq<u8>, Seq<(Seq<u8>, Seq<u8>)>)>
    decreases trials.len() - t,
{
    if t < 0 || t >= trials.len() {
        Seq::empty()
    } else {
        seq![
            (
                template,
                crate::vars::spec_insert(
                    config,
                    spec_trial_key(),
                    crate::numfmt::dec_of(trials[t] as nat),
                ),
            ),
        ] + spec_group_requests(template, config, trials, t + 1)
    }
}

/// The flat ordered render list of a campaign: every group's requests in
/// order, one per trial.
pub open spec fn spec_campaign(groups: Seq<BenchGroup>, i: int) -> Seq<
    (Seq<u8>, Seq<(Seq<u8>, Seq<u8>)>),
>
    decreases groups.len() - i,
{
    if i < 0 || i >= groups.len() {
        Seq::empty()
    } else {
        spec_group_requests(
            groups[i].template@,
            crate::vars::pairs_view(groups[i].config@),
            groups[i].trials@,
            0,
        ) + spec_campaign(groups, i + 1)
    }
}

/// The view of a render request.
pub open spec fn spec_request_view(r: RenderRequest) -> (Seq<u8>, Seq<(Seq<u8>, Seq<u8>)>) {
    (r.template@, crate::vars::pairs_view(r.config@))
}

/// Expands a campaign into its flat ordered trial list: one render request
/// per (group, trial), groups in order, trials in order, each carrying the
/// group's configuration with `trial` bound to the trial's number.
#[verifier::loop_isolation(false)]
pub fn expand_campaign(groups: &Vec<BenchGroup>) -> (r: Vec<RenderRequest>)
    ensures
        r@.map_values(|q: RenderRequest| spec_request_view(q)) == spec_campaign(groups@, 0),
{
    let mut out: Vec<RenderRequest> = Vec::new();
    let ng = groups.len();
    proof {
        assert(out@.map_values(|q: RenderRequest| spec_request_view(q)) + spec_campaign(
            groups@,
            0,
        ) =~= spec_campaign(groups@, 0));
    }
    let mut g: usize = 0;
    while g < ng
        invariant
            0 <= g <= ng == groups@.len(),
            out@.map_values(|q: RenderRequest| spec_request_view(q)) + spec_campaign(
                groups@,
                g as int,
            ) == spec_campaign(groups@, 0),
        decreases ng - g,
    {
        let ghost cfgv = crate::vars::pairs_view(groups@[g as int].config@);
        let ghost tmplv = groups@[g as int].template@;
        let ghost trialsv = groups@[g as int].trials@;
        let nt = groups[g].trials.len();
        let mut t: usize = 0;
        while t < nt
            invariant
                0 <= t <= nt == trialsv.len(),
                cfgv == crate::vars::pairs_view(groups@[g as int].config@),
                tmplv == groups@[g as int].template@,
                trialsv == groups@[g as int].trials@,
                out@.map_values(|q: RenderRequest| spec_request_view(q)) + spec_group_requests(
                    tmplv,
                    cfgv,
                    trialsv,
                    t as int,
                ) + spec_campaign(groups@, g + 1) == spec_campaign(groups@, 0),
            decreases nt - t,
        {
            let trial_key: [u8; 5] = [0x74, 0x72, 0x69, 0x61, 0x6c];
            let base = copy_pairs(&groups[g].config);
            let trial_num = groups[g].trials[t];
            let config = crate::config::insert_pair(
                base,
                vstd::slice::slice_to_vec(trial_key.as_slice()),
                crate::numfmt::to_decimal(trial_num),
            );
            let template = vstd::slice::slice_to_vec(groups[g].template.as_slice());
            let ghost prev = out@;
            out.push(RenderRequest { template, config });
            proof {
                assert(trial_key@ =~= spec_trial_key());
                let target = prev.map_values(|q: RenderRequest| spec_request_view(q)).push(
                    (
                        tmplv,
                        crate::vars::spec_insert(
                            cfgv,
                            spec_trial_key(),
                            crate::numfmt::dec_of(trialsv[t as int] as nat),
                        ),
                    ),
                );
                assert forall|l: int| 0 <= l < out@.len() implies out@.map_values(
                    |q: RenderRequest| spec_request_view(q),
                )[l] == target[l] by {
                    if l < prev.len() {
                        assert(out@[l] == prev[l]);
                    } else {
                        assert(out@[l] == out@.last());
                    }
                }
                assert(out@.map_values(|q: RenderRequest| spec_request_view(q)) =~= target);
                assert(out@.map_values(|q: RenderRequest| spec_request_view(q))
                    + spec_group_requests(tmplv, cfgv, trialsv, t + 1) + spec_campaign(
                    groups@,
                    g + 1,
                ) =~= spec_campaign(groups@, 0));
            }
            t += 1;
        }
        proof {
            assert(spec_group_requests(tmplv, cfgv, trialsv, nt as int)
                =~= Seq::<(Seq<u8>, Seq<(Seq<u8>, Seq<u8>)>)>::empty());
            assert(out@.map_values(|q: RenderRequest| spec_request_view(q)) + spec_campaign(
                groups@,
                g + 1,
            ) =~= spec_campaign(groups@, 0));
        }
        g += 1;
    }
    proof {
        assert(spec_campaign(groups@, ng as int) =~= Seq::<
            (Seq<u8>, Seq<(Seq<u8>, Seq<u8>)>),
        >::empty());
        assert(out@.map_values(|q: RenderRequest| spec_request_view(q)) =~= spec_campaign(
            groups@,
            0,
        ));
    }
    out
}

/// A value copy of a configuration pair list.
#[verifier::loop_isolation(false)]
fn copy_pairs(pairs: &Vec<(Vec<u8>, Vec<u8>)>) -> (r: Vec<(Vec<u8>, Vec<u8>)>)
    ensures
        crate::vars::pairs_view(r@) == crate::vars::pairs_view(pairs@),
{
    let mut out: Vec<(Vec<u8>, Vec<u8>)> = Vec::new();
    let n = pairs.len();
    let mut i: usize = 0;
    while i < n
        invariant
            0 <= i <= n == pairs@.len(),
            out@.len() == i,
            forall|l: int|
                0 <= l < i ==> (#[trigger] out@[l]).0@ == pairs@[l].0@ && out@[l].1@
                    == pairs@[l].1@,
        decreases n - i,
    {
        out.push(
            (
                vstd::slice::slice_to_vec(pairs[i].0.as_slice()),
                vstd::slice::slice_to_vec(pairs[i].1.as_slice()),
            ),
        );
        i += 1;
    }
    proof {
        assert(crate::vars::pairs_view(out@) =~~= crate::vars::pairs_view(pairs@));
    }
    out
}

/// The saturating sum of a duration list.
pub open spec fn spec_sat_sum(ds: Seq<u64>, i: int, acc: u64) -> u64
    decreases ds.len() - i,
{
    if i < 0 || i >= ds.len() {
        acc
    } else {
        let t = if acc + ds[i] <= u64::MAX {
            (acc + ds[i]) as u64
        } else {
            u64::MAX
        };
        spec_sat_sum(ds, i + 1, t)
    }
}

/// Law: over a single worker the estimate collapses to the plain sum of the
/// trials' durations: the worker runs them back to back with no staggered
/// start.
pub proof fn lemma_single_worker_estimate(durations: Seq<u64>)
    ensures
        spec_estimate(durations, 1) == spec_sat_sum(durations, 0, 0),
{
    assert(spec_initial_avail(1) =~= seq![0u64]);
    lemma_single_worker_schedule(durations, 0, 0);
    let fin = spec_schedule(durations, seq![0u64], 0);
    assert(fin =~= seq![spec_sat_sum(durations, 0, 0)]);
    assert(spec_max(fin, 0, 0) == spec_sat_sum(durations, 0, 0)) by {
        assert(fin[0] == spec_sat_sum(durations, 0, 0));
        assert(spec_max(fin, 1, fin[0]) == fin[0]);
    }
}

proof fn lemma_single_worker_schedule(durations: Seq<u64>, i: int, acc: u64)
    requires
        0 <= i <= durations.len(),
    ensures
        spec_schedule(durations, seq![acc], i) =~= seq![spec_sat_sum(durations, i, acc)],
    decreases durations.len() - i,
{
    if i < durations.len() {
        let s = seq![acc];
        assert(spec_min_index(s, 1, 0) == 0);
        let t = if acc + durations[i] <= u64::MAX {
            (acc + durations[i]) as u64
        } else {
            u64::MAX
        };
        assert(s.update(0, t) =~= seq![t]);
        lemma_single_worker_schedule(durations, i + 1, t);
    }
}

} // verus!
