use vstd::prelude::*;

use crate::model::{Config, Request};
use crate::stats::Stats;

verus! {

/// The pause between two worker spawns, in milliseconds: the ramp-up time
/// spread evenly over the workers.
pub fn thread_delay_ms(rampup_time: u32, thread_count: u32) -> (r: u64)
    requires
        thread_count > 0,
    ensures
        r == (rampup_time as int * 1000) / (thread_count as int),
{
    (rampup_time as u64 * 1000) / (thread_count as u64)
}

/// More than `duration` seconds have passed between `start` and `now`.
pub open spec fn time_over(start: int, now: int, duration: int) -> bool {
    now - start > duration
}

/// Decides `time_over` on seconds since the epoch.
pub fn is_execution_time_over(start_secs: i64, now_secs: i64, duration: u64) -> (r: bool)
    ensures
        r == time_over(start_secs as int, now_secs as int, duration as int),
{
    (now_secs as i128) - (start_secs as i128) > (duration as i128)
}

/// Relies on `chrono::Utc::now` and `DateTime::timestamp`: the current
/// time in seconds since the epoch. Nothing is promised of its value.
#[verifier::external_body]
fn current_epoch_seconds() -> (r: i64) {
    chrono::Utc::now().timestamp()
}

/// The time a run starts, in seconds since the epoch.
pub fn run_start_seconds() -> (r: i64) {
    current_epoch_seconds()
}

/// More than `duration` seconds have passed since `start_secs`, by the
/// clock now.
pub fn execution_time_over(start_secs: i64, duration: u64) -> (r: bool) {
    is_execution_time_over(start_secs, current_epoch_seconds(), duration)
}

/// A response status that counts as a failure: 400 or more.
pub fn is_failed_request(status: u16) -> (r: bool)
    ensures
        r == (status >= 400),
{
    status > 399
}

/// A worker stops before an iteration: in iteration mode once it has run
/// `iterations` iterations, otherwise once the execution time is over.
pub open spec fn stop_before(iterations: nat, done: nat, execution_time: nat, elapsed: int) -> bool {
    if iterations > 0 {
        done >= iterations
    } else {
        elapsed > execution_time
    }
}

/// What a worker does next.
#[derive(Clone, Copy, Debug, PartialEq, Eq, Structural)]
pub enum Step {
    /// Send the request at this position of the scenario.
    Send(usize),
    /// The iteration is over: emit its stats.
    EndIteration,
}

/// `pos` gives, for each stat of `batch`, the position in the scenario of
/// the request it records: positions increase, each stat carries its
/// request's name, and when errors are not continued past the batch is a
/// prefix of the scenario in which only the last stat may be a failure.
pub open spec fn positions_fit(pos: Seq<int>, batch: Seq<Stats>, names: Seq<Seq<char>>, continue_on_error: bool) -> bool {
    &&& pos.len() == batch.len()
    &&& forall|i: int| 0 <= i < batch.len() ==> 0 <= #[trigger] pos[i] < names.len() && batch[i].name@ == names[pos[i]]
    &&& forall|i: int, j: int| 0 <= i < j < batch.len() ==> #[trigger] pos[i] < #[trigger] pos[j]
    &&& !continue_on_error ==> {
        &&& forall|i: int| 0 <= i < batch.len() ==> #[trigger] pos[i] == i
        &&& forall|i: int| 0 <= i < batch.len() - 1 ==> (#[trigger] batch[i]).status < 400
    }
}

/// A batch records requests of the scenario in scenario order (see
/// `positions_fit`).
pub open spec fn batch_in_order(batch: Seq<Stats>, names: Seq<Seq<char>>, continue_on_error: bool) -> bool {
    exists|pos: Seq<int>| positions_fit(pos, batch, names, continue_on_error)
}

/// One worker's progress through its iterations and through the scenario
/// within an iteration.
pub struct Worker {
    iterations: u64,
    execution_time: u64,
    continue_on_error: bool,
    names: Vec<String>,
    done: u64,
    position: usize,
    broken: bool,
    stats: Vec<Stats>,
    positions: Ghost<Seq<int>>,
}

impl Worker {
    /// Iterations begun so far.
    pub closed spec fn done(&self) -> nat {
        self.done as nat
    }

    /// The position in the scenario of the next request.
    pub closed spec fn position(&self) -> nat {
        self.position as nat
    }

    /// The rest of this iteration is skipped after a failure.
    pub closed spec fn broken(&self) -> bool {
        self.broken
    }

    /// The stats of this iteration so far.
    pub closed spec fn recorded(&self) -> Seq<Stats> {
        self.stats@
    }

    pub closed spec fn iterations(&self) -> nat {
        self.iterations as nat
    }

    pub closed spec fn execution_time(&self) -> nat {
        self.execution_time as nat
    }

    pub closed spec fn continue_on_error(&self) -> bool {
        self.continue_on_error
    }

    /// The names of the scenario's requests, in order.
    pub closed spec fn names(&self) -> Seq<Seq<char>> {
        self.names@.map_values(|s: String| s@)
    }

    pub open spec fn request_count(&self) -> nat {
        self.names().len()
    }

    /// Within an iteration: the stats so far record requests before the
    /// current position, in scenario order.
    pub closed spec fn wf(&self) -> bool {
        &&& positions_fit(self.positions@, self.stats@, self.names(), self.continue_on_error)
        &&& forall|i: int| 0 <= i < self.stats@.len() ==> #[trigger] self.positions@[i] < self.position
        &&& self.position <= self.names@.len()
        &&& (!self.continue_on_error && !self.broken) ==> {
            &&& self.position == self.stats@.len()
            &&& forall|i: int| 0 <= i < self.stats@.len() ==> (#[trigger] self.stats@[i]).status < 400
        }
    }

    /// A worker for a run of `config` over the scenario `requests`, before
    /// its first iteration.
    pub fn new(config: &Config, requests: &Vec<Request>) -> (w: Worker)
        ensures
            w.wf(),
            w.done() == 0,
            w.position() == 0,
            !w.broken(),
            w.recorded().len() == 0,
            w.iterations() == config.iterations,
            w.execution_time() == config.execution_time,
            w.continue_on_error() == config.continue_on_error,
            w.names() == requests@.map_values(|r: Request| r.name@),
    {
        let mut names: Vec<String> = Vec::new();
        let mut i: usize = 0;
        while i < requests.len()
            invariant
                i <= requests@.len(),
                names@.map_values(|s: String| s@) == requests@.subrange(0, i as int).map_values(|r: Request| r.name@),
            decreases requests@.len() - i,
        {
            let ghost prev = names@;
            let name = requests[i].name.clone();
            names.push(name);
            assert(names@ == prev.push(name));
            assert(names@.map_values(|s: String| s@) =~= prev.map_values(|s: String| s@).push(requests@[i as int].name@));
            i += 1;
            assert(names@.map_values(|s: String| s@) =~= requests@.subrange(0, i as int).map_values(|r: Request| r.name@));
        }
        assert(requests@.subrange(0, requests@.len() as int) =~= requests@);
        let w = Worker {
            iterations: config.iterations,
            execution_time: config.execution_time,
            continue_on_error: config.continue_on_error,
            names,
            done: 0,
            position: 0,
            broken: false,
            stats: Vec::new(),
            positions: Ghost(Seq::empty()),
        };
        w
    }

    /// Whether the worker stops rather than begin another iteration, given
    /// the seconds elapsed since the run started. A worker whose count can
    /// grow no further stops too.
    pub fn should_stop(&self, elapsed_secs: i64) -> (r: bool)
        ensures
            r == (stop_before(self.iterations(), self.done(), self.execution_time(), elapsed_secs as int)
                || self.done() == u64::MAX),
    {
        if self.iterations > 0 {
            self.done >= self.iterations
        } else {
            (elapsed_secs as i128) > (self.execution_time as i128) || self.done == u64::MAX
        }
    }

    /// Whether the worker stops rather than begin another iteration, for a
    /// run that started at `start_secs`: in iteration mode this is decided by
    /// the count alone, otherwise by the clock.
    pub fn should_stop_now(&self, start_secs: i64) -> (r: bool)
        ensures
            self.iterations() > 0 ==> r == (self.done() >= self.iterations()),
            !r ==> self.done() < u64::MAX,
    {
        if self.iterations > 0 {
            self.done >= self.iterations
        } else {
            execution_time_over(start_secs, self.execution_time) || self.done == u64::MAX
        }
    }

    /// Begins an iteration: counts it and starts at the first request.
    pub fn begin_iteration(&mut self)
        requires
            old(self).done() < u64::MAX,
        ensures
            final(self).wf(),
            final(self).done() == old(self).done() + 1,
            final(self).position() == 0,
            !final(self).broken(),
            final(self).recorded().len() == 0,
            final(self).iterations() == old(self).iterations(),
            final(self).execution_time() == old(self).execution_time(),
            final(self).continue_on_error() == old(self).continue_on_error(),
            final(self).names() == old(self).names(),
    {
        self.done = self.done + 1;
        self.position = 0;
        self.broken = false;
        self.stats = Vec::new();
        self.positions = Ghost(Seq::empty());
    }

    /// The next step within the iteration: the next request in scenario
    /// order, or the end once every request ran or a failure broke it off.
    pub fn next_step(&self) -> (s: Step)
        ensures
            (self.broken() || self.position() >= self.request_count()) ==> s == Step::EndIteration,
            !(self.broken() || self.position() >= self.request_count()) ==> s == Step::Send(self.position() as usize),
    {
        if self.broken || self.position >= self.names.len() {
            Step::EndIteration
        } else {
            Step::Send(self.position)
        }
    }

    /// Records the response to the current request: its stat, named after
    /// the request and stamped with the running count, is kept; a status of
    /// 400 or more breaks the iteration off unless errors are continued past.
    pub fn record_response(&mut self, status: u16, latency: u32, active: &ActiveWorkers)
        requires
            old(self).wf(),
            !old(self).broken(),
            old(self).position() < old(self).request_count(),
            active.wf(),
            active.running() >= 1,
        ensures
            final(self).wf(),
            final(self).recorded().len() == old(self).recorded().len() + 1,
            final(self).recorded().drop_last() == old(self).recorded(),
            final(self).recorded().last().name@ == old(self).names()[old(self).position() as int],
            final(self).recorded().last().status == status,
            final(self).recorded().last().latency == latency,
            final(self).recorded().last().thread_count as nat == active.running(),
            1 <= final(self).recorded().last().thread_count <= active.limit(),
            final(self).position() == old(self).position() + 1,
            final(self).broken() == (status >= 400 && !old(self).continue_on_error()),
            final(self).done() == old(self).done(),
            final(self).iterations() == old(self).iterations(),
            final(self).execution_time() == old(self).execution_time(),
            final(self).continue_on_error() == old(self).continue_on_error(),
            final(self).names() == old(self).names(),
    {
        let n = self.names.len();
        assert(self.position < n);
        let stat = stamp(self.names[self.position].as_str(), status, latency, active);
        let ghost p = self.position as int;
        let ghost pos0 = self.positions@;
        let ghost st0 = self.stats@;
        self.stats.push(stat);
        self.positions = Ghost(pos0.push(p));
        self.position = self.position + 1;
        self.broken = is_failed_request(status) && !self.continue_on_error;
        proof {
            assert(self.names()[p] == self.names@[p]@);
            assert(self.stats@.drop_last() =~= st0);
            let pos = self.positions@;
            assert forall|i: int| 0 <= i < self.stats@.len() implies
                0 <= #[trigger] pos[i] < self.names().len() && self.stats@[i].name@ == self.names()[pos[i]] by {
                if i < st0.len() {
                    assert(pos[i] == pos0[i]);
                    assert(self.stats@[i] == st0[i]);
                }
            }
            assert forall|i: int, j: int| 0 <= i < j < self.stats@.len() implies #[trigger] pos[i] < #[trigger] pos[j] by {
                if j == st0.len() {
                    assert(pos0[i] < p);
                } else {
                    assert(pos[i] == pos0[i] && pos[j] == pos0[j]);
                }
            }
            if !self.continue_on_error {
                assert forall|i: int| 0 <= i < self.stats@.len() implies #[trigger] pos[i] == i by {
                    if i < st0.len() {
                        assert(pos[i] == pos0[i]);
                    }
                }
                assert forall|i: int| 0 <= i < self.stats@.len() - 1 implies (#[trigger] self.stats@[i]).status < 400 by {
                    assert(self.stats@[i] == st0[i]);
                }
            }
            assert forall|i: int| 0 <= i < self.stats@.len() implies #[trigger] pos[i] < self.position by {
                if i < st0.len() {
                    assert(pos[i] == pos0[i]);
                }
            }
            if !self.continue_on_error && !self.broken {
                assert forall|i: int| 0 <= i < self.stats@.len() implies (#[trigger] self.stats@[i]).status < 400 by {
                    if i < st0.len() {
                        assert(self.stats@[i] == st0[i]);
                    }
                }
            }
        }
    }

    /// Records that the current request could not be built or sent: nothing
    /// is kept, and the iteration is broken off unless errors are to be
    /// continued past.
    pub fn record_failure(&mut self)
        requires
            old(self).wf(),
            !old(self).broken(),
            old(self).position() < old(self).request_count(),
        ensures
            final(self).wf(),
            final(self).recorded() == old(self).recorded(),
            final(self).position() == old(self).position() + 1,
            final(self).broken() == !old(self).continue_on_error(),
            final(self).done() == old(self).done(),
            final(self).iterations() == old(self).iterations(),
            final(self).execution_time() == old(self).execution_time(),
            final(self).continue_on_error() == old(self).continue_on_error(),
            final(self).names() == old(self).names(),
    {
        let n = self.names.len();
        assert(self.position < n);
        self.position = self.position + 1;
        self.broken = !self.continue_on_error;
        proof {
            let pos = self.positions@;
            assert forall|i: int| 0 <= i < self.stats@.len() implies #[trigger] pos[i] < self.position by {
                assert(pos[i] < old(self).position);
            }
        }
    }

    /// Ends the iteration, handing back its stats as one batch, in scenario
    /// order.
    pub fn finish_iteration(&mut self) -> (batch: Vec<Stats>)
        requires
            old(self).wf(),
        ensures
            batch@ == old(self).recorded(),
            batch_in_order(batch@, old(self).names(), old(self).continue_on_error()),
            !old(self).continue_on_error() && !old(self).broken() && old(self).position() >= old(self).request_count()
                ==> batch@.len() == old(self).request_count() && forall|i: int|
                0 <= i < batch@.len() ==> (#[trigger] batch@[i]).name@ == old(self).names()[i] && batch@[i].status < 400,
            final(self).recorded().len() == 0,
            final(self).done() == old(self).done(),
            final(self).iterations() == old(self).iterations(),
            final(self).execution_time() == old(self).execution_time(),
            final(self).continue_on_error() == old(self).continue_on_error(),
            final(self).names() == old(self).names(),
    {
        let ghost pos = self.positions@;
        let mut batch: Vec<Stats> = Vec::new();
        batch.append(&mut self.stats);
        self.positions = Ghost(Seq::empty());
        assert(batch@ =~= old(self).recorded());
        assert(positions_fit(pos, batch@, old(self).names(), old(self).continue_on_error()));
        proof {
            if !old(self).continue_on_error() && !old(self).broken() && old(self).position() >= old(self).request_count() {
                assert(old(self).position() <= old(self).names@.len());
                assert(old(self).names@.len() == old(self).names().len());
                assert forall|i: int| 0 <= i < batch@.len() implies (#[trigger] batch@[i]).name@ == old(self).names()[i]
                    && batch@[i].status < 400 by {
                    assert(pos[i] == i);
                    assert(batch@[i] == old(self).stats@[i]);
                }
            }
        }
        batch
    }
}

/// The iterations a worker in iteration mode runs from `done` on: one more
/// each time `stop_before` lets it go on.
pub open spec fn iterations_from(iterations: nat, done: nat) -> nat
    decreases iterations - done,
{
    if stop_before(iterations, done, 0, 0) || iterations == 0 {
        0
    } else {
        1 + iterations_from(iterations, done + 1)
    }
}

/// The iterations `n` workers run in iteration mode.
pub open spec fn total_iterations(n: nat, iterations: nat) -> nat
    decreases n,
{
    if n == 0 {
        0
    } else {
        total_iterations((n - 1) as nat, iterations) + iterations_from(iterations, 0)
    }
}

proof fn lemma_iterations_from(k: nat, d: nat)
    requires
        k > 0,
        d <= k,
    ensures
        iterations_from(k, d) == k - d,
    decreases k - d,
{
    if d < k {
        lemma_iterations_from(k, d + 1);
    }
}

/// In iteration mode with `iterations = k > 0`, each worker runs exactly
/// `k` iterations before it stops, so `n` workers run `n * k` in all.
pub proof fn lemma_total_iterations(n: nat, k: nat)
    requires
        k > 0,
    ensures
        iterations_from(k, 0) == k,
        total_iterations(n, k) == n * k,
    decreases n,
{
    lemma_iterations_from(k, 0);
    if n > 0 {
        let m = (n - 1) as nat;
        lemma_total_iterations(m, k);
        assert(n * k == m * k + k) by (nonlinear_arith)
            requires
                n == m + 1,
        ;
    } else {
        assert(n * k == 0) by (nonlinear_arith)
            requires
                n == 0,
        ;
    }
}

/// The count of workers running, shared by the workers of a run.
pub struct ActiveWorkers {
    limit: u16,
    spawned: u16,
    exited: u16,
}

impl ActiveWorkers {
    pub closed spec fn wf(&self) -> bool {
        self.exited <= self.spawned <= self.limit
    }

    /// The most workers that may run: the thread count.
    pub closed spec fn limit(&self) -> nat {
        self.limit as nat
    }

    /// The workers running now: spawned and not yet exited.
    pub closed spec fn running(&self) -> nat {
        (self.spawned - self.exited) as nat
    }

    /// Workers spawned so far.
    pub closed spec fn spawned(&self) -> nat {
        self.spawned as nat
    }

    /// A count for a run of `limit` workers, none running yet.
    pub fn new(limit: u16) -> (r: ActiveWorkers)
        ensures
            r.wf(),
            r.limit() == limit,
            r.running() == 0,
            r.spawned() == 0,
    {
        ActiveWorkers { limit, spawned: 0, exited: 0 }
    }

    /// A worker is spawned.
    pub fn spawn(&mut self)
        requires
            old(self).wf(),
            old(self).spawned() < old(self).limit(),
        ensures
            final(self).wf(),
            final(self).limit() == old(self).limit(),
            final(self).spawned() == old(self).spawned() + 1,
            final(self).running() == old(self).running() + 1,
    {
        self.spawned = self.spawned + 1;
    }

    /// A worker exits.
    pub fn exit(&mut self)
        requires
            old(self).wf(),
            old(self).running() > 0,
        ensures
            final(self).wf(),
            final(self).limit() == old(self).limit(),
            final(self).spawned() == old(self).spawned(),
            final(self).running() == old(self).running() - 1,
    {
        self.exited = self.exited + 1;
    }

    /// The count a running worker stamps on its stats.
    pub fn current(&self) -> (r: u16)
        requires
            self.wf(),
        ensures
            r as nat == self.running(),
            r <= self.limit(),
    {
        self.spawned - self.exited
    }
}

/// A stat stamped by a running worker carries a count between one and the
/// thread count: the worker itself is running, and no more workers than the
/// thread count are ever spawned.
pub proof fn lemma_stamp_in_range(a: ActiveWorkers)
    requires
        a.wf(),
        a.running() >= 1,
    ensures
        1 <= a.running() <= a.limit(),
{
}

/// The stat of a request sent by a running worker, stamped with the count
/// of running workers.
pub fn stamp(name: &str, status: u16, latency: u32, active: &ActiveWorkers) -> (s: Stats)
    requires
        active.wf(),
        active.running() >= 1,
    ensures
        s.name@ == name@,
        s.status == status,
        s.latency == latency,
        1 <= s.thread_count <= active.limit(),
        s.thread_count as nat == active.running(),
{
    Stats::new(name, status, latency, active.current())
}

} // verus!
