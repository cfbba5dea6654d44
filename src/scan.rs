use crate::model::ScanResult;
use crate::shares::record_views;
use vstd::prelude::*;

verus! {

/// The hosts whose probe succeeded, in input order; `alive[i]` is whether
/// `hosts[i]` accepted a connection in time.
pub open spec fn alive_hosts(hosts: Seq<Seq<char>>, alive: Seq<bool>) -> Seq<Seq<char>>
    decreases hosts.len(),
{
    if hosts.len() == 0 {
        Seq::empty()
    } else {
        let n = hosts.len() - 1;
        let prev = alive_hosts(hosts.take(n), alive.take(n));
        if alive[n] {
            prev.push(hosts[n])
        } else {
            prev
        }
    }
}

/// Some position of the input holds `h` and answered.
pub open spec fn answered(hosts: Seq<Seq<char>>, alive: Seq<bool>, h: Seq<char>) -> bool {
    exists|i: int| 0 <= i < hosts.len() && alive[i] && #[trigger] hosts[i] == h
}

pub open spec fn texts(v: Seq<String>) -> Seq<Seq<char>> {
    v.map_values(|s: String| s@)
}

/// The hosts that answered their probe.
pub fn select_alive(hosts: &Vec<String>, alive: &Vec<bool>) -> (r: Vec<String>)
    requires
        hosts@.len() == alive@.len(),
    ensures
        texts(r@) == alive_hosts(texts(hosts@), alive@),
{
    let mut out: Vec<String> = Vec::new();
    let mut i: usize = 0;
    while i < hosts.len()
        invariant
            hosts@.len() == alive@.len(),
            i <= hosts@.len(),
            texts(out@) == alive_hosts(texts(hosts@).take(i as int), alive@.take(i as int)),
        decreases hosts@.len() - i,
    {
        let ghost hs = texts(hosts@).take(i + 1);
        let ghost al = alive@.take(i + 1);
        assert(hs.take(i as int) =~= texts(hosts@).take(i as int));
        assert(al.take(i as int) =~= alive@.take(i as int));
        if alive[i] {
            let h = hosts[i].clone();
            let ghost before = out@;
            out.push(h);
            assert(texts(out@) =~= texts(before).push(hs[i as int]));
        }
        i = i + 1;
    }
    assert(texts(hosts@).take(hosts@.len() as int) =~= texts(hosts@));
    assert(alive@.take(alive@.len() as int) =~= alive@);
    out
}

/// The alive hosts are hosts of the input; every host that answered is
/// among them, and each of them answered at some position of the input.
pub proof fn lemma_alive_hosts_exact(hosts: Seq<Seq<char>>, alive: Seq<bool>)
    requires
        hosts.len() == alive.len(),
    ensures
        forall|j: int|
            0 <= j < alive_hosts(hosts, alive).len() ==> answered(
                hosts,
                alive,
                #[trigger] alive_hosts(hosts, alive)[j],
            ),
        forall|i: int| 0 <= i < hosts.len() && alive[i] ==> alive_hosts(hosts, alive).contains(
            #[trigger] hosts[i],
        ),
    decreases hosts.len(),
{
    if hosts.len() > 0 {
        let n = hosts.len() - 1;
        let hs = hosts.take(n);
        let al = alive.take(n);
        lemma_alive_hosts_exact(hs, al);
        let prev = alive_hosts(hs, al);
        let cur = alive_hosts(hosts, alive);
        assert forall|j: int| 0 <= j < cur.len() implies answered(hosts, alive, #[trigger] cur[j]) by {
            if j < prev.len() {
                assert(cur[j] == prev[j]);
                assert(answered(hs, al, prev[j]));
                let i = choose|i: int| 0 <= i < hs.len() && al[i] && #[trigger] hs[i] == prev[j];
                assert(hosts[i] == hs[i]);
                assert(alive[i] == al[i]);
                assert(0 <= i < hosts.len() && alive[i] && hosts[i] == cur[j]);
            } else {
                assert(cur[j] == hosts[n]);
                assert(0 <= n < hosts.len() && alive[n] && hosts[n] == cur[j]);
            }
        }
        assert forall|i: int| 0 <= i < hosts.len() && alive[i] implies cur.contains(
            #[trigger] hosts[i],
        ) by {
            if i < n {
                assert(hs[i] == hosts[i]);
                let k = choose|k: int| 0 <= k < prev.len() && prev[k] == hs[i];
                assert(cur[k] == prev[k]);
            } else {
                assert(cur[cur.len() - 1] == hosts[n]);
            }
        }
    }
}

/// A host that never answers yields no alive host, on every run.
pub proof fn lemma_unreachable_yields_nothing(hosts: Seq<Seq<char>>, alive: Seq<bool>)
    requires
        hosts.len() == alive.len(),
        forall|i: int| 0 <= i < alive.len() ==> !alive[i],
    ensures
        alive_hosts(hosts, alive) == Seq::<Seq<char>>::empty(),
    decreases hosts.len(),
{
    if hosts.len() > 0 {
        let n = hosts.len() - 1;
        lemma_unreachable_yields_nothing(hosts.take(n), alive.take(n));
    }
}

/// What the dispatcher asks its runner to do next.
#[derive(Clone, Copy, Debug, PartialEq, Eq)]
pub enum Action {
    /// Start the work of the item at this index.
    Start(usize),
    /// Wait until one running item finishes.
    Wait,
    /// Every item has been started and has finished.
    Done,
}

/// Admits the items `0..total` in order, never more than `limit` at once.
pub struct Dispatcher {
    pub limit: usize,
    pub total: usize,
    pub started: usize,
    pub running: usize,
}

impl Dispatcher {
    /// No more than `limit` items run at once, and only started ones run.
    pub open spec fn wf(self) -> bool {
        &&& self.limit >= 1
        &&& self.running <= self.limit
        &&& self.running <= self.started
        &&& self.started <= self.total
    }

    pub fn new(total: usize, limit: usize) -> (r: Dispatcher)
        requires
            limit >= 1,
        ensures
            r.wf(),
            r.limit == limit,
            r.total == total,
            r.started == 0,
            r.running == 0,
    {
        Dispatcher { limit, total, started: 0, running: 0 }
    }

    /// Starts the next item when a slot is free, waits while all slots are
    /// taken or nothing is left to start, and ends once all have finished.
    pub fn next_action(&mut self) -> (a: Action)
        requires
            old(self).wf(),
        ensures
            final(self).wf(),
            final(self).limit == old(self).limit,
            final(self).total == old(self).total,
            old(self).started < old(self).total && old(self).running < old(self).limit ==> {
                &&& a == Action::Start(old(self).started)
                &&& final(self).started == old(self).started + 1
                &&& final(self).running == old(self).running + 1
            },
            !(old(self).started < old(self).total && old(self).running < old(self).limit) ==> {
                &&& *final(self) == *old(self)
                &&& a == (if old(self).running > 0 { Action::Wait } else { Action::Done })
            },
    {
        if self.started < self.total && self.running < self.limit {
            let i = self.started;
            self.started = self.started + 1;
            self.running = self.running + 1;
            Action::Start(i)
        } else if self.running > 0 {
            Action::Wait
        } else {
            Action::Done
        }
    }

    /// Records that one running item has finished.
    pub fn finished(&mut self)
        requires
            old(self).wf(),
            old(self).running > 0,
        ensures
            final(self).wf(),
            final(self).limit == old(self).limit,
            final(self).total == old(self).total,
            final(self).started == old(self).started,
            final(self).running == old(self).running - 1,
    {
        self.running = self.running - 1;
    }

    /// Whether every item has been started and has finished.
    pub fn is_done(&self) -> (r: bool)
        ensures
            r == (self.started == self.total && self.running == 0),
    {
        self.started == self.total && self.running == 0
    }
}

/// Whatever the order of steps, no more than `limit` items run at once.
pub proof fn lemma_dispatch_bound(d: Dispatcher)
    requires
        d.wf(),
    ensures
        1 <= d.limit,
        d.running <= d.limit,
{
}

/// Every share found in a run, in the order the hosts finished.
pub struct ResultLog {
    pub results: Vec<ScanResult>,
}

impl ResultLog {
    pub fn new() -> (r: ResultLog)
        ensures
            r.results@.len() == 0,
    {
        ResultLog { results: Vec::new() }
    }

    /// Appends one host's records after those already held.
    pub fn append(&mut self, batch: &Vec<ScanResult>)
        ensures
            record_views(final(self).results@) == record_views(old(self).results@) + record_views(
                batch@,
            ),
    {
        let ghost start = record_views(self.results@);
        let mut i: usize = 0;
        while i < batch.len()
            invariant
                i <= batch@.len(),
                record_views(self.results@) == start + record_views(batch@).take(i as int),
            decreases batch@.len() - i,
        {
            let r = batch[i].duplicate();
            let ghost before = self.results@;
            self.results.push(r);
            assert(record_views(self.results@) =~= record_views(before).push(r@));
            assert(record_views(batch@).take(i + 1) =~= record_views(batch@).take(i as int).push(
                r@,
            ));
            i = i + 1;
        }
        assert(record_views(batch@).take(batch@.len() as int) =~= record_views(batch@));
    }
}

} // verus!
