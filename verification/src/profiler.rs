//! Time spent on named tasks, with the clock read by the caller.

use vstd::prelude::*;
use crate::text::chars_of;

verus! {

/// A task: its name, when it was started, and the time spent on it so far.
pub struct Task {
    pub name: Vec<char>,
    pub started: u64,
    pub spent: u64,
}

/// The tasks that have been completed, that are running and that are paused.
pub struct Profiler {
    pub completed: Vec<Task>,
    pub running: Vec<Task>,
    pub paused: Vec<Task>,
}

/// The index of the first of `tasks` that is named `name`; the number of tasks if
/// none is.
pub open spec fn position_of(tasks: Seq<Task>, name: Seq<char>) -> int
    decreases tasks.len(),
{
    if tasks.len() == 0 {
        0
    } else if tasks[0].name@ == name {
        0
    } else {
        1 + position_of(tasks.skip(1), name)
    }
}

/// Whether one of `tasks` is named `name`.
pub open spec fn listed(tasks: Seq<Task>, name: Seq<char>) -> bool {
    position_of(tasks, name) < tasks.len()
}

/// The time from `start` to `now`, none if the clock went back, added to `spent`;
/// the sum stops at the largest value that it can hold.
pub open spec fn spent_until(spent: u64, start: u64, now: u64) -> u64 {
    let run = if now >= start {
        now - start
    } else {
        0
    };
    if spent + run > u64::MAX {
        u64::MAX
    } else {
        (spent + run) as u64
    }
}

/// The index of the first of `tasks` that is named `name`.
fn find(tasks: &Vec<Task>, name: &Vec<char>) -> (r: usize)
    ensures
        r == position_of(tasks@, name@),
        r <= tasks@.len(),
        r < tasks@.len() ==> tasks@[r as int].name@ == name@,
{
    let mut i: usize = 0;
    proof {
        assert(tasks@.skip(0) =~= tasks@);
    }
    while i < tasks.len()
        invariant
            i <= tasks@.len(),
            position_of(tasks@, name@) == i + position_of(tasks@.skip(i as int), name@),
        decreases tasks@.len() - i,
    {
        proof {
            assert(tasks@.skip(i as int).skip(1) =~= tasks@.skip(i + 1));
            assert(tasks@.skip(i as int)[0] == tasks@[i as int]);
        }
        if same_name(&tasks[i].name, name) {
            return i;
        }
        i = i + 1;
    }
    proof {
        assert(tasks@.skip(i as int).len() == 0);
    }
    i
}

/// Whether two names are the same.
fn same_name(a: &Vec<char>, b: &Vec<char>) -> (r: bool)
    ensures
        r == (a@ == b@),
{
    if a.len() != b.len() {
        return false;
    }
    let mut i: usize = 0;
    while i < a.len()
        invariant
            i <= a@.len(),
            a@.len() == b@.len(),
            forall|j: int| 0 <= j < i ==> a@[j] == b@[j],
        decreases a@.len() - i,
    {
        if a[i] != b[i] {
            return false;
        }
        i = i + 1;
    }
    proof {
        assert(a@ =~= b@);
    }
    true
}

impl Profiler {
    /// A profiler without tasks.
    pub fn new() -> (r: Self)
        ensures
            r.completed@.len() == 0,
            r.running@.len() == 0,
            r.paused@.len() == 0,
    {
        Self { completed: Vec::new(), running: Vec::new(), paused: Vec::new() }
    }

    /// Whether a task named `name` is running.
    pub fn is_running(&self, name: &str) -> (r: bool)
        ensures
            r == listed(self.running@, name@),
    {
        let key = chars_of(name);
        find(&self.running, &key) < self.running.len()
    }

    /// Whether a task named `name` is paused.
    pub fn is_paused(&self, name: &str) -> (r: bool)
        ensures
            r == listed(self.paused@, name@),
    {
        let key = chars_of(name);
        find(&self.paused, &key) < self.paused.len()
    }

    /// The time spent on the completed task named `name`.
    pub fn time_of(&self, name: &str) -> (r: Option<u64>)
        ensures
            r is Some == listed(self.completed@, name@),
            r is Some ==> r.unwrap() == self.completed@[position_of(self.completed@, name@)].spent,
    {
        let key = chars_of(name);
        let i = find(&self.completed, &key);
        if i < self.completed.len() {
            Some(self.completed[i].spent)
        } else {
            None
        }
    }

    /// Starts the task `name` at the time `now`. No task of that name may be running
    /// or paused.
    pub fn begin(&mut self, name: &str, now: u64)
        requires
            !listed(old(self).running@, name@),
            !listed(old(self).paused@, name@),
        ensures
            final(self).running@.len() == old(self).running@.len() + 1,
            final(self).running@.drop_last() == old(self).running@,
            final(self).running@.last().name@ == name@,
            final(self).running@.last().started == now,
            final(self).running@.last().spent == 0,
            final(self).completed == old(self).completed,
            final(self).paused == old(self).paused,
    {
        self.running.push(Task { name: chars_of(name), started: now, spent: 0 });
        proof {
            assert(final(self).running@.drop_last() =~= old(self).running@);
        }
    }

    /// Completes the running task `name` at the time `now`: it is listed as
    /// completed, in place of an earlier task of that name if there was one, with
    /// the time spent on it until `now`. The task stays listed as running.
    pub fn stop(&mut self, name: &str, now: u64)
        requires
            listed(old(self).running@, name@),
        ensures
            final(self).running == old(self).running,
            final(self).paused == old(self).paused,
            ({
                let task = old(self).running@[position_of(old(self).running@, name@)];
                let at = position_of(old(self).completed@, name@);
                &&& final(self).completed@.len() == (if listed(old(self).completed@, name@) {
                    old(self).completed@.len()
                } else {
                    old(self).completed@.len() + 1
                })
                &&& final(self).completed@[at].name@ == name@
                &&& final(self).completed@[at].started == task.started
                &&& final(self).completed@[at].spent == spent_until(task.spent, task.started, now)
                &&& forall|i: int|
                    0 <= i < old(self).completed@.len() && i != at ==> final(self).completed@[i]
                        == old(self).completed@[i]
            }),
    {
        let key = chars_of(name);
        let i = find(&self.running, &key);
        let started = self.running[i].started;
        let spent = self.running[i].spent;
        let run: u64 = if now >= started {
            now - started
        } else {
            0
        };
        let total: u64 = if spent > u64::MAX - run {
            u64::MAX
        } else {
            spent + run
        };
        let at = find(&self.completed, &key);
        let done = Task { name: key, started, spent: total };
        if at < self.completed.len() {
            self.completed.set(at, done);
        } else {
            self.completed.push(done);
        }
    }
}

} // verus!
