use vstd::prelude::*;
use crate::error::NumError;

verus! {

/// The ODE stepping methods.
#[derive(Clone, Copy, Debug, PartialEq, Eq, Structural)]
pub enum Method {
    Euler,
    RungeKutta2,
    RungeKutta4,
    AdamsBashforth,
    AdamsMoulton,
}

/// How a solve on `n` steps proceeds: `start_steps` Euler steps that seed
/// the history of a multistep method, then `main_steps` steps of the method
/// itself, each of size `h = (x - x0) / n`.
#[derive(Clone, Copy, Debug, PartialEq, Eq, Structural)]
pub struct StepPlan {
    pub start_steps: u64,
    pub main_steps: u64,
}

/// How many Euler steps seed the method's history.
pub open spec fn seed_steps(method: Method) -> nat {
    match method {
        Method::AdamsBashforth => 1,
        Method::AdamsMoulton => 2,
        _ => 0,
    }
}

/// The steps of a solve with step count `n >= 1`: `n - 1` in all, the
/// convention every method shares, except that a multistep method always
/// takes its seeding steps.
pub open spec fn plan_of(method: Method, n: nat) -> StepPlan {
    let seeds = seed_steps(method);
    let total: int = n - 1;
    StepPlan {
        start_steps: seeds as u64,
        main_steps: if total > seeds { (total - seeds) as u64 } else { 0 },
    }
}

/// The plan for solving with `method` on step count `n`. Fails with
/// `InvalidArgument` when `n < 1`.
pub fn step_plan(method: Method, n: i64) -> (r: Result<StepPlan, NumError>)
    ensures
        n < 1 <==> r == Err::<StepPlan, NumError>(NumError::InvalidArgument),
        n >= 1 ==> r == Ok::<StepPlan, NumError>(plan_of(method, n as nat)),
{
    if n < 1 {
        return Err(NumError::InvalidArgument);
    }
    let seeds: u64 = match method {
        Method::AdamsBashforth => 1,
        Method::AdamsMoulton => 2,
        _ => 0,
    };
    let total: u64 = (n - 1) as u64;
    let main_steps: u64 = if total > seeds { total - seeds } else { 0 };
    Ok(StepPlan { start_steps: seeds, main_steps })
}

/// The last two entries of a multistep method's history, in a two-slot ring:
/// a push overwrites the older slot and turns the ring.
pub struct History<T> {
    slots: Vec<T>,
    oldest: usize,
}

impl<T: Copy> History<T> {
    pub closed spec fn wf(&self) -> bool {
        self.slots@.len() == 2 && self.oldest < 2
    }

    /// The two entries, older first.
    pub closed spec fn view(&self) -> Seq<T> {
        seq![self.slots@[self.oldest as int], self.slots@[1 - self.oldest]]
    }

    pub fn new(older: T, newer: T) -> (r: Self)
        ensures
            r.wf(),
            r.view() == seq![older, newer],
    {
        let mut slots: Vec<T> = Vec::new();
        slots.push(older);
        slots.push(newer);
        History { slots, oldest: 0 }
    }

    pub fn older(&self) -> (r: T)
        requires
            self.wf(),
        ensures
            r == self.view()[0],
    {
        self.slots[self.oldest]
    }

    pub fn newer(&self) -> (r: T)
        requires
            self.wf(),
        ensures
            r == self.view()[1],
    {
        self.slots[1 - self.oldest]
    }

    /// Drops the older entry and appends `entry` as the newer one.
    pub fn push(&mut self, entry: T)
        requires
            old(self).wf(),
        ensures
            final(self).wf(),
            final(self).view() == seq![old(self).view()[1], entry],
    {
        let i = self.oldest;
        self.slots.set(i, entry);
        self.oldest = 1 - i;
    }
}

} // verus!
