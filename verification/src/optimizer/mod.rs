//! The optimization of a strip packing: an initial solution, an exploration phase, and a
//! compression phase.
use crate::optimizer::lbf::ConstructionError;
use crate::optimizer::random::{lemma_skipped_twice, next_rng, seeded, skipped, upcoming};
use rand::rngs::Xoshiro256PlusPlus;
use vstd::prelude::*;

pub mod hazards;
pub mod lbf;
pub mod necessary_width;
pub mod random;
pub mod strip_width;

verus! {

/// A phase of the optimization, as it is reported.
#[derive(Clone, Copy, Debug, PartialEq, Eq, Structural)]
pub enum OptimizationPhase {
    Exploration,
    Compression,
}

/// What the optimization is waiting for.
#[derive(Clone, Copy, Debug, PartialEq, Eq, Structural)]
pub enum Stage {
    /// To begin.
    Start,
    /// For an initial placement to be constructed.
    Constructing,
    /// For the given initial solution to be restored.
    Restoring,
    /// For the exploration phase to end.
    Exploring,
    /// For the compression phase to end.
    Compressing,
    /// For nothing: it has ended.
    Done,
}

/// An optimization in progress. Time limits are in nanoseconds.
pub struct Optimizer {
    pub stage: Stage,
    pub rng: Xoshiro256PlusPlus,
    pub exploration_limit: u128,
    pub compression_limit: u128,
}

/// What has happened. `P` is the type of problems, `Sol` that of solutions.
pub enum Event<P, Sol> {
    /// The optimization was called, with or without an initial solution.
    Begin { warm: bool },
    /// The construction of an initial placement has ended.
    Constructed(Result<P, ConstructionError>),
    /// The initial solution was restored, and hazards that it lacked were registered.
    Restored(P),
    /// The exploration has ended; it leaves a problem and the solutions that it came across.
    Explored { prob: P, solutions: Vec<Sol> },
    /// The compression has ended with its best solution.
    Compressed(Sol),
}

/// What is to be done.
pub enum Action<P, Sol> {
    /// Construct an initial placement.
    Construct { rng: Xoshiro256PlusPlus },
    /// Restore the given initial solution.
    Restore,
    /// Tell the listener that a phase begins.
    ReportPhase(OptimizationPhase),
    /// Give the terminator a new time limit.
    NewTimeout(u128),
    /// Explore from a problem.
    Explore { prob: P, rng: Xoshiro256PlusPlus },
    /// Compress a solution, in the problem that the exploration left.
    Compress { prob: P, from: Sol, rng: Xoshiro256PlusPlus },
    /// Report the final solution to the listener, and return it.
    Finish(Sol),
    /// Return the error.
    Fail(ConstructionError),
}

impl Optimizer {
    /// The optimization is waiting for such an event. An exploration has come across at least one solution.
    pub open spec fn accepts<P, Sol>(self, event: Event<P, Sol>) -> bool {
        match event {
            Event::Begin { .. } => self.stage is Start,
            Event::Constructed(_) => self.stage is Constructing,
            Event::Restored(_) => self.stage is Restoring,
            Event::Explored { solutions, .. } => self.stage is Exploring && solutions@.len() > 0,
            Event::Compressed(_) => self.stage is Compressing,
        }
    }

    /// The limits are the same, and `next` has handed out `n` more generators.
    pub open spec fn moved_on(self, next: Optimizer, stage: Stage, n: nat) -> bool {
        &&& next.stage == stage
        &&& next.exploration_limit == self.exploration_limit
        &&& next.compression_limit == self.compression_limit
        &&& if n == 0 {
            next.rng == self.rng
        } else {
            upcoming(next.rng) == skipped(upcoming(self.rng), n)
        }
    }

    /// A phase begins: it is reported, its time limit is set, and then it is run.
    pub open spec fn starts_exploration<P, Sol>(
        self,
        prob: P,
        next: Optimizer,
        actions: Seq<Action<P, Sol>>,
    ) -> bool {
        &&& self.moved_on(next, Stage::Exploring, 1)
        &&& actions.len() == 3
        &&& actions[0] == Action::<P, Sol>::ReportPhase(OptimizationPhase::Exploration)
        &&& actions[1] == Action::<P, Sol>::NewTimeout(self.exploration_limit)
        &&& actions[2] is Explore
        &&& actions[2]->Explore_prob == prob
        &&& upcoming(actions[2]->Explore_rng) == seeded(upcoming(self.rng)[0])
    }

    /// An event takes the optimization from `self` to `next`, with these actions in this order.
    pub open spec fn steps<P, Sol>(
        self,
        event: Event<P, Sol>,
        next: Optimizer,
        actions: Seq<Action<P, Sol>>,
    ) -> bool {
        match event {
            Event::Begin { warm: false } => {
                &&& self.moved_on(next, Stage::Constructing, 1)
                &&& actions.len() == 1
                &&& actions[0] is Construct
                &&& upcoming(actions[0]->Construct_rng) == seeded(upcoming(self.rng)[0])
            },
            Event::Begin { warm: true } => {
                &&& self.moved_on(next, Stage::Restoring, 0)
                &&& actions == seq![Action::<P, Sol>::Restore]
            },
            Event::Constructed(Err(error)) => {
                &&& self.moved_on(next, Stage::Done, 0)
                &&& actions == seq![Action::<P, Sol>::Fail(error)]
            },
            Event::Constructed(Ok(prob)) => self.starts_exploration(prob, next, actions),
            Event::Restored(prob) => self.starts_exploration(prob, next, actions),
            Event::Explored { prob, solutions } => {
                &&& self.moved_on(next, Stage::Compressing, 1)
                &&& actions.len() == 3
                &&& actions[0] == Action::<P, Sol>::ReportPhase(OptimizationPhase::Compression)
                &&& actions[1] == Action::<P, Sol>::NewTimeout(self.compression_limit)
                &&& actions[2] is Compress
                &&& actions[2]->Compress_prob == prob
                &&& actions[2]->from == solutions@.last()
                &&& upcoming(actions[2]->Compress_rng) == seeded(upcoming(self.rng)[0])
            },
            Event::Compressed(solution) => {
                &&& self.moved_on(next, Stage::Done, 0)
                &&& actions == seq![Action::<P, Sol>::Finish(solution)]
            },
        }
    }

    /// An optimization that has not begun.
    pub fn new(
        rng: Xoshiro256PlusPlus,
        exploration_limit: u128,
        compression_limit: u128,
    ) -> (optimizer: Optimizer)
        ensures
            optimizer == (Optimizer {
                stage: Stage::Start,
                rng,
                exploration_limit,
                compression_limit,
            }),
    {
        Optimizer { stage: Stage::Start, rng, exploration_limit, compression_limit }
    }

    /// Reports the exploration, sets its time limit and runs it from `prob`.
    fn explore<P, Sol>(&mut self, prob: P) -> (actions: Vec<Action<P, Sol>>)
        ensures
            old(self).starts_exploration(prob, *final(self), actions@),
    {
        let mut actions: Vec<Action<P, Sol>> = Vec::new();
        actions.push(Action::ReportPhase(OptimizationPhase::Exploration));
        actions.push(Action::NewTimeout(self.exploration_limit));
        let rng = next_rng(&mut self.rng);
        actions.push(Action::Explore { prob, rng });
        self.stage = Stage::Exploring;
        actions
    }
}

/// Decides what follows from an event: the next state of the optimization, and what is to be done,
/// in this order. The last action gives rise to the next event.
pub fn optimize<P, Sol>(optimizer: Optimizer, event: Event<P, Sol>) -> (step: (
    Optimizer,
    Vec<Action<P, Sol>>,
))
    requires
        optimizer.accepts(event),
    ensures
        optimizer.steps(event, step.0, step.1@),
{
    let mut next = optimizer;
    let mut actions: Vec<Action<P, Sol>> = Vec::new();
    match event {
        Event::Begin { warm } => if warm {
            actions.push(Action::Restore);
            next.stage = Stage::Restoring;
        } else {
            let rng = next_rng(&mut next.rng);
            actions.push(Action::Construct { rng });
            next.stage = Stage::Constructing;
        },
        Event::Constructed(Err(error)) => {
            actions.push(Action::Fail(error));
            next.stage = Stage::Done;
        },
        Event::Constructed(Ok(prob)) => {
            actions = next.explore(prob);
        },
        Event::Restored(prob) => {
            actions = next.explore(prob);
        },
        Event::Explored { prob, solutions } => {
            let mut solutions = solutions;
            actions.push(Action::ReportPhase(OptimizationPhase::Compression));
            actions.push(Action::NewTimeout(next.compression_limit));
            let rng = next_rng(&mut next.rng);
            if let Some(from) = solutions.pop() {
                actions.push(Action::Compress { prob, from, rng });
            }
            next.stage = Stage::Compressing;
        },
        Event::Compressed(solution) => {
            actions.push(Action::Finish(solution));
            next.stage = Stage::Done;
        },
    }
    (next, actions)
}

/// Without an initial solution, the construction, the exploration and the compression get the
/// generators that the first, second and third word of the given one seed. The exploration starts from the
/// constructed problem, the compression from the problem that the exploration left and the last of its
/// solutions, and what the compression ends with is reported and returned.
pub proof fn law_cold_run<P, Sol>(
    states: Seq<Optimizer>,
    constructed: P,
    explored: P,
    solutions: Vec<Sol>,
    compressed: Sol,
    first: Seq<Action<P, Sol>>,
    second: Seq<Action<P, Sol>>,
    third: Seq<Action<P, Sol>>,
    fourth: Seq<Action<P, Sol>>,
)
    requires
        states.len() == 5,
        states[0].stage is Start,
        states[0].steps(Event::Begin { warm: false }, states[1], first),
        states[1].steps(Event::Constructed(Ok(constructed)), states[2], second),
        solutions@.len() > 0,
        states[2].steps(Event::Explored { prob: explored, solutions }, states[3], third),
        states[3].steps(Event::Compressed(compressed), states[4], fourth),
    ensures
        first.len() == 1,
        first[0] is Construct,
        second.len() == 3,
        second[2] is Explore,
        third.len() == 3,
        third[2] is Compress,
        upcoming(first[0]->Construct_rng) == seeded(upcoming(states[0].rng)[0]),
        second[0] == Action::<P, Sol>::ReportPhase(OptimizationPhase::Exploration),
        second[1] == Action::<P, Sol>::NewTimeout(states[0].exploration_limit),
        second[2]->Explore_prob == constructed,
        upcoming(second[2]->Explore_rng) == seeded(upcoming(states[0].rng)[1]),
        third[0] == Action::<P, Sol>::ReportPhase(OptimizationPhase::Compression),
        third[1] == Action::<P, Sol>::NewTimeout(states[0].compression_limit),
        third[2]->Compress_prob == explored,
        third[2]->from == solutions@.last(),
        upcoming(third[2]->Compress_rng) == seeded(upcoming(states[0].rng)[2]),
        fourth == seq![Action::<P, Sol>::Finish(compressed)],
        states[4].stage is Done,
{
    lemma_skipped_twice(upcoming(states[0].rng), 1, 1);
}

/// With an initial solution, nothing is constructed: the exploration and the compression get the generators
/// that the first and second word of the given one seed.
pub proof fn law_warm_run<P, Sol>(
    states: Seq<Optimizer>,
    restored: P,
    explored: P,
    solutions: Vec<Sol>,
    compressed: Sol,
    first: Seq<Action<P, Sol>>,
    second: Seq<Action<P, Sol>>,
    third: Seq<Action<P, Sol>>,
    fourth: Seq<Action<P, Sol>>,
)
    requires
        states.len() == 5,
        states[0].stage is Start,
        states[0].steps(Event::Begin { warm: true }, states[1], first),
        states[1].steps(Event::Restored(restored), states[2], second),
        solutions@.len() > 0,
        states[2].steps(Event::Explored { prob: explored, solutions }, states[3], third),
        states[3].steps(Event::Compressed(compressed), states[4], fourth),
    ensures
        first == seq![Action::<P, Sol>::Restore],
        second.len() == 3,
        second[2] is Explore,
        third.len() == 3,
        third[2] is Compress,
        second[0] == Action::<P, Sol>::ReportPhase(OptimizationPhase::Exploration),
        second[1] == Action::<P, Sol>::NewTimeout(states[0].exploration_limit),
        second[2]->Explore_prob == restored,
        upcoming(second[2]->Explore_rng) == seeded(upcoming(states[0].rng)[0]),
        third[0] == Action::<P, Sol>::ReportPhase(OptimizationPhase::Compression),
        third[1] == Action::<P, Sol>::NewTimeout(states[0].compression_limit),
        third[2]->Compress_prob == explored,
        third[2]->from == solutions@.last(),
        upcoming(third[2]->Compress_rng) == seeded(upcoming(states[0].rng)[1]),
        fourth == seq![Action::<P, Sol>::Finish(compressed)],
        states[4].stage is Done,
{
}

/// A construction error ends the optimization at once: no phase is reported or run, and the error is
/// what is returned. Nothing follows an end.
pub proof fn law_construction_error_ends<P, Sol>(
    optimizer: Optimizer,
    error: ConstructionError,
    next: Optimizer,
    actions: Seq<Action<P, Sol>>,
    event: Event<P, Sol>,
)
    requires
        optimizer.accepts(Event::<P, Sol>::Constructed(Err(error))),
        optimizer.steps(Event::<P, Sol>::Constructed(Err(error)), next, actions),
    ensures
        actions == seq![Action::<P, Sol>::Fail(error)],
        !next.accepts(event),
{
}

/// Each part of an optimization waits for the end of the part before it, and for nothing else.
pub proof fn law_parts_follow_each_other<P, Sol>(
    optimizer: Optimizer,
    event: Event<P, Sol>,
    next: Optimizer,
    actions: Seq<Action<P, Sol>>,
    later: Event<P, Sol>,
)
    requires
        optimizer.accepts(event),
        optimizer.steps(event, next, actions),
    ensures
        actions.len() > 0,
        actions.last() is Construct ==> (next.accepts(later) <==> later is Constructed),
        actions.last() is Restore ==> (next.accepts(later) <==> later is Restored),
        actions.last() is Explore ==> (next.accepts(later) <==> later is Explored
            && later->solutions@.len() > 0),
        actions.last() is Compress ==> (next.accepts(later) <==> later is Compressed),
        actions.last() is Finish || actions.last() is Fail ==> !next.accepts(later),
        forall|i: int|
            0 <= i < actions.len() - 1 ==> #[trigger] actions[i] is ReportPhase || actions[i] is NewTimeout,
        !(actions.last() is ReportPhase) && !(actions.last() is NewTimeout),
        next.exploration_limit == optimizer.exploration_limit,
        next.compression_limit == optimizer.compression_limit,
{
}

/// What every event leads to. A run begins with a construction, or with the restoring of the given solution. A problem,
/// be it constructed or restored, is explored as it is; what the exploration leaves is compressed, from the last of its
/// solutions; and what the compression ends with is the result.
pub proof fn law_what_an_event_leads_to<P, Sol>(
    optimizer: Optimizer,
    event: Event<P, Sol>,
    next: Optimizer,
    actions: Seq<Action<P, Sol>>,
)
    requires
        optimizer.accepts(event),
        optimizer.steps(event, next, actions),
    ensures
        event == (Event::<P, Sol>::Begin { warm: false }) ==> actions.len() == 1 && actions[0] is Construct,
        event == (Event::<P, Sol>::Begin { warm: true }) ==> actions.len() == 1 && actions[0] is Restore,
        event matches Event::Constructed(Ok(prob)) ==> actions.len() == 3 && actions[2] is Explore
            && actions[2]->Explore_prob == prob,
        event matches Event::Constructed(Err(error)) ==> actions.len() == 1 && actions[0]
            == Action::<P, Sol>::Fail(error),
        event matches Event::Restored(prob) ==> actions.len() == 3 && actions[2] is Explore
            && actions[2]->Explore_prob == prob,
        event matches Event::Explored { prob, solutions } ==> actions.len() == 3
            && actions[2] is Compress && actions[2]->Compress_prob == prob && actions[2]->from
            == solutions@[solutions@.len() - 1],
        event matches Event::Compressed(solution) ==> actions.len() == 1 && actions[0]
            == Action::<P, Sol>::Finish(solution),
        actions.last() is Explore ==> actions[0] == Action::<P, Sol>::ReportPhase(
            OptimizationPhase::Exploration,
        ) && actions[1] == Action::<P, Sol>::NewTimeout(optimizer.exploration_limit),
        actions.last() is Compress ==> actions[0] == Action::<P, Sol>::ReportPhase(
            OptimizationPhase::Compression,
        ) && actions[1] == Action::<P, Sol>::NewTimeout(optimizer.compression_limit),
{
}

/// No two parts share random numbers: each that needs a generator gets one seeded with a word of its own, the next one
/// of the given generator, and the others take none.
pub proof fn law_each_part_has_its_own_generator<P, Sol>(
    optimizer: Optimizer,
    event: Event<P, Sol>,
    next: Optimizer,
    actions: Seq<Action<P, Sol>>,
    i: nat,
)
    requires
        optimizer.accepts(event),
        optimizer.steps(event, next, actions),
    ensures
        actions.last() is Construct ==> upcoming(actions.last()->Construct_rng) == seeded(
            upcoming(optimizer.rng)[0],
        ),
        actions.last() is Explore ==> upcoming(actions.last()->Explore_rng) == seeded(
            upcoming(optimizer.rng)[0],
        ),
        actions.last() is Compress ==> upcoming(actions.last()->Compress_rng) == seeded(
            upcoming(optimizer.rng)[0],
        ),
        if actions.last() is Construct || actions.last() is Explore || actions.last() is Compress {
            upcoming(next.rng)[i] == upcoming(optimizer.rng)[i + 1]
        } else {
            next.rng == optimizer.rng
        },
{
}

/// A new optimization can begin, with or without an initial solution, and waits for nothing else.
pub proof fn law_new_optimization_can_begin<P, Sol>(
    rng: Xoshiro256PlusPlus,
    exploration_limit: u128,
    compression_limit: u128,
    event: Event<P, Sol>,
)
    ensures
        (Optimizer { stage: Stage::Start, rng, exploration_limit, compression_limit }).accepts(event)
            <==> event is Begin,
{
}

} // verus!
