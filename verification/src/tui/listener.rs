//! What the dashboard is told about an optimization.
use crate::optimizer::OptimizationPhase;
use crate::scalar::{product, Scalar};
use vstd::prelude::*;
use vstd::std_specs::ops::MulSpec;

verus! {

/// The least time between two snapshots, in nanoseconds.
pub const SNAPSHOT_INTERVAL: u128 = 100_000_000;

/// Where the current solution is drawn.
pub const LIVE_SVG_PATH: &'static str = "data/live/.live_solution.svg";

/// The kind of a reported solution. `R` tells the kinds of those along the way apart.
#[derive(Debug)]
pub enum ReportType<R> {
    /// A solution along the way.
    Intermediate(R),
    /// The solution that the optimization returns.
    Final,
}

/// News for the dashboard. `S` is the type of numbers, `G` that of the progress of a separation and `T` that of
/// its result.
#[derive(Debug)]
pub enum DashboardUpdate<R, S, G, T> {
    /// A solution, with its width and its density in percent.
    Solution { report: ReportType<R>, width: S, density: S },
    Phase(OptimizationPhase),
    Separation(G),
    SeparationResult(T),
    /// The shrink step of the compression.
    Compression(S),
}

/// Decides which solutions are worth a snapshot. Times are in nanoseconds since some fixed instant.
#[derive(Debug, PartialEq, Eq, Structural)]
pub struct TuiListener {
    pub last_snapshot: Option<u128>,
}

/// The time from `earlier` to `now`; none, where `now` is the earlier one.
pub open spec fn elapsed(earlier: u128, now: u128) -> int {
    if now >= earlier {
        now - earlier
    } else {
        0
    }
}

impl TuiListener {
    /// A solution reported now is passed over: it is not the final one, and the last snapshot is too recent.
    pub open spec fn passes_over<R>(self, report: ReportType<R>, now: u128) -> bool {
        &&& report !is Final
        &&& self.last_snapshot is Some
        &&& elapsed(self.last_snapshot->0, now) < SNAPSHOT_INTERVAL
    }

    /// No snapshot yet.
    pub fn new() -> (listener: TuiListener)
        ensures
            listener == (TuiListener { last_snapshot: None }),
    {
        TuiListener { last_snapshot: None }
    }

    /// Whether to take a snapshot of a solution that is reported now.
    pub fn report<R>(&mut self, report: &ReportType<R>, now: u128) -> (snapshot: bool)
        ensures
            snapshot == !old(self).passes_over(*report, now),
            *final(self) == if snapshot {
                TuiListener { last_snapshot: Some(now) }
            } else {
                *old(self)
            },
    {
        let is_final = match report {
            ReportType::Final => true,
            ReportType::Intermediate(_) => false,
        };
        if !is_final {
            if let Some(last) = self.last_snapshot {
                let since: u128 = if now >= last {
                    now - last
                } else {
                    0
                };
                if since < SNAPSHOT_INTERVAL {
                    return false;
                }
            }
        }
        self.last_snapshot = Some(now);
        true
    }

    /// The news of a solution. `density` is a fraction, `hundred` makes it a percentage.
    pub fn solution_update<R, S: Scalar, G, T>(
        &self,
        report: ReportType<R>,
        width: S,
        density: S,
        hundred: S,
    ) -> (update: DashboardUpdate<R, S, G, T>)
        requires
            density.mul_req(hundred),
        ensures
            update is Solution,
            update->report == report,
            update->width == width,
            product(density, hundred, update->density),
    {
        DashboardUpdate::Solution { report, width, density: density * hundred }
    }

    /// The news that a phase begins.
    pub fn report_phase<R, S, G, T>(&self, phase: OptimizationPhase) -> (update: DashboardUpdate<
        R,
        S,
        G,
        T,
    >)
        ensures
            update == DashboardUpdate::<R, S, G, T>::Phase(phase),
    {
        DashboardUpdate::Phase(phase)
    }

    /// The news of the progress of a separation.
    pub fn report_separation_progress<R, S, G, T>(&self, progress: G) -> (update: DashboardUpdate<
        R,
        S,
        G,
        T,
    >)
        ensures
            update == DashboardUpdate::<R, S, G, T>::Separation(progress),
    {
        DashboardUpdate::Separation(progress)
    }

    /// The news of the result of a separation.
    pub fn report_separation_result<R, S, G, T>(&self, result: T) -> (update: DashboardUpdate<
        R,
        S,
        G,
        T,
    >)
        ensures
            update == DashboardUpdate::<R, S, G, T>::SeparationResult(result),
    {
        DashboardUpdate::SeparationResult(result)
    }

    /// The news of the progress of the compression.
    pub fn report_compression_progress<R, S, G, T>(
        &self,
        shrink_step: S,
    ) -> (update: DashboardUpdate<R, S, G, T>)
        ensures
            update == DashboardUpdate::<R, S, G, T>::Compression(shrink_step),
    {
        DashboardUpdate::Compression(shrink_step)
    }
}

/// Snapshots are at least the interval apart, but for that of the final solution, which is never passed over.
pub proof fn law_snapshots_are_apart<R>(earlier: u128, report: ReportType<R>, now: u128)
    requires
        !(TuiListener { last_snapshot: Some(earlier) }).passes_over(report, now),
    ensures
        report is Final || now - earlier >= SNAPSHOT_INTERVAL,
{
}

/// The final solution is always worth a snapshot.
pub proof fn law_final_solution_is_shown<R>(listener: TuiListener, now: u128)
    ensures
        !listener.passes_over(ReportType::<R>::Final, now),
{
}

/// A solution along the way is passed over exactly if there is a snapshot that is less than a tenth of a second old.
pub proof fn law_recent_snapshots_are_not_repeated<R>(
    listener: TuiListener,
    report: ReportType<R>,
    now: u128,
)
    ensures
        listener.last_snapshot is None ==> !listener.passes_over(report, now),
        report is Final ==> !listener.passes_over(report, now),
        report is Intermediate && listener.last_snapshot is Some ==> (listener.passes_over(
            report,
            now,
        ) <==> now < listener.last_snapshot->0 + 100_000_000),
{
}

} // verus!
