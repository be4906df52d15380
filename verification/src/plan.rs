//! The plan of a scan: the job matrix with its column widths, and the timeout
//! and concurrency that apply, from the settings and the resolved targets.
use crate::addresses::TargetSet;
use crate::cli::{
    or_default, ports_or_default, Cli, PRIVATE_CONCURRENCY, PRIVATE_TIMEOUT, PUBLIC_CONCURRENCY,
    PUBLIC_TIMEOUT,
};
use crate::matrix::{JobMatrix, NoTargets};
use crate::ports::{all_ports, dedup, expand, PortTable};
use crate::report::{Reporter, ReporterView};
use crate::scanner::{ScanError, Scanner, ScannerView};
use crate::utils::{
    adjust_batch_size, batch_size, capped_batch_size, clamp_batch_size, clamped_batch_size,
};
use vstd::prelude::*;

verus! {

/// Everything that is settled before the first connection is tried.
#[derive(Clone, Debug, PartialEq, Eq)]
pub struct ScanPlan {
    pub jobs: JobMatrix,
    /// Milliseconds allowed to each attempt.
    pub timeout: u16,
    /// Attempts to keep going at once.
    pub concurrency: usize,
    /// Width of the label column.
    pub max_addr_len: usize,
    /// Width of the port column.
    pub max_port_len: usize,
}

/// The ports that a scan with these settings covers, in scan order.
pub open spec fn planned_ports(cli: Cli, private: bool, table: PortTable) -> Seq<u16> {
    dedup(all_ports(ports_or_default(cli.ports@, private), table.top_ports@))
}

/// The concurrency asked for or defaulted to, capped at the number of jobs.
pub open spec fn planned_batch_size(cli: Cli, private: bool, count: nat) -> usize {
    capped_batch_size(
        count,
        or_default(cli.concurrency, private, PRIVATE_CONCURRENCY, PUBLIC_CONCURRENCY) as usize,
    )
}

/// Whether `plan` is the plan for these settings and targets, but for the
/// clamp on its concurrency.
pub open spec fn plans(plan: ScanPlan, cli: Cli, set: TargetSet, table: PortTable) -> bool {
    &&& plan.jobs.targets == set.targets
    &&& plan.jobs.ports@ == planned_ports(cli, set.private, table)
    &&& plan.timeout == or_default(cli.timeout, set.private, PRIVATE_TIMEOUT, PUBLIC_TIMEOUT)
    &&& plan.jobs.widest_label(plan.max_addr_len as nat)
    &&& plan.jobs.widest_port(plan.max_port_len as nat)
}

/// Plans a scan of `set` under a limit on open descriptors, or under none.
///
/// The ports are the ones given, else the default for the kind of target set,
/// expanded and with repeats removed. Every target is paired with every port.
/// Timeout and concurrency are the ones given, else the defaults for the kind
/// of target set; the concurrency is capped at the number of jobs and then
/// clamped to what the limit leaves. A set without targets has no plan.
pub fn plan_scan(cli: &Cli, set: TargetSet, table: &PortTable, limit: Option<u64>) -> (plan: Result<
    ScanPlan,
    NoTargets,
>)
    ensures
        match plan {
            Ok(plan) => {
                &&& set.targets@.len() > 0
                &&& plans(plan, *cli, set, *table)
                &&& plan.concurrency == clamped_batch_size(
                    planned_batch_size(*cli, set.private, plan.jobs.count()),
                    limit,
                )
            },
            Err(_) => set.targets@.len() == 0,
        },
{
    let private = set.private;
    let ports = expand(&cli.effective_ports(private), table);
    let jobs = match JobMatrix::new(set.targets, ports) {
        Ok(jobs) => jobs,
        Err(none) => {
            return Err(none);
        },
    };
    let max_addr_len = jobs.max_addr_len();
    let max_port_len = jobs.max_port_len();
    let count = jobs.len();
    let timeout = cli.effective_timeout(private);
    let batch_size = batch_size(count, cli.effective_concurrency(private) as usize);
    let concurrency = clamp_batch_size(batch_size, limit);
    Ok(ScanPlan { jobs, timeout, concurrency, max_addr_len, max_port_len })
}

/// Plans a scan of `set` under the process's own limit on open descriptors,
/// whatever the system reports it to be at the time of the call.
pub fn plan_scan_within_limits(cli: &Cli, set: TargetSet, table: &PortTable) -> (plan: Result<
    ScanPlan,
    NoTargets,
>)
    ensures
        match plan {
            Ok(plan) => {
                &&& set.targets@.len() > 0
                &&& plans(plan, *cli, set, *table)
                &&& exists|limit: Option<u64>|
                    plan.concurrency == clamped_batch_size(
                        planned_batch_size(*cli, set.private, plan.jobs.count()),
                        limit,
                    )
            },
            Err(_) => set.targets@.len() == 0,
        },
{
    match plan_scan(cli, set, table, None) {
        Ok(plan) => {
            let concurrency = adjust_batch_size(plan.concurrency);
            Ok(
                ScanPlan {
                    jobs: plan.jobs,
                    timeout: plan.timeout,
                    concurrency,
                    max_addr_len: plan.max_addr_len,
                    max_port_len: plan.max_port_len,
                },
            )
        },
        Err(none) => Err(none),
    }
}

impl ScanPlan {
    /// The engine and the reporter of the planned scan. With a table the
    /// results are annotated with service names from it. A plan that allows
    /// no attempt at a time cannot be run.
    pub fn engine(self, services: Option<PortTable>) -> (pair: Result<
        (Scanner, Reporter),
        ScanError,
    >)
        ensures
            match pair {
                Ok((scanner, reporter)) => {
                    &&& self.concurrency > 0
                    &&& scanner.wf()
                    &&& scanner@ == ScannerView::idle(self.jobs.count(), self.concurrency as nat)
                    &&& scanner.matrix() == self.jobs
                    &&& scanner.annotations() == services
                    &&& scanner.time_allowed() == self.timeout
                    &&& reporter.wf()
                    &&& reporter@ == (ReporterView {
                        total: self.jobs.count(),
                        seen: 0,
                        max_addr_len: self.max_addr_len as nat,
                        max_port_len: self.max_port_len as nat,
                    })
                },
                Err(e) => self.concurrency == 0 && e == ScanError::NoConcurrency,
            },
    {
        let count = self.jobs.len();
        let reporter = Reporter::new(count, self.max_addr_len, self.max_port_len);
        match Scanner::new(self.jobs, self.timeout as u64, self.concurrency) {
            Ok(scanner) => {
                let scanner = match services {
                    Some(table) => scanner.annotated(table),
                    None => scanner,
                };
                Ok((scanner, reporter))
            },
            Err(e) => Err(e),
        }
    }
}

} // verus!
