//! The job matrix: every target paired with every port, target by target, and
//! the column widths for showing the jobs.
use crate::addresses::Target;
use crate::ip::IpAddress;
use crate::text::{decimal, decimal_len};
use vstd::arithmetic::div_mod::{
    lemma_fundamental_div_mod, lemma_fundamental_div_mod_converse, lemma_multiply_divide_lt,
};
use vstd::prelude::*;
use vstd::string::*;

verus! {

/// One connection attempt to make: an address, a port, and the label to show.
#[derive(Clone, Debug, PartialEq, Eq)]
pub struct ScanJob {
    /// The job's place in the matrix.
    pub index: u128,
    pub ip: IpAddress,
    pub port: u16,
    pub label: String,
}

/// A job as a plain value.
pub struct ScanJobView {
    pub index: nat,
    pub ip: IpAddress,
    pub port: u16,
    pub label: Seq<char>,
}

impl View for ScanJob {
    type V = ScanJobView;

    open spec fn view(&self) -> ScanJobView {
        ScanJobView { index: self.index as nat, ip: self.ip, port: self.port, label: self.label@ }
    }
}

/// A scan cannot start without a single target.
#[derive(Clone, Copy, Debug, PartialEq, Eq, Structural)]
pub struct NoTargets;

/// The jobs of a scan, kept as the targets and the ports they are made of: a
/// job is produced when it is asked for, never the whole list at once.
#[derive(Clone, Debug, PartialEq, Eq)]
pub struct JobMatrix {
    pub targets: Vec<Target>,
    pub ports: Vec<u16>,
}

impl NoTargets {
    /// What to tell the user.
    pub fn message(&self) -> (text: String)
        ensures
            text@ == "error: No IPs could be resolved, aborting scan."@,
    {
        String::from_str("error: No IPs could be resolved, aborting scan.")
    }
}

impl JobMatrix {
    /// How many jobs there are: one for every pair of a target and a port.
    pub open spec fn count(&self) -> nat {
        self.targets@.len() * self.ports@.len()
    }

    /// The job at `index`: jobs run through the targets in order, and for each
    /// target through the ports in order.
    pub open spec fn job_at(&self, index: nat) -> ScanJobView {
        let target = self.targets@[index as int / self.ports@.len() as int];
        ScanJobView {
            index,
            ip: target.ip,
            port: self.ports@[index as int % self.ports@.len() as int],
            label: target.label@,
        }
    }

    /// The widest label among the targets, in characters; zero without targets.
    pub open spec fn widest_label(&self, width: nat) -> bool {
        &&& forall|i: int| 0 <= i < self.targets@.len() ==> self.targets@[i].label@.len() <= width
        &&& if self.targets@.len() == 0 {
            width == 0
        } else {
            exists|i: int| 0 <= i < self.targets@.len() && self.targets@[i].label@.len() == width
        }
    }

    /// The widest port numeral among the ports, in characters; zero without ports.
    pub open spec fn widest_port(&self, width: nat) -> bool {
        &&& forall|i: int|
            0 <= i < self.ports@.len() ==> decimal(self.ports@[i] as nat).len() <= width
        &&& if self.ports@.len() == 0 {
            width == 0
        } else {
            exists|i: int|
                0 <= i < self.ports@.len() && decimal(self.ports@[i] as nat).len() == width
        }
    }

    /// Pairs the targets with the ports. Without a target there is nothing to
    /// scan, which is an error of its own and not a scan without results.
    pub fn new(targets: Vec<Target>, ports: Vec<u16>) -> (matrix: Result<JobMatrix, NoTargets>)
        ensures
            match matrix {
                Ok(m) => targets@.len() > 0 && m.targets == targets && m.ports == ports,
                Err(_) => targets@.len() == 0,
            },
    {
        if targets.len() == 0 {
            Err(NoTargets)
        } else {
            Ok(JobMatrix { targets, ports })
        }
    }

    /// How many jobs there are.
    pub fn len(&self) -> (count: u128)
        ensures
            count == self.count(),
    {
        let targets: u128 = self.targets.len() as u128;
        let ports: u128 = self.ports.len() as u128;
        assert(targets * ports <= 0xFFFF_FFFF_FFFF_FFFF * 0xFFFF_FFFF_FFFF_FFFF) by (
            nonlinear_arith)
            requires
                0 <= targets <= 0xFFFF_FFFF_FFFF_FFFF,
                0 <= ports <= 0xFFFF_FFFF_FFFF_FFFF,
        ;
        targets * ports
    }

    /// The job at `index`, or nothing where the matrix has no such job.
    pub fn job(&self, index: u128) -> (job: Option<ScanJob>)
        ensures
            match job {
                Some(j) => index < self.count() && j@ == self.job_at(index as nat),
                None => index >= self.count(),
            },
    {
        if index < self.len() {
            Some(self.make_job(index))
        } else {
            None
        }
    }

    /// The job at `index`, which the matrix must have.
    pub(crate) fn make_job(&self, index: u128) -> (job: ScanJob)
        requires
            index < self.count(),
        ensures
            job@ == self.job_at(index as nat),
    {
        let targets: usize = self.targets.len();
        let ports: u128 = self.ports.len() as u128;
        assert(ports > 0) by (nonlinear_arith)
            requires
                index < targets * ports,
                index >= 0,
                ports >= 0,
        ;
        proof {
            assert(targets * ports == ports * targets) by (nonlinear_arith);
            lemma_multiply_divide_lt(index as int, ports as int, targets as int);
        }
        let row: usize = (index / ports) as usize;
        let column: usize = (index % ports) as usize;
        let target = &self.targets[row];
        ScanJob { index, ip: target.ip, port: self.ports[column], label: target.label.clone() }
    }

    /// The width of the label column.
    pub fn max_addr_len(&self) -> (width: usize)
        ensures
            self.widest_label(width as nat),
    {
        let mut width: usize = 0;
        let mut i: usize = 0;
        while i < self.targets.len()
            invariant
                i <= self.targets.len(),
                forall|k: int| 0 <= k < i ==> self.targets@[k].label@.len() <= width,
                if i == 0 {
                    width == 0
                } else {
                    exists|k: int| 0 <= k < i && self.targets@[k].label@.len() == width
                },
            decreases self.targets.len() - i,
        {
            let len: usize = self.targets[i].label.as_str().unicode_len();
            if len > width {
                width = len;
            }
            i = i + 1;
        }
        width
    }

    /// The width of the port column.
    pub fn max_port_len(&self) -> (width: usize)
        ensures
            self.widest_port(width as nat),
    {
        let mut width: usize = 0;
        let mut i: usize = 0;
        while i < self.ports.len()
            invariant
                i <= self.ports.len(),
                forall|k: int| 0 <= k < i ==> decimal(self.ports@[k] as nat).len() <= width,
                if i == 0 {
                    width == 0
                } else {
                    exists|k: int| 0 <= k < i && decimal(self.ports@[k] as nat).len() == width
                },
            decreases self.ports.len() - i,
        {
            let len: usize = decimal_len(self.ports[i]);
            if len > width {
                width = len;
            }
            i = i + 1;
        }
        width
    }

    /// The matrix holds every pair of a target and a port, at the place that
    /// target-by-target order gives it.
    pub proof fn law_every_pair_has_a_job(&self, row: nat, column: nat)
        requires
            row < self.targets@.len(),
            column < self.ports@.len(),
        ensures
            row * self.ports@.len() + column < self.count(),
            self.job_at(row * self.ports@.len() + column).ip == self.targets@[row as int].ip,
            self.job_at(row * self.ports@.len() + column).label == self.targets@[row as int].label@,
            self.job_at(row * self.ports@.len() + column).port == self.ports@[column as int],
    {
        let width = self.ports@.len() as int;
        let index = row * width + column;
        assert(index < self.targets@.len() * width) by (nonlinear_arith)
            requires
                index == row * width + column,
                row < self.targets@.len(),
                0 <= column < width,
        ;
        lemma_fundamental_div_mod_converse(index, width, row as int, column as int);
    }

    /// The column widths leave room for the label and the port of every job.
    pub proof fn law_widths_cover_every_job(&self, addr_len: nat, port_len: nat, index: nat)
        requires
            self.widest_label(addr_len),
            self.widest_port(port_len),
            index < self.count(),
        ensures
            self.job_at(index).label.len() <= addr_len,
            decimal(self.job_at(index).port as nat).len() <= port_len,
    {
        let width = self.ports@.len() as int;
        assert(width > 0) by (nonlinear_arith)
            requires
                index < self.targets@.len() * width,
                width >= 0,
        ;
        assert(self.targets@.len() * width == width * self.targets@.len()) by (nonlinear_arith);
        lemma_multiply_divide_lt(index as int, width, self.targets@.len() as int);
        lemma_fundamental_div_mod(index as int, width);
    }

    /// Two different jobs never stand for the same pair of a target and a
    /// port: no pair is scheduled twice.
    pub proof fn law_no_pair_twice(&self, i: nat, j: nat)
        requires
            i < self.count(),
            j < self.count(),
            i != j,
        ensures
            i / self.ports@.len() != j / self.ports@.len() || i % self.ports@.len() != j
                % self.ports@.len(),
            i / self.ports@.len() < self.targets@.len(),
            i % self.ports@.len() < self.ports@.len(),
    {
        let width = self.ports@.len() as int;
        assert(width > 0) by (nonlinear_arith)
            requires
                i < self.targets@.len() * width,
                width >= 0,
        ;
        lemma_fundamental_div_mod(i as int, width);
        lemma_fundamental_div_mod(j as int, width);
        assert(self.targets@.len() * width == width * self.targets@.len()) by (nonlinear_arith);
        lemma_multiply_divide_lt(i as int, width, self.targets@.len() as int);
    }
}

} // verus!
