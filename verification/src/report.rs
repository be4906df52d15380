//! The reporter: a line for every open port, and the count that ends the scan.
use crate::scanner::{ScanResult, ScanResultView};
use crate::text::{decimal, pad_right, push_decimal, push_padded};
use vstd::prelude::*;
use vstd::string::*;

verus! {

/// The line that shows a result: nothing for a port that is not open; for an
/// open one the label, and where the result is annotated the label filled up
/// to its column, the port filled up to its column, and the service name.
pub open spec fn report_line(
    result: ScanResultView,
    max_addr_len: nat,
    max_port_len: nat,
) -> Option<Seq<char>> {
    if !result.open {
        None
    } else {
        match result.service {
            Some(name) => Some(
                pad_right(result.label, max_addr_len) + seq![' '] + pad_right(
                    decimal(result.port as nat),
                    max_port_len,
                ) + seq![' '] + name,
            ),
            None => Some(result.label),
        }
    }
}

/// The text of an optional string.
pub open spec fn line_text(line: Option<String>) -> Option<Seq<char>> {
    match line {
        Some(line) => Some(line@),
        None => None,
    }
}

/// The line that shows `result`, if it is to be shown.
pub fn format_result(result: &ScanResult, max_addr_len: usize, max_port_len: usize) -> (line:
    Option<String>)
    ensures
        line_text(line) == report_line(result@, max_addr_len as nat, max_port_len as nat),
{
    if !result.open {
        return None;
    }
    match &result.service {
        Some(name) => {
            let mut line = String::new();
            let mut port = String::new();
            push_decimal(&mut port, result.port as u64);
            proof {
                reveal_strlit(" ");
            }
            push_padded(&mut line, result.label.as_str(), max_addr_len);
            line.append(" ");
            push_padded(&mut line, port.as_str(), max_port_len);
            line.append(" ");
            line.append(name.as_str());
            assert(" "@ =~= seq![' ']);
            assert(line@ =~= report_line(result@, max_addr_len as nat, max_port_len as nat)->0);
            Some(line)
        },
        None => Some(result.label.clone()),
    }
}

/// In the line of an annotated open port the columns stand where the widths
/// put them, as long as the label and the port fit their columns: the label
/// at the start, the port one blank after the label column, the service name
/// one blank after the port column.
pub proof fn law_columns_align(
    label: Seq<char>,
    port: u16,
    name: Seq<char>,
    max_addr_len: nat,
    max_port_len: nat,
)
    requires
        label.len() <= max_addr_len,
        decimal(port as nat).len() <= max_port_len,
    ensures
        ({
            let result = ScanResultView { label, port, open: true, service: Some(name) };
            let line = report_line(result, max_addr_len, max_port_len)->0;
            let port_column = max_addr_len + 1;
            let name_column = max_addr_len + max_port_len + 2;
            &&& report_line(result, max_addr_len, max_port_len) is Some
            &&& line.len() == name_column + name.len()
            &&& line.subrange(0, label.len() as int) == label
            &&& line.subrange(
                port_column as int,
                port_column as int + decimal(port as nat).len() as int,
            ) == decimal(port as nat)
            &&& line.subrange(name_column as int, line.len() as int) == name
        }),
{
    let result = ScanResultView { label, port, open: true, service: Some(name) };
    let line = report_line(result, max_addr_len, max_port_len)->0;
    let port_column = max_addr_len + 1;
    let name_column = max_addr_len + max_port_len + 2;
    assert(pad_right(label, max_addr_len).len() == max_addr_len);
    assert(pad_right(decimal(port as nat), max_port_len).len() == max_port_len);
    assert(line.subrange(0, label.len() as int) =~= label);
    assert(line.subrange(port_column as int, port_column as int + decimal(port as nat).len() as int)
        =~= decimal(port as nat));
    assert(line.subrange(name_column as int, line.len() as int) =~= name);
}

/// The state of the reporter: how many results it expects and how many it
/// has taken.
pub struct ReporterView {
    pub total: nat,
    pub seen: nat,
    pub max_addr_len: nat,
    pub max_port_len: nat,
}

impl ReporterView {
    /// Every result has been taken.
    pub open spec fn finished(self) -> bool {
        self.seen == self.total
    }

    /// The state after one more result. Once every result has been taken a
    /// further one is not counted.
    pub open spec fn take(self) -> ReporterView {
        if self.finished() {
            self
        } else {
            ReporterView { seen: self.seen + 1, ..self }
        }
    }
}

/// Takes the results as they come, in whatever order, and says when the last
/// has come.
pub struct Reporter {
    total: u128,
    seen: u128,
    max_addr_len: usize,
    max_port_len: usize,
}

impl View for Reporter {
    type V = ReporterView;

    closed spec fn view(&self) -> ReporterView {
        ReporterView {
            total: self.total as nat,
            seen: self.seen as nat,
            max_addr_len: self.max_addr_len as nat,
            max_port_len: self.max_port_len as nat,
        }
    }
}

impl Reporter {
    /// No more results have been taken than are expected.
    pub open spec fn wf(&self) -> bool {
        self@.seen <= self@.total
    }

    /// A reporter that expects `total` results and shows them in columns of
    /// the given widths.
    pub fn new(total: u128, max_addr_len: usize, max_port_len: usize) -> (reporter: Reporter)
        ensures
            reporter.wf(),
            reporter@ == (ReporterView {
                total: total as nat,
                seen: 0,
                max_addr_len: max_addr_len as nat,
                max_port_len: max_port_len as nat,
            }),
    {
        Reporter { total, seen: 0, max_addr_len, max_port_len }
    }

    /// Whether every expected result has been taken.
    pub fn finished(&self) -> (finished: bool)
        requires
            self.wf(),
        ensures
            finished == self@.finished(),
    {
        self.seen == self.total
    }

    /// Takes one result and gives the line to print for it, if any. A result
    /// that comes after the last expected one is not counted and gives no
    /// line.
    pub fn report(&mut self, result: &ScanResult) -> (line: Option<String>)
        requires
            old(self).wf(),
        ensures
            final(self).wf(),
            final(self)@ == old(self)@.take(),
            line_text(line) == if old(self)@.finished() {
                None
            } else {
                report_line(result@, old(self)@.max_addr_len, old(self)@.max_port_len)
            },
    {
        if self.seen == self.total {
            return None;
        }
        self.seen = self.seen + 1;
        format_result(result, self.max_addr_len, self.max_port_len)
    }
}

} // verus!
