//! Per-printer workers. A worker owns one destination endpoint and a FIFO
//! input queue of accepted jobs. Handoff (`accept`) is a plain append and
//! never blocks on the destination; jobs leave the queue strictly in
//! arrival order, one at a time, as dial-and-write actions for the caller
//! to perform. No outcome of such an action changes the worker's state, so
//! a failed job leaves the worker serviceable for the next one.

use vstd::prelude::*;

use crate::text::identifier_string;
use crate::text::spec_identifier;

verus! {

/// A job for a printer worker. The payload is opaque: it is carried to the
/// destination verbatim, never interpreted or mutated.
#[derive(Debug)]
pub enum PrintMessage {
    Print { zpl: Vec<u8> },
}

impl PrintMessage {
    /// The payload bytes this job carries.
    pub open spec fn spec_payload(self) -> Seq<u8> {
        match self {
            PrintMessage::Print { zpl } => zpl@,
        }
    }

    /// The payload bytes this job carries.
    pub fn payload(&self) -> (r: &Vec<u8>)
        ensures
            r@ == self.spec_payload(),
    {
        match self {
            PrintMessage::Print { zpl } => zpl,
        }
    }
}

/// One physical printer endpoint.
#[derive(Debug)]
pub struct PrinterActor {
    pub host: String,
    pub port: u16,
}

impl PrinterActor {
    pub fn new(host: &str, port: u16) -> (r: PrinterActor)
        ensures
            r.host@ == host@,
            r.port == port,
    {
        PrinterActor { host: host.to_owned(), port }
    }

    /// The normalized `"host:port"` identifier of this endpoint.
    pub fn host_and_port(&self) -> (r: String)
        ensures
            r@ == spec_identifier(self.host@, self.port),
    {
        identifier_string(&self.host, self.port)
    }
}

/// One dial-and-write action: open a fresh connection to `host:port`,
/// write `payload` in full, close the connection.
#[derive(Debug)]
pub struct DialRequest {
    pub host: String,
    pub port: u16,
    pub payload: Vec<u8>,
}

/// A per-printer worker: its endpoint, its identifier, and its FIFO input
/// queue. Built once at startup and never torn down.
#[derive(Debug)]
pub struct Worker {
    pub identifier: String,
    pub printer: PrinterActor,
    pub queue: Vec<PrintMessage>,
}

impl Worker {
    /// The identifier names exactly this worker's endpoint.
    pub open spec fn wf(self) -> bool {
        self.identifier@ == spec_identifier(self.printer.host@, self.printer.port)
    }

    pub fn new(printer: PrinterActor) -> (r: Worker)
        ensures
            r.wf(),
            r.printer == printer,
            r.queue@ =~= Seq::<PrintMessage>::empty(),
    {
        let identifier = printer.host_and_port();
        Worker { identifier, printer, queue: Vec::new() }
    }

    /// Non-blocking handoff: appends the job to this worker's queue and
    /// touches nothing else.
    pub fn accept(&mut self, job: PrintMessage)
        ensures
            final(self).queue@ == old(self).queue@.push(job),
            final(self).identifier == old(self).identifier,
            final(self).printer == old(self).printer,
    {
        self.queue.push(job);
    }

    /// Takes the earliest-accepted job still queued, if any.
    pub fn take_next(&mut self) -> (r: Option<PrintMessage>)
        ensures
            final(self).identifier == old(self).identifier,
            final(self).printer == old(self).printer,
            old(self).queue@.len() == 0 ==> (r is None && final(self).queue@ == old(
                self,
            ).queue@),
            old(self).queue@.len() > 0 ==> (r == Some(old(self).queue@[0]) && final(self).queue@
                == old(self).queue@.drop_first()),
    {
        if self.queue.len() > 0 {
            let job = self.queue.remove(0);
            proof {
                assert(self.queue@ =~= old(self).queue@.drop_first());
            }
            Some(job)
        } else {
            None
        }
    }

    /// The next action this worker owes: dial its own endpoint and write
    /// the earliest queued job's payload verbatim. The queue advances by
    /// exactly that job; how the action turns out has no bearing on the
    /// worker, which stays ready for the jobs behind it.
    pub fn next_action(&mut self) -> (r: Option<DialRequest>)
        ensures
            final(self).identifier == old(self).identifier,
            final(self).printer == old(self).printer,
            old(self).queue@.len() == 0 ==> (r is None && final(self).queue@ == old(
                self,
            ).queue@),
            old(self).queue@.len() > 0 ==> (r matches Some(req) && req.host@ == old(
                self,
            ).printer.host@ && req.port == old(self).printer.port && req.payload@ == old(
                self,
            ).queue@[0].spec_payload() && final(self).queue@ == old(self).queue@.drop_first()),
    {
        match self.take_next() {
            Some(job) => {
                let host = self.printer.host.clone();
                let port = self.printer.port;
                match job {
                    PrintMessage::Print { zpl } => Some(
                        DialRequest { host, port, payload: zpl },
                    ),
                }
            },
            None => None,
        }
    }
}

/// The order in which jobs leave a queue that is always drained from the
/// front, as `take_next` drains it.
pub open spec fn drain_order(q: Seq<PrintMessage>) -> Seq<PrintMessage>
    decreases q.len(),
{
    if q.len() == 0 {
        q
    } else {
        seq![q[0]] + drain_order(q.drop_first())
    }
}

/// Jobs for one printer are started strictly in arrival order: draining a
/// worker's queue from the front yields exactly the sequence in which
/// `accept` appended the jobs. In particular, of two jobs accepted for the
/// same identifier, the earlier one is taken — and so completed — before
/// the later one is started.
pub proof fn lemma_fifo_order(q: Seq<PrintMessage>)
    ensures
        drain_order(q) == q,
    decreases q.len(),
{
    if q.len() > 0 {
        lemma_fifo_order(q.drop_first());
        assert(drain_order(q) =~= q);
    }
}

} // verus!
