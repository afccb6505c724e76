//! The registry and the dispatcher. The registry is the startup-built,
//! read-only mapping from printer identifier to worker: `route` decodes an
//! inbound payload, looks the derived identifier up, and hands the job to
//! that worker's queue — and to no other. A payload that fails decoding,
//! and an identifier no worker carries, drop the job and leave every
//! worker untouched.

use vstd::prelude::*;

use crate::mqtt::MqttPrintMessage;
use crate::mqtt::spec_decode;
use crate::printer::DialRequest;
use crate::printer::PrintMessage;
use crate::printer::PrinterActor;
use crate::printer::Worker;
use vstd::utf8::decode_utf8;

use crate::text::spec_identifier;

verus! {

/// What became of one inbound payload.
#[derive(Debug, PartialEq, Eq, Structural)]
pub enum RouteOutcome {
    /// The job was handed to the worker at this registry index.
    Delivered { index: usize },
    /// No worker carries the decoded identifier; the job was dropped.
    NoWorker,
    /// The payload failed decode validation; the registry was not touched.
    Rejected,
}

/// How an accepted job changes a worker: the job's payload is appended to
/// the queue and everything else stands.
pub open spec fn accepted(w_old: Worker, w_new: Worker, payload: Seq<u8>) -> bool {
    &&& w_new.identifier == w_old.identifier
    &&& w_new.printer == w_old.printer
    &&& w_new.queue@.len() == w_old.queue@.len() + 1
    &&& w_new.queue@.take(w_old.queue@.len() as int) == w_old.queue@
    &&& w_new.queue@.last().spec_payload() == payload
}

/// Whether some configured entry names exactly this worker's endpoint.
pub open spec fn from_configured(w: Worker, printers: Seq<PrinterActor>) -> bool {
    exists|k: int|
        0 <= k < printers.len() && w.printer.host@ == (#[trigger] printers[k]).host@
            && w.printer.port == printers[k].port
}

/// A worker drawn from a prefix of the entries is drawn from one more of
/// them as well.
proof fn lemma_from_configured_extend(w: Worker, printers: Seq<PrinterActor>, k: int)
    requires
        0 <= k < printers.len(),
        from_configured(w, printers.take(k)),
    ensures
        from_configured(w, printers.take(k + 1)),
{
    let j = choose|j: int|
        0 <= j < printers.take(k).len() && w.printer.host@ == (#[trigger] printers.take(
            k,
        )[j]).host@ && w.printer.port == printers.take(k)[j].port;
    assert(printers.take(k + 1)[j] == printers.take(k)[j]);
}

/// The identifier-to-worker mapping, fixed after startup.
#[derive(Debug)]
pub struct Registry {
    pub workers: Vec<Worker>,
}

impl Registry {
    /// Every worker's identifier names its own endpoint, and no two
    /// workers share an identifier.
    pub open spec fn wf(self) -> bool {
        &&& forall|i: int| 0 <= i < self.workers@.len() ==> (#[trigger] self.workers@[i]).wf()
        &&& forall|i: int, j: int|
            0 <= i < j < self.workers@.len() ==> self.workers@[i].identifier@
                != self.workers@[j].identifier@
    }

    /// Whether some worker carries this identifier.
    pub open spec fn spec_has_worker(self, id: Seq<char>) -> bool {
        exists|i: int|
            0 <= i < self.workers@.len() && (#[trigger] self.workers@[i]).identifier@ == id
    }

    /// Builds the registry from the configured endpoints: one worker per
    /// distinct identifier (duplicates collapse to one), every worker's
    /// queue empty, and no worker that no entry configured.
    pub fn build(printers: &Vec<PrinterActor>) -> (r: Registry)
        ensures
            r.wf(),
            forall|k: int|
                0 <= k < printers@.len() ==> r.spec_has_worker(
                    spec_identifier((#[trigger] printers@[k]).host@, printers@[k].port),
                ),
            forall|i: int|
                0 <= i < r.workers@.len() ==> from_configured(
                    #[trigger] r.workers@[i],
                    printers@,
                ),
            forall|i: int|
                0 <= i < r.workers@.len() ==> (#[trigger] r.workers@[i]).queue@.len() == 0,
    {
        let mut r = Registry { workers: Vec::new() };
        let mut k: usize = 0;
        while k < printers.len()
            invariant
                0 <= k <= printers@.len(),
                r.wf(),
                forall|j: int|
                    0 <= j < k ==> r.spec_has_worker(
                        spec_identifier((#[trigger] printers@[j]).host@, printers@[j].port),
                    ),
                forall|i: int|
                    0 <= i < r.workers@.len() ==> from_configured(
                        #[trigger] r.workers@[i],
                        printers@.take(k as int),
                    ),
                forall|i: int|
                    0 <= i < r.workers@.len() ==> (#[trigger] r.workers@[i]).queue@.len() == 0,
            decreases printers@.len() - k,
        {
            let host = printers[k].host.clone();
            let port = printers[k].port;
            let w = Worker::new(PrinterActor { host, port });
            let ghost r_before = r;
            match r.lookup(&w.identifier) {
                Some(_) => {
                    proof {
                        assert(r.spec_has_worker(
                            spec_identifier(printers@[k as int].host@, printers@[k as int].port),
                        ));
                    }
                },
                None => {
                    r.workers.push(w);
                    proof {
                        let n = r.workers@.len() - 1;
                        assert(r.workers@[n] == w);
                        assert(r.spec_has_worker(
                            spec_identifier(printers@[k as int].host@, printers@[k as int].port),
                        ));
                        assert forall|j: int|
                            0 <= j < k implies r.spec_has_worker(
                            spec_identifier((#[trigger] printers@[j]).host@, printers@[j].port),
                        ) by {
                            let id = spec_identifier(printers@[j].host@, printers@[j].port);
                            assert(r_before.spec_has_worker(id));
                            let i = choose|i: int|
                                0 <= i < r_before.workers@.len()
                                    && (#[trigger] r_before.workers@[i]).identifier@ == id;
                            assert(r.workers@[i].identifier@ == id);
                        }
                    }
                },
            }
            proof {
                assert forall|i: int| 0 <= i < r.workers@.len() implies from_configured(
                    #[trigger] r.workers@[i],
                    printers@.take(k + 1),
                ) by {
                    if i < r_before.workers@.len() {
                        assert(r.workers@[i] == r_before.workers@[i]);
                        assert(from_configured(r.workers@[i], printers@.take(k as int)));
                        lemma_from_configured_extend(r.workers@[i], printers@, k as int);
                    } else {
                        assert(printers@.take(k + 1)[k as int] == printers@[k as int]);
                        assert(r.workers@[i].printer.host@ == printers@.take(k + 1)[
                            k as int].host@ && r.workers@[i].printer.port == printers@.take(
                            k + 1)[k as int].port);
                    }
                }
            }
            k = k + 1;
        }
        proof {
            assert(printers@.take(k as int) =~= printers@);
        }
        r
    }

    /// Looks an identifier up: the index of the worker that carries it, or
    /// `None` when no worker does. Read-only.
    pub fn lookup(&self, identifier: &String) -> (r: Option<usize>)
        ensures
            match r {
                Some(i) => i < self.workers@.len() && self.workers@[i as int].identifier@
                    == identifier@,
                None => !self.spec_has_worker(identifier@),
            },
    {
        let mut i: usize = 0;
        while i < self.workers.len()
            invariant
                0 <= i <= self.workers@.len(),
                forall|j: int|
                    0 <= j < i ==> (#[trigger] self.workers@[j]).identifier@ != identifier@,
            decreases self.workers@.len() - i,
        {
            if self.workers[i].identifier == *identifier {
                return Some(i);
            }
            i = i + 1;
        }
        None
    }

    /// A read-only handle to the worker at `index`.
    pub fn worker_at(&self, index: usize) -> (w: &Worker)
        requires
            index < self.workers@.len(),
        ensures
            *w == self.workers@[index as int],
    {
        &self.workers[index]
    }

    /// Routes one inbound payload. On a decode failure the registry is not
    /// consulted and nothing changes; on a registry miss the job is
    /// dropped and nothing changes; on a hit the job is appended to
    /// exactly the addressed worker's queue, without waiting for that
    /// worker — every other worker stands untouched either way.
    pub fn route(&mut self, raw: &[u8]) -> (r: RouteOutcome)
        requires
            old(self).wf(),
        ensures
            final(self).wf(),
            match spec_decode(raw@) {
                None => r == RouteOutcome::Rejected && *final(self) == *old(self),
                Some(env) => ({
                    let id = spec_identifier(decode_utf8(env.host), env.port);
                    if old(self).spec_has_worker(id) {
                        exists|i: int|
                            {
                                &&& 0 <= i < old(self).workers@.len()
                                &&& (#[trigger] old(self).workers@[i]).identifier@ == id
                                &&& r == (RouteOutcome::Delivered { index: i as usize })
                                &&& final(self).workers@.len() == old(self).workers@.len()
                                &&& accepted(
                                    old(self).workers@[i],
                                    final(self).workers@[i],
                                    env.message,
                                )
                                &&& forall|j: int|
                                    0 <= j < old(self).workers@.len() && j != i
                                        ==> final(self).workers@[j] == old(self).workers@[j]
                            }
                    } else {
                        r == RouteOutcome::NoWorker && *final(self) == *old(self)
                    }
                }),
            },
    {
        match MqttPrintMessage::decode(raw) {
            Err(_) => RouteOutcome::Rejected,
            Ok(msg) => {
                let id = msg.host_and_port();
                match self.lookup(&id) {
                    None => RouteOutcome::NoWorker,
                    Some(i) => {
                        let ghost before = *self;
                        let ghost env = spec_decode(raw@)->Some_0;
                        let w = worker_mut(&mut self.workers, i);
                        w.accept(PrintMessage::Print { zpl: msg.message });
                        proof {
                            assert(before == *old(self));
                            assert(self.workers@ == before.workers@.update(
                                i as int,
                                self.workers@[i as int],
                            ));
                            assert(self.workers@[i as int].queue@.take(
                                before.workers@[i as int].queue@.len() as int,
                            ) =~= before.workers@[i as int].queue@);
                            assert(accepted(
                                before.workers@[i as int],
                                self.workers@[i as int],
                                env.message,
                            ));
                            assert forall|a: int|
                                0 <= a < self.workers@.len()
                                implies (#[trigger] self.workers@[a]).wf() by {
                                if a != i {
                                    assert(self.workers@[a] == before.workers@[a]);
                                }
                            }
                            assert forall|a: int, b: int|
                                0 <= a < b < self.workers@.len()
                                implies self.workers@[a].identifier@
                                    != self.workers@[b].identifier@ by {
                                assert(self.workers@[a].identifier
                                    == before.workers@[a].identifier);
                                assert(self.workers@[b].identifier
                                    == before.workers@[b].identifier);
                            }
                        }
                        RouteOutcome::Delivered { index: i }
                    },
                }
            },
        }
    }

    /// Takes the next owed action of the worker at `index`, leaving every
    /// other worker untouched.
    pub fn take_next_action(&mut self, index: usize) -> (r: Option<DialRequest>)
        requires
            old(self).wf(),
            index < old(self).workers@.len(),
        ensures
            final(self).wf(),
            final(self).workers@.len() == old(self).workers@.len(),
            forall|j: int|
                0 <= j < old(self).workers@.len() && j != index ==> final(self).workers@[j] == old(
                    self,
                ).workers@[j],
            ({
                let w_old = old(self).workers@[index as int];
                let w_new = final(self).workers@[index as int];
                &&& w_new.identifier == w_old.identifier
                &&& w_new.printer == w_old.printer
                &&& (w_old.queue@.len() == 0 ==> r is None && w_new.queue@ == w_old.queue@)
                &&& (w_old.queue@.len() > 0 ==> (r matches Some(req) && req.host@
                    == w_old.printer.host@ && req.port == w_old.printer.port && req.payload@
                    == w_old.queue@[0].spec_payload() && w_new.queue@ == w_old.queue@.drop_first()))
            }),
    {
        let w = worker_mut(&mut self.workers, index);
        w.next_action()
    }
}

/// A mutable handle to one element of the worker list.
fn worker_mut(v: &mut Vec<Worker>, i: usize) -> (w: &mut Worker)
    requires
        i < old(v)@.len(),
    ensures
        *w == old(v)@[i as int],
        final(v)@ == old(v)@.update(i as int, *final(w)),
{
    &mut v[i]
}

} // verus!
