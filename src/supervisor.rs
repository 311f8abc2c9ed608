use vstd::prelude::*;
use crate::classify::{announced_port, classify};
use crate::hub::{broadcast_all, broadcast_seq, reply_to, Hub, Queues};
use crate::ids::random_id;
use crate::session::{config_role, Event, Role, SessionConfig};
use crate::table::Table;
use crate::text::{chars_of, decimal, decimal_chars, string_of};

verus! {

/// What the record store keeps of a running session.
#[derive(Clone, Copy, Debug, PartialEq, Eq, Structural)]
pub struct Record {
    pub role: Role,
    pub pid: u32,
}

/// Why a session could not be started.
#[derive(Clone, Copy, Debug, PartialEq, Eq, Structural)]
pub enum StartError {
    /// The process could not be launched.
    SpawnFailed,
    /// The id drawn for the session had been given out before.
    IdInUse,
}

/// Why a session could not be stopped.
#[derive(Clone, Copy, Debug, PartialEq, Eq, Structural)]
pub enum StopError {
    /// No running session has this id.
    NotFound,
}

/// A session that was started: what its output readers need to know.
#[derive(Debug)]
pub struct Session {
    pub id: String,
    pub pid: u32,
    pub role: Role,
    /// The relay address of a client; empty for a server.
    pub relay: String,
}

/// The supervisor's state as a whole.
pub struct Model {
    /// The running sessions.
    pub records: Map<Seq<char>, Record>,
    /// Every session id ever given out.
    pub issued: Set<Seq<char>>,
    /// The observers' pending events.
    pub queues: Queues,
}

pub open spec fn relay_of(c: SessionConfig) -> Seq<char> {
    match c {
        SessionConfig::Client(cc) => cc.to@,
        SessionConfig::Server(_) => Seq::empty(),
    }
}

/// Registering a session whose launch had the outcome `spawned`, under `id`.
pub open spec fn start_step(s: Model, id: String, config: SessionConfig, spawned: Option<u32>) -> (
    Model,
    Result<u32, StartError>,
) {
    match spawned {
        None => (s, Err(StartError::SpawnFailed)),
        Some(pid) => if s.issued.contains(id@) {
            (s, Err(StartError::IdInUse))
        } else {
            let role = config_role(config);
            (
                Model {
                    records: s.records.insert(id@, Record { role, pid }),
                    issued: s.issued.insert(id@),
                    queues: broadcast_all(
                        s.queues,
                        Event::Started { role, id, pid, config },
                    ),
                },
                Ok(pid),
            )
        },
    }
}

/// An explicit stop of session `id`: the record goes first, then observers
/// learn that it was stopped. The result is the process to signal.
pub open spec fn stop_step(s: Model, id: String) -> (Model, Result<u32, StopError>) {
    if s.records.contains_key(id@) {
        let rec = s.records[id@];
        (
            Model {
                records: s.records.remove(id@),
                issued: s.issued,
                queues: broadcast_all(s.queues, Event::Stopped { role: rec.role, id }),
            },
            Ok(rec.pid),
        )
    } else {
        (s, Err(StopError::NotFound))
    }
}

/// The natural end of session `id`'s process. Only the path that removes the
/// record tells observers: a session already stopped is not reported again.
pub open spec fn exit_step(s: Model, id: String) -> (Model, bool) {
    if s.records.contains_key(id@) {
        let rec = s.records[id@];
        (
            Model {
                records: s.records.remove(id@),
                issued: s.issued,
                queues: broadcast_all(s.queues, Event::Exited { role: rec.role, id }),
            },
            true,
        )
    } else {
        (s, false)
    }
}

/// The text of a client's public address on the relay.
pub open spec fn address_text(relay: Seq<char>, port: u16) -> Seq<char> {
    relay + seq![':'] + decimal(port as nat)
}

/// The events that one line of output gives, and their order.
pub open spec fn output_events(
    session: Session,
    line: String,
    is_error: bool,
    address: String,
) -> Seq<Event> {
    let log = Event::Log { role: session.role, id: session.id, line, is_error };
    match announced_port(session.role, line@) {
        Some(port) if !is_error => seq![
            Event::PortAssigned { id: session.id, port, address },
            log,
        ],
        _ => seq![log],
    }
}

/// The process id of a start's outcome.
pub open spec fn started_pid(r: Result<Session, StartError>) -> Result<u32, StartError> {
    match r {
        Ok(s) => Ok(s.pid),
        Err(e) => Err(e),
    }
}

/// A start either records a session under an id never given out before, with
/// the launched process, or fails and leaves everything as it was; an id, once
/// given out, is refused from then on.
pub proof fn lemma_start_outcome(
    s: Model,
    id: String,
    config: SessionConfig,
    spawned: Option<u32>,
    again: SessionConfig,
    spawned_again: Option<u32>,
)
    ensures
        ({
            let (t, r) = start_step(s, id, config, spawned);
            match r {
                Ok(pid) => {
                    &&& spawned == Some(pid)
                    &&& !s.issued.contains(id@)
                    &&& t.records.contains_key(id@)
                    &&& t.records[id@] == Record { role: config_role(config), pid }
                    &&& start_step(t, id, again, spawned_again).1 is Err
                },
                Err(_) => t == s,
            }
        }),
{
}

/// Stopping a running session twice: the first stop succeeds, the second
/// finds nothing and changes nothing, and a natural exit that comes between
/// them finds nothing either.
pub proof fn lemma_stop_twice(s: Model, id: String)
    requires
        s.records.contains_key(id@),
    ensures
        ({
            let (s1, r1) = stop_step(s, id);
            let (s2, r2) = stop_step(s1, id);
            let (s1x, exited) = exit_step(s1, id);
            &&& r1 == Ok::<u32, StopError>(s.records[id@].pid)
            &&& r2 == Err::<u32, StopError>(StopError::NotFound)
            &&& s2 == s1
            &&& !exited
            &&& s1x == s1
            &&& stop_step(s1x, id) == (s1, Err::<u32, StopError>(StopError::NotFound))
        }),
{
}

/// A stop that comes after the session's process has ended finds nothing, and
/// no second terminal event reaches observers: the exit alone reported it.
pub proof fn lemma_stop_after_exit(s: Model, id: String)
    requires
        s.records.contains_key(id@),
    ensures
        ({
            let (s1, exited) = exit_step(s, id);
            let (s2, r) = stop_step(s1, id);
            &&& exited
            &&& s1.queues == broadcast_all(
                s.queues,
                Event::Exited { role: s.records[id@].role, id },
            )
            &&& !s1.records.contains_key(id@)
            &&& r == Err::<u32, StopError>(StopError::NotFound)
            &&& s2 == s1
        }),
{
}

/// The session store, the ids given out, and the observers.
pub struct Supervisor {
    records: Table<Record>,
    issued: Table<()>,
    hub: Hub,
}

impl Supervisor {
    pub closed spec fn wf(&self) -> bool {
        self.records.wf() && self.issued.wf() && self.hub.wf()
            && self.records.view().dom().subset_of(self.issued.view().dom())
    }

    pub closed spec fn view(&self) -> Model {
        Model {
            records: self.records.view(),
            issued: self.issued.view().dom(),
            queues: self.hub@,
        }
    }

    pub fn new() -> (r: Supervisor)
        ensures
            r.wf(),
            r@.records == Map::<Seq<char>, Record>::empty(),
            r@.issued == Set::<Seq<char>>::empty(),
            r@.queues == Queues::empty(),
    {
        let r = Supervisor { records: Table::new(), issued: Table::new(), hub: Hub::new() };
        assert(r@.issued =~= Set::<Seq<char>>::empty());
        r
    }

    /// Every running session's id is among the ids given out.
    pub proof fn lemma_running_ids_issued(&self)
        requires
            self.wf(),
        ensures
            self@.records.dom().subset_of(self@.issued),
    {
    }

    /// Connects a new observer under a fresh random id, which it returns.
    pub fn connect(&mut self) -> (r: Option<String>)
        requires
            old(self).wf(),
        ensures
            final(self).wf(),
            final(self)@.records == old(self)@.records,
            final(self)@.issued == old(self)@.issued,
            r matches Some(id) ==> !old(self)@.queues.contains_key(id@) && final(self)@.queues
                == old(self)@.queues.insert(id@, Seq::empty()),
            r is None ==> final(self)@.queues == old(self)@.queues,
            old(self)@.queues == Queues::empty() ==> r is Some,
    {
        self.hub.connect()
    }

    /// Disconnects observer `id`; one that is not connected is left alone.
    pub fn disconnect(&mut self, id: &String) -> (r: bool)
        requires
            old(self).wf(),
        ensures
            final(self).wf(),
            final(self)@.records == old(self)@.records,
            final(self)@.issued == old(self)@.issued,
            r == old(self)@.queues.contains_key(id@),
            final(self)@.queues == old(self)@.queues.remove(id@),
    {
        self.hub.unregister(id)
    }

    /// Takes the events waiting for observer `id`, oldest first.
    pub fn drain(&mut self, id: &String) -> (r: Option<Vec<Event>>)
        requires
            old(self).wf(),
        ensures
            final(self).wf(),
            final(self)@.records == old(self)@.records,
            final(self)@.issued == old(self)@.issued,
            r is Some <==> old(self)@.queues.contains_key(id@),
            r matches Some(v) ==> v@ == old(self)@.queues[id@] && final(self)@.queues == old(
                self,
            )@.queues.insert(id@, Seq::empty()),
            r is None ==> final(self)@.queues == old(self)@.queues,
    {
        self.hub.drain(id)
    }

    /// Answers a message of type `kind` from observer `id` (see `Hub::receive`).
    pub fn receive(&mut self, id: &String, kind: &String, correlation: Option<String>) -> (r: bool)
        requires
            old(self).wf(),
        ensures
            final(self).wf(),
            final(self)@.records == old(self)@.records,
            final(self)@.issued == old(self)@.issued,
            r == (reply_to(kind@, correlation) is Some && old(self)@.queues.contains_key(id@)),
            r ==> final(self)@.queues == old(self)@.queues.insert(
                id@,
                old(self)@.queues[id@].push(reply_to(kind@, correlation)->Some_0),
            ),
            !r ==> final(self)@.queues == old(self)@.queues,
    {
        self.hub.receive(id, kind, correlation)
    }

    /// The process of the running session `id`.
    pub fn get(&self, id: &String) -> (r: Option<u32>)
        requires
            self.wf(),
        ensures
            r is Some <==> self@.records.contains_key(id@),
            r matches Some(pid) ==> pid == self@.records[id@].pid,
    {
        match self.records.get(id) {
            Some(rec) => Some(rec.pid),
            None => None,
        }
    }

    /// Records a session whose launch had the outcome `spawned` (the process
    /// id, or `None` where the launch failed) under the id `id`, and tells
    /// observers that it started. Nothing changes on an error.
    pub fn register_session(
        &mut self,
        id: String,
        config: SessionConfig,
        spawned: Option<u32>,
    ) -> (r: Result<Session, StartError>)
        requires
            old(self).wf(),
        ensures
            final(self).wf(),
            (final(self)@, started_pid(r)) == start_step(old(self)@, id, config, spawned),
            r matches Ok(s) ==> s.id == id && s.role == config_role(config) && s.relay@ == relay_of(
                config,
            ),
            r is Ok ==> !old(self)@.records.contains_key(id@),
    {
        let pid = match spawned {
            None => {
                return Err(StartError::SpawnFailed);
            },
            Some(p) => p,
        };
        if self.issued.contains(&id) {
            return Err(StartError::IdInUse);
        }
        let role = config.role();
        let relay = match &config {
            SessionConfig::Client(c) => c.to.clone(),
            SessionConfig::Server(_) => String::new(),
        };
        let ghost config0 = config;
        let ghost id0 = id;
        self.issued.insert(id.clone(), ());
        self.records.insert(id.clone(), Record { role, pid });
        let e = Event::Started { role, id: id.clone(), pid, config };
        self.hub.broadcast(&e);
        proof {
            assert(self@.issued =~= old(self)@.issued.insert(id0@));
            assert(self@ == start_step(old(self)@, id0, config0, spawned).0);
        }
        Ok(Session { id, pid, role, relay })
    }

    /// Starts a session under a fresh random id: `spawned` is the outcome of
    /// launching its process with the arguments of `config`.
    pub fn start(&mut self, config: SessionConfig, spawned: Option<u32>) -> (r: Result<Session, StartError>)
        requires
            old(self).wf(),
        ensures
            final(self).wf(),
            match r {
                Ok(s) => !old(self)@.issued.contains(s.id@) && final(self)@ == start_step(
                    old(self)@,
                    s.id,
                    config,
                    spawned,
                ).0 && spawned == Some(s.pid),
                Err(_) => final(self)@ == old(self)@,
            },
            spawned is None ==> r == Err::<Session, StartError>(StartError::SpawnFailed),
            spawned is Some && r is Err ==> r == Err::<Session, StartError>(StartError::IdInUse),
            spawned is Some && old(self)@.issued == Set::<Seq<char>>::empty() ==> r is Ok,
            r matches Ok(s) ==> s.role == config_role(config) && s.relay@ == relay_of(config)
                && !old(self)@.records.contains_key(s.id@),
    {
        if spawned.is_none() {
            return Err(StartError::SpawnFailed);
        }
        let id = random_id();
        self.register_session(id, config, spawned)
    }

    /// Stops the running session `id`: its record is removed and observers are
    /// told. Returns the process to signal, or `NotFound`.
    pub fn stop(&mut self, id: &String) -> (r: Result<u32, StopError>)
        requires
            old(self).wf(),
        ensures
            final(self).wf(),
            (final(self)@, r) == stop_step(old(self)@, *id),
    {
        match self.records.remove(id) {
            Some(rec) => {
                let e = Event::Stopped { role: rec.role, id: id.clone() };
                self.hub.broadcast(&e);
                Ok(rec.pid)
            },
            None => Err(StopError::NotFound),
        }
    }

    /// The process of session `id` has ended and its output is read to the
    /// end. Returns whether this removed its record.
    pub fn exited(&mut self, id: &String) -> (r: bool)
        requires
            old(self).wf(),
        ensures
            final(self).wf(),
            (final(self)@, r) == exit_step(old(self)@, *id),
    {
        match self.records.remove(id) {
            Some(rec) => {
                let e = Event::Exited { role: rec.role, id: id.clone() };
                self.hub.broadcast(&e);
                true
            },
            None => false,
        }
    }

    /// One line of a session's output: on standard output of a client it may
    /// announce the remote port, which observers learn first; every line is
    /// then passed on as a log event.
    pub fn output(&mut self, session: &Session, line: String, is_error: bool)
        requires
            old(self).wf(),
        ensures
            final(self).wf(),
            final(self)@.records == old(self)@.records,
            final(self)@.issued == old(self)@.issued,
            exists|address: String|
                (!is_error && announced_port(session.role, line@) is Some ==> address@
                    == address_text(session.relay@, announced_port(session.role, line@)->Some_0))
                    && final(self)@.queues == broadcast_seq(
                    old(self)@.queues,
                    output_events(*session, line, is_error, address),
                ),
    {
        let ghost line0 = line;
        let ghost q0 = self.hub@;
        let port = if is_error {
            None
        } else {
            classify(session.role, line.as_str())
        };
        let ghost mut witness: String = session.id;
        let ghost mut first: Event = Event::Pong { correlation: None };
        match port {
            Some(p) => {
                let address = address_string(&session.relay, p);
                proof {
                    witness = address;
                }
                let e = Event::PortAssigned { id: session.id.clone(), port: p, address };
                proof {
                    first = e;
                }
                self.hub.broadcast(&e);
            },
            None => {},
        }
        let ghost q1 = self.hub@;
        let log = Event::Log { role: session.role, id: session.id.clone(), line, is_error };
        self.hub.broadcast(&log);
        proof {
            let es = output_events(*session, line0, is_error, witness);
            if port is Some {
                assert(es =~= seq![first, log]);
                assert(es.drop_first() =~= seq![log]);
                assert(es.drop_first().drop_first() =~= Seq::<Event>::empty());
                assert(broadcast_seq(q0, es) == broadcast_seq(q1, es.drop_first()));
                assert(broadcast_seq(q1, es.drop_first()) == broadcast_seq(
                    broadcast_all(q1, log),
                    es.drop_first().drop_first(),
                ));
            } else {
                assert(es =~= seq![log]);
                assert(es.drop_first() =~= Seq::<Event>::empty());
                assert(q1 == q0);
                assert(broadcast_seq(q0, es) == broadcast_seq(
                    broadcast_all(q0, log),
                    es.drop_first(),
                ));
            }
            assert(self@.queues == broadcast_seq(q0, es));
        }
    }
}

fn address_string(relay: &String, port: u16) -> (r: String)
    ensures
        r@ == address_text(relay@, port),
{
    let mut v = chars_of(relay.as_str());
    v.push(':');
    let mut d = decimal_chars(port);
    v.append(&mut d);
    string_of(&v)
}

} // verus!
