//! The subgraph assignment orchestrator: the single authority on which
//! deployments are running, and the source of lifecycle events.
//!
//! Manifest resolution, the store and the event channel are outside
//! collaborators. `start` takes the outcome of resolving the manifest; the
//! events and store requests it produces wait in queues that the driving
//! loop drains.
use vstd::prelude::*;
use vstd::string::*;
use crate::registry::SubgraphRegistry;

verus! {

/// Capacity of the lifecycle-event channel that the driver forwards to.
pub const EVENT_CHANNEL_CAPACITY: usize = 100;

/// A resolved deployment descriptor.
#[derive(Debug, PartialEq, Eq)]
pub struct SubgraphManifest {
    pub id: String,
    pub schema: String,
}

/// An event for the scheduler that runs deployments.
#[derive(Debug, PartialEq, Eq)]
pub enum SubgraphAssignmentProviderEvent {
    SubgraphStart(SubgraphManifest),
    SubgraphStop(String),
}

/// Why `start` or `stop` failed.
#[derive(Debug, PartialEq, Eq)]
pub enum SubgraphAssignmentProviderError {
    /// The manifest could not be fetched or parsed.
    ResolveError(String),
    AlreadyRunning(String),
    NotRunning(String),
}

/// A request for the entity store.
#[derive(Debug, PartialEq, Eq)]
pub enum StoreRequest {
    /// Build the entity attribute indexes of deployment `id` from its schema.
    BuildEntityAttributeIndexes { id: String, schema: String },
    /// Mark deployment `id` as failed.
    SetFailedFlag { id: String },
}

/// The receiving end of the lifecycle-event stream; it can be taken once.
#[derive(Debug)]
pub struct EventStream {
    handle: (),
}

/// The abstract state of the orchestrator.
pub struct ProviderState {
    pub running: Set<Seq<char>>,
    pub events: Seq<SubgraphAssignmentProviderEvent>,
    pub store_requests: Seq<StoreRequest>,
    pub stream_taken: bool,
    /// Whether losing a duplicate-start race also marks the deployment failed.
    pub flag_duplicate_start: bool,
}

/// The content-address link of deployment `id`.
pub open spec fn link_of(id: Seq<char>) -> Seq<char> {
    "/ipfs/"@ + id
}

/// What `start(id)` does, given the outcome of resolving the manifest.
pub open spec fn start_step(
    s: ProviderState,
    id: String,
    resolved: Result<SubgraphManifest, String>,
) -> (ProviderState, Result<(), SubgraphAssignmentProviderError>) {
    match resolved {
        Err(e) => (
            ProviderState {
                store_requests: s.store_requests.push(StoreRequest::SetFailedFlag { id }),
                ..s
            },
            Err(SubgraphAssignmentProviderError::ResolveError(e)),
        ),
        Ok(m) => if s.running.contains(id@) {
            (
                ProviderState {
                    store_requests: if s.flag_duplicate_start {
                        s.store_requests.push(StoreRequest::SetFailedFlag { id })
                    } else {
                        s.store_requests
                    },
                    ..s
                },
                Err(SubgraphAssignmentProviderError::AlreadyRunning(id)),
            )
        } else {
            (
                ProviderState {
                    running: s.running.insert(id@),
                    events: s.events.push(SubgraphAssignmentProviderEvent::SubgraphStart(m)),
                    store_requests: s.store_requests.push(
                        StoreRequest::BuildEntityAttributeIndexes { id, schema: m.schema },
                    ),
                    ..s
                },
                Ok(()),
            )
        },
    }
}

/// What `stop(id)` does.
pub open spec fn stop_step(s: ProviderState, id: String) -> (
    ProviderState,
    Result<(), SubgraphAssignmentProviderError>,
) {
    if s.running.contains(id@) {
        (
            ProviderState {
                running: s.running.remove(id@),
                events: s.events.push(SubgraphAssignmentProviderEvent::SubgraphStop(id)),
                ..s
            },
            Ok(()),
        )
    } else {
        (s, Err(SubgraphAssignmentProviderError::NotRunning(id)))
    }
}

/// What `take_event_stream` does: the stream goes out on the first call only.
pub open spec fn take_step(s: ProviderState) -> (ProviderState, bool) {
    (ProviderState { stream_taken: true, ..s }, !s.stream_taken)
}

/// Decides which deployments run and emits their lifecycle events.
#[derive(Debug)]
pub struct SubgraphAssignmentProvider {
    running: SubgraphRegistry,
    event_sink: Vec<SubgraphAssignmentProviderEvent>,
    event_stream: Option<EventStream>,
    store_requests: Vec<StoreRequest>,
    flag_duplicate_start: bool,
}

impl View for SubgraphAssignmentProvider {
    type V = ProviderState;

    closed spec fn view(&self) -> ProviderState {
        ProviderState {
            running: self.running.running(),
            events: self.event_sink@,
            store_requests: self.store_requests@,
            stream_taken: self.event_stream is None,
            flag_duplicate_start: self.flag_duplicate_start,
        }
    }
}

/// Of two starts of one deployment that both resolve while it is not
/// running, the first to take the lock wins and the other fails with
/// `AlreadyRunning`; exactly one `SubgraphStart` event is emitted.
pub proof fn lemma_racing_starts_have_one_winner(
    s: ProviderState,
    id1: String,
    m1: SubgraphManifest,
    id2: String,
    m2: SubgraphManifest,
)
    requires
        id1@ == id2@,
        !s.running.contains(id1@),
    ensures
        ({
            let (s1, r1) = start_step(s, id1, Ok(m1));
            let (s2, r2) = start_step(s1, id2, Ok(m2));
            &&& r1 is Ok
            &&& r2 == Err::<(), _>(SubgraphAssignmentProviderError::AlreadyRunning(id2))
            &&& s2.events == s.events.push(SubgraphAssignmentProviderEvent::SubgraphStart(m1))
            &&& s2.running == s.running.insert(id1@)
        }),
{
}

/// `stop` of a deployment that is not running fails with `NotRunning`;
/// after a successful start, the first `stop` succeeds and a second fails.
pub proof fn lemma_stop_only_once_after_start(s: ProviderState, id: String, m: SubgraphManifest)
    ensures
        !s.running.contains(id@) ==> stop_step(s, id) == (
            s,
            Err::<(), _>(SubgraphAssignmentProviderError::NotRunning(id)),
        ),
        ({
            let (s1, r1) = start_step(s, id, Ok(m));
            let (s2, r2) = stop_step(s1, id);
            let (s3, r3) = stop_step(s2, id);
            r1 is Ok ==> {
                &&& r2 is Ok
                &&& r3 == Err::<(), _>(SubgraphAssignmentProviderError::NotRunning(id))
                &&& s3 == s2
            }
        }),
{
}

/// The event stream is handed out on the first call and never again.
pub proof fn lemma_event_stream_taken_once(s: ProviderState)
    requires
        !s.stream_taken,
    ensures
        take_step(s).1,
        !take_step(take_step(s).0).1,
        take_step(take_step(s).0).0 == take_step(s).0,
{
}

/// A deployment is reusable after release: start, stop, start again all
/// succeed when the manifest resolves each time.
pub proof fn lemma_restart_after_stop(s: ProviderState, id: String, m: SubgraphManifest)
    requires
        !s.running.contains(id@),
    ensures
        ({
            let (s1, r1) = start_step(s, id, Ok(m));
            let (s2, r2) = stop_step(s1, id);
            let (s3, r3) = start_step(s2, id, Ok(m));
            &&& r1 is Ok
            &&& r2 is Ok
            &&& r3 is Ok
            &&& s3.running == s.running.insert(id@)
        }),
{
    let (s1, r1) = start_step(s, id, Ok(m));
    let (s2, r2) = stop_step(s1, id);
    assert(s2.running =~= s.running);
}

/// Builds the content-address link `/ipfs/<id>` of a deployment.
pub fn deployment_link(id: &String) -> (r: String)
    ensures
        r@ == link_of(id@),
{
    let mut link = String::from_str("/ipfs/");
    link.append(id.as_str());
    link
}

impl SubgraphAssignmentProvider {
    pub closed spec fn wf(&self) -> bool {
        self.running.wf()
    }

    /// A provider with nothing running and the event stream not yet taken.
    /// With `flag_duplicate_start`, a start that loses a race for an id also
    /// marks the deployment failed.
    pub fn new(flag_duplicate_start: bool) -> (r: Self)
        ensures
            r.wf(),
            r@ == (ProviderState {
                running: Set::empty(),
                events: Seq::empty(),
                store_requests: Seq::empty(),
                stream_taken: false,
                flag_duplicate_start,
            }),
    {
        SubgraphAssignmentProvider {
            running: SubgraphRegistry::new(),
            event_sink: Vec::new(),
            event_stream: Some(EventStream { handle: () }),
            store_requests: Vec::new(),
            flag_duplicate_start,
        }
    }

    /// Starts deployment `id`, whose manifest, fetched from
    /// `deployment_link(&id)`, resolved to `resolved`.
    pub fn start(&mut self, id: String, resolved: Result<SubgraphManifest, String>) -> (r: Result<
        (),
        SubgraphAssignmentProviderError,
    >)
        requires
            old(self).wf(),
        ensures
            final(self).wf(),
            (final(self)@, r) == start_step(old(self)@, id, resolved),
    {
        match resolved {
            Err(e) => {
                self.store_requests.push(StoreRequest::SetFailedFlag { id });
                Err(SubgraphAssignmentProviderError::ResolveError(e))
            },
            Ok(m) => {
                let ghost pre = self@;
                if !self.running.insert_if_absent(id.clone()) {
                    proof {
                        assert(pre.running.insert(id@) =~= pre.running);
                    }
                    if self.flag_duplicate_start {
                        self.store_requests.push(StoreRequest::SetFailedFlag { id: id.clone() });
                    }
                    return Err(SubgraphAssignmentProviderError::AlreadyRunning(id));
                }
                self.store_requests.push(
                    StoreRequest::BuildEntityAttributeIndexes { id, schema: m.schema.clone() },
                );
                self.event_sink.push(SubgraphAssignmentProviderEvent::SubgraphStart(m));
                Ok(())
            },
        }
    }

    /// Stops deployment `id`.
    pub fn stop(&mut self, id: String) -> (r: Result<(), SubgraphAssignmentProviderError>)
        requires
            old(self).wf(),
        ensures
            final(self).wf(),
            (final(self)@, r) == stop_step(old(self)@, id),
    {
        let ghost pre = self@;
        if self.running.remove_if_present(&id) {
            self.event_sink.push(SubgraphAssignmentProviderEvent::SubgraphStop(id));
            Ok(())
        } else {
            proof {
                assert(pre.running.remove(id@) =~= pre.running);
            }
            Err(SubgraphAssignmentProviderError::NotRunning(id))
        }
    }

    /// Hands out the receiving end of the event stream, once.
    pub fn take_event_stream(&mut self) -> (r: Option<EventStream>)
        requires
            old(self).wf(),
        ensures
            final(self).wf(),
            (final(self)@, r is Some) == take_step(old(self)@),
    {
        self.event_stream.take()
    }

    /// Receives the oldest pending event; only the holder of the stream can.
    pub fn next_event(&mut self, stream: &EventStream) -> (r: Option<SubgraphAssignmentProviderEvent>)
        requires
            old(self).wf(),
        ensures
            final(self).wf(),
            old(self)@.events.len() == 0 ==> r is None && final(self)@ == old(self)@,
            old(self)@.events.len() > 0 ==> r == Some(old(self)@.events[0]) && final(self)@ == (
            ProviderState { events: old(self)@.events.drop_first(), ..old(self)@ }),
    {
        if self.event_sink.len() == 0 {
            None
        } else {
            let e = self.event_sink.remove(0);
            proof {
                assert(self@.events =~= old(self)@.events.drop_first());
            }
            Some(e)
        }
    }

    /// Hands the pending store requests to the caller, oldest first.
    pub fn take_store_requests(&mut self) -> (r: Vec<StoreRequest>)
        requires
            old(self).wf(),
        ensures
            final(self).wf(),
            r@ == old(self)@.store_requests,
            final(self)@ == (ProviderState { store_requests: Seq::empty(), ..old(self)@ }),
    {
        let mut taken: Vec<StoreRequest> = Vec::new();
        std::mem::swap(&mut taken, &mut self.store_requests);
        proof {
            assert(self@.store_requests =~= Seq::<StoreRequest>::empty());
        }
        taken
    }

    /// Whether deployment `id` is running.
    pub fn is_running(&self, id: &String) -> (r: bool)
        ensures
            r == self@.running.contains(id@),
    {
        self.running.contains(id)
    }
}

} // verus!
