//! The per-binding listener/publisher worker: classification of the AMQP
//! entity, construction of the publication envelope with its routing rule,
//! the worker's control state machine (including the reconnect-and-retry
//! policy on transport loss), and the reconnect backoff schedule.
//!
//! The machine decides; the surrounding process performs the actions (the
//! `LISTEN`, the publish, the session open) and feeds the outcomes back in
//! as events.

use vstd::prelude::*;
use vstd::string::*;

use crate::config::Binding;
use crate::config::BindingV;
use crate::payload::HeaderEntry;
use crate::payload::HeaderV;
use crate::payload::parse_notification;
use crate::payload::spec_parse_notification;

verus! {

/// The kind of AMQP entity a binding points at, resolved at startup.
#[derive(Debug, Clone, Copy, PartialEq, Eq, Structural)]
pub enum EntityType {
    Exchange,
    Queue,
}

/// Classification from the outcomes of the two passive declares; when an
/// exchange and a queue share the name, the exchange is preferred; when
/// neither exists there is no classification.
pub open spec fn spec_classify(queue_exists: bool, exchange_exists: bool) -> Option<EntityType> {
    if exchange_exists {
        Some(EntityType::Exchange)
    } else if queue_exists {
        Some(EntityType::Queue)
    } else {
        None
    }
}

/// Classify an AMQP entity from the outcomes of the passive
/// `queue_declare` and `exchange_declare`.
pub fn classify_entity(queue_exists: bool, exchange_exists: bool) -> (r: Option<EntityType>)
    ensures
        r == spec_classify(queue_exists, exchange_exists),
{
    if exchange_exists {
        Some(EntityType::Exchange)
    } else if queue_exists {
        Some(EntityType::Queue)
    } else {
        None
    }
}

// ---------------------------------------------------------------------------
// Envelopes
// ---------------------------------------------------------------------------

/// One publication, fully determined: destination, routing key, properties,
/// flags and body.
#[derive(Debug, Clone, PartialEq, Eq)]
pub struct Envelope {
    pub exchange: String,
    pub routing_key: String,
    pub headers: Option<Vec<HeaderEntry>>,
    pub content_type: String,
    pub delivery_mode: u8,
    pub mandatory: bool,
    pub immediate: bool,
    pub body: String,
}

/// Spec-level image of an envelope.
#[verifier::ext_equal]
pub struct EnvelopeV {
    pub exchange: Seq<char>,
    pub routing_key: Seq<char>,
    pub headers: Option<Seq<HeaderV>>,
    pub content_type: Seq<char>,
    pub delivery_mode: u8,
    pub mandatory: bool,
    pub immediate: bool,
    pub body: Seq<char>,
}

impl View for Envelope {
    type V = EnvelopeV;

    open spec fn view(&self) -> EnvelopeV {
        EnvelopeV {
            exchange: self.exchange@,
            routing_key: self.routing_key@,
            headers: match self.headers {
                Some(ref hs) => Some(hs.deep_view()),
                None => None,
            },
            content_type: self.content_type@,
            delivery_mode: self.delivery_mode,
            mandatory: self.mandatory,
            immediate: self.immediate,
            body: self.body@,
        }
    }
}

/// The envelope published for one notification: to an exchange, the parsed
/// routing key routes within the named exchange; to a queue, the default
/// exchange is used and the queue's own name is the routing key.  The body
/// is the parsed body, the headers are the parsed headers, the content
/// type is `text`, the delivery mode is the process-wide setting, and the
/// publication is mandatory but not immediate.
pub open spec fn spec_envelope(
    binding: BindingV,
    entity_type: EntityType,
    payload: Seq<char>,
    delivery_mode: u8,
) -> EnvelopeV {
    let p = spec_parse_notification(payload);
    EnvelopeV {
        exchange: if entity_type == EntityType::Exchange {
            binding.amqp_entity
        } else {
            Seq::empty()
        },
        routing_key: if entity_type == EntityType::Exchange {
            p.routing_key
        } else {
            binding.amqp_entity
        },
        headers: p.headers,
        content_type: "text"@,
        delivery_mode,
        mandatory: true,
        immediate: false,
        body: p.body,
    }
}

/// Build the envelope for one notification of a classified binding.
pub fn build_envelope(
    binding: &Binding,
    entity_type: EntityType,
    payload: &str,
    delivery_mode: u8,
) -> (e: Envelope)
    ensures
        e@ == spec_envelope(binding@, entity_type, payload@, delivery_mode),
{
    let parsed = parse_notification(payload);
    let e = match entity_type {
        EntityType::Exchange => Envelope {
            exchange: binding.amqp_entity.clone(),
            routing_key: parsed.routing_key,
            headers: parsed.headers,
            content_type: String::from_str("text"),
            delivery_mode,
            mandatory: true,
            immediate: false,
            body: parsed.body,
        },
        EntityType::Queue => Envelope {
            exchange: String::new(),
            routing_key: binding.amqp_entity.clone(),
            headers: parsed.headers,
            content_type: String::from_str("text"),
            delivery_mode,
            mandatory: true,
            immediate: false,
            body: parsed.body,
        },
    };
    proof {
        assert(e@ =~~= spec_envelope(binding@, entity_type, payload@, delivery_mode));
    }
    e
}

/// The routing rule: a binding to an exchange publishes to that exchange
/// under the parsed routing key; a binding to a queue publishes to the
/// default exchange under the queue's name.
pub proof fn lemma_routing_law(
    binding: BindingV,
    entity_type: EntityType,
    payload: Seq<char>,
    delivery_mode: u8,
)
    ensures
        entity_type == EntityType::Exchange ==> spec_envelope(
            binding,
            entity_type,
            payload,
            delivery_mode,
        ).exchange == binding.amqp_entity && spec_envelope(
            binding,
            entity_type,
            payload,
            delivery_mode,
        ).routing_key == spec_parse_notification(payload).routing_key,
        entity_type == EntityType::Queue ==> spec_envelope(
            binding,
            entity_type,
            payload,
            delivery_mode,
        ).exchange == Seq::<char>::empty() && spec_envelope(
            binding,
            entity_type,
            payload,
            delivery_mode,
        ).routing_key == binding.amqp_entity,
{
}

// ---------------------------------------------------------------------------
// The worker state machine
// ---------------------------------------------------------------------------

/// A worker's control state.
#[derive(Debug, Clone, Copy, PartialEq, Eq, Structural)]
pub enum WorkerState {
    /// Waiting for the passive declares that classify the entity.
    Classifying,
    /// Waiting for the next notification on the stream.
    Listening,
    /// A first publication of the pending envelope is in flight.
    Publishing,
    /// The transport was lost; waiting for a fresh session.
    Reconnecting,
    /// A second, last publication of the pending envelope is in flight.
    Retrying,
    /// The notification stream ended; the worker is done.
    Stopped,
    /// The configured entity does not exist; the process must exit.
    Failed,
}

/// What the surrounding process reports to the machine.
pub enum WorkerEvent {
    /// The two passive declares came back.
    Classified { queue_exists: bool, exchange_exists: bool },
    /// A notification arrived on the channel.
    Notified { payload: String },
    /// The in-flight publication was accepted.
    PublishOk,
    /// The in-flight publication failed with a transport I/O error.
    PublishIoError,
    /// The in-flight publication failed some other way.
    PublishOtherError,
    /// A fresh session was opened and the entity redeclared.
    SessionRestored { queue_exists: bool, exchange_exists: bool },
    /// The notification stream ended or the database failed.
    StreamEnded,
}

/// Spec-level image of an event.
pub enum EventV {
    Classified { queue_exists: bool, exchange_exists: bool },
    Notified { payload: Seq<char> },
    PublishOk,
    PublishIoError,
    PublishOtherError,
    SessionRestored { queue_exists: bool, exchange_exists: bool },
    StreamEnded,
}

impl View for WorkerEvent {
    type V = EventV;

    open spec fn view(&self) -> EventV {
        match self {
            WorkerEvent::Classified { queue_exists, exchange_exists } => EventV::Classified {
                queue_exists: *queue_exists,
                exchange_exists: *exchange_exists,
            },
            WorkerEvent::Notified { payload } => EventV::Notified { payload: payload@ },
            WorkerEvent::PublishOk => EventV::PublishOk,
            WorkerEvent::PublishIoError => EventV::PublishIoError,
            WorkerEvent::PublishOtherError => EventV::PublishOtherError,
            WorkerEvent::SessionRestored { queue_exists, exchange_exists } => (
            EventV::SessionRestored {
                queue_exists: *queue_exists,
                exchange_exists: *exchange_exists,
            }),
            WorkerEvent::StreamEnded => EventV::StreamEnded,
        }
    }
}

/// What the machine asks the surrounding process to do next.
#[derive(Debug, Clone, Copy, PartialEq, Eq, Structural)]
pub enum WorkerAction {
    /// Issue `LISTEN` on the binding's channel and block on the stream.
    StartListening,
    /// Publish the pending envelope.
    Publish,
    /// Open a fresh session with backoff, reclassify the entity, then
    /// report `SessionRestored`.
    Reconnect,
    /// Log the outcome and wait for the next notification.
    ContinueListening,
    /// The configured entity does not exist: log and exit the process.
    FatalEntityMissing,
    /// Close the channel and the session with reply code 200.
    CloseCleanly,
    /// The event does not apply in the current state; do nothing.
    Ignore,
}

/// One worker: its binding, the process delivery mode, and its control
/// state, including the envelope whose publication is in flight.
pub struct Worker {
    pub binding: Binding,
    pub delivery_mode: u8,
    pub entity_type: Option<EntityType>,
    pub state: WorkerState,
    pub pending: Option<Envelope>,
}

/// Spec-level image of a worker.
#[verifier::ext_equal]
pub struct WorkerV {
    pub binding: BindingV,
    pub delivery_mode: u8,
    pub entity_type: Option<EntityType>,
    pub state: WorkerState,
    pub pending: Option<EnvelopeV>,
}

impl View for Worker {
    type V = WorkerV;

    open spec fn view(&self) -> WorkerV {
        WorkerV {
            binding: self.binding@,
            delivery_mode: self.delivery_mode,
            entity_type: self.entity_type,
            state: self.state,
            pending: match self.pending {
                Some(ref e) => Some(e@),
                None => None,
            },
        }
    }
}

/// What one event does to a worker: the next state and the action asked of
/// the surrounding process.  Total: an event that does not apply in the
/// current state changes nothing and asks nothing.
pub open spec fn spec_worker_step(w: WorkerV, ev: EventV) -> (WorkerV, WorkerAction) {
    match (w.state, ev) {
        (WorkerState::Classifying, EventV::Classified { queue_exists, exchange_exists }) => {
            match spec_classify(queue_exists, exchange_exists) {
                None => (
                    WorkerV { state: WorkerState::Failed, ..w },
                    WorkerAction::FatalEntityMissing,
                ),
                Some(t) => (
                    WorkerV { entity_type: Some(t), state: WorkerState::Listening, ..w },
                    WorkerAction::StartListening,
                ),
            }
        },
        (WorkerState::Listening, EventV::Notified { payload }) => {
            match w.entity_type {
                Some(t) => (
                    WorkerV {
                        state: WorkerState::Publishing,
                        pending: Some(spec_envelope(w.binding, t, payload, w.delivery_mode)),
                        ..w
                    },
                    WorkerAction::Publish,
                ),
                None => (w, WorkerAction::Ignore),
            }
        },
        (WorkerState::Listening, EventV::StreamEnded) => (
            WorkerV { state: WorkerState::Stopped, pending: None, ..w },
            WorkerAction::CloseCleanly,
        ),
        (WorkerState::Publishing, EventV::PublishOk) => (
            WorkerV { state: WorkerState::Listening, pending: None, ..w },
            WorkerAction::ContinueListening,
        ),
        (WorkerState::Publishing, EventV::PublishIoError) => (
            WorkerV { state: WorkerState::Reconnecting, ..w },
            WorkerAction::Reconnect,
        ),
        (WorkerState::Publishing, EventV::PublishOtherError) => (
            WorkerV { state: WorkerState::Listening, pending: None, ..w },
            WorkerAction::ContinueListening,
        ),
        (WorkerState::Reconnecting, EventV::SessionRestored { queue_exists, exchange_exists }) => {
            match spec_classify(queue_exists, exchange_exists) {
                None => (
                    WorkerV { state: WorkerState::Failed, ..w },
                    WorkerAction::FatalEntityMissing,
                ),
                Some(_) => (WorkerV { state: WorkerState::Retrying, ..w }, WorkerAction::Publish),
            }
        },
        (WorkerState::Retrying, EventV::PublishOk) => (
            WorkerV { state: WorkerState::Listening, pending: None, ..w },
            WorkerAction::ContinueListening,
        ),
        (WorkerState::Retrying, EventV::PublishIoError) => (
            WorkerV { state: WorkerState::Listening, pending: None, ..w },
            WorkerAction::ContinueListening,
        ),
        (WorkerState::Retrying, EventV::PublishOtherError) => (
            WorkerV { state: WorkerState::Listening, pending: None, ..w },
            WorkerAction::ContinueListening,
        ),
        _ => (w, WorkerAction::Ignore),
    }
}

impl Worker {
    /// A fresh worker for one binding, not yet classified.
    pub fn new(binding: Binding, delivery_mode: u8) -> (w: Worker)
        ensures
            w@ == (WorkerV {
                binding: binding@,
                delivery_mode,
                entity_type: None,
                state: WorkerState::Classifying,
                pending: None,
            }),
    {
        Worker {
            binding,
            delivery_mode,
            entity_type: None,
            state: WorkerState::Classifying,
            pending: None,
        }
    }

    /// Feed one event to the machine; the returned action is what the
    /// surrounding process must do next.
    pub fn step(&mut self, event: WorkerEvent) -> (action: WorkerAction)
        ensures
            (final(self)@, action) == spec_worker_step(old(self)@, event@),
    {
        let ghost pre = self@;
        let ghost evv = event@;
        match event {
            WorkerEvent::Classified { queue_exists, exchange_exists } => {
                if let WorkerState::Classifying = self.state {
                    match classify_entity(queue_exists, exchange_exists) {
                        None => {
                            self.state = WorkerState::Failed;
                            WorkerAction::FatalEntityMissing
                        },
                        Some(t) => {
                            self.entity_type = Some(t);
                            self.state = WorkerState::Listening;
                            WorkerAction::StartListening
                        },
                    }
                } else {
                    WorkerAction::Ignore
                }
            },
            WorkerEvent::Notified { payload } => {
                if let WorkerState::Listening = self.state {
                    match self.entity_type {
                        Some(t) => {
                            let envelope = build_envelope(
                                &self.binding,
                                t,
                                payload.as_str(),
                                self.delivery_mode,
                            );
                            self.pending = Some(envelope);
                            self.state = WorkerState::Publishing;
                            WorkerAction::Publish
                        },
                        None => WorkerAction::Ignore,
                    }
                } else {
                    WorkerAction::Ignore
                }
            },
            WorkerEvent::PublishOk => {
                match self.state {
                    WorkerState::Publishing | WorkerState::Retrying => {
                        self.state = WorkerState::Listening;
                        self.pending = None;
                        WorkerAction::ContinueListening
                    },
                    _ => WorkerAction::Ignore,
                }
            },
            WorkerEvent::PublishIoError => {
                match self.state {
                    WorkerState::Publishing => {
                        self.state = WorkerState::Reconnecting;
                        WorkerAction::Reconnect
                    },
                    WorkerState::Retrying => {
                        self.state = WorkerState::Listening;
                        self.pending = None;
                        WorkerAction::ContinueListening
                    },
                    _ => WorkerAction::Ignore,
                }
            },
            WorkerEvent::PublishOtherError => {
                match self.state {
                    WorkerState::Publishing | WorkerState::Retrying => {
                        self.state = WorkerState::Listening;
                        self.pending = None;
                        WorkerAction::ContinueListening
                    },
                    _ => WorkerAction::Ignore,
                }
            },
            WorkerEvent::SessionRestored { queue_exists, exchange_exists } => {
                if let WorkerState::Reconnecting = self.state {
                    match classify_entity(queue_exists, exchange_exists) {
                        None => {
                            self.state = WorkerState::Failed;
                            WorkerAction::FatalEntityMissing
                        },
                        Some(_) => {
                            self.state = WorkerState::Retrying;
                            WorkerAction::Publish
                        },
                    }
                } else {
                    WorkerAction::Ignore
                }
            },
            WorkerEvent::StreamEnded => {
                if let WorkerState::Listening = self.state {
                    self.state = WorkerState::Stopped;
                    self.pending = None;
                    WorkerAction::CloseCleanly
                } else {
                    WorkerAction::Ignore
                }
            },
        }
    }
}

// ---------------------------------------------------------------------------
// Per-binding FIFO
// ---------------------------------------------------------------------------

/// The envelopes a listening worker publishes for a sequence of
/// notifications, each publication acknowledged before the next
/// notification is read.
pub open spec fn spec_worker_run(w: WorkerV, payloads: Seq<Seq<char>>) -> Seq<EnvelopeV>
    decreases payloads.len(),
{
    if payloads.len() == 0 {
        Seq::empty()
    } else {
        let (w1, _) = spec_worker_step(w, EventV::Notified { payload: payloads[0] });
        let (w2, _) = spec_worker_step(w1, EventV::PublishOk);
        match w1.pending {
            Some(env) => seq![env] + spec_worker_run(w2, payloads.drop_first()),
            None => spec_worker_run(w2, payloads.drop_first()),
        }
    }
}

/// Per-binding FIFO: a classified, listening worker publishes exactly one
/// envelope per notification, in notification order, and the bodies it
/// publishes are the parsed bodies of the payloads in the same order.
pub proof fn lemma_worker_fifo(w: WorkerV, payloads: Seq<Seq<char>>)
    requires
        w.state == WorkerState::Listening,
        w.entity_type is Some,
    ensures
        spec_worker_run(w, payloads).len() == payloads.len(),
        forall|i: int|
            0 <= i < payloads.len() ==> spec_worker_run(w, payloads)[i] == spec_envelope(
                w.binding,
                w.entity_type->0,
                payloads[i],
                w.delivery_mode,
            ),
        spec_worker_run(w, payloads).map_values(|e: EnvelopeV| e.body) == payloads.map_values(
            |p: Seq<char>| spec_parse_notification(p).body,
        ),
    decreases payloads.len(),
{
    let run = spec_worker_run(w, payloads);
    if payloads.len() == 0 {
        assert(run.map_values(|e: EnvelopeV| e.body) =~= payloads.map_values(
            |p: Seq<char>| spec_parse_notification(p).body,
        ));
    } else {
        let (w1, _) = spec_worker_step(w, EventV::Notified { payload: payloads[0] });
        let (w2, _) = spec_worker_step(w1, EventV::PublishOk);
        let env = spec_envelope(w.binding, w.entity_type->0, payloads[0], w.delivery_mode);
        assert(w1.pending == Some(env));
        assert(w2.state == WorkerState::Listening);
        assert(w2.entity_type == w.entity_type);
        assert(w2.binding == w.binding);
        assert(w2.delivery_mode == w.delivery_mode);
        lemma_worker_fifo(w2, payloads.drop_first());
        assert(run == seq![env] + spec_worker_run(w2, payloads.drop_first()));
        assert forall|i: int| 0 <= i < payloads.len() implies run[i] == spec_envelope(
            w.binding,
            w.entity_type->0,
            payloads[i],
            w.delivery_mode,
        ) by {
            if i > 0 {
                assert(run[i] == spec_worker_run(w2, payloads.drop_first())[i - 1]);
                assert(payloads.drop_first()[i - 1] == payloads[i]);
            }
        }
        assert(run.map_values(|e: EnvelopeV| e.body) =~= payloads.map_values(
            |p: Seq<char>| spec_parse_notification(p).body,
        ));
    }
}

// ---------------------------------------------------------------------------
// Reconnect backoff
// ---------------------------------------------------------------------------

/// The pause after a failed connection attempt that waited `secs` seconds:
/// the wait doubles from one second up to 32 seconds, then starts over.
pub open spec fn spec_next_backoff(secs: u64) -> u64 {
    if secs > 16 {
        1u64
    } else {
        (2 * secs) as u64
    }
}

/// The next pause of the reconnect schedule.
pub fn next_backoff(secs: u64) -> (r: u64)
    ensures
        r == spec_next_backoff(secs),
{
    if secs > 16 {
        1
    } else {
        2 * secs
    }
}

} // verus!
