//! What the MQTT side of the simulator decides: which topics it subscribes to, how it logs
//! in, what an incoming topic asks for, and when state and visualization messages go out.
use vstd::prelude::*;
use crate::config::{MqttBrokerConfig, VehicleConfig};
use crate::text::chars_of;

verus! {

/// `interface/version/manufacturer/serial`, the VDA5050 topic root of a vehicle.
pub open spec fn spec_base_topic(
    interface: Seq<char>,
    version: Seq<char>,
    manufacturer: Seq<char>,
    serial: Seq<char>,
) -> Seq<char> {
    interface + "/"@ + version + "/"@ + manufacturer + "/"@ + serial
}

/// The topic root of the configured vehicle.
pub open spec fn vehicle_base_topic(broker: MqttBrokerConfig, vehicle: VehicleConfig) -> Seq<char> {
    spec_base_topic(broker.vda_interface@, vehicle.vda_version@, vehicle.manufacturer@, vehicle.serial_number@)
}

/// Each configured field stands unchanged at its place in the topic root, the four separated
/// by single `/`: the root is exactly as long as the fields and three separators.
pub proof fn lemma_base_topic_levels(
    interface: Seq<char>,
    version: Seq<char>,
    manufacturer: Seq<char>,
    serial: Seq<char>,
)
    ensures
        ({
            let t = spec_base_topic(interface, version, manufacturer, serial);
            let a = interface.len() as int;
            let b = a + 1 + version.len();
            let c = b + 1 + manufacturer.len();
            &&& t.len() == c + 1 + serial.len()
            &&& t.subrange(0, a) == interface
            &&& t[a] == '/'
            &&& t.subrange(a + 1, b) == version
            &&& t[b] == '/'
            &&& t.subrange(b + 1, c) == manufacturer
            &&& t[c] == '/'
            &&& t.subrange(c + 1, t.len() as int) == serial
        }),
{
    reveal_strlit("/");
    let t = spec_base_topic(interface, version, manufacturer, serial);
    let a = interface.len() as int;
    let b = a + 1 + version.len();
    let c = b + 1 + manufacturer.len();
    assert(t.subrange(0, a) =~= interface);
    assert(t.subrange(a + 1, b) =~= version);
    assert(t.subrange(b + 1, c) =~= manufacturer);
    assert(t.subrange(c + 1, t.len() as int) =~= serial);
}

/// The topic root `interface/version/manufacturer/serial` of the configured vehicle.
pub fn vda_base_topic(broker: &MqttBrokerConfig, vehicle: &VehicleConfig) -> (t: String)
    ensures
        t@ == vehicle_base_topic(*broker, *vehicle),
        t@ == broker.vda_interface@ + "/"@ + vehicle.vda_version@ + "/"@ + vehicle.manufacturer@ + "/"@
            + vehicle.serial_number@,
{
    let mut t = broker.vda_interface.clone();
    t.append("/");
    t.append(vehicle.vda_version.as_str());
    t.append("/");
    t.append(vehicle.manufacturer.as_str());
    t.append("/");
    t.append(vehicle.serial_number.as_str());
    t
}

/// The topics the vehicle listens on: its `order` topic, then its `instantActions` topic.
pub fn vda_subscription_topics(broker: &MqttBrokerConfig, vehicle: &VehicleConfig) -> (topics: Vec<String>)
    ensures
        topics@.len() == 2,
        topics@[0]@ == vehicle_base_topic(*broker, *vehicle) + "/order"@,
        topics@[1]@ == vehicle_base_topic(*broker, *vehicle) + "/instantActions"@,
        topics@[0]@ == broker.vda_interface@ + "/"@ + vehicle.vda_version@ + "/"@ + vehicle.manufacturer@
            + "/"@ + vehicle.serial_number@ + "/order"@,
        topics@[1]@ == broker.vda_interface@ + "/"@ + vehicle.vda_version@ + "/"@ + vehicle.manufacturer@
            + "/"@ + vehicle.serial_number@ + "/instantActions"@,
{
    let base = vda_base_topic(broker, vehicle);
    let order = base.clone().concat("/order");
    let instant_actions = base.concat("/instantActions");
    let mut topics: Vec<String> = Vec::new();
    topics.push(order);
    topics.push(instant_actions);
    topics
}

/// User name and password for the broker: both, when both are configured; else none.
pub fn broker_credentials(broker: &MqttBrokerConfig) -> (c: Option<(String, String)>)
    ensures
        match (broker.username, broker.password) {
            (Some(u), Some(p)) => c matches Some((cu, cp)) && cu@ == u@ && cp@ == p@,
            _ => c is None,
        },
{
    match (&broker.username, &broker.password) {
        (Some(u), Some(p)) => Some((u.clone(), p.clone())),
        _ => None,
    }
}

/// What a message on a topic asks the vehicle to do.
#[derive(Clone, Copy, Debug, PartialEq, Eq)]
pub enum MessageKind {
    Order,
    InstantActions,
    Unknown,
}

/// `order` asks for an order, `instantActions` for instant actions; anything else is unknown.
pub open spec fn spec_message_kind(topic_type: Seq<char>) -> MessageKind {
    if topic_type == "order"@ {
        MessageKind::Order
    } else if topic_type == "instantActions"@ {
        MessageKind::InstantActions
    } else {
        MessageKind::Unknown
    }
}

/// The kind of message a topic type (the last topic level) carries.
pub fn message_kind(topic_type: &str) -> (k: MessageKind)
    ensures
        k == spec_message_kind(topic_type@),
{
    let t = topic_type.to_owned();
    if t == "order".to_owned() {
        MessageKind::Order
    } else if t == "instantActions".to_owned() {
        MessageKind::InstantActions
    } else {
        MessageKind::Unknown
    }
}

/// Number of characters before the last topic level of `topic` (0 when there is no `/`).
pub open spec fn last_level_start(topic: Seq<char>) -> nat
    decreases topic.len(),
{
    if topic.len() == 0 {
        0
    } else if topic.last() == '/' {
        topic.len()
    } else {
        last_level_start(topic.drop_last())
    }
}

/// The last level of `topic`: what follows its last `/`, or all of it.
pub open spec fn spec_topic_type(topic: Seq<char>) -> Seq<char> {
    topic.subrange(last_level_start(topic) as int, topic.len() as int)
}

/// The last level of `topic`, which names the kind of VDA5050 message.
pub fn topic_type(topic: &str) -> (t: &str)
    ensures
        t@ == spec_topic_type(topic@),
{
    let v = chars_of(topic);
    let mut j = v.len();
    assert(v@.take(v@.len() as int) =~= v@);
    while j > 0 && v[j - 1] != '/'
        invariant
            j <= v.len(),
            last_level_start(v@) == last_level_start(v@.take(j as int)),
        decreases j,
    {
        assert(v@.take(j as int).drop_last() =~= v@.take(j - 1));
        j = j - 1;
    }
    topic.substring_char(j, v.len())
}

/// Milliseconds between two ticks of the publishing loop.
pub const PUBLISH_TICK_MILLIS: u64 = 50;

/// The interval between two messages at `frequency` Hz, in whole milliseconds.
pub open spec fn publish_interval_millis(frequency: u64) -> int {
    1000int / (frequency as int)
}

/// Ticks between two messages at `frequency` Hz: the fewest ticks that span the message
/// interval (at least one).
pub open spec fn publish_period(frequency: u64) -> int {
    let q = publish_interval_millis(frequency);
    if q == 0 {
        1
    } else {
        (q + 49) / 50
    }
}

/// A message is due once `count` ticks span the message interval at `frequency` Hz.
pub open spec fn publish_due(count: int, frequency: u64) -> bool {
    count * 50 >= publish_interval_millis(frequency)
}

/// At a positive frequency, a message is due after `count` ticks (no more than a period since
/// the last one) exactly when a full period has gone by. A period is 1 to 20 ticks, spans the
/// message interval, and one tick less would not: at 1 Hz a message goes out every 20 ticks
/// of 50 ms.
pub proof fn lemma_publish_cadence(count: int, frequency: u64)
    requires
        frequency > 0,
        1 <= count <= publish_period(frequency),
    ensures
        publish_due(count, frequency) <==> count == publish_period(frequency),
        1 <= publish_period(frequency) <= 20,
        publish_period(frequency) * 50 >= publish_interval_millis(frequency),
        publish_period(frequency) == 1 || (publish_period(frequency) - 1) * 50
            < publish_interval_millis(frequency),
{
    let q = 1000int / (frequency as int);
    assert(0 <= q <= 1000) by (nonlinear_arith)
        requires
            frequency > 0,
            q == 1000int / (frequency as int),
    ;
    if q > 0 {
        let p = (q + 49) / 50;
        assert(p * 50 >= q && (p - 1) * 50 < q && 1 <= p <= 20) by (nonlinear_arith)
            requires
                1 <= q <= 1000,
                p == (q + 49) / 50,
        ;
    }
}

/// The publishing counter of one message stream: one tick every [`PUBLISH_TICK_MILLIS`] ms,
/// a message every `publish_period(frequency)` ticks.
pub struct PublishSchedule {
    frequency: u64,
    counter: u64,
}

impl PublishSchedule {
    #[verifier::type_invariant]
    spec fn counter_in_period(self) -> bool {
        &&& self.frequency > 0
        &&& self.counter < publish_period(self.frequency)
    }

    /// Messages per second.
    pub closed spec fn frequency(self) -> u64 {
        self.frequency
    }

    /// Ticks since the last message.
    pub closed spec fn counter(self) -> u64 {
        self.counter
    }

    /// A counter at zero, for a positive frequency.
    pub fn new(frequency: u64) -> (s: Self)
        requires
            frequency > 0,
        ensures
            s.frequency() == frequency,
            s.counter() == 0,
    {
        PublishSchedule { frequency, counter: 0 }
    }

    /// One tick: the counter goes up by one; a message is due when the ticks counted span the
    /// message interval, and the counter then starts over.
    pub fn tick(&mut self) -> (due: bool)
        ensures
            old(self).frequency() > 0,
            final(self).frequency() == old(self).frequency(),
            due == publish_due(old(self).counter() + 1, old(self).frequency()),
            due <==> old(self).counter() + 1 == publish_period(old(self).frequency()),
            final(self).counter() == if due { 0 } else { old(self).counter() + 1 },
    {
        proof {
            use_type_invariant(&*self);
            lemma_publish_cadence(self.counter + 1, self.frequency);
        }
        let count = self.counter + 1;
        let due = count * PUBLISH_TICK_MILLIS >= 1000 / self.frequency;
        self.counter = if due { 0 } else { count };
        due
    }
}

} // verus!
