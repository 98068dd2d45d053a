use vda_sim::config::{MqttBrokerConfig, VehicleConfig};
use vda_sim::mqtt::{
    broker_credentials, message_kind, topic_type, vda_base_topic, vda_subscription_topics,
    MessageKind, PublishSchedule,
};

fn broker(user: Option<&str>, pass: Option<&str>) -> MqttBrokerConfig {
    MqttBrokerConfig {
        host: "localhost".to_string(),
        port: "1883".to_string(),
        vda_interface: "uagv".to_string(),
        username: user.map(|s| s.to_string()),
        password: pass.map(|s| s.to_string()),
    }
}

fn vehicle() -> VehicleConfig {
    VehicleConfig {
        manufacturer: "rikeb".to_string(),
        serial_number: "s1".to_string(),
        vda_version: "v2".to_string(),
        vda_full_version: "2.0.0".to_string(),
    }
}

#[test]
fn topics_follow_the_vda_layout() {
    assert_eq!(vda_base_topic(&broker(None, None), &vehicle()), "uagv/v2/rikeb/s1");
    assert_eq!(
        vda_subscription_topics(&broker(None, None), &vehicle()),
        vec!["uagv/v2/rikeb/s1/order".to_string(), "uagv/v2/rikeb/s1/instantActions".to_string()]
    );
}

#[test]
fn credentials_need_both_parts() {
    assert_eq!(broker_credentials(&broker(Some("u"), Some("p"))), Some(("u".to_string(), "p".to_string())));
    assert_eq!(broker_credentials(&broker(Some("u"), None)), None);
    assert_eq!(broker_credentials(&broker(None, Some("p"))), None);
    assert_eq!(broker_credentials(&broker(None, None)), None);
}

#[test]
fn message_kinds() {
    assert_eq!(message_kind("order"), MessageKind::Order);
    assert_eq!(message_kind("instantActions"), MessageKind::InstantActions);
    assert_eq!(message_kind("state"), MessageKind::Unknown);
    assert_eq!(message_kind("Order"), MessageKind::Unknown);
    assert_eq!(message_kind(""), MessageKind::Unknown);
}

#[test]
fn topic_type_is_the_last_level() {
    assert_eq!(topic_type("uagv/v2/rikeb/s1/order"), "order");
    assert_eq!(topic_type("instantActions"), "instantActions");
    assert_eq!(topic_type("a/b/"), "");
    assert_eq!(message_kind(topic_type("uagv/v2/rikeb/s1/instantActions")), MessageKind::InstantActions);
}

fn due_ticks(s: &mut PublishSchedule, ticks: usize) -> Vec<usize> {
    let mut at = Vec::new();
    for i in 1..=ticks {
        if s.tick() {
            at.push(i);
        }
    }
    at
}

#[test]
fn one_hertz_goes_out_every_20_ticks() {
    let mut s = PublishSchedule::new(1);
    assert_eq!(due_ticks(&mut s, 100), vec![20, 40, 60, 80, 100]);
}

#[test]
fn ten_hertz_goes_out_every_2_ticks() {
    let mut s = PublishSchedule::new(10);
    assert_eq!(due_ticks(&mut s, 8), vec![2, 4, 6, 8]);
}

#[test]
fn twenty_hertz_and_more_publish_every_tick() {
    for f in [20, 50, 1000, 5000] {
        let mut s = PublishSchedule::new(f);
        assert_eq!(due_ticks(&mut s, 5), vec![1, 2, 3, 4, 5]);
    }
}

#[test]
fn uneven_intervals_round_up_to_whole_ticks() {
    // 1000 / 4 = 250 ms = 5 ticks; 1000 / 3 = 333 ms needs 7 ticks (350 ms).
    let mut s = PublishSchedule::new(4);
    assert_eq!(due_ticks(&mut s, 20), vec![5, 10, 15, 20]);
    let mut s = PublishSchedule::new(3);
    assert_eq!(due_ticks(&mut s, 21), vec![7, 14, 21]);
}
