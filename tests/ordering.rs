use ttn_relay::config::InfluxDb;
use ttn_relay::influxdb::{prepare_write, InfluxDbConfig};
use ttn_relay::ordered::{key_less, sort_pairs};

fn pair(k: &str, v: &str) -> (String, String) {
    (k.to_string(), v.to_string())
}

fn influx() -> InfluxDb {
    InfluxDb {
        base_url: "http://db".into(),
        user: "u".into(),
        pass: "p".into(),
        db: "d".into(),
        measurement: None,
    }
}

#[test]
fn write_body_does_not_depend_on_pair_order() {
    let c = influx();
    let config = InfluxDbConfig::V1(&c);
    let first = prepare_write(
        config,
        &vec![pair("a", "1"), pair("b", "2")],
        &vec![pair("x", "1"), pair("y", "2")],
    );
    let second = prepare_write(
        config,
        &vec![pair("b", "2"), pair("a", "1")],
        &vec![pair("y", "2"), pair("x", "1")],
    );
    assert_eq!(first.body, second.body);
    assert_eq!(first.body, "temperature,a=1,b=2 x=1,y=2");
}

#[test]
fn later_pair_replaces_earlier_with_same_key() {
    let sorted = sort_pairs(&vec![pair("b", "1"), pair("a", "2"), pair("b", "3")]);
    assert_eq!(sorted, vec![pair("a", "2"), pair("b", "3")]);
    let c = influx();
    let w = prepare_write(
        InfluxDbConfig::V1(&c),
        &vec![pair("t", "old"), pair("t", "new")],
        &vec![pair("f", "1")],
    );
    assert_eq!(w.body, "temperature,t=new f=1");
}

#[test]
fn keys_compare_lexicographically() {
    assert!(key_less("sensor_id", "sensor_type"));
    assert!(!key_less("sf", "sensor_type"));
    assert!(key_less("", "a"));
    assert!(!key_less("a", "a"));
    assert!(key_less("ab", "abc"));
    assert!(!key_less("abc", "ab"));
    assert!(key_less("enclosure_humi", "enclosure_temp"));
}
