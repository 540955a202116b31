use ttn_relay::api::{api_outcome, api_request, SinkError};
use ttn_relay::config::{Api, Config, InfluxDb, InfluxDb2, Mqtt, Sensor, SensorRegistry, SensorType};
use ttn_relay::dispatch::{plan_dispatch, time_series_config, Dispatch, SinkRequest};
use ttn_relay::influxdb::{
    line_protocol, measurement_fields, measurement_name, measurement_tags, pairs_string,
    write_authorization, write_url, InfluxDbConfig,
};
use ttn_relay::payload::DecodeError;
use ttn_relay::reading::Reading;
use ttn_relay::uplink::{Binary64, MeasurementMeta, RawUplink, ReceivingGateway};

fn b64(x: f64) -> Binary64 {
    Binary64 { bits: x.to_bits(), text: x.to_string() }
}

fn config(influxdb: Option<InfluxDb>, influxdb2: Option<InfluxDb2>, sensors: SensorRegistry) -> Config {
    Config {
        ttn: Mqtt { host: "tcp://broker:1883".into(), user: "app".into(), pass: "secret".into() },
        api: Api { base_url: "https://api.example.com".into(), api_token: "tok".into() },
        influxdb,
        influxdb2,
        sensors,
    }
}

fn influx_v1() -> InfluxDb {
    InfluxDb {
        base_url: "https://influx.example.com".into(),
        user: "user".into(),
        pass: "pass".into(),
        db: "gfroerli".into(),
        measurement: None,
    }
}

fn influx_v2() -> InfluxDb2 {
    InfluxDb2 {
        base_url: "https://influx2.example.com".into(),
        org: "org".into(),
        api_token: "t0k".into(),
        bucket: "water".into(),
        measurement: Some("water".into()),
    }
}

fn dragino_sensor(send_to_api: Option<bool>) -> Sensor {
    Sensor { sensor_type: SensorType::Dragino, sensor_id: 7, send_to_api }
}

fn meta() -> MeasurementMeta {
    MeasurementMeta {
        airtime_ms: 41,
        spreading_factor: Some(7),
        bandwidth: Some(125000),
        receiving_gateways: vec![
            ReceivingGateway { rssi: b64(-80.0), snr: Some(b64(7.25)) },
            ReceivingGateway { rssi: b64(-75.5), snr: None },
        ],
    }
}

fn dragino_uplink(dev_eui: &str) -> RawUplink {
    RawUplink {
        dev_eui: dev_eui.into(),
        frame_port: 1,
        payload: vec![0x0b, 0x45, 0x01, 0x05, 0, 0, 0, 0, 0, 0, 0],
        meta: meta(),
    }
}

fn registry(dev_eui: &str, sensor: Sensor) -> SensorRegistry {
    let mut r = SensorRegistry::new();
    r.insert(dev_eui.into(), sensor);
    r
}

const EXPECTED_LINE: &str = "temperature,bw=125000,dev_eui=0011,sensor_id=7,sensor_type=dragino,sf=7 \
airtime_ms=41,max_rssi=-75.5,max_snr=7.25,receiving_gateway_count=2,sf=7,voltage=2.885,water_temp=26.10";

#[test]
fn unknown_device_calls_no_sink() {
    let cfg = config(Some(influx_v1()), None, registry("0011", dragino_sensor(None)));
    assert!(matches!(plan_dispatch(&cfg, &dragino_uplink("0012")), Dispatch::UnknownDevice));
    // Matching is exact, case included.
    let cfg = config(Some(influx_v1()), None, registry("00aa", dragino_sensor(None)));
    assert!(matches!(plan_dispatch(&cfg, &dragino_uplink("00AA")), Dispatch::UnknownDevice));
}

#[test]
fn decode_failure_calls_no_sink() {
    let cfg = config(Some(influx_v1()), None, registry("0011", dragino_sensor(None)));
    let mut uplink = dragino_uplink("0011");
    uplink.payload = vec![1, 2, 3];
    match plan_dispatch(&cfg, &uplink) {
        Dispatch::DecodeFailed { sensor_type, channel, error } => {
            assert_eq!(sensor_type, SensorType::Dragino);
            assert_eq!(channel, 1);
            assert_eq!(error, DecodeError::PayloadLengthMismatch { expected: 11, actual: 3 });
        }
        other => panic!("unexpected {:?}", other),
    }
}

#[test]
fn both_sinks_are_called_in_order() {
    let cfg = config(Some(influx_v1()), None, registry("0011", dragino_sensor(None)));
    let Dispatch::Deliver { measurement, mut delivery } = plan_dispatch(&cfg, &dragino_uplink("0011")) else {
        panic!("expected a delivery");
    };
    assert_eq!(measurement.temperature_water, Reading::Tenths(261));
    match delivery.next_call() {
        Some(SinkRequest::Api(a)) => {
            assert_eq!(a.url, "https://api.example.com/measurements");
            assert_eq!(a.authorization, "Bearer tok");
            assert_eq!(a.sensor_id, 7);
            assert_eq!(a.temperature, Reading::Tenths(261));
        }
        other => panic!("unexpected {:?}", other),
    }
    delivery.record(&Ok(()));
    match delivery.next_call() {
        Some(SinkRequest::TimeSeries(w)) => {
            assert_eq!(w.url, "https://influx.example.com/write?db=gfroerli");
            assert_eq!(w.authorization, "Basic dXNlcjpwYXNz");
            assert_eq!(w.body, EXPECTED_LINE);
        }
        other => panic!("unexpected {:?}", other),
    }
    delivery.record(&Ok(()));
    assert!(delivery.next_call().is_none());
    assert_eq!(delivery.failures(), 0);
}

#[test]
fn api_failure_does_not_keep_time_series_from_being_called() {
    let cfg = config(Some(influx_v1()), None, registry("0011", dragino_sensor(None)));
    let Dispatch::Deliver { mut delivery, .. } = plan_dispatch(&cfg, &dragino_uplink("0011")) else {
        panic!("expected a delivery");
    };
    assert!(matches!(delivery.next_call(), Some(SinkRequest::Api(_))));
    delivery.record(&api_outcome(500, "Internal Server Error".into()));
    assert!(matches!(delivery.next_call(), Some(SinkRequest::TimeSeries(_))));
    delivery.record(&Err(SinkError::Transport { message: "timeout".into() }));
    assert!(delivery.next_call().is_none());
    assert_eq!(delivery.failures(), 2);
}

#[test]
fn time_series_failure_does_not_affect_the_next_uplink() {
    let cfg = config(Some(influx_v1()), None, registry("0011", dragino_sensor(None)));
    for _ in 0..2 {
        let Dispatch::Deliver { mut delivery, .. } = plan_dispatch(&cfg, &dragino_uplink("0011")) else {
            panic!("expected a delivery");
        };
        assert!(matches!(delivery.next_call(), Some(SinkRequest::Api(_))));
        delivery.record(&Ok(()));
        assert!(matches!(delivery.next_call(), Some(SinkRequest::TimeSeries(_))));
        delivery.record(&api_outcome(503, "Service Unavailable".into()));
        assert_eq!(delivery.failures(), 1);
    }
}

#[test]
fn sensor_may_opt_out_of_the_api() {
    let cfg = config(Some(influx_v1()), None, registry("0011", dragino_sensor(Some(false))));
    let Dispatch::Deliver { mut delivery, .. } = plan_dispatch(&cfg, &dragino_uplink("0011")) else {
        panic!("expected a delivery");
    };
    assert!(matches!(delivery.next_call(), Some(SinkRequest::TimeSeries(_))));
    assert!(delivery.next_call().is_none());
}

#[test]
fn without_time_series_only_the_api_is_called() {
    let cfg = config(None, None, registry("0011", dragino_sensor(Some(true))));
    let Dispatch::Deliver { mut delivery, .. } = plan_dispatch(&cfg, &dragino_uplink("0011")) else {
        panic!("expected a delivery");
    };
    assert!(matches!(delivery.next_call(), Some(SinkRequest::Api(_))));
    assert!(delivery.next_call().is_none());
}

#[test]
fn influxdb2_takes_precedence() {
    let cfg = config(Some(influx_v1()), Some(influx_v2()), SensorRegistry::new());
    let ts = time_series_config(&cfg).unwrap();
    assert!(matches!(ts, InfluxDbConfig::V2(_)));
    assert_eq!(write_url(ts), "https://influx2.example.com/api/v2/write?org=org&bucket=water");
    assert_eq!(write_authorization(ts), "Token t0k");
    assert_eq!(measurement_name(ts), "water");
    let cfg = config(Some(influx_v1()), None, SensorRegistry::new());
    let ts = time_series_config(&cfg).unwrap();
    assert_eq!(measurement_name(ts), "temperature");
    assert!(time_series_config(&config(None, None, SensorRegistry::new())).is_none());
}

#[test]
fn basic_credentials_are_base64_encoded() {
    let mut v1 = influx_v1();
    v1.user = "admin".into();
    v1.pass = "hunter2!".into();
    assert_eq!(write_authorization(InfluxDbConfig::V1(&v1)), "Basic YWRtaW46aHVudGVyMiE=");
}

#[test]
fn line_protocol_is_stable_across_calls() {
    let sensor = dragino_sensor(None);
    let m = ttn_relay::payload::parse_payload_dragino(&[0x0b, 0x45, 0x01, 0x05, 0, 0, 0, 0, 0, 0, 0]).unwrap();
    let first = line_protocol(
        "temperature",
        &measurement_tags("0011", &sensor, &meta()),
        &measurement_fields(&m, &meta()),
    );
    let second = line_protocol(
        "temperature",
        &measurement_tags("0011", &sensor, &meta()),
        &measurement_fields(&m, &meta()),
    );
    assert_eq!(first, second);
    assert_eq!(first, EXPECTED_LINE);
}

#[test]
fn tags_without_lora_data_rate() {
    let mut meta = meta();
    meta.spreading_factor = None;
    meta.bandwidth = None;
    let tags = measurement_tags("0011", &Sensor { sensor_type: SensorType::Gfroerli, sensor_id: 3, send_to_api: None }, &meta);
    assert_eq!(pairs_string(&tags), "dev_eui=0011,sensor_id=3,sensor_type=gfroerli");
}

#[test]
fn gfroerli_fields_round_trip_within_precision() {
    let payload = [113, 61, 82, 65, 246, 40, 12, 65, 51, 51, 150, 66, 164, 112, 77, 64];
    let m = ttn_relay::payload::parse_payload_gfroerli_v1(&payload).unwrap();
    let mut meta = meta();
    meta.receiving_gateways = vec![];
    meta.spreading_factor = None;
    let fields = pairs_string(&measurement_fields(&m, &meta));
    assert_eq!(
        fields,
        "airtime_ms=41,enclosure_humi=75.10,enclosure_temp=8.76,receiving_gateway_count=0,voltage=3.210,water_temp=13.14"
    );
    for entry in fields.split(',') {
        let (key, text) = entry.split_once('=').unwrap();
        let parsed: f64 = text.parse().unwrap();
        let original = match key {
            "water_temp" => 13.14f32 as f64,
            "enclosure_temp" => 8.76f32 as f64,
            "enclosure_humi" => 75.1f32 as f64,
            "voltage" => 3.21,
            "airtime_ms" => 41.0,
            "receiving_gateway_count" => 0.0,
            _ => panic!("unexpected key {}", key),
        };
        assert!((parsed - original).abs() <= 0.005 + 1e-9, "{} {}", key, text);
    }
}

#[test]
fn max_rssi_and_snr_follow_total_order() {
    let meta = MeasurementMeta {
        airtime_ms: 0,
        spreading_factor: None,
        bandwidth: None,
        receiving_gateways: vec![
            ReceivingGateway { rssi: b64(-120.0), snr: None },
            ReceivingGateway { rssi: b64(-3.5), snr: Some(b64(-2.0)) },
            ReceivingGateway { rssi: b64(-90.0), snr: Some(b64(-7.0)) },
        ],
    };
    assert_eq!(meta.max_rssi().unwrap().bits, (-3.5f64).to_bits());
    assert_eq!(meta.max_snr().unwrap().bits, (-2.0f64).to_bits());
    let empty = MeasurementMeta { receiving_gateways: vec![], ..meta };
    assert!(empty.max_rssi().is_none());
    assert!(empty.max_snr().is_none());
}

#[test]
fn api_request_and_outcome() {
    let api = Api { base_url: "http://localhost:8000".into(), api_token: "abc".into() };
    let req = api_request(&api, 42, Reading::Tenths(-5));
    assert_eq!(req.url, "http://localhost:8000/measurements");
    assert_eq!(req.authorization, "Bearer abc");
    assert_eq!(req.sensor_id, 42);
    assert!(api_outcome(201, "Created".into()).is_ok());
    match api_outcome(500, "Internal Server Error".into()) {
        Err(SinkError::Status { status, reason }) => {
            assert_eq!(status, 500);
            assert_eq!(reason, "Internal Server Error");
        }
        other => panic!("unexpected {:?}", other),
    }
    assert!(api_outcome(200, "OK".into()).is_err());
}

#[test]
fn registry_replaces_and_looks_up_exactly() {
    let mut r = SensorRegistry::new();
    assert_eq!(r.len(), 0);
    r.insert("a".into(), dragino_sensor(None));
    r.insert("b".into(), Sensor { sensor_type: SensorType::Gfroerli, sensor_id: 9, send_to_api: Some(false) });
    r.insert("a".into(), Sensor { sensor_type: SensorType::Gfroerli, sensor_id: 1, send_to_api: None });
    assert_eq!(r.len(), 2);
    assert_eq!(r.get("a").unwrap().sensor_id, 1);
    assert_eq!(r.get("b").unwrap().sensor_id, 9);
    assert!(!r.get("b").unwrap().submits_to_api());
    assert!(r.get("a").unwrap().submits_to_api());
    assert!(r.get("A").is_none());
}

#[test]
fn sensor_type_names() {
    assert_eq!(SensorType::Gfroerli.to_string(), "gfroerli");
    assert_eq!(SensorType::Dragino.to_string(), "dragino");
}
