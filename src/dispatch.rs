//! Per-uplink orchestration: look the device up, decode its payload, and
//! hand the measurement to each configured sink, a failure of one sink
//! keeping no other from being called.

use crate::api::{api_request, ApiRequest, SinkError};
use crate::config::{Config, SensorType};
use crate::influxdb::{measurement_write, InfluxDbConfig, WriteRequest};
use crate::payload::{decode, decode_spec, DecodeError, Measurement};
use crate::uplink::RawUplink;
use vstd::prelude::*;

verus! {

/// The time-series sink in use: InfluxDB 2 when configured, else InfluxDB 1.
pub open spec fn time_series_of<'a>(config: &'a Config) -> Option<InfluxDbConfig<'a>> {
    match &config.influxdb2 {
        Some(c) => Some(InfluxDbConfig::V2(c)),
        None => match &config.influxdb {
            Some(c) => Some(InfluxDbConfig::V1(c)),
            None => None,
        },
    }
}

/// The time-series sink in use: InfluxDB 2 when configured, else InfluxDB 1.
pub fn time_series_config<'a>(config: &'a Config) -> (r: Option<InfluxDbConfig<'a>>)
    ensures
        r == time_series_of(config),
{
    match &config.influxdb2 {
        Some(c) => Some(InfluxDbConfig::V2(c)),
        None => match &config.influxdb {
            Some(c) => Some(InfluxDbConfig::V1(c)),
            None => None,
        },
    }
}

/// A call that a sink is to receive.
#[derive(Debug, Clone)]
pub enum SinkRequest {
    /// Submit the water temperature to the measurement API.
    Api(ApiRequest),
    /// Write a line to the time-series database.
    TimeSeries(WriteRequest),
}

/// The state of the delivery of one measurement: the sink calls still to
/// make, in order, and how many of the calls made have failed.
pub struct DeliveryState {
    pub pending: Seq<SinkRequest>,
    pub failures: nat,
}

impl DeliveryState {
    /// The next call, and the state once it is handed out.
    pub open spec fn call_step(self) -> (Option<SinkRequest>, DeliveryState) {
        if self.pending.len() == 0 {
            (None, self)
        } else {
            (Some(self.pending[0]), DeliveryState { pending: self.pending.drop_first(), ..self })
        }
    }

    /// The state once the outcome of a call is recorded.
    pub open spec fn record_step(self, failed: bool) -> DeliveryState {
        DeliveryState { failures: if failed { self.failures + 1 } else { self.failures }, ..self }
    }

    /// The calls handed out when each call made meets the outcome at its
    /// place in `failed` (`true`: the sink failed).
    pub open spec fn calls_made(self, failed: Seq<bool>) -> Seq<SinkRequest>
        decreases failed.len(),
    {
        if failed.len() == 0 || self.pending.len() == 0 {
            seq![]
        } else {
            let (call, next) = self.call_step();
            seq![call.unwrap()] + next.record_step(failed[0]).calls_made(failed.drop_first())
        }
    }
}

/// The delivery of one measurement to its sinks.
#[derive(Debug)]
pub struct Delivery {
    pending: Vec<SinkRequest>,
    failures: usize,
}

impl View for Delivery {
    type V = DeliveryState;

    closed spec fn view(&self) -> DeliveryState {
        DeliveryState { pending: self.pending@, failures: self.failures as nat }
    }
}

impl Delivery {
    /// Hands out the next sink call, if any is left.
    pub fn next_call(&mut self) -> (r: Option<SinkRequest>)
        ensures
            (r, final(self)@) == old(self)@.call_step(),
    {
        if self.pending.len() == 0 {
            None
        } else {
            Some(self.pending.remove(0))
        }
    }

    /// Records the outcome of the last call; the calls still to make stay
    /// as they are, whatever it was.
    pub fn record(&mut self, outcome: &Result<(), SinkError>)
        requires
            old(self)@.failures < usize::MAX,
        ensures
            final(self)@ == old(self)@.record_step(outcome is Err),
    {
        if outcome.is_err() {
            self.failures = self.failures + 1;
        }
    }

    /// How many of the calls made have failed.
    pub fn failures(&self) -> (r: usize)
        ensures
            r == self@.failures,
    {
        self.failures
    }
}

/// Whatever each sink answers, every call of a delivery is handed out, once
/// and in order: a failing sink keeps no other sink from being called.
pub proof fn lemma_every_sink_called(d: DeliveryState, failed: Seq<bool>)
    requires
        failed.len() >= d.pending.len(),
    ensures
        d.calls_made(failed) == d.pending,
    decreases failed.len(),
{
    if failed.len() == 0 || d.pending.len() == 0 {
        assert(d.pending =~= seq![]);
    } else {
        let next = d.call_step().1.record_step(failed[0]);
        lemma_every_sink_called(next, failed.drop_first());
        assert(d.calls_made(failed) =~= d.pending);
    }
}

/// What becomes of one uplink.
#[derive(Debug)]
pub enum Dispatch {
    /// No sensor is registered under the device's EUI: the uplink is
    /// dropped, and no sink is called.
    UnknownDevice,
    /// The payload could not be decoded: the uplink is dropped, and no sink
    /// is called.
    DecodeFailed { sensor_type: SensorType, channel: u16, error: DecodeError },
    /// The measurement goes to the sinks.
    Deliver { measurement: Measurement, delivery: Delivery },
}

/// The sink calls of a decoded measurement are those that the configuration
/// asks for: the measurement API first (unless the sensor opts out), then the
/// time-series sink (when one is configured).
pub open spec fn is_delivery_of(
    d: DeliveryState,
    config: &Config,
    uplink: RawUplink,
    m: Measurement,
) -> bool {
    let sensor = config.sensors@[uplink.dev_eui@];
    let n_api: nat = if sensor.submits_to_api_spec() { 1 } else { 0 };
    let n_ts: nat = if time_series_of(config).is_some() { 1 } else { 0 };
    &&& d.failures == 0
    &&& d.pending.len() == n_api + n_ts
    &&& sensor.submits_to_api_spec() ==> (d.pending[0] matches SinkRequest::Api(a) && a.is_for(
        config.api,
        sensor.sensor_id,
        m.temperature_water,
    ))
    &&& time_series_of(config) matches Some(ts) ==> (d.pending.last() matches
        SinkRequest::TimeSeries(w) && w.is_line_for(ts, uplink.dev_eui@, sensor, uplink.meta, m))
}

/// Decides what becomes of one uplink: an unknown device is dropped, a
/// payload that does not decode is dropped, and a measurement goes to each
/// configured sink.
pub fn plan_dispatch(config: &Config, uplink: &RawUplink) -> (r: Dispatch)
    ensures
        match r {
            Dispatch::UnknownDevice => !config.sensors@.contains_key(uplink.dev_eui@),
            Dispatch::DecodeFailed { sensor_type, channel, error } => {
                &&& config.sensors@.contains_key(uplink.dev_eui@)
                &&& sensor_type == config.sensors@[uplink.dev_eui@].sensor_type
                &&& channel == uplink.frame_port
                &&& decode_spec(sensor_type, channel, uplink.payload@) == Err::<
                    Measurement,
                    DecodeError,
                >(error)
            },
            Dispatch::Deliver { measurement, delivery } => {
                &&& config.sensors@.contains_key(uplink.dev_eui@)
                &&& decode_spec(
                    config.sensors@[uplink.dev_eui@].sensor_type,
                    uplink.frame_port,
                    uplink.payload@,
                ) == Ok::<Measurement, DecodeError>(measurement)
                &&& is_delivery_of(delivery@, config, *uplink, measurement)
            },
        },
{
    let sensor = match config.sensors.get(uplink.dev_eui.as_str()) {
        Some(s) => s,
        None => {
            return Dispatch::UnknownDevice;
        },
    };
    let payload = uplink.payload.as_slice();
    let measurement = match decode(sensor.sensor_type, uplink.frame_port, payload) {
        Ok(m) => m,
        Err(error) => {
            return Dispatch::DecodeFailed {
                sensor_type: sensor.sensor_type,
                channel: uplink.frame_port,
                error,
            };
        },
    };
    let mut pending: Vec<SinkRequest> = Vec::new();
    if sensor.submits_to_api() {
        pending.push(
            SinkRequest::Api(
                api_request(&config.api, sensor.sensor_id, measurement.temperature_water),
            ),
        );
    }
    if let Some(ts) = time_series_config(config) {
        pending.push(
            SinkRequest::TimeSeries(
                measurement_write(ts, uplink.dev_eui.as_str(), &sensor, &uplink.meta, &measurement),
            ),
        );
    }
    Dispatch::Deliver { measurement, delivery: Delivery { pending, failures: 0 } }
}

} // verus!
