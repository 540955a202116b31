//! The time-series sink: tags and fields of a measurement, their line
//! protocol text, and the write request of each InfluxDB protocol version.

use crate::config::{InfluxDb, InfluxDb2, Sensor};
use crate::decimal::{
    decimal_text, fixed_text, pow10, push_decimal, push_fixed_digits,
    round_half_even,
};
use crate::ordered::{
    is_sorted_form, key_lt, lemma_key_lt_transitive, lemma_sorted_pairs_of_sorted, sort_pairs,
    sorted_pairs,
    strictly_sorted, Pairs,
};
use crate::payload::Measurement;
use crate::reading::{push_reading_fixed, Reading};
use crate::uplink::{Binary64, MeasurementMeta};
use vstd::prelude::*;
use vstd::utf8::encode_utf8;

verus! {

/// The settings of the one time-series sink in use.
#[derive(Debug, Clone, Copy)]
pub enum InfluxDbConfig<'a> {
    /// InfluxDB 1.
    V1(&'a InfluxDb),
    /// InfluxDB 2.
    V2(&'a InfluxDb2),
}

/// The HTTP request that writes one line to the time-series sink.
#[derive(Debug, Clone)]
pub struct WriteRequest {
    /// Target URL.
    pub url: String,
    /// Value of the `authorization` header.
    pub authorization: String,
    /// Line protocol body.
    pub body: String,
}

impl WriteRequest {
    /// This is the request that writes the line of measurement `m` of the
    /// uplink of `dev_eui` with metadata `meta` to the sink of `config`.
    pub open spec fn is_line_for(
        self,
        config: InfluxDbConfig,
        dev_eui: Seq<char>,
        sensor: Sensor,
        meta: MeasurementMeta,
        m: Measurement,
    ) -> bool {
        &&& self.url@ == write_url_spec(config)
        &&& self.authorization@ == write_authorization_spec(config)
        &&& self.body@ == line_text(
            measurement_name_spec(config),
            sorted_pairs(tags_spec(dev_eui, sensor, meta)),
            sorted_pairs(fields_spec(m, meta)),
        )
    }
}

/// The standard base64 text, with padding, of `bytes`.
pub uninterp spec fn base64_of(bytes: Seq<u8>) -> Seq<char>;

/// Relies on `base64::encode` (standard alphabet, with padding) for the
/// credentials of a basic authorization header. It panics only where the
/// encoded length overflows `usize`, which no `str` in memory can reach.
#[verifier::external_body]
fn base64_encode(s: &str) -> (r: String)
    ensures
        r@ == base64_of(encode_utf8(s@)),
{
    base64::encode(s)
}

/// A list of keys and values with the views of its strings.
pub open spec fn pairs_view(v: Seq<(String, String)>) -> Seq<(Seq<char>, Seq<char>)> {
    v.map_values(|p: (String, String)| (p.0@, p.1@))
}

/// `s` with `(key, value)` added at its end when there is a value.
pub open spec fn push_opt(
    s: Seq<(Seq<char>, Seq<char>)>,
    key: Seq<char>,
    value: Option<Seq<char>>,
) -> Seq<(Seq<char>, Seq<char>)> {
    match value {
        Some(v) => s.push((key, v)),
        None => s,
    }
}

/// The decimal text of an optional integer.
pub open spec fn opt_decimal(n: Option<nat>) -> Option<Seq<char>> {
    match n {
        Some(k) => Some(decimal_text(k)),
        None => None,
    }
}

/// The two-decimal text of an optional reading.
pub open spec fn opt_fixed2(r: Option<Reading>) -> Option<Seq<char>> {
    match r {
        Some(x) => Some(x.fixed_text(2)),
        None => None,
    }
}

/// The text of an optional gateway value.
pub open spec fn opt_b64_text(v: Option<Binary64>) -> Option<Seq<char>> {
    match v {
        Some(x) => Some(x.text@),
        None => None,
    }
}

/// The optional spreading factor as an optional integer.
pub open spec fn opt_sf(meta: MeasurementMeta) -> Option<nat> {
    match meta.spreading_factor {
        Some(v) => Some(v as nat),
        None => None,
    }
}

/// The optional bandwidth as an optional integer.
pub open spec fn opt_bw(meta: MeasurementMeta) -> Option<nat> {
    match meta.bandwidth {
        Some(v) => Some(v as nat),
        None => None,
    }
}

/// The tags of an uplink, by key in lexicographic order: `bw` and `sf` only
/// when the uplink used a LoRa data rate.
pub open spec fn tags_spec(dev_eui: Seq<char>, sensor: Sensor, meta: MeasurementMeta) -> Seq<
    (Seq<char>, Seq<char>),
> {
    let s = push_opt(seq![], "bw"@, opt_decimal(opt_bw(meta)));
    let s = s.push(("dev_eui"@, dev_eui));
    let s = s.push(("sensor_id"@, decimal_text(sensor.sensor_id as nat)));
    let s = s.push(("sensor_type"@, sensor.sensor_type.name()));
    push_opt(s, "sf"@, opt_decimal(opt_sf(meta)))
}

/// The text of a battery voltage in volts with three decimals.
pub open spec fn voltage_text(millivolts: u16) -> Seq<char> {
    fixed_text(false, millivolts as nat, 1000, 3)
}

/// The fields of a measurement and its uplink, by key in lexicographic
/// order. Temperatures and humidity have two decimals; `max_rssi` and
/// `max_snr` are the greatest values that the gateways reported, present only
/// when one did.
pub open spec fn fields_spec(m: Measurement, meta: MeasurementMeta) -> Seq<(Seq<char>, Seq<char>)> {
    let s = seq![("airtime_ms"@, decimal_text(meta.airtime_ms as nat))];
    let s = push_opt(s, "enclosure_humi"@, opt_fixed2(m.humidity_enclosure));
    let s = push_opt(s, "enclosure_temp"@, opt_fixed2(m.temperature_enclosure));
    let s = push_opt(s, "max_rssi"@, opt_b64_text(meta.max_rssi_spec()));
    let s = push_opt(s, "max_snr"@, opt_b64_text(meta.max_snr_spec()));
    let s = s.push(
        ("receiving_gateway_count"@, decimal_text(meta.receiving_gateways@.len())),
    );
    let s = push_opt(s, "sf"@, opt_decimal(opt_sf(meta)));
    let s = s.push(("voltage"@, voltage_text(m.battery_millivolts)));
    s.push(("water_temp"@, m.temperature_water.fixed_text(2)))
}

/// The text of one `key=value` entry.
pub open spec fn entry_text(p: (Seq<char>, Seq<char>)) -> Seq<char> {
    p.0 + seq!['='] + p.1
}

/// The entries of `ps` joined by commas.
pub open spec fn pairs_text(ps: Seq<(Seq<char>, Seq<char>)>) -> Seq<char>
    decreases ps.len(),
{
    if ps.len() == 0 {
        seq![]
    } else if ps.len() == 1 {
        entry_text(ps[0])
    } else {
        pairs_text(ps.drop_last()) + seq![','] + entry_text(ps.last())
    }
}

/// One line of line protocol: `name,tags fields`.
pub open spec fn line_text(
    name: Seq<char>,
    tags: Seq<(Seq<char>, Seq<char>)>,
    fields: Seq<(Seq<char>, Seq<char>)>,
) -> Seq<char> {
    name + seq![','] + pairs_text(tags) + seq![' '] + pairs_text(fields)
}

/// The measurement name of a configuration.
pub open spec fn measurement_name_spec(config: InfluxDbConfig) -> Seq<char> {
    let m = match config {
        InfluxDbConfig::V1(c) => c.measurement,
        InfluxDbConfig::V2(c) => c.measurement,
    };
    match m {
        Some(name) => name@,
        None => "temperature"@,
    }
}

/// The write URL of a configuration.
pub open spec fn write_url_spec(config: InfluxDbConfig) -> Seq<char> {
    match config {
        InfluxDbConfig::V1(c) => c.base_url@ + "/write?db="@ + c.db@,
        InfluxDbConfig::V2(c) => c.base_url@ + "/api/v2/write?org="@ + c.org@ + "&bucket="@
            + c.bucket@,
    }
}

/// The `authorization` header of a configuration: basic credentials for
/// InfluxDB 1, a token for InfluxDB 2.
pub open spec fn write_authorization_spec(config: InfluxDbConfig) -> Seq<char> {
    match config {
        InfluxDbConfig::V1(c) => "Basic "@ + base64_of(encode_utf8(c.user@ + ":"@ + c.pass@)),
        InfluxDbConfig::V2(c) => "Token "@ + c.api_token@,
    }
}

/// Appends `(key, value)` to a list.
fn push_entry(v: &mut Vec<(String, String)>, key: &str, value: String)
    ensures
        pairs_view(final(v)@) == pairs_view(old(v)@).push((key@, value@)),
{
    v.push((String::from_str(key), value));
    assert(pairs_view(v@) =~= pairs_view(old(v)@).push((key@, value@)));
}

/// Appends `(key, value)` to a list when there is a value.
fn push_opt_entry(v: &mut Vec<(String, String)>, key: &str, value: Option<String>)
    ensures
        pairs_view(final(v)@) == push_opt(
            pairs_view(old(v)@),
            key@,
            match value {
                Some(s) => Some(s@),
                None => None,
            },
        ),
{
    if let Some(s) = value {
        push_entry(v, key, s);
    }
}

/// The decimal text of an integer.
pub fn decimal_string(n: u64) -> (r: String)
    ensures
        r@ == decimal_text(n as nat),
{
    let mut s = String::new();
    push_decimal(&mut s, n as u128);
    assert(s@ =~= decimal_text(n as nat));
    s
}

/// The decimal text of an optional integer.
fn opt_decimal_string(n: Option<u64>) -> (r: Option<String>)
    ensures
        match r {
            Some(s) => n.is_some() && s@ == decimal_text(n.unwrap() as nat),
            None => n.is_none(),
        },
{
    match n {
        Some(k) => Some(decimal_string(k)),
        None => None,
    }
}

/// The text of a reading with two decimals.
pub fn reading_string(r: Reading) -> (s: String)
    ensures
        s@ == r.fixed_text(2),
{
    let mut s = String::new();
    push_reading_fixed(&mut s, r, 2);
    assert(s@ =~= r.fixed_text(2));
    s
}

/// The text of an optional reading with two decimals.
fn opt_reading_string(r: Option<Reading>) -> (s: Option<String>)
    ensures
        match s {
            Some(t) => Some(t@) == opt_fixed2(r),
            None => r.is_none(),
        },
{
    match r {
        Some(x) => Some(reading_string(x)),
        None => None,
    }
}

/// The text of a battery voltage in volts with three decimals.
pub fn voltage_string(millivolts: u16) -> (r: String)
    ensures
        r@ == voltage_text(millivolts),
{
    let mut s = String::new();
    push_fixed_digits(&mut s, false, millivolts as u128, 3);
    proof {
        let x = millivolts as int;
        vstd::arithmetic::div_mod::lemma_div_by_multiple(x, 1000);
        vstd::arithmetic::div_mod::lemma_mod_multiples_basic(x, 1000);
        reveal_with_fuel(pow10, 4);
        assert(round_half_even((x * 1000) as nat, 1000) == x);
        assert(s@ =~= voltage_text(millivolts));
    }
    s
}

/// The tags of an uplink, by key in lexicographic order.
pub fn measurement_tags(dev_eui: &str, sensor: &Sensor, meta: &MeasurementMeta) -> (r: Vec<
    (String, String),
>)
    ensures
        pairs_view(r@) == tags_spec(dev_eui@, *sensor, *meta),
{
    let mut v: Vec<(String, String)> = Vec::new();
    assert(pairs_view(v@) =~= seq![]);
    let bw = match meta.bandwidth {
        Some(b) => Some(b as u64),
        None => None,
    };
    push_opt_entry(&mut v, "bw", opt_decimal_string(bw));
    push_entry(&mut v, "dev_eui", String::from_str(dev_eui));
    push_entry(&mut v, "sensor_id", decimal_string(sensor.sensor_id as u64));
    push_entry(&mut v, "sensor_type", sensor.sensor_type.to_string());
    let sf = match meta.spreading_factor {
        Some(f) => Some(f as u64),
        None => None,
    };
    push_opt_entry(&mut v, "sf", opt_decimal_string(sf));
    v
}

/// The fields of a measurement and its uplink, by key in lexicographic
/// order.
pub fn measurement_fields(measurement: &Measurement, meta: &MeasurementMeta) -> (r: Vec<
    (String, String),
>)
    ensures
        pairs_view(r@) == fields_spec(*measurement, *meta),
{
    let mut v: Vec<(String, String)> = Vec::new();
    assert(pairs_view(v@) =~= seq![]);
    push_entry(&mut v, "airtime_ms", decimal_string(meta.airtime_ms as u64));
    push_opt_entry(&mut v, "enclosure_humi", opt_reading_string(measurement.humidity_enclosure));
    push_opt_entry(&mut v, "enclosure_temp", opt_reading_string(measurement.temperature_enclosure));
    let rssi = match meta.max_rssi() {
        Some(x) => Some(x.text),
        None => None,
    };
    push_opt_entry(&mut v, "max_rssi", rssi);
    let snr = match meta.max_snr() {
        Some(x) => Some(x.text),
        None => None,
    };
    push_opt_entry(&mut v, "max_snr", snr);
    push_entry(
        &mut v,
        "receiving_gateway_count",
        decimal_string(meta.receiving_gateways.len() as u64),
    );
    let sf = match meta.spreading_factor {
        Some(f) => Some(f as u64),
        None => None,
    };
    push_opt_entry(&mut v, "sf", opt_decimal_string(sf));
    push_entry(&mut v, "voltage", voltage_string(measurement.battery_millivolts));
    push_entry(&mut v, "water_temp", reading_string(measurement.temperature_water));
    v
}

/// Appends the entries of a list, joined by commas, to `s`.
fn push_pairs(s: &mut String, pairs: &Vec<(String, String)>)
    ensures
        final(s)@ == old(s)@ + pairs_text(pairs_view(pairs@)),
{
    let mut i: usize = 0;
    proof {
        reveal_strlit(",");
        reveal_strlit("=");
        assert(pairs_view(pairs@).take(0) =~= seq![]);
        assert(s@ =~= old(s)@ + pairs_text(pairs_view(pairs@).take(0)));
    }
    while i < pairs.len()
        invariant
            i <= pairs@.len(),
            s@ == old(s)@ + pairs_text(pairs_view(pairs@).take(i as int)),
        decreases pairs@.len() - i,
    {
        proof {
            reveal_strlit(",");
            reveal_strlit("=");
        }
        let ghost before = s@;
        if i > 0 {
            s.append(",");
        }
        let ghost mid = s@;
        s.append(pairs[i].0.as_str());
        s.append("=");
        s.append(pairs[i].1.as_str());
        proof {
            let ps = pairs_view(pairs@);
            let next = ps.take(i as int + 1);
            assert(next.drop_last() =~= ps.take(i as int));
            assert(next.last() == ps[i as int]);
            assert(ps[i as int] == (pairs@[i as int].0@, pairs@[i as int].1@));
            let e = entry_text(ps[i as int]);
            assert(s@ =~= mid + e);
            if i == 0 {
                assert(next[0] == ps[0]);
                assert(pairs_text(ps.take(0)) =~= seq![]);
                assert(next.len() == 1);
                assert(pairs_text(next) == e);
                assert(s@ =~= old(s)@ + pairs_text(next));
            } else {
                assert(mid =~= before + seq![',']);
                assert(pairs_text(next) == pairs_text(ps.take(i as int)) + seq![','] + e);
                assert(s@ =~= old(s)@ + pairs_text(next));
            }
        }
        i = i + 1;
    }
    proof {
        assert(pairs_view(pairs@).take(pairs@.len() as int) =~= pairs_view(pairs@));
    }
}

/// The entries of a list joined by commas.
pub fn pairs_string(pairs: &Vec<(String, String)>) -> (r: String)
    ensures
        r@ == pairs_text(pairs_view(pairs@)),
{
    let mut s = String::new();
    push_pairs(&mut s, pairs);
    assert(s@ =~= pairs_text(pairs_view(pairs@)));
    s
}

/// One line of line protocol: `name,tags fields`.
pub fn line_protocol(
    name: &str,
    tags: &Vec<(String, String)>,
    fields: &Vec<(String, String)>,
) -> (r: String)
    ensures
        r@ == line_text(name@, pairs_view(tags@), pairs_view(fields@)),
{
    let mut s = String::from_str(name);
    s.append(",");
    push_pairs(&mut s, tags);
    s.append(" ");
    push_pairs(&mut s, fields);
    proof {
        reveal_strlit(",");
        reveal_strlit(" ");
        assert(s@ =~= line_text(name@, pairs_view(tags@), pairs_view(fields@)));
    }
    s
}

/// The measurement name of a configuration: the configured one, else
/// `temperature`.
pub fn measurement_name(config: InfluxDbConfig) -> (r: String)
    ensures
        r@ == measurement_name_spec(config),
{
    let m = match config {
        InfluxDbConfig::V1(c) => &c.measurement,
        InfluxDbConfig::V2(c) => &c.measurement,
    };
    match m {
        Some(name) => name.clone(),
        None => String::from_str("temperature"),
    }
}

/// The write URL of a configuration.
pub fn write_url(config: InfluxDbConfig) -> (r: String)
    ensures
        r@ == write_url_spec(config),
{
    match config {
        InfluxDbConfig::V1(c) => {
            let mut s = c.base_url.clone();
            s.append("/write?db=");
            s.append(c.db.as_str());
            s
        },
        InfluxDbConfig::V2(c) => {
            let mut s = c.base_url.clone();
            s.append("/api/v2/write?org=");
            s.append(c.org.as_str());
            s.append("&bucket=");
            s.append(c.bucket.as_str());
            s
        },
    }
}

/// The `authorization` header of a configuration.
pub fn write_authorization(config: InfluxDbConfig) -> (r: String)
    ensures
        r@ == write_authorization_spec(config),
{
    match config {
        InfluxDbConfig::V1(c) => {
            let mut credentials = c.user.clone();
            credentials.append(":");
            credentials.append(c.pass.as_str());
            let mut s = String::from_str("Basic ");
            s.append(base64_encode(credentials.as_str()).as_str());
            s
        },
        InfluxDbConfig::V2(c) => {
            let mut s = String::from_str("Token ");
            s.append(c.api_token.as_str());
            s
        },
    }
}

/// The request that writes one line of tags and fields to the time-series
/// sink. Tags and fields are written in increasing order of keys, a later
/// pair replacing an earlier one with the same key: the line depends on the
/// pairs alone, not on the order in which the lists hold them.
pub fn prepare_write(
    config: InfluxDbConfig,
    tags: &Vec<(String, String)>,
    fields: &Vec<(String, String)>,
) -> (r: WriteRequest)
    ensures
        r.url@ == write_url_spec(config),
        r.authorization@ == write_authorization_spec(config),
        r.body@ == line_text(
            measurement_name_spec(config),
            sorted_pairs(pairs_view(tags@)),
            sorted_pairs(pairs_view(fields@)),
        ),
        is_sorted_form(sorted_pairs(pairs_view(tags@)), pairs_view(tags@)),
        is_sorted_form(sorted_pairs(pairs_view(fields@)), pairs_view(fields@)),
{
    let name = measurement_name(config);
    let tags = sort_pairs(tags);
    let fields = sort_pairs(fields);
    WriteRequest {
        url: write_url(config),
        authorization: write_authorization(config),
        body: line_protocol(name.as_str(), &tags, &fields),
    }
}

/// The request that writes the line of one measurement and its uplink to
/// the time-series sink.
pub fn measurement_write(
    config: InfluxDbConfig,
    dev_eui: &str,
    sensor: &Sensor,
    meta: &MeasurementMeta,
    measurement: &Measurement,
) -> (r: WriteRequest)
    ensures
        r.is_line_for(config, dev_eui@, *sensor, *meta, *measurement),
{
    let tags = measurement_tags(dev_eui, sensor, meta);
    let fields = measurement_fields(measurement, meta);
    prepare_write(config, &tags, &fields)
}

/// Two writes of the same measurement of the same uplink to the same sink
/// carry the same line, character for character: tags and fields always
/// come in the same (lexicographic) order of keys.
pub proof fn lemma_line_is_stable(
    first: WriteRequest,
    second: WriteRequest,
    config: InfluxDbConfig,
    dev_eui: Seq<char>,
    sensor: Sensor,
    meta: MeasurementMeta,
    m: Measurement,
)
    requires
        first.is_line_for(config, dev_eui, sensor, meta, m),
        second.is_line_for(config, dev_eui, sensor, meta, m),
    ensures
        first.body@ == second.body@,
        first.url@ == second.url@,
        first.authorization@ == second.authorization@,
{
}

/// All keys of `s` are `bound` or come before it.
pub open spec fn keys_up_to(s: Pairs, bound: Seq<char>) -> bool {
    forall|i: int| 0 <= i < s.len() ==> #[trigger] s[i].0 == bound || key_lt(s[i].0, bound)
}

proof fn lemma_push_opt_sorted(s: Pairs, prev: Seq<char>, key: Seq<char>, value: Option<Seq<char>>)
    requires
        strictly_sorted(s),
        keys_up_to(s, prev),
        key_lt(prev, key),
    ensures
        strictly_sorted(push_opt(s, key, value)),
        keys_up_to(push_opt(s, key, value), key),
{
    assert forall|i: int| 0 <= i < s.len() implies key_lt(#[trigger] s[i].0, key) by {
        if s[i].0 != prev {
            lemma_key_lt_transitive(s[i].0, prev, key);
        }
    }
    if let Some(v) = value {
        let r = s.push((key, v));
        assert forall|p: int, q: int| 0 <= p < q < r.len() implies key_lt(
            #[trigger] r[p].0,
            #[trigger] r[q].0,
        ) by {
            assert(r[p] == s[p]);
            if q < s.len() {
                assert(r[q] == s[q]);
            }
        }
        assert forall|i: int| 0 <= i < r.len() implies #[trigger] r[i].0 == key || key_lt(
            r[i].0,
            key,
        ) by {
            if i < s.len() {
                assert(r[i] == s[i]);
            }
        }
    }
}

proof fn lemma_key_literals_ordered()
    ensures
        key_lt(seq![], "bw"@),
        key_lt("bw"@, "dev_eui"@),
        key_lt("dev_eui"@, "sensor_id"@),
        key_lt("sensor_id"@, "sensor_type"@),
        key_lt("sensor_type"@, "sf"@),
        key_lt(seq![], "airtime_ms"@),
        key_lt("airtime_ms"@, "enclosure_humi"@),
        key_lt("enclosure_humi"@, "enclosure_temp"@),
        key_lt("enclosure_temp"@, "max_rssi"@),
        key_lt("max_rssi"@, "max_snr"@),
        key_lt("max_snr"@, "receiving_gateway_count"@),
        key_lt("receiving_gateway_count"@, "sf"@),
        key_lt("sf"@, "voltage"@),
        key_lt("voltage"@, "water_temp"@),
{
    reveal_strlit("bw");
    reveal_strlit("dev_eui");
    reveal_strlit("sensor_id");
    reveal_strlit("sensor_type");
    reveal_strlit("sf");
    reveal_strlit("airtime_ms");
    reveal_strlit("enclosure_humi");
    reveal_strlit("enclosure_temp");
    reveal_strlit("max_rssi");
    reveal_strlit("max_snr");
    reveal_strlit("receiving_gateway_count");
    reveal_strlit("voltage");
    reveal_strlit("water_temp");
    reveal_with_fuel(key_lt, 12);
}

/// The tags of an uplink are in increasing order of keys, so the line holds
/// them as they are built.
pub proof fn lemma_tags_sorted(dev_eui: Seq<char>, sensor: Sensor, meta: MeasurementMeta)
    ensures
        strictly_sorted(tags_spec(dev_eui, sensor, meta)),
        sorted_pairs(tags_spec(dev_eui, sensor, meta)) == tags_spec(dev_eui, sensor, meta),
{
    lemma_key_literals_ordered();
    let e: Pairs = seq![];
    let s1 = push_opt(e, "bw"@, opt_decimal(opt_bw(meta)));
    lemma_push_opt_sorted(e, seq![], "bw"@, opt_decimal(opt_bw(meta)));
    let s2 = push_opt(s1, "dev_eui"@, Some(dev_eui));
    lemma_push_opt_sorted(s1, "bw"@, "dev_eui"@, Some(dev_eui));
    let v3 = Some(decimal_text(sensor.sensor_id as nat));
    let s3 = push_opt(s2, "sensor_id"@, v3);
    lemma_push_opt_sorted(s2, "dev_eui"@, "sensor_id"@, v3);
    let v4 = Some(sensor.sensor_type.name());
    let s4 = push_opt(s3, "sensor_type"@, v4);
    lemma_push_opt_sorted(s3, "sensor_id"@, "sensor_type"@, v4);
    lemma_push_opt_sorted(s4, "sensor_type"@, "sf"@, opt_decimal(opt_sf(meta)));
    assert(push_opt(s4, "sf"@, opt_decimal(opt_sf(meta))) == tags_spec(dev_eui, sensor, meta));
    lemma_sorted_pairs_of_sorted(tags_spec(dev_eui, sensor, meta));
}

/// The fields of a measurement are in increasing order of keys, so the line
/// holds them as they are built.
pub proof fn lemma_fields_sorted(m: Measurement, meta: MeasurementMeta)
    ensures
        strictly_sorted(fields_spec(m, meta)),
        sorted_pairs(fields_spec(m, meta)) == fields_spec(m, meta),
{
    lemma_key_literals_ordered();
    let e: Pairs = seq![];
    let v1 = Some(decimal_text(meta.airtime_ms as nat));
    let s1 = push_opt(e, "airtime_ms"@, v1);
    lemma_push_opt_sorted(e, seq![], "airtime_ms"@, v1);
    assert(s1 == seq![("airtime_ms"@, decimal_text(meta.airtime_ms as nat))]);
    let v2 = opt_fixed2(m.humidity_enclosure);
    let s2 = push_opt(s1, "enclosure_humi"@, v2);
    lemma_push_opt_sorted(s1, "airtime_ms"@, "enclosure_humi"@, v2);
    let v3 = opt_fixed2(m.temperature_enclosure);
    let s3 = push_opt(s2, "enclosure_temp"@, v3);
    lemma_push_opt_sorted(s2, "enclosure_humi"@, "enclosure_temp"@, v3);
    let v4 = opt_b64_text(meta.max_rssi_spec());
    let s4 = push_opt(s3, "max_rssi"@, v4);
    lemma_push_opt_sorted(s3, "enclosure_temp"@, "max_rssi"@, v4);
    let v5 = opt_b64_text(meta.max_snr_spec());
    let s5 = push_opt(s4, "max_snr"@, v5);
    lemma_push_opt_sorted(s4, "max_rssi"@, "max_snr"@, v5);
    let v6 = Some(decimal_text(meta.receiving_gateways@.len()));
    let s6 = push_opt(s5, "receiving_gateway_count"@, v6);
    lemma_push_opt_sorted(s5, "max_snr"@, "receiving_gateway_count"@, v6);
    let v7 = opt_decimal(opt_sf(meta));
    let s7 = push_opt(s6, "sf"@, v7);
    lemma_push_opt_sorted(s6, "receiving_gateway_count"@, "sf"@, v7);
    let v8 = Some(voltage_text(m.battery_millivolts));
    let s8 = push_opt(s7, "voltage"@, v8);
    lemma_push_opt_sorted(s7, "sf"@, "voltage"@, v8);
    let v9 = Some(m.temperature_water.fixed_text(2));
    lemma_push_opt_sorted(s8, "voltage"@, "water_temp"@, v9);
    assert(push_opt(s8, "water_temp"@, v9) == fields_spec(m, meta));
    lemma_sorted_pairs_of_sorted(fields_spec(m, meta));
}

/// Two tag or field lists that set the same pairs, in whatever order and
/// with whatever earlier pairs replaced, give the same line.
pub proof fn lemma_line_depends_on_pairs_only(
    first: WriteRequest,
    second: WriteRequest,
    config: InfluxDbConfig,
    tags1: Pairs,
    fields1: Pairs,
    tags2: Pairs,
    fields2: Pairs,
)
    requires
        first.body@ == line_text(
            measurement_name_spec(config),
            sorted_pairs(tags1),
            sorted_pairs(fields1),
        ),
        second.body@ == line_text(
            measurement_name_spec(config),
            sorted_pairs(tags2),
            sorted_pairs(fields2),
        ),
        crate::ordered::keyed_set(tags1) == crate::ordered::keyed_set(tags2),
        crate::ordered::keyed_set(fields1) == crate::ordered::keyed_set(fields2),
    ensures
        first.body@ == second.body@,
{
}

} // verus!
