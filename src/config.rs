//! The relay's configuration and its registry of sensors.

use vstd::prelude::*;

verus! {

/// Connection settings of the upstream MQTT broker.
#[derive(Debug, Clone)]
pub struct Mqtt {
    /// Broker hostname.
    pub host: String,
    /// Username.
    pub user: String,
    /// Password.
    pub pass: String,
}

/// Settings of the measurement API.
#[derive(Debug, Clone)]
pub struct Api {
    /// API base URL.
    pub base_url: String,
    /// API token.
    pub api_token: String,
}

/// Settings of an InfluxDB 1 time-series database.
#[derive(Debug, Clone)]
pub struct InfluxDb {
    /// Connection string, e.g. `https://influxdb.example.com`.
    pub base_url: String,
    /// Username.
    pub user: String,
    /// Password.
    pub pass: String,
    /// Database.
    pub db: String,
    /// Measurement name (default: "temperature").
    pub measurement: Option<String>,
}

/// Settings of an InfluxDB 2 time-series database.
#[derive(Debug, Clone)]
pub struct InfluxDb2 {
    /// Connection string, e.g. `https://influxdb.example.com`.
    pub base_url: String,
    /// Organization (name or ID).
    pub org: String,
    /// API token.
    pub api_token: String,
    /// Bucket.
    pub bucket: String,
    /// Measurement name (default: "temperature").
    pub measurement: Option<String>,
}

/// The kind of a sensor, which fixes its payload layouts.
#[derive(Debug, Clone, Copy, PartialEq, Eq)]
pub enum SensorType {
    /// Custom Gfroerli firmware.
    Gfroerli,
    /// Dragino LSN50 v2-D20.
    Dragino,
}

impl SensorType {
    /// The lower-case name of the sensor type.
    pub open spec fn name(self) -> Seq<char> {
        match self {
            SensorType::Gfroerli => "gfroerli"@,
            SensorType::Dragino => "dragino"@,
        }
    }

    /// The lower-case name of the sensor type.
    pub fn to_string(&self) -> (r: String)
        ensures
            r@ == self.name(),
    {
        match self {
            SensorType::Gfroerli => String::from_str("gfroerli"),
            SensorType::Dragino => String::from_str("dragino"),
        }
    }
}

/// The profile of one sensor.
#[derive(Debug, Clone, Copy, PartialEq, Eq)]
pub struct Sensor {
    /// The sensor type.
    pub sensor_type: SensorType,
    /// The sensor's ID at the measurement API.
    pub sensor_id: u32,
    /// Whether to send data of this sensor to the API (default true).
    ///
    /// If set to false, data will be logged to InfluxDB, but not to the
    /// measurement API.
    pub send_to_api: Option<bool>,
}

impl Sensor {
    /// The sensor's data goes to the measurement API.
    pub open spec fn submits_to_api_spec(self) -> bool {
        match self.send_to_api {
            Some(b) => b,
            None => true,
        }
    }

    /// Whether the sensor's data goes to the measurement API.
    pub fn submits_to_api(&self) -> (r: bool)
        ensures
            r == self.submits_to_api_spec(),
    {
        match self.send_to_api {
            Some(b) => b,
            None => true,
        }
    }
}

/// An immutable lookup table from device EUI to sensor profile; the EUIs are
/// matched exactly, case included.
#[derive(Debug)]
pub struct SensorRegistry {
    entries: Vec<(String, Sensor)>,
}

impl View for SensorRegistry {
    type V = Map<Seq<char>, Sensor>;

    closed spec fn view(&self) -> Map<Seq<char>, Sensor> {
        Map::new(
            |k: Seq<char>| exists|i: int| 0 <= i < self.entries@.len() && self.entries@[i].0@ == k,
            |k: Seq<char>|
                self.entries@[choose|i: int|
                    0 <= i < self.entries@.len() && self.entries@[i].0@ == k].1,
        )
    }
}

impl SensorRegistry {
    /// No EUI stands in two entries.
    #[verifier::type_invariant]
    closed spec fn wf(&self) -> bool {
        forall|i: int, j: int|
            0 <= i < self.entries@.len() && 0 <= j < self.entries@.len() && i != j
                ==> self.entries@[i].0@ != self.entries@[j].0@
    }

    /// A registry with no sensor.
    pub fn new() -> (r: SensorRegistry)
        ensures
            r@ == Map::<Seq<char>, Sensor>::empty(),
    {
        let r = SensorRegistry { entries: Vec::new() };
        assert(r@ =~= Map::<Seq<char>, Sensor>::empty());
        r
    }

    /// The index of the entry of `dev_eui`, if any.
    fn position(&self, dev_eui: &str) -> (r: Option<usize>)
        ensures
            match r {
                Some(i) => i < self.entries@.len() && self.entries@[i as int].0@ == dev_eui@,
                None => !self@.contains_key(dev_eui@),
            },
    {
        let key = String::from_str(dev_eui);
        let mut i: usize = 0;
        while i < self.entries.len()
            invariant
                i <= self.entries@.len(),
                key@ == dev_eui@,
                forall|j: int| 0 <= j < i ==> self.entries@[j].0@ != dev_eui@,
            decreases self.entries@.len() - i,
        {
            if self.entries[i].0.eq(&key) {
                return Some(i);
            }
            i = i + 1;
        }
        None
    }

    /// Looks up the profile of a device.
    pub fn get(&self, dev_eui: &str) -> (r: Option<Sensor>)
        ensures
            match r {
                Some(s) => self@.contains_key(dev_eui@) && self@[dev_eui@] == s,
                None => !self@.contains_key(dev_eui@),
            },
    {
        proof {
            use_type_invariant(self);
        }
        match self.position(dev_eui) {
            Some(i) => {
                proof {
                    let k = dev_eui@;
                    assert(self@.contains_key(k));
                    let j = choose|j: int| 0 <= j < self.entries@.len() && self.entries@[j].0@ == k;
                    assert(j == i);
                }
                Some(self.entries[i].1)
            },
            None => None,
        }
    }

    /// The entry at `j` is what the view holds for its EUI.
    proof fn lemma_view_at(&self, j: int)
        requires
            self.wf(),
            0 <= j < self.entries@.len(),
        ensures
            self@.contains_key(self.entries@[j].0@),
            self@[self.entries@[j].0@] == self.entries@[j].1,
    {
        let k = self.entries@[j].0@;
        assert(self@.contains_key(k));
        let c = choose|c: int| 0 <= c < self.entries@.len() && self.entries@[c].0@ == k;
        assert(c == j);
    }

    /// Adds a sensor, replacing the profile that its EUI had.
    pub fn insert(&mut self, dev_eui: String, sensor: Sensor)
        ensures
            final(self)@ == old(self)@.insert(dev_eui@, sensor),
    {
        proof {
            use_type_invariant(&*self);
        }
        let ghost key = dev_eui@;
        let ghost idx: int;
        let position = self.position(dev_eui.as_str());
        let mut entries: Vec<(String, Sensor)> = Vec::new();
        std::mem::swap(&mut entries, &mut self.entries);
        match position {
            Some(i) => {
                entries.set(i, (dev_eui, sensor));
                proof {
                    idx = i as int;
                }
            },
            None => {
                entries.push((dev_eui, sensor));
                proof {
                    idx = old(self).entries@.len() as int;
                    assert forall|j: int| 0 <= j < old(self).entries@.len() implies old(
                        self,
                    ).entries@[j].0@ != key by {
                        old(self).lemma_view_at(j);
                    }
                }
            },
        }
        self.entries = entries;
        proof {
            let target = old(self)@.insert(key, sensor);
            assert(self.entries@[idx].0@ == key && self.entries@[idx].1 == sensor);
            assert(self.wf());
            assert forall|k: Seq<char>|
                #[trigger] self@.contains_key(k) == target.contains_key(k) by {
                if k == key {
                    assert(self.entries@[idx].0@ == k);
                } else if old(self)@.contains_key(k) {
                    let j = choose|j: int|
                        0 <= j < old(self).entries@.len() && old(self).entries@[j].0@ == k;
                    assert(self.entries@[j].0@ == k);
                } else if self@.contains_key(k) {
                    let j = choose|j: int| 0 <= j < self.entries@.len() && self.entries@[j].0@ == k;
                    assert(old(self).entries@[j].0@ == k);
                }
            }
            assert forall|k: Seq<char>| #[trigger] self@.contains_key(k) implies self@[k]
                == target[k] by {
                let j = choose|j: int| 0 <= j < self.entries@.len() && self.entries@[j].0@ == k;
                self.lemma_view_at(j);
                if k != key {
                    old(self).lemma_view_at(j);
                }
            }
            assert(self@ =~= target);
        }
    }

    /// Number of sensors.
    pub fn len(&self) -> (r: usize)
        ensures
            r == self@.dom().len(),
    {
        proof {
            use_type_invariant(self);
            let keys = self.entries@.map_values(|e: (String, Sensor)| e.0@);
            assert(self@.dom() =~= keys.to_set()) by {
                assert forall|k: Seq<char>| #[trigger]
                    self@.dom().contains(k) implies keys.to_set().contains(k) by {
                    let i = choose|i: int| 0 <= i < self.entries@.len() && self.entries@[i].0@ == k;
                    assert(keys[i] == k);
                }
                assert forall|k: Seq<char>| #[trigger]
                    keys.to_set().contains(k) implies self@.dom().contains(k) by {
                    let i = choose|i: int| 0 <= i < keys.len() && keys[i] == k;
                    assert(self.entries@[i].0@ == k);
                }
            }
            assert(keys.no_duplicates());
            keys.unique_seq_to_set();
        }
        self.entries.len()
    }
}

/// The whole configuration of the relay.
#[derive(Debug)]
pub struct Config {
    /// MQTT settings.
    pub ttn: Mqtt,
    /// Measurement API settings.
    pub api: Api,
    /// InfluxDB 1 settings.
    pub influxdb: Option<InfluxDb>,
    /// InfluxDB 2 settings (take precedence over InfluxDB 1).
    pub influxdb2: Option<InfluxDb2>,
    /// The sensors, by DevEUI.
    pub sensors: SensorRegistry,
}

} // verus!
