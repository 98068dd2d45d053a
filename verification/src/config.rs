//! Configuration records that the simulator's logic reads.
use vstd::prelude::*;

verus! {

/// `[mqtt_broker]`: where the broker is and how to log in.
#[derive(Clone, Debug)]
pub struct MqttBrokerConfig {
    pub host: String,
    pub port: String,
    pub vda_interface: String,
    pub username: Option<String>,
    pub password: Option<String>,
}

/// `[vehicle]`: the identity the simulated vehicle reports.
#[derive(Clone, Debug)]
pub struct VehicleConfig {
    pub manufacturer: String,
    pub serial_number: String,
    pub vda_version: String,
    pub vda_full_version: String,
}

/// `[map.name_prefixes]`: how protocol names are matched to plant-model names by numeric id.
#[derive(Clone, Debug)]
pub struct MapNamePrefixes {
    /// When false, names must match exactly.
    pub apply_stripping: bool,
    pub point_prefix: String,
    pub path_prefix: String,
}

impl Default for MapNamePrefixes {
    /// No stripping, empty prefixes.
    fn default() -> (r: Self)
        ensures
            !r.apply_stripping,
            r.point_prefix@ == Seq::<char>::empty(),
            r.path_prefix@ == Seq::<char>::empty(),
    {
        MapNamePrefixes { apply_stripping: false, point_prefix: String::new(), path_prefix: String::new() }
    }
}

} // verus!
