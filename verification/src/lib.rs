//! Verified core of a VDA5050 vehicle simulator: plant-model parsing and
//! name resolution, MQTT topic planning and publish scheduling.
pub mod config;
pub mod map;
pub mod text;
pub mod mqtt;
