# vda_sim

The verified core of a VDA5050 vehicle simulator.

- `src/map/`: the OpenTCS plant model. `opentcs_xml` reads a `model` document event by event
  (quick-xml tokenizes; `MapBuilder::step` decides what each tag contributes), `model` resolves
  protocol node and edge names to plant points and paths, `name_prefix` reads numeric ids out
  of names such as `Point_3`, and `table` keeps named entries in insertion order.
- `src/mqtt.rs`: the vehicle's topics, broker credentials, message dispatch by topic, and the
  publishing cadence of state and visualization messages.
- `src/config.rs`, `src/text.rs`: configuration records and character-level helpers.
- `app/`: configuration and map files, the MQTT client loops, and the floating-point geometry
  that turns coordinate text into world metres.
