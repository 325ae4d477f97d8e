# sensor_station

Server for an environmental sensor station: it reads protobuf packets from
the station over TCP, stores recordings with an evaporation estimate in
PostgreSQL, and serves them over an HTTP API.

- `src/` is the verified library (Verus): request validation and SQL
  construction for the API (`http`, `station`, `recordings`), station
  bitmaps (`bitmap`), the payload decoder (`wire`: six scalar fields and
  the thermal image as a repeated float in field 7, packed or not) with the
  laws that it reads back every encoded reading (`encoding`) and merges
  payloads one after another (`merge`), the packet loop as a state
  machine (`ingest`), forecast-entry choice and unit handling (`weather`)
  and instants read by chrono (`instant`).
- `app/` runs the server: configuration, the HTTP handlers, the database,
  the network, and the floating-point estimates.
- `tests/` exercises the library, including a comparison of the decoder
  with prost on many payloads.
