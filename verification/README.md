# node_red_proxy

A UDP proxy and management server for Node-RED. The proxy forwards the
messages of automations ("flows") between input nodes, Node-RED and output
nodes, logs when each message passed, measures the latency to the nodes, and
moves flows between areas (each area runs its own Node-RED and proxy).

## Layout

- `src/` is the library, verified with Verus. It holds the decisions:
  - `text`: decimal rendering and parsing, splitting, string order;
  - `config`: the configuration and the URLs built from it;
  - `flows`: the model of the Node-RED flows API, the grouping of nodes
    into flows, lookups, status updates and deletions;
  - `transfer`: the rewriting of a flow for another area and the steps of
    moving a flow there and back;
  - `analysis`: which flows to move, and the sorted report;
  - `db`: the event log per automation and the clock offsets of devices;
  - `latency`: evaluating and averaging UDP pings;
  - `proxy`: routing of UDP messages and the events they produce;
  - `responses`: the answers of the HTTP endpoints;
  - `laws`: properties that span several functions.
- `app/` is the program around it: command line, configuration file, HTTP
  server, UDP sockets, channels, and the serde forms of the library's types.
- `tests/` runs the library on concrete values.

## Keyed collections

The flows (by id) and the event log and clock offsets (by string key) are
held in vectors whose keys are unique, an invariant that every operation
keeps (`unique_ids`, `Database::well_formed`). The keys are strings: with
`String` keys, the specifications that Verus gives to std's `HashMap`
accept the calls but let nothing be proved about what a lookup finds, so
the maps are modelled as vectors of entries, searched in order.
