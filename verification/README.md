# xcvrd

The transceiver daemon of a network switch. It reads the modules in the slots
through the platform plugin, publishes what they report as rows of the state
database, keeps a record of how latched flags move, and brings modules with an
SFF memory map up.

## Layout

- `src/` is the library, verified with Verus. It holds the decisions: how a
  reading becomes a row (`dom/db_utils`, `dom/dom_sensor`, `dom/status`,
  `dom/vdm`), when a port is read and when its flags are read again
  (`dom/dom_mgr`), how modules are controlled (`sff_api`, `sff_mgr`,
  `cmis/cmis_api`), and how the daemon starts and stops (`daemon`, `env`).
- `src/dom/laws.rs` states what holds of the monitoring as a whole: which rows a
  pass can touch, when a flag is recorded, and that nothing surfaces between two
  passes without a link flap.
- `app/` is the program around it: the embedded Python interpreter with the
  platform plugin, the databases, signals, threads and the clock.
- `tests/` runs the library against the stand-ins of `src/mock*.rs` and
  `src/cmis/mock_cmis.rs`.

## How the world is modelled

Modules, the clock and port updates are reached through the traits of `hal`. A
contract speaks of the trace of what has been asked so far, and an answer is a
function of that trace, so a contract says both what is published and what was
asked of the modules, in order. Tables are reached through `db::DbTable`, whose
contracts speak of rows of texts.

## What is taken on trust

`std::string::String::push` in `text`; in `cmis/advert` the reading of JSON text
by `serde_json`, and in `json` the quoting of a text by it.
