# rusty_racer

V8 embedded in Ruby. An isolate runs scripts on the Ruby thread that made it; it
hands out contexts, modules and scripts, and values cross between the two
languages with their identity: shared and cyclic objects, big integers, dates,
maps, sets and binary data.

The logic of the binding is a library that Verus verifies (`src/`); the calls into
V8, Magnus and the thread library are ordinary Rust around it (`app/`).

- `value`, `js_read`, `rb_read`, `plan`: values as plain data, how they are read
  from either side and built on the other. `js_round_trip`, `rb_round_trip` and
  `layout` prove what comes back, `identity` that ids stand for objects.
- `number`, `hex`, `bigint`, `text`, `path`, `stack_text`: numbers and text.
- `request`, `dispatch`, `task`, `jobs`: what an isolate can be asked to do, and
  each operation as a machine that says what the engine is to do next.
- `state`, `procs`, `transfer`, `import`, `host`: realms, modules, scripts, host
  functions, buffers on their way between isolates, imports, callbacks.
- `isolate`, `snapshot`, `platform`, `error`: who may use an isolate and when, and
  what comes back to Ruby.
- `watchdog`, `stack`: deadlines, and the description of the stack that V8 gets.

An operation's machine never calls the engine. `app/service.rs` does what it asks
for and hands it what came of that; between two steps other operations may run.
