# enderpearl

A reverse proxy for Minecraft Java and HTTP traffic that wakes the backend
server on ping or join and shuts it down when idle.

- `src/` is the library, written in Verus and verified: the Minecraft
  `VarInt`/string codec and packet framing, handshake parsing and peeking,
  the protocol detectors' decisions (which bytes open a Minecraft Java,
  Bedrock or UDP-command session) and each route's detector description
  (name, transport, debug hook), the offline proxy's decisions (offline answers,
  wake triggers, the inactivity monitor, status probes), the conversion of
  the TOML configuration into routes, the route tables handed to the proxy
  engine, and the init wizard's answer checks.
- `app/` is the command-line program around it: argument parsing, the
  interactive wizard, sockets, tasks, shell commands, webhooks and the
  `refractium` engine, which does the traffic detection and forwarding;
  the engine's detector objects are built there around the library's
  decisions.
- `tests/` exercises the library on concrete values.

Both built-in protocol features (Minecraft Java and Web/HTTP) are always
enabled.
