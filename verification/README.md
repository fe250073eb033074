# CachyBridge

CachyBridge carries keyboard, pointer, touch and clipboard from one desktop to
another over an authenticated, encrypted channel.

- `src/` is the verified library. It holds every decision of the bridge: wire
  formats, the handoff state machine, configuration and pairing text, clipboard
  and file transfers, and the rules that say which input may be injected. Each
  public function states what it returns or changes, but for two that draw random
  values, of which every value is possible; the `law_` proof functions state what
  holds across functions.
- `app/` is ordinary Rust around it: sockets, files, D-Bus, libei and kernel
  devices, and the parts that compute with floating-point numbers.
- `tests/` runs the library on concrete values.

What Verus takes on trust stands in `text.rs`, `random.rs`, `transport.rs`,
`portal.rs` and, for the clock, `seamless.rs`: calls into `hex`, `rand`, `snow`,
`zbus` and a few functions of the standard library, each with a comment that says
what is claimed of it. The backends and transports that a user supplies are
trusted to keep to the contracts of the traits in `seamless.rs` and `linux_input.rs`.
