# ibus_adapter

The firmware of a USB network adapter that carries IPv4 packets over a half-duplex internal bus.
The host sees an Ethernet device; the adapter answers ARP requests for the addresses on the bus,
sends the packets for them there, and hands the packets that it hears to the host.

`src/` is the logic, verified with Verus:

- `wire/`: Ethernet frames, ARP, IPv4 and UDP packets
- `driver.rs`, `router.rs`: what becomes of each frame from the host
- `ipv4_packet_reconstructor.rs`: puts bytes from the bus together to packets
- `ibus_to_ethernet.rs`: puts packets from the bus into frames
- `ibus_redirect/`: takes turns on the bus (`half_duplex.rs`, `bus.rs`, `backoff.rs`), or sends
  packets over a serial line (`slip.rs`)
- `carrier_sense.rs`: whether the bus is idle
- `coap.rs`, `coap_message.rs`: a small CoAP server
- `usb_setup.rs`, `packet_log.rs`, `channel.rs`: the connection to the host, the log, and the
  channels between the tasks

`app/` holds the hardware of an STM32U585 and does what the library asks for. As it stands it logs
to the standard error stream and `Cargo.toml` asks for the executor that runs under an operating
system; for the bare device both have to be exchanged.
