//! The logic of a USB network adapter that carries IPv4 packets over a half-duplex internal bus.
//!
//! Ethernet frames come in from the host. ARP requests for bus addresses are answered here, and
//! IPv4 packets for the bus subnet are forwarded to the bus behind a checksum. Bytes heard on the
//! bus are put together to packets again and sent to the host as Ethernet frames. A small CoAP
//! server tells about the device.

pub mod carrier_sense;
pub mod channel;
pub mod coap;
pub mod coap_message;
pub mod driver;
pub mod ibus_redirect;
pub mod ibus_to_ethernet;
pub mod ipv4_packet_reconstructor;
pub mod packet_log;
pub mod router;
pub mod usb_setup;
pub mod wire;
