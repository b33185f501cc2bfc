//! Wi-Fi provisioning and connectivity core: the Improv serial frame codec,
//! the typed packet model, and the connectivity state machine that drives
//! bootstrap, credential verification, persistence and reconnects.

pub mod text;
pub mod improv_wifi;
pub mod improv_laws;
pub mod scan;
pub mod serial_buffer;
pub mod web_urls;
pub mod connectivity;
pub mod connectivity_laws;
pub mod terminal;
