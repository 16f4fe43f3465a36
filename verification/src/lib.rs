//! Bluetooth Low Energy support library.
//!
//! The verified core of a BLE client: the MAC address codec, the decoder for
//! characteristic capability flags, the FIFO event queue behind the
//! advertisement and notification bridges, and the buffered read/write state
//! machine for characteristic I/O.  The operating system's Bluetooth stack is
//! an external collaborator: a platform-facing layer performs its calls and
//! feeds the results to the functions here as plain values.

pub mod address;
pub mod bridge;
pub mod capability;
pub mod char_io;

pub use address::BluetoothAddress;
pub use address::BluetoothAddressParseError;
pub use bridge::Advertisement;
pub use bridge::EventQueue;
pub use capability::Capability;
pub use capability::CharacteristicProperties;
pub use char_io::CharacteristicIO;
pub use char_io::FetchPlan;
