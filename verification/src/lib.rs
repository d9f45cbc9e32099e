//! Computations behind a system-information viewer: byte sizes and uptimes as
//! text, the facts read from GPU probing tools, interface ordering and
//! addresses, sensor selection and usage histories, each with a contract.
pub mod text;
pub mod fmt;
pub mod clock;
pub mod cpu;
pub mod gpu;
pub mod sensors;
pub mod net;
pub mod history;
pub mod storage;
pub mod environ;
pub mod order;
