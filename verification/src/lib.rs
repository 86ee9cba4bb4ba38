//! A multi-endpoint TCP/UDP relay: the data-plane decisions (peer selection,
//! failover health, datagram grouping) and the control-plane registry that
//! manages endpoint instances, stated with contracts and proved.

pub mod addr;
pub mod api;
pub mod balancer;
pub mod clock;
pub mod conf;
pub mod endpoint;
pub mod health;
pub mod instance;
pub mod manager;
pub mod report;
pub mod stats;
pub mod tally;
pub mod tcp;
pub mod text;
pub mod udp;
