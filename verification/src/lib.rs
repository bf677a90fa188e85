use vstd::prelude::*;

pub mod alerts;
pub mod calibration;
pub mod chaos;
pub mod clock;
pub mod cluster_sync;
pub mod color;
pub mod compile;
pub mod compute;
pub mod heartbeat;
pub mod layout;
pub mod metrics;
pub mod net_time;
pub mod network_guard;
pub mod noise;
pub mod observability;
pub mod profile;
pub mod prometheus;
pub mod reactive;
pub mod registry;
pub mod reparticao;
pub mod rig;
pub mod shared_clock;
pub mod sim;
pub mod stream;
pub mod text;
pub mod triple;
pub mod validate;
