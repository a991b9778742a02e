//! The UpSurge engine: configuration, connexion information, the control
//! network of machines, the SSH requester and the command pipeline.

pub mod config;
pub mod connexion_info;
pub mod control_network;
pub mod ssh_requester;
pub mod up_surge;
