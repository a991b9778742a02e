//! A verified core for UpSurge, a tool that runs commands on many remote
//! machines over SSH: the connexion grammar, the control network of machines
//! and their sessions, the command-line and interactive-shell decisions, and
//! the per-connexion command pipeline.

pub mod text;
pub mod upsurge;
pub mod cli;
pub mod interactiv;
pub mod test;
pub mod groups;
