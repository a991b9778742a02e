//! How an UpSurge run is configured.

use vstd::prelude::*;

verus! {

/// The transport used to reach remote machines.
#[derive(Debug, Clone, Copy)]
pub enum Protocol {
    SSH,
}

/// How the commands are run over the connexions.
#[derive(Debug)]
pub enum Method {
    THREADED,
    ASYNC,
}

/// Whether UpSurge deploys itself on the remote machines.
#[derive(Debug)]
pub enum Deployment {
    NODEPLOY,
    AUTODEPLOY,
}

/// Whether a recap of the remote executions is written, and where.
#[derive(Debug)]
pub enum Recap {
    NORECAP,
    RECAP(String),
}

/// Whether the results are written to an output file, and which one.
#[derive(Debug)]
pub enum Output {
    NOOUTPUT,
    OUTPUT(String),
}

/// The configuration of an UpSurge run.
#[derive(Debug)]
pub struct Config {
    pub method: Method,
    pub deployment: Deployment,
    pub recap: Recap,
    pub output: Output,
}

/// The default configuration: asynchronous, no deployment, no recap, no output file.
pub open spec fn default_config() -> Config {
    Config {
        method: Method::ASYNC,
        deployment: Deployment::NODEPLOY,
        recap: Recap::NORECAP,
        output: Output::NOOUTPUT,
    }
}

impl Default for Config {
    fn default() -> (r: Self)
        ensures
            r == default_config(),
    {
        Self {
            method: Method::ASYNC,
            deployment: Deployment::NODEPLOY,
            recap: Recap::NORECAP,
            output: Output::NOOUTPUT,
        }
    }
}

} // verus!
