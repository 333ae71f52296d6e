//! Picks the preferred graphics device of a machine and composes the
//! invocation that runs a command on it.
use crate::config::Config;
use crate::gpu::{candidates, find_gpus, invocation_for, texts, DeviceInfo, Invocation, GPU};
use crate::priority::{lemma_ranked_nonempty, order_by_priority, ranked};
use tini::Error as IniError;
use vstd::prelude::*;

pub mod config;
pub mod gpu;
pub mod priority;
pub mod text;
pub mod vendor;

verus! {

/// Declares `std::io::Error` so that it can be carried in `Error`.
#[verifier::external_type_specification]
#[verifier::external_body]
pub struct ExIoError(std::io::Error);

/// Declares `tini::Error` so that it can be carried in `Error`.
#[verifier::external_type_specification]
#[verifier::external_body]
pub struct ExIniError(IniError);

/// What can go wrong between reading the configuration and composing the
/// child process.
#[derive(Debug)]
pub enum Error {
    Io(std::io::Error),
    Ini(IniError),
    DeviceNotFound,
    InvalidDevice,
    EmptyCommand,
}

/// The device chosen for a run and the invocation composed for it.
pub struct Launch {
    /// The selected device; its `integrated` flag tells that no discrete
    /// device was preferred.
    pub gpu: GPU,
    pub invocation: Invocation,
}

/// Selects the most preferred candidate of the catalog under the
/// configuration's priority list and composes `args` on it. Fails with
/// `DeviceNotFound` when the catalog has no candidate, and otherwise as
/// `GPU::prepare_run` does on the selection.
pub fn prime_run(config: &Config, devices: &Vec<DeviceInfo>, args: Vec<String>) -> (r: Result<
    Launch,
    Error,
>)
    ensures
        candidates(devices@).len() == 0 ==> r is Err && r->Err_0 is DeviceNotFound,
        candidates(devices@).len() > 0 ==> {
            let sel = ranked(candidates(devices@), config.gpu_priority@, 0)[0];
            &&& args@.len() == 0 ==> r is Err && r->Err_0 is EmptyCommand
            &&& args@.len() > 0 && sel.slot is None ==> r is Err && r->Err_0 is InvalidDevice
            &&& args@.len() > 0 && sel.slot is Some ==> r is Ok && r->Ok_0.gpu@ == sel
                && r->Ok_0.invocation@ == invocation_for(sel, texts(args@))
        },
{
    let gpus = match find_gpus(devices) {
        Ok(g) => g,
        Err(e) => return Err(e),
    };
    let mut ordered = order_by_priority(gpus, &config.gpu_priority);
    proof {
        lemma_ranked_nonempty(candidates(devices@), config.gpu_priority@);
    }
    assert(ordered@[0]@ == crate::gpu::views(ordered@)[0]);
    let gpu = ordered.remove(0);
    match gpu.prepare_run(args) {
        Ok(invocation) => Ok(Launch { gpu, invocation }),
        Err(e) => Err(e),
    }
}

} // verus!
