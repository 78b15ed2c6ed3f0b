//! How a process starts and ends: the backend it is configured with, the
//! background work of its role, and what it owes at shutdown.

use crate::plugin::{
    get_plugin_type, init_plugin, is_supported, plugin_type_of, tasks_of, PluginError,
    PluginType, ServiceType, TaskSet,
};
use vstd::prelude::*;

verus! {

/// The backend that the setting of the registry type selects: MongoDB where
/// it is not set.
pub open spec fn configured(setting: Option<&str>) -> PluginType {
    match setting {
        Some(name) => plugin_type_of(name@),
        None => PluginType::Mongodb,
    }
}

/// The backend that the setting of the registry type selects.
pub fn register_type(setting: Option<&str>) -> (r: PluginType)
    ensures
        r == configured(setting),
{
    match setting {
        Some(name) => get_plugin_type(name),
        None => PluginType::Mongodb,
    }
}

/// What a process of the given role starts with: its backend and the
/// background work beside its main task.
pub fn startup(role: ServiceType, setting: Option<&str>) -> (r: Result<
    (PluginType, TaskSet),
    PluginError,
>)
    ensures
        is_supported(configured(setting)) ==> (r matches Ok((backend, tasks)) && backend
            == configured(setting) && tasks == tasks_of(role)),
        !is_supported(configured(setting)) ==> r is Err,
{
    let backend = register_type(setting);
    match init_plugin(role, backend) {
        Ok(tasks) => Ok((backend, tasks)),
        Err(e) => Err(e),
    }
}

/// What ends the main task of a process.
#[derive(Debug, Clone, Copy, PartialEq, Eq, Structural)]
pub enum Ending {
    /// The main task returned by itself.
    Finished,
    /// The process was asked to stop.
    Interrupted,
}

/// What a process does when its main task ends.
#[derive(Debug, Clone, Copy, PartialEq, Eq, Structural)]
pub enum Shutdown {
    /// Leave at once.
    Leave,
    /// Cancel the context, then wait until the wait group has drained.
    CancelAndWait,
}

/// What a process does when its main task ends: it leaves at once where the
/// task returned by itself; asked to stop, it cancels the context and
/// waits for the background tasks, each of which keeps its place in the
/// wait group until it has withdrawn what the process registered.
pub fn on_ending(ending: Ending) -> (r: Shutdown)
    ensures
        r == match ending {
            Ending::Finished => Shutdown::Leave,
            Ending::Interrupted => Shutdown::CancelAndWait,
        },
{
    match ending {
        Ending::Finished => Shutdown::Leave,
        Ending::Interrupted => Shutdown::CancelAndWait,
    }
}

} // verus!
