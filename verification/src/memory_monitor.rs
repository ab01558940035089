//! Notifications of accesses to pages.

use crate::memory_api::{given_list, RangeArgument};
use crate::native_ffi::{memory_operation_name, operation_name};
use crate::script::{internal_error, joined, ErrorKind, ScriptError};
use vstd::prelude::*;
use vstd::string::*;

verus! {

/// One access to a monitored page.
#[derive(Clone, Copy, Debug, PartialEq, Eq, Structural, Hash)]
pub struct MemoryAccessInfo {
    pub thread_id: u64,
    /// Zero for an invalid access, one for a read, two for a write, three for execution.
    pub operation: u32,
    pub from: u64,
    pub address: u64,
    pub range_index: u32,
    pub page_index: u32,
    pub pages_completed: u32,
    pub pages_total: u32,
}

/// The code addresses of the embedder's functions that install and remove the monitor.
#[derive(Clone, Copy, Debug, PartialEq, Eq, Structural)]
pub struct MemoryMonitorBackend {
    pub enable: u64,
    pub disable: u64,
}

/// The script function that is told of accesses, held for as long as the monitor is
/// installed.
#[derive(Clone, Copy, Debug, PartialEq, Eq, Structural)]
pub struct CallbackRoot {
    pub context: u64,
    pub value: u64,
}

/// A range of memory to watch.
#[derive(Clone, Copy, Debug, PartialEq, Eq, Structural)]
pub struct MonitorRange {
    pub base: u64,
    pub size: u64,
}

/// The script's side of the monitor.
#[derive(Clone, Copy, Debug, PartialEq, Eq, Structural)]
pub struct MonitorRegistry {
    pub backend: Option<MemoryMonitorBackend>,
    pub on_access: Option<CallbackRoot>,
}

/// What has to be done to take a monitor down.
#[derive(Clone, Copy, Debug, PartialEq, Eq, Structural)]
pub struct MonitorTeardown {
    /// Whether the embedder has to remove the monitor.
    pub disable: bool,
    /// The script function to release.
    pub release: Option<CallbackRoot>,
}

/// What a script is told of an access.
#[derive(Clone, Copy, Debug)]
pub struct AccessReport {
    pub root: CallbackRoot,
    pub operation: &'static str,
    pub info: MemoryAccessInfo,
}

/// What is wrong with one range.
pub open spec fn monitor_range_problem(range: RangeArgument) -> Option<(ErrorKind, Seq<char>)> {
    if range.base is Err {
        Some(range.base->Err_0@)
    } else if range.size is None || range.size->0 <= 0 {
        Some((ErrorKind::InternalError, "MemoryAccessMonitor.enable() invalid range size"@))
    } else {
        None
    }
}

/// What is wrong with the first of the ranges that is wrong.
pub open spec fn monitor_ranges_problem(ranges: Seq<RangeArgument>) -> Option<
    (ErrorKind, Seq<char>),
>
    decreases ranges.len(),
{
    if ranges.len() == 0 {
        None
    } else {
        match monitor_ranges_problem(ranges.drop_last()) {
            Some(problem) => Some(problem),
            None => monitor_range_problem(ranges.last()),
        }
    }
}

/// Why a monitor cannot be installed, in the order of the checks.
pub open spec fn enable_problem(
    registry: MonitorRegistry,
    argument_count: usize,
    ranges: Option<Seq<RangeArgument>>,
    is_function: bool,
) -> Option<(ErrorKind, Seq<char>)> {
    if registry.backend is None {
        Some(
            (
                ErrorKind::InternalError,
                "MemoryAccessMonitor requires the Gum backend, which this build does not have"@,
            ),
        )
    } else if argument_count < 2 {
        Some(
            (
                ErrorKind::InternalError,
                "MemoryAccessMonitor.enable() requires (ranges, callbacks)"@,
            ),
        )
    } else if ranges is None {
        Some(
            (
                ErrorKind::InternalError,
                "MemoryAccessMonitor.enable() ranges must be an array of {base, size}"@,
            ),
        )
    } else if monitor_ranges_problem(ranges->0) is Some {
        monitor_ranges_problem(ranges->0)
    } else if ranges->0.len() == 0 {
        Some(
            (
                ErrorKind::InternalError,
                "MemoryAccessMonitor.enable() expected one or more ranges"@,
            ),
        )
    } else if !is_function {
        Some(
            (
                ErrorKind::InternalError,
                "MemoryAccessMonitor.enable() callbacks.onAccess must be a function"@,
            ),
        )
    } else {
        None
    }
}

/// Accepted ranges.
pub open spec fn watched_ranges(ranges: Seq<RangeArgument>) -> Seq<MonitorRange> {
    Seq::new(
        ranges.len(),
        |i: int| MonitorRange { base: ranges[i].base->Ok_0, size: ranges[i].size->0 as u64 },
    )
}

proof fn lemma_ranges_problem_stays(ranges: Seq<RangeArgument>, count: int)
    requires
        0 <= count <= ranges.len(),
        monitor_ranges_problem(ranges.take(count)) is Some,
    ensures
        monitor_ranges_problem(ranges) == monitor_ranges_problem(ranges.take(count)),
    decreases ranges.len(),
{
    if count < ranges.len() {
        assert(ranges.drop_last().take(count) =~= ranges.take(count));
        lemma_ranges_problem_stays(ranges.drop_last(), count);
    } else {
        assert(ranges.take(count) =~= ranges);
    }
}

/// The ranges that a script wants to watch. It has to give a list with one at least.
fn parse_monitor_ranges(ranges: Option<Vec<RangeArgument>>) -> (result: Result<
    Vec<MonitorRange>,
    ScriptError,
>)
    ensures
        match ranges {
            None => result is Err && result->Err_0@ == (
                ErrorKind::InternalError,
                "MemoryAccessMonitor.enable() ranges must be an array of {base, size}"@,
            ),
            Some(list) => if monitor_ranges_problem(list@) is Some {
                result is Err && Some(result->Err_0@) == monitor_ranges_problem(list@)
            } else if list@.len() == 0 {
                result is Err && result->Err_0@ == (
                    ErrorKind::InternalError,
                    "MemoryAccessMonitor.enable() expected one or more ranges"@,
                )
            } else {
                result is Ok && result->Ok_0@ == watched_ranges(list@)
            },
        },
{
    let list: Vec<RangeArgument> = match ranges {
        Some(list) => list,
        None => {
            return Err(
                internal_error(
                    "MemoryAccessMonitor.enable() ranges must be an array of {base, size}",
                ),
            );
        },
    };
    let ghost all = list@;
    let mut accepted: Vec<MonitorRange> = Vec::new();
    assert(all.take(0) =~= seq![]);
    assert(accepted@ =~= watched_ranges(all).take(0));
    for range in it: list
        invariant
            it.seq() == all,
            ranges == Some(list),
            list@ == all,
            monitor_ranges_problem(all.take(it.index() as int)) is None,
            accepted@ == watched_ranges(all).take(it.index() as int),
    {
        let ghost done = it.index() as int;
        assert(all.take(done + 1).drop_last() =~= all.take(done));
        assert(all.take(done + 1).last() == range);
        let base: u64 = match range.base {
            Ok(base) => base,
            Err(error) => {
                proof {
                    lemma_ranges_problem_stays(all, done + 1);
                }
                return Err(error);
            },
        };
        let bytes: i64 = match range.size {
            Some(bytes) => bytes,
            None => 0,
        };
        if bytes <= 0 {
            proof {
                lemma_ranges_problem_stays(all, done + 1);
            }
            return Err(internal_error("MemoryAccessMonitor.enable() invalid range size"));
        }
        accepted.push(MonitorRange { base, size: bytes as u64 });
        assert(accepted@ =~= watched_ranges(all).take(done + 1));
    }
    assert(all.take(all.len() as int) =~= all);
    assert(accepted@ =~= watched_ranges(all));
    if accepted.len() == 0 {
        return Err(
            internal_error("MemoryAccessMonitor.enable() expected one or more ranges"),
        );
    }
    Ok(accepted)
}

/// Makes the monitor available to scripts.
pub fn install_memory_monitor_backend(registry: &mut MonitorRegistry, backend: MemoryMonitorBackend)
    ensures
        *final(registry) == (MonitorRegistry { backend: Some(backend), ..*old(registry) }),
{
    registry.backend = Some(backend);
}

/// Makes the monitor with the given entries available to scripts.
pub fn install_quickjs_backend(registry: &mut MonitorRegistry, enable: u64, disable: u64)
    ensures
        *final(registry) == (MonitorRegistry {
            backend: Some(MemoryMonitorBackend { enable, disable }),
            ..*old(registry)
        }),
{
    install_memory_monitor_backend(registry, MemoryMonitorBackend { enable, disable });
}

/// Takes the monitor down: it must not call into a script that is going away.
pub fn cut_memory_monitor(registry: &mut MonitorRegistry) -> (teardown: MonitorTeardown)
    ensures
        *final(registry) == (MonitorRegistry { on_access: None, ..*old(registry) }),
        teardown == (MonitorTeardown {
            disable: old(registry).backend is Some,
            release: old(registry).on_access,
        }),
{
    let disable: bool = registry.backend.is_some();
    let release: Option<CallbackRoot> = registry.on_access.take();
    MonitorTeardown { disable, release }
}

/// What a script is told of an access, if a monitor is installed. A script that was
/// aborted may leave the monitor behind while its function is gone: nothing is told unless
/// the script's engine could be entered and the function is still one.
pub fn dispatch_memory_access(
    registry: &MonitorRegistry,
    info: MemoryAccessInfo,
    entered: bool,
    is_function: bool,
) -> (report: Option<AccessReport>)
    ensures
        report is Some <==> registry.on_access is Some && entered && is_function,
        report matches Some(r) ==> {
            &&& Some(r.root) == registry.on_access
            &&& r.operation@ == memory_operation_name(info.operation)
            &&& r.info == info
        },
{
    if !entered || !is_function {
        return None;
    }
    match registry.on_access {
        None => None,
        Some(root) => Some(
            AccessReport { root, operation: operation_name(info.operation), info },
        ),
    }
}

/// What has to be done to install a monitor.
#[derive(Debug)]
pub struct MonitorSetup {
    /// First the present monitor goes, so that there are never two callbacks.
    pub teardown: MonitorTeardown,
    pub ranges: Vec<MonitorRange>,
}

/// Checks a request for a monitor and takes its callback.
pub fn js_monitor_enable(
    registry: &mut MonitorRegistry,
    argument_count: usize,
    ranges: Option<Vec<RangeArgument>>,
    is_function: bool,
    callback: CallbackRoot,
) -> (result: Result<MonitorSetup, ScriptError>)
    ensures
        ({
            let problem = enable_problem(
                *old(registry),
                argument_count,
                given_list(ranges),
                is_function,
            );
            &&& result is Err <==> problem is Some
            &&& result matches Err(error) ==> *final(registry) == *old(registry) && Some(error@)
                == problem
            &&& result matches Ok(setup) ==> {
                &&& *final(registry) == (MonitorRegistry {
                    on_access: Some(callback),
                    ..*old(registry)
                })
                &&& setup.teardown == (MonitorTeardown {
                    disable: true,
                    release: old(registry).on_access,
                })
                &&& setup.ranges@ == watched_ranges(ranges->0@)
            }
        }),
{
    if registry.backend.is_none() {
        return Err(
            internal_error(
                "MemoryAccessMonitor requires the Gum backend, which this build does not have",
            ),
        );
    }
    if argument_count < 2 {
        return Err(
            internal_error("MemoryAccessMonitor.enable() requires (ranges, callbacks)"),
        );
    }
    let accepted: Vec<MonitorRange> = match parse_monitor_ranges(ranges) {
        Ok(accepted) => accepted,
        Err(error) => {
            return Err(error);
        },
    };
    if !is_function {
        return Err(
            internal_error("MemoryAccessMonitor.enable() callbacks.onAccess must be a function"),
        );
    }
    let teardown: MonitorTeardown = cut_memory_monitor(registry);
    registry.on_access = Some(callback);
    Ok(MonitorSetup { teardown, ranges: accepted })
}

/// Takes the monitor down for a script.
pub fn js_monitor_disable(registry: &mut MonitorRegistry) -> (result: Result<
    MonitorTeardown,
    ScriptError,
>)
    ensures
        old(registry).backend is Some ==> {
            &&& *final(registry) == (MonitorRegistry { on_access: None, ..*old(registry) })
            &&& result == Ok::<MonitorTeardown, ScriptError>(
                MonitorTeardown { disable: true, release: old(registry).on_access },
            )
        },
        old(registry).backend is None ==> {
            &&& *final(registry) == *old(registry)
            &&& result is Err
            &&& result->Err_0@ == (
                ErrorKind::InternalError,
                "MemoryAccessMonitor requires the Gum backend, which this build does not have"@,
            )
        },
{
    if registry.backend.is_none() {
        return Err(
            internal_error(
                "MemoryAccessMonitor requires the Gum backend, which this build does not have",
            ),
        );
    }
    Ok(cut_memory_monitor(registry))
}

/// Takes in that the embedder could not install the monitor.
pub fn monitor_enable_failed(registry: &mut MonitorRegistry, error: &str) -> (failure: (
    MonitorTeardown,
    ScriptError,
))
    ensures
        *final(registry) == (MonitorRegistry { on_access: None, ..*old(registry) }),
        failure.0 == (MonitorTeardown {
            disable: old(registry).backend is Some,
            release: old(registry).on_access,
        }),
        failure.1@ == (
            ErrorKind::InternalError,
            "MemoryAccessMonitor.enable(): "@ + error@,
        ),
{
    let teardown: MonitorTeardown = cut_memory_monitor(registry);
    (
        teardown,
        ScriptError {
            kind: ErrorKind::InternalError,
            message: joined("MemoryAccessMonitor.enable(): ", error),
        },
    )
}

/// A monitor that the engine has installed. The fault handler is held only as long as it
/// is.
#[derive(Debug)]
pub struct MonitorState {
    pub monitor: u64,
    pub exceptor: u64,
    pub ranges: Vec<MonitorRange>,
}

/// What has to be asked of the engine next.
#[derive(Clone, Copy, Debug, PartialEq, Eq, Structural)]
pub enum EnablePhase {
    /// A fault handler.
    Exceptor,
    /// A monitor on the ranges.
    Monitor,
    /// That the monitor begins to watch.
    Enable,
    Installed,
    /// What was obtained has to be released again.
    Failed { release_monitor: bool, release_exceptor: bool },
}

/// A monitor on its way to being installed.
#[derive(Debug)]
pub struct MonitorEnable {
    pub phase: EnablePhase,
    pub monitor: u64,
    pub exceptor: u64,
    pub message: String,
}

/// What the engine answers: an object, which is zero if there is none, or whether the
/// monitor watches.
#[derive(Debug)]
pub enum EngineAnswer {
    Object(u64),
    Enabled,
    /// With the reason, if the engine gives one.
    NotEnabled(Option<String>),
}

impl MonitorEnable {
    pub open spec fn wf(&self) -> bool {
        match self.phase {
            EnablePhase::Exceptor => true,
            EnablePhase::Monitor => self.exceptor != 0,
            EnablePhase::Enable | EnablePhase::Installed => self.exceptor != 0 && self.monitor
                != 0,
            EnablePhase::Failed { .. } => true,
        }
    }

    pub fn new() -> (enable: MonitorEnable)
        ensures
            enable.wf(),
            enable.phase == EnablePhase::Exceptor,
    {
        MonitorEnable {
            phase: EnablePhase::Exceptor,
            monitor: 0,
            exceptor: 0,
            message: String::new(),
        }
    }

    /// Takes in an answer of the engine to what the phase asks for.
    pub fn advance(&mut self, answer: EngineAnswer)
        requires
            old(self).wf(),
            old(self).phase == EnablePhase::Exceptor || old(self).phase == EnablePhase::Monitor
                ==> answer is Object,
            old(self).phase == EnablePhase::Enable ==> !(answer is Object),
        ensures
            final(self).wf(),
            match (old(self).phase, answer) {
                (EnablePhase::Exceptor, EngineAnswer::Object(handle)) => if handle == 0 {
                    &&& final(self).phase == (EnablePhase::Failed {
                        release_monitor: false,
                        release_exceptor: false,
                    })
                    &&& final(self).message@
                        == "Gum exceptor is unavailable, so faults cannot be caught"@
                } else {
                    &&& final(self).phase == EnablePhase::Monitor
                    &&& final(self).exceptor == handle
                },
                (EnablePhase::Monitor, EngineAnswer::Object(handle)) => {
                    &&& final(self).exceptor == old(self).exceptor
                    &&& if handle == 0 {
                        &&& final(self).phase == (EnablePhase::Failed {
                            release_monitor: false,
                            release_exceptor: true,
                        })
                        &&& final(self).message@ == "Gum refused to create the monitor"@
                    } else {
                        &&& final(self).phase == EnablePhase::Enable
                        &&& final(self).monitor == handle
                    }
                },
                (EnablePhase::Enable, EngineAnswer::Enabled) => {
                    &&& final(self).phase == EnablePhase::Installed
                    &&& final(self).monitor == old(self).monitor
                    &&& final(self).exceptor == old(self).exceptor
                },
                (EnablePhase::Enable, EngineAnswer::NotEnabled(reason)) => {
                    &&& final(self).phase == (EnablePhase::Failed {
                        release_monitor: true,
                        release_exceptor: true,
                    })
                    &&& final(self).message@ == match reason {
                        Some(text) => text@,
                        None => "unknown error"@,
                    }
                    &&& final(self).monitor == old(self).monitor
                    &&& final(self).exceptor == old(self).exceptor
                },
                _ => *final(self) == *old(self),
            },
    {
        match (self.phase, answer) {
            (EnablePhase::Exceptor, EngineAnswer::Object(handle)) => {
                if handle == 0 {
                    self.phase = EnablePhase::Failed {
                        release_monitor: false,
                        release_exceptor: false,
                    };
                    self.message = String::from_str(
                        "Gum exceptor is unavailable, so faults cannot be caught",
                    );
                } else {
                    self.exceptor = handle;
                    self.phase = EnablePhase::Monitor;
                }
            },
            (EnablePhase::Monitor, EngineAnswer::Object(handle)) => {
                if handle == 0 {
                    self.phase = EnablePhase::Failed {
                        release_monitor: false,
                        release_exceptor: true,
                    };
                    self.message = String::from_str("Gum refused to create the monitor");
                } else {
                    self.monitor = handle;
                    self.phase = EnablePhase::Enable;
                }
            },
            (EnablePhase::Enable, EngineAnswer::Enabled) => {
                self.phase = EnablePhase::Installed;
            },
            (EnablePhase::Enable, EngineAnswer::NotEnabled(reason)) => {
                self.phase = EnablePhase::Failed { release_monitor: true, release_exceptor: true };
                self.message = match reason {
                    Some(text) => text,
                    None => String::from_str("unknown error"),
                };
            },
            _ => {},
        }
    }

    /// The monitor that has been installed.
    pub fn installed(self, ranges: Vec<MonitorRange>) -> (state: Option<MonitorState>)
        ensures
            state is Some <==> self.phase == EnablePhase::Installed,
            state matches Some(s) ==> s.monitor == self.monitor && s.exceptor == self.exceptor
                && s.ranges == ranges,
    {
        match self.phase {
            EnablePhase::Installed => Some(
                MonitorState { monitor: self.monitor, exceptor: self.exceptor, ranges },
            ),
            _ => None,
        }
    }
}

/// Takes the installed monitor out, if there is one, to be disabled and released with its
/// fault handler.
pub fn disable(slot: &mut Option<MonitorState>) -> (taken: Option<MonitorState>)
    ensures
        taken == *old(slot),
        *final(slot) is None,
{
    slot.take()
}

/// Of several wrong ranges the first is told; a range to watch has a base that converts and
/// a size above zero. Ranges that are right are watched as they are given.
pub proof fn the_first_wrong_range_is_told(ranges: Seq<RangeArgument>, at: int)
    requires
        0 <= at <= ranges.len(),
        forall|i: int|
            0 <= i < at ==> (#[trigger] ranges[i]).base is Ok && ranges[i].size is Some
                && ranges[i].size->0 > 0,
        at < ranges.len() ==> ranges[at].base is Err || ranges[at].size is None
            || ranges[at].size->0 <= 0,
    ensures
        at == ranges.len() ==> monitor_ranges_problem(ranges) is None,
        at < ranges.len() && ranges[at].base is Err ==> monitor_ranges_problem(ranges) == Some(
            ranges[at].base->Err_0@,
        ),
        at < ranges.len() && ranges[at].base is Ok ==> monitor_ranges_problem(ranges) == Some(
            (ErrorKind::InternalError, "MemoryAccessMonitor.enable() invalid range size"@),
        ),
        watched_ranges(ranges).len() == ranges.len(),
        forall|i: int|
            0 <= i < at ==> (#[trigger] watched_ranges(ranges)[i]).base == ranges[i].base->Ok_0
                && watched_ranges(ranges)[i].size == ranges[i].size->0,
    decreases ranges.len(),
{
    if ranges.len() > 0 {
        let front = ranges.drop_last();
        assert(forall|i: int| 0 <= i < front.len() ==> #[trigger] front[i] == ranges[i]);
        if at < ranges.len() {
            if at < front.len() {
                the_first_wrong_range_is_told(front, at);
            } else {
                the_first_wrong_range_is_told(front, front.len() as int);
            }
        } else {
            the_first_wrong_range_is_told(front, front.len() as int);
            assert(ranges[ranges.len() - 1].base is Ok);
        }
    }
    assert forall|i: int| 0 <= i < at implies (#[trigger] watched_ranges(ranges)[i]).base
        == ranges[i].base->Ok_0 && watched_ranges(ranges)[i].size == ranges[i].size->0 by {
        assert(ranges[i].size->0 > 0);
    }
}

/// A monitor needs the engine, ranges that are right, at least one of them, and a function
/// to call.
pub proof fn monitors_need_ranges_and_a_function(
    registry: MonitorRegistry,
    argument_count: usize,
    ranges: Option<Seq<RangeArgument>>,
    is_function: bool,
)
    ensures
        enable_problem(registry, argument_count, ranges, is_function) is None <==> {
            &&& registry.backend is Some
            &&& argument_count >= 2
            &&& ranges is Some && ranges->0.len() > 0 && monitor_ranges_problem(ranges->0) is None
            &&& is_function
        },
{
}

} // verus!
