//! Owned external work: requests for processes that outlive the call that
//! starts them, their resource envelopes, the observations reported about
//! them, and the classification of a lifecycle from what the provider saw.
//! Starting, observing and reaping the processes is the caller's I/O.

use vstd::prelude::*;
use vstd::string::*;

use crate::process::{
    bad_name, environment_bytes, environment_size, process_error_view, request_problem, text_has_char,
    ProcessRequest, MAX_ENVIRONMENT_BYTES,
};

use crate::text::{decimal, push_decimal};

verus! {

/// Resource limits for one owned process tree; `None` leaves a limit unset.
#[derive(Debug, Clone, PartialEq, Eq, Structural)]
pub struct ProcessResourceEnvelope {
    pub memory_high_bytes: Option<u64>,
    pub memory_max_bytes: Option<u64>,
    pub swap_max_bytes: Option<u64>,
    pub process_max: Option<u64>,
}

impl Default for ProcessResourceEnvelope {
    fn default() -> (r: Self)
        ensures
            r.memory_high_bytes is None,
            r.memory_max_bytes is None,
            r.swap_max_bytes is None,
            r.process_max is None,
    {
        ProcessResourceEnvelope { memory_high_bytes: None, memory_max_bytes: None, swap_max_bytes: None, process_max: None }
    }
}

/// A request for a process that must outlive the call that starts it.
#[derive(Debug, Clone, PartialEq, Eq)]
pub struct OwnedProcessRequest {
    pub process: ProcessRequest,
    pub resources: ProcessResourceEnvelope,
}

#[derive(Debug, Clone, Copy, PartialEq, Eq, Structural)]
pub enum ProcessLifecycleStatus {
    Running,
    Exited,
    Cancelled,
    TimedOut,
    ResourceExhausted,
    OutputExhausted,
    Unsupported,
    Unknown,
}

/// Raw process and cleanup observations; the flags stay independent.
#[derive(Debug, Clone, PartialEq, Eq)]
pub struct ProcessObservation {
    pub status: ProcessLifecycleStatus,
    pub exit_code: Option<i32>,
    pub stdout: Vec<u8>,
    pub stderr: Vec<u8>,
    pub stdout_truncated: bool,
    pub stderr_truncated: bool,
    pub output_exhausted: bool,
    pub deadline_exceeded: bool,
    pub cancellation_requested: bool,
    pub cancellation_complete: bool,
    pub memory_high_events: Option<u64>,
    pub memory_max_events: Option<u64>,
    pub oom_events: Option<u64>,
    pub oom_kill_events: Option<u64>,
    pub process_limit_events: Option<u64>,
    pub memory_peak_bytes: Option<u64>,
    pub swap_peak_bytes: Option<u64>,
    pub process_peak: Option<u64>,
    pub containment_supported: bool,
    pub tree_empty: Option<bool>,
    pub launcher_reaped: bool,
    pub cleanup_complete: Option<bool>,
    pub observation_complete: bool,
    pub duration_ms: u64,
}

#[derive(Debug, Clone, PartialEq, Eq)]
pub enum ProcessRuntimeError {
    Invalid(String),
    Unsupported(String),
    Unknown(String),
    UnknownHandle,
    Limit(String),
}

/// A runtime-scoped bearer capability for one running execution: an opaque
/// token, never a process id.
#[derive(Clone, PartialEq, Eq, Hash)]
pub struct OwnedProcessHandle {
    token: [u8; 32],
}

/// The text of a process request error of variant `kind` with detail `detail`.
pub open spec fn process_error_text(kind: int, detail: Seq<char>) -> Seq<char> {
    if kind == 0 {
        "invalid process request: "@ + detail
    } else if kind == 1 {
        "process request exceeds bound: "@ + detail
    } else if kind == 2 {
        "process spawn failed: "@ + detail
    } else {
        "process I/O failed: "@ + detail
    }
}

/// The UTF-8 encoding of `s` holds a zero byte.
pub open spec fn has_nul(s: Seq<char>) -> bool {
    vstd::utf8::encode_utf8(s).contains(0u8)
}

/// The environment cannot be handed to an owned process.
pub open spec fn owned_environment_bad(env: Seq<(String, String)>) -> bool {
    (exists|i: int|
        0 <= i < env.len() && (has_nul((#[trigger] env[i]).0@) || has_nul(env[i].1@) || bad_name(env[i].0@)))
        || environment_bytes(env) > MAX_ENVIRONMENT_BYTES
}

/// The message of the first check an owned request fails, in order.
pub open spec fn owned_request_problem(r: OwnedProcessRequest) -> Option<Seq<char>> {
    let res = r.resources;
    if request_problem(r.process) is Some {
        Some(process_error_text(request_problem(r.process).unwrap().0, request_problem(r.process).unwrap().1))
    } else if res.memory_high_bytes is Some && (res.memory_high_bytes.unwrap() == 0 || (res.memory_max_bytes is Some
        && res.memory_high_bytes.unwrap() > res.memory_max_bytes.unwrap())) {
        Some("memory_high_bytes must be positive and no greater than memory_max_bytes"@)
    } else if res.memory_max_bytes == Some(0u64) || res.process_max == Some(0u64) || (res.memory_max_bytes is Some
        && res.memory_high_bytes is Some && res.memory_high_bytes.unwrap() > res.memory_max_bytes.unwrap()) {
        Some("resource envelope contains an inconsistent or zero hard limit"@)
    } else if owned_environment_bad(r.process.environment@) {
        Some("environment exceeds its bounded process contract"@)
    } else {
        None
    }
}

fn bytes_have_nul(s: &str) -> (r: bool)
    ensures
        r == has_nul(s@),
{
    let bytes = s.as_bytes();
    let mut i: usize = 0;
    while i < bytes.len()
        invariant
            i <= bytes@.len(),
            bytes@ == vstd::utf8::encode_utf8(s@),
            forall|k: int| 0 <= k < i ==> bytes@[k] != 0u8,
        decreases bytes@.len() - i,
    {
        if bytes[i] == 0 {
            assert(bytes@[i as int] == 0u8);
            return true;
        }
        i = i + 1;
    }
    false
}

impl ProcessRuntimeError {
    /// The error's text: its kind, then its detail.
    pub fn message(&self) -> (r: String)
        ensures
            r@ == (match self {
                ProcessRuntimeError::Invalid(m) => "invalid process request: "@ + m@,
                ProcessRuntimeError::Unsupported(m) => "process lifecycle unsupported: "@ + m@,
                ProcessRuntimeError::Unknown(m) => "process lifecycle observation unknown: "@ + m@,
                ProcessRuntimeError::UnknownHandle => "process handle is not owned by this runtime"@,
                ProcessRuntimeError::Limit(m) => "process lifecycle limit: "@ + m@,
            }),
    {
        match self {
            ProcessRuntimeError::Invalid(m) => {
                let mut out = String::from_str("invalid process request: ");
                out.append(m.as_str());
                out
            },
            ProcessRuntimeError::Unsupported(m) => {
                let mut out = String::from_str("process lifecycle unsupported: ");
                out.append(m.as_str());
                out
            },
            ProcessRuntimeError::Unknown(m) => {
                let mut out = String::from_str("process lifecycle observation unknown: ");
                out.append(m.as_str());
                out
            },
            ProcessRuntimeError::UnknownHandle => String::from_str("process handle is not owned by this runtime"),
            ProcessRuntimeError::Limit(m) => {
                let mut out = String::from_str("process lifecycle limit: ");
                out.append(m.as_str());
                out
            },
        }
    }
}

impl OwnedProcessRequest {
    /// The process request's own checks, then the resource envelope's
    /// consistency, then what an owned environment may carry; every failure
    /// is `Invalid` with the message of the first check that fails.
    pub fn validate(&self) -> (r: Result<(), ProcessRuntimeError>)
        ensures
            r is Ok <==> owned_request_problem(*self) is None,
            r is Err ==> r->Err_0 is Invalid && owned_request_problem(*self) == Some(r->Err_0->Invalid_0@),
    {
        match self.process.validate() {
            Err(error) => {
                let text = error.message();
                proof {
                    let v = process_error_view(error);
                    assert(text@ == process_error_text(v.0, v.1));
                }
                return Err(ProcessRuntimeError::Invalid(text));
            },
            Ok(()) => {},
        }
        let resources = &self.resources;
        match resources.memory_high_bytes {
            Some(high) => {
                let above = match resources.memory_max_bytes {
                    Some(maximum) => high > maximum,
                    None => false,
                };
                if high == 0 || above {
                    return Err(
                        ProcessRuntimeError::Invalid(
                            String::from_str("memory_high_bytes must be positive and no greater than memory_max_bytes"),
                        ),
                    );
                }
            },
            None => {},
        }
        let zero_max = match resources.memory_max_bytes {
            Some(maximum) => maximum == 0,
            None => false,
        };
        let zero_processes = match resources.process_max {
            Some(count) => count == 0,
            None => false,
        };
        let inverted = match (resources.memory_max_bytes, resources.memory_high_bytes) {
            (Some(maximum), Some(high)) => high > maximum,
            _ => false,
        };
        if zero_max || zero_processes || inverted {
            return Err(
                ProcessRuntimeError::Invalid(String::from_str("resource envelope contains an inconsistent or zero hard limit")),
            );
        }
        let env = &self.process.environment;
        let mut bad = false;
        let mut i: usize = 0;
        while i < env.len()
            invariant
                i <= env@.len(),
                bad == exists|k: int|
                    0 <= k < i && (has_nul((#[trigger] env@[k]).0@) || has_nul(env@[k].1@) || bad_name(env@[k].0@)),
            decreases env@.len() - i,
        {
            let name = env[i].0.as_str();
            let value = env[i].1.as_str();
            if bytes_have_nul(name) || bytes_have_nul(value) || name.unicode_len() == 0 || text_has_char(name, '=') {
                bad = true;
            }
            i = i + 1;
        }
        if bad || environment_size(env).is_none() {
            return Err(ProcessRuntimeError::Invalid(String::from_str("environment exceeds its bounded process contract")));
        }
        Ok(())
    }
}

impl ProcessObservation {
    /// An observation for an operation that could not establish process
    /// state: only the status, nothing observed, nothing complete.
    pub fn incomplete(status: ProcessLifecycleStatus) -> (r: Self)
        ensures
            r.status == status,
            r.exit_code is None,
            r.stdout@.len() == 0,
            r.stderr@.len() == 0,
            !r.stdout_truncated && !r.stderr_truncated && !r.output_exhausted,
            !r.deadline_exceeded && !r.cancellation_requested && !r.cancellation_complete,
            r.memory_high_events is None && r.memory_max_events is None && r.oom_events is None,
            r.oom_kill_events is None && r.process_limit_events is None,
            r.memory_peak_bytes is None && r.swap_peak_bytes is None && r.process_peak is None,
            !r.containment_supported,
            r.tree_empty is None,
            !r.launcher_reaped,
            r.cleanup_complete is None,
            !r.observation_complete,
            r.duration_ms == 0,
    {
        ProcessObservation {
            status,
            exit_code: None,
            stdout: Vec::new(),
            stderr: Vec::new(),
            stdout_truncated: false,
            stderr_truncated: false,
            output_exhausted: false,
            deadline_exceeded: false,
            cancellation_requested: false,
            cancellation_complete: false,
            memory_high_events: None,
            memory_max_events: None,
            oom_events: None,
            oom_kill_events: None,
            process_limit_events: None,
            memory_peak_bytes: None,
            swap_peak_bytes: None,
            process_peak: None,
            containment_supported: false,
            tree_empty: None,
            launcher_reaped: false,
            cleanup_complete: None,
            observation_complete: false,
            duration_ms: 0,
        }
    }
}

impl View for OwnedProcessHandle {
    type V = Seq<u8>;

    /// The token.
    closed spec fn view(&self) -> Seq<u8> {
        self.token@
    }
}

impl OwnedProcessHandle {
    /// The handle for a token that its runtime issued.
    pub fn issued(token: [u8; 32]) -> (r: Self)
        ensures
            r@ == token@,
    {
        OwnedProcessHandle { token }
    }

    /// The opaque token the handle carries.
    pub fn opaque_token(&self) -> (r: [u8; 32])
        ensures
            r@ == self@,
    {
        self.token
    }
}

/// What the provider established about an execution at one observation.
#[derive(Debug, Clone, Copy, PartialEq, Eq, Structural)]
pub struct LifecycleFacts {
    /// The launcher has exited and was reaped.
    pub reaped: bool,
    /// The provider unit is inactive (or dead, or failed).
    pub unit_inactive: bool,
    /// Whether the owned process tree is empty, when known.
    pub tree_empty: Option<bool>,
    /// The provider confirmed that it owns the unit.
    pub provider_ready: bool,
    pub output_exhausted: bool,
    pub timed_out: bool,
    pub resource_exhausted: bool,
    pub cancellation_requested: bool,
}

/// Whether cleanup is complete: `Some(true)` once the launcher is reaped,
/// the unit inactive and the tree empty; `Some(false)` while the launcher
/// runs or the tree of an inactive unit is not empty; unknown otherwise.
pub open spec fn cleanup_spec(f: LifecycleFacts) -> Option<bool> {
    if f.reaped && f.unit_inactive && f.tree_empty == Some(true) {
        Some(true)
    } else if !f.reaped || (f.unit_inactive && f.tree_empty == Some(false)) {
        Some(false)
    } else {
        None
    }
}

/// The reported status: for a finished execution the first of unknown
/// provider, output exhaustion, timeout, resource exhaustion, cancellation,
/// plain exit; otherwise unknown when reaped without a cleanup verdict, and
/// running while it is not reaped or not cleaned up.
pub open spec fn lifecycle_spec(f: LifecycleFacts) -> ProcessLifecycleStatus {
    let cleanup = cleanup_spec(f);
    if f.reaped && cleanup == Some(true) {
        if !f.provider_ready {
            ProcessLifecycleStatus::Unknown
        } else if f.output_exhausted {
            ProcessLifecycleStatus::OutputExhausted
        } else if f.timed_out {
            ProcessLifecycleStatus::TimedOut
        } else if f.resource_exhausted {
            ProcessLifecycleStatus::ResourceExhausted
        } else if f.cancellation_requested {
            ProcessLifecycleStatus::Cancelled
        } else {
            ProcessLifecycleStatus::Exited
        }
    } else if cleanup is None && f.reaped {
        ProcessLifecycleStatus::Unknown
    } else {
        ProcessLifecycleStatus::Running
    }
}

/// The cleanup verdict and the lifecycle status for what was observed.
pub fn classify_lifecycle(f: LifecycleFacts) -> (r: (Option<bool>, ProcessLifecycleStatus))
    ensures
        r.0 == cleanup_spec(f),
        r.1 == lifecycle_spec(f),
{
    let cleanup = if f.reaped && f.unit_inactive && f.tree_empty == Some(true) {
        Some(true)
    } else if !f.reaped || (f.unit_inactive && f.tree_empty == Some(false)) {
        Some(false)
    } else {
        None
    };
    let terminal = f.reaped && cleanup == Some(true);
    let status = if terminal {
        if !f.provider_ready {
            ProcessLifecycleStatus::Unknown
        } else if f.output_exhausted {
            ProcessLifecycleStatus::OutputExhausted
        } else if f.timed_out {
            ProcessLifecycleStatus::TimedOut
        } else if f.resource_exhausted {
            ProcessLifecycleStatus::ResourceExhausted
        } else if f.cancellation_requested {
            ProcessLifecycleStatus::Cancelled
        } else {
            ProcessLifecycleStatus::Exited
        }
    } else if cleanup.is_none() && f.reaped {
        ProcessLifecycleStatus::Unknown
    } else {
        ProcessLifecycleStatus::Running
    };
    (cleanup, status)
}

/// A terminal status is reported only for a reaped launcher whose cleanup
/// is complete; an unreaped launcher is always running.
pub proof fn lemma_terminal_needs_cleanup(f: LifecycleFacts)
    ensures
        lifecycle_spec(f) != ProcessLifecycleStatus::Running && lifecycle_spec(f) != ProcessLifecycleStatus::Unknown
            ==> f.reaped && cleanup_spec(f) == Some(true),
        !f.reaped ==> lifecycle_spec(f) == ProcessLifecycleStatus::Running && cleanup_spec(f) == Some(false),
{
}

/// The views of a list of strings.
pub open spec fn arg_views(v: Seq<String>) -> Seq<Seq<char>> {
    v.map_values(|a: String| a@)
}

/// One `prefix<n>` option when the envelope sets `n`, none otherwise.
pub open spec fn limit_option(prefix: Seq<char>, value: Option<u64>) -> Seq<Seq<char>> {
    match value {
        Some(n) => seq![prefix + decimal(n as nat)],
        None => Seq::empty(),
    }
}

/// The options the service manager runs an owned execution with: a
/// transient user unit of the given name in the owned-process slice, piped
/// and waited on, in the request's working directory (`.` by default), whose
/// whole control group is killed on stop, with memory and task accounting,
/// the request's deadline as the unit's runtime limit, and each resource
/// limit the envelope sets.
pub open spec fn launch_options_of(unit: Seq<char>, request: OwnedProcessRequest) -> Seq<Seq<char>> {
    let directory = match request.process.current_dir {
        Some(d) => d@,
        None => "."@,
    };
    let resources = request.resources;
    seq![
        "--user"@,
        "--wait"@,
        "--pipe"@,
        "--quiet"@,
        "--unit="@ + unit,
        "--slice=mncs-processes.slice"@,
        "--working-directory="@ + directory,
        "--property=KillMode=control-group"@,
        "--property=TimeoutStopSec=1s"@,
        "--property=MemoryAccounting=yes"@,
        "--property=TasksAccounting=yes"@,
        "--property=RuntimeMaxSec="@ + decimal(request.process.deadline_ms as nat) + "ms"@,
    ] + limit_option("--property=MemoryHigh="@, resources.memory_high_bytes) + limit_option(
        "--property=MemoryMax="@,
        resources.memory_max_bytes,
    ) + limit_option("--property=MemorySwapMax="@, resources.swap_max_bytes) + limit_option(
        "--property=TasksMax="@,
        resources.process_max,
    )
}

/// The environment assignments `KEY=VALUE`, in the request's order.
pub open spec fn assignments(environment: Seq<(String, String)>) -> Seq<Seq<char>> {
    environment.map_values(|e: (String, String)| e.0@ + "="@ + e.1@)
}

/// The command the unit runs under the explicit-environment launcher: an
/// emptied environment (`-i`), the request's assignments, then the program
/// and its arguments.
pub open spec fn launch_command_of(request: OwnedProcessRequest) -> Seq<Seq<char>> {
    seq!["-i"@] + assignments(request.process.environment@) + seq![request.process.program@] + arg_views(
        request.process.argv@,
    )
}

fn numbered(prefix: &str, n: u64) -> (r: String)
    ensures
        r@ == prefix@ + decimal(n as nat),
{
    let mut out = String::from_str(prefix);
    push_decimal(&mut out, n);
    out
}

fn push_limit(options: &mut Vec<String>, prefix: &str, value: Option<u64>)
    ensures
        arg_views(final(options)@) == arg_views(old(options)@) + limit_option(prefix@, value),
{
    let ghost before = arg_views(options@);
    match value {
        Some(n) => {
            let option = numbered(prefix, n);
            options.push(option);
            assert(arg_views(options@) =~= before + limit_option(prefix@, value));
        },
        None => {
            assert(arg_views(options@) =~= before + limit_option(prefix@, value));
        },
    }
}

fn text_of(s: &str) -> (r: String)
    ensures
        r@ == s@,
{
    String::from_str(s)
}

/// The service-manager options for running `request` as the unit `unit`.
pub fn launch_options(unit: &str, request: &OwnedProcessRequest) -> (r: Vec<String>)
    ensures
        arg_views(r@) == launch_options_of(unit@, *request),
{
    let mut options: Vec<String> = Vec::new();
    options.push(text_of("--user"));
    options.push(text_of("--wait"));
    options.push(text_of("--pipe"));
    options.push(text_of("--quiet"));
    let mut unit_option = String::from_str("--unit=");
    unit_option.append(unit);
    options.push(unit_option);
    options.push(text_of("--slice=mncs-processes.slice"));
    let mut directory = String::from_str("--working-directory=");
    match &request.process.current_dir {
        Some(d) => directory.append(d.as_str()),
        None => directory.append("."),
    }
    options.push(directory);
    options.push(text_of("--property=KillMode=control-group"));
    options.push(text_of("--property=TimeoutStopSec=1s"));
    options.push(text_of("--property=MemoryAccounting=yes"));
    options.push(text_of("--property=TasksAccounting=yes"));
    let mut runtime = numbered("--property=RuntimeMaxSec=", request.process.deadline_ms);
    runtime.append("ms");
    options.push(runtime);
    let ghost fixed = arg_views(options@);
    assert(fixed =~= launch_options_of(unit@, *request).take(12));
    push_limit(&mut options, "--property=MemoryHigh=", request.resources.memory_high_bytes);
    push_limit(&mut options, "--property=MemoryMax=", request.resources.memory_max_bytes);
    push_limit(&mut options, "--property=MemorySwapMax=", request.resources.swap_max_bytes);
    push_limit(&mut options, "--property=TasksMax=", request.resources.process_max);
    proof {
        let res = request.resources;
        let head = launch_options_of(unit@, *request).take(12);
        assert(launch_options_of(unit@, *request) =~= head + limit_option("--property=MemoryHigh="@, res.memory_high_bytes)
            + limit_option("--property=MemoryMax="@, res.memory_max_bytes) + limit_option(
            "--property=MemorySwapMax="@,
            res.swap_max_bytes,
        ) + limit_option("--property=TasksMax="@, res.process_max));
    }
    options
}

/// The launcher arguments for `request`: `-i`, its assignments, its program
/// and its arguments.
pub fn launch_command(request: &OwnedProcessRequest) -> (r: Vec<String>)
    ensures
        arg_views(r@) == launch_command_of(*request),
{
    let mut command: Vec<String> = Vec::new();
    command.push(text_of("-i"));
    let environment = &request.process.environment;
    let mut i: usize = 0;
    while i < environment.len()
        invariant
            i <= environment@.len(),
            environment@ == request.process.environment@,
            arg_views(command@) == seq!["-i"@] + assignments(environment@.take(i as int)),
        decreases environment@.len() - i,
    {
        let mut assignment = environment[i].0.clone();
        assignment.append("=");
        assignment.append(environment[i].1.as_str());
        let ghost before = arg_views(command@);
        command.push(assignment);
        proof {
            assert(assignments(environment@.take(i + 1)) =~= assignments(environment@.take(i as int)).push(
                environment@[i as int].0@ + "="@ + environment@[i as int].1@,
            ));
            assert(arg_views(command@) =~= before.push(assignment@));
        }
        i = i + 1;
    }
    assert(environment@.take(environment@.len() as int) =~= environment@);
    let ghost with_env = arg_views(command@);
    command.push(request.process.program.clone());
    let argv = &request.process.argv;
    let mut j: usize = 0;
    assert(arg_views(command@) =~= with_env + seq![request.process.program@] + arg_views(argv@.take(0)));
    while j < argv.len()
        invariant
            j <= argv@.len(),
            argv@ == request.process.argv@,
            arg_views(command@) == with_env + seq![request.process.program@] + arg_views(argv@.take(j as int)),
        decreases argv@.len() - j,
    {
        let ghost before = arg_views(command@);
        command.push(argv[j].clone());
        proof {
            assert(arg_views(argv@.take(j + 1)) =~= arg_views(argv@.take(j as int)).push(argv@[j as int]@));
            assert(arg_views(command@) =~= before.push(argv@[j as int]@));
        }
        j = j + 1;
    }
    assert(argv@.take(argv@.len() as int) =~= argv@);
    command
}

/// The memory-high limit is refused exactly when it is zero or above the
/// hard maximum: a high limit that is positive and no greater than the
/// maximum (equal included), or no high limit at all, is never refused for
/// it.
pub proof fn lemma_memory_high_refusal(r: OwnedProcessRequest)
    requires
        request_problem(r.process) is None,
    ensures
        (r.resources.memory_high_bytes matches Some(h) && (h == 0 || (r.resources.memory_max_bytes matches Some(m)
            && h > m))) ==> owned_request_problem(r) == Some(
            "memory_high_bytes must be positive and no greater than memory_max_bytes"@,
        ),
        (r.resources.memory_high_bytes matches Some(h) ==> (0 < h && (r.resources.memory_max_bytes matches Some(m)
            ==> h <= m))) ==> owned_request_problem(r) != Some(
            "memory_high_bytes must be positive and no greater than memory_max_bytes"@,
        ),
{
    reveal_strlit("memory_high_bytes must be positive and no greater than memory_max_bytes");
    reveal_strlit("resource envelope contains an inconsistent or zero hard limit");
    reveal_strlit("environment exceeds its bounded process contract");
    let high = "memory_high_bytes must be positive and no greater than memory_max_bytes"@;
    assert("resource envelope contains an inconsistent or zero hard limit"@[0] != high[0]);
    assert("environment exceeds its bounded process contract"@[0] != high[0]);
}

/// A well-formed request whose envelope is consistent (a positive high
/// limit no greater than the maximum, nonzero hard limits) and whose
/// environment fits is accepted.
pub proof fn lemma_consistent_envelope_accepted(r: OwnedProcessRequest)
    requires
        request_problem(r.process) is None,
        !owned_environment_bad(r.process.environment@),
        r.resources.memory_max_bytes != Some(0u64),
        r.resources.process_max != Some(0u64),
        r.resources.memory_high_bytes matches Some(h) ==> (0 < h && (r.resources.memory_max_bytes matches Some(m)
            ==> h <= m)),
    ensures
        owned_request_problem(r) is None,
{
}

/// A zero hard limit (memory maximum or process count) is always refused.
pub proof fn lemma_zero_hard_limit_refused(r: OwnedProcessRequest)
    requires
        r.resources.memory_max_bytes == Some(0u64) || r.resources.process_max == Some(0u64),
    ensures
        owned_request_problem(r) is Some,
{
}

} // verus!
