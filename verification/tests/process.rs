use mncs_model::{
    classify_lifecycle, launch_command, launch_options, CapturedStream, LifecycleFacts, OwnedProcessHandle, OwnedProcessRequest,
    ProcessError, ProcessLifecycleStatus, ProcessObservation, ProcessRequest,
    ProcessResourceEnvelope, ProcessRuntimeError, MAX_ARGUMENTS, MAX_CAPTURE_BYTES,
};

fn request() -> ProcessRequest {
    ProcessRequest::new("printf", vec!["hello".to_owned()])
}

#[test]
fn new_request_has_the_default_bounds() {
    let request = request();
    assert_eq!(request.program, "printf");
    assert_eq!(request.argv, vec!["hello".to_owned()]);
    assert_eq!(request.current_dir, None);
    assert!(request.environment.is_empty() && request.stdin.is_empty());
    assert_eq!(request.stdout_limit, MAX_CAPTURE_BYTES);
    assert_eq!(request.stderr_limit, MAX_CAPTURE_BYTES);
    assert_eq!(request.deadline_ms, 60_000);
    assert_eq!(request.validate(), Ok(()));
}

#[test]
fn validation_reports_the_first_broken_bound() {
    let mut blank = request();
    blank.program = " \t\n".to_owned();
    assert_eq!(blank.validate(), Err(ProcessError::Invalid("program must not be empty".to_owned())));
    let mut many = request();
    many.argv = vec!["x".to_owned(); MAX_ARGUMENTS + 1];
    assert_eq!(many.validate(), Err(ProcessError::Limit("too many argv entries".to_owned())));
    let mut long = request();
    long.argv = vec!["é".repeat(8193)];
    assert_eq!(long.validate(), Err(ProcessError::Limit("argv entry exceeds byte bound".to_owned())));
    let mut env = request();
    env.environment = vec![("A=B".to_owned(), "1".to_owned())];
    assert_eq!(env.validate(), Err(ProcessError::Limit("environment exceeds bound".to_owned())));
    let mut big_env = request();
    big_env.environment = vec![("A".to_owned(), "x".repeat(64 * 1024))];
    assert_eq!(big_env.validate(), Err(ProcessError::Limit("environment exceeds bound".to_owned())));
    let mut capture = request();
    capture.stderr_limit = MAX_CAPTURE_BYTES + 1;
    assert_eq!(capture.validate(), Err(ProcessError::Limit("capture limit exceeds bound".to_owned())));
    let mut deadline = request();
    deadline.deadline_ms = 0;
    assert_eq!(deadline.validate(), Err(ProcessError::Limit("deadline exceeds bound".to_owned())));
    deadline.deadline_ms = 5 * 60 * 1000 + 1;
    assert_eq!(deadline.validate(), Err(ProcessError::Limit("deadline exceeds bound".to_owned())));
    let mut fine_env = request();
    fine_env.environment = vec![("A".to_owned(), "x".repeat(64 * 1024 - 1))];
    assert_eq!(fine_env.validate(), Ok(()));
}

#[test]
fn process_errors_render_their_kind() {
    assert_eq!(ProcessError::Limit("x".to_owned()).message(), "process request exceeds bound: x");
    assert_eq!(ProcessError::Spawn("y".to_owned()).message(), "process spawn failed: y");
    assert_eq!(ProcessRuntimeError::UnknownHandle.message(), "process handle is not owned by this runtime");
    assert_eq!(ProcessRuntimeError::Unknown("z".to_owned()).message(), "process lifecycle observation unknown: z");
}

#[test]
fn capture_keeps_the_first_bytes_up_to_its_limit() {
    let mut capture = CapturedStream::new(4);
    capture.append(b"01");
    assert!(!capture.exceeded);
    capture.append(b"23456789");
    assert_eq!(capture.bytes, b"0123");
    assert!(capture.exceeded);
    capture.append(b"");
    assert_eq!(capture.bytes, b"0123");
    let mut exact = CapturedStream::new(3);
    exact.append(b"abc");
    assert_eq!(exact.bytes, b"abc");
    assert!(!exact.exceeded);
    exact.append(b"d");
    assert!(exact.exceeded);
}

fn owned() -> OwnedProcessRequest {
    OwnedProcessRequest { process: request(), resources: ProcessResourceEnvelope::default() }
}

#[test]
fn owned_requests_check_the_resource_envelope() {
    assert_eq!(owned().validate(), Ok(()));
    let mut inverted = owned();
    inverted.resources.memory_high_bytes = Some(10);
    inverted.resources.memory_max_bytes = Some(5);
    assert_eq!(
        inverted.validate(),
        Err(ProcessRuntimeError::Invalid(
            "memory_high_bytes must be positive and no greater than memory_max_bytes".to_owned()
        ))
    );
    let mut zero = owned();
    zero.resources.process_max = Some(0);
    assert_eq!(
        zero.validate(),
        Err(ProcessRuntimeError::Invalid("resource envelope contains an inconsistent or zero hard limit".to_owned()))
    );
    let mut nul = owned();
    nul.process.environment = vec![("A".to_owned(), "a\0b".to_owned())];
    assert_eq!(
        nul.validate(),
        Err(ProcessRuntimeError::Invalid("environment exceeds its bounded process contract".to_owned()))
    );
    let mut blank = owned();
    blank.process.program = String::new();
    assert_eq!(
        blank.validate(),
        Err(ProcessRuntimeError::Invalid("invalid process request: program must not be empty".to_owned()))
    );
}

#[test]
fn incomplete_observation_claims_nothing() {
    let observation = ProcessObservation::incomplete(ProcessLifecycleStatus::Unsupported);
    assert_eq!(observation.status, ProcessLifecycleStatus::Unsupported);
    assert!(!observation.observation_complete && !observation.launcher_reaped);
    assert_eq!(observation.cleanup_complete, None);
    assert!(observation.stdout.is_empty());
}

#[test]
fn handle_carries_its_token() {
    let handle = OwnedProcessHandle::issued([7u8; 32]);
    assert_eq!(handle.opaque_token(), [7u8; 32]);
}

fn facts() -> LifecycleFacts {
    LifecycleFacts {
        reaped: true,
        unit_inactive: true,
        tree_empty: Some(true),
        provider_ready: true,
        output_exhausted: false,
        timed_out: false,
        resource_exhausted: false,
        cancellation_requested: false,
    }
}

#[test]
fn lifecycle_is_terminal_only_after_complete_cleanup() {
    assert_eq!(classify_lifecycle(facts()), (Some(true), ProcessLifecycleStatus::Exited));
    let running = LifecycleFacts { reaped: false, ..facts() };
    assert_eq!(classify_lifecycle(running), (Some(false), ProcessLifecycleStatus::Running));
    let unknown_tree = LifecycleFacts { tree_empty: None, ..facts() };
    assert_eq!(classify_lifecycle(unknown_tree), (None, ProcessLifecycleStatus::Unknown));
    let populated = LifecycleFacts { tree_empty: Some(false), ..facts() };
    assert_eq!(classify_lifecycle(populated), (Some(false), ProcessLifecycleStatus::Running));
}

#[test]
fn lifecycle_precedence_is_fixed() {
    let all = LifecycleFacts { output_exhausted: true, timed_out: true, resource_exhausted: true, cancellation_requested: true, ..facts() };
    assert_eq!(classify_lifecycle(all).1, ProcessLifecycleStatus::OutputExhausted);
    let timed = LifecycleFacts { timed_out: true, resource_exhausted: true, cancellation_requested: true, ..facts() };
    assert_eq!(classify_lifecycle(timed).1, ProcessLifecycleStatus::TimedOut);
    let resource = LifecycleFacts { resource_exhausted: true, cancellation_requested: true, ..facts() };
    assert_eq!(classify_lifecycle(resource).1, ProcessLifecycleStatus::ResourceExhausted);
    let cancelled = LifecycleFacts { cancellation_requested: true, ..facts() };
    assert_eq!(classify_lifecycle(cancelled).1, ProcessLifecycleStatus::Cancelled);
    let unowned = LifecycleFacts { provider_ready: false, timed_out: true, ..facts() };
    assert_eq!(classify_lifecycle(unowned).1, ProcessLifecycleStatus::Unknown);
}

#[test]
fn launch_arguments_follow_the_request_and_its_envelope() {
    let mut process = ProcessRequest::new("/bin/echo", vec!["hi".to_owned(), "there".to_owned()]);
    process.deadline_ms = 1500;
    process.environment = vec![("LANG".to_owned(), "C".to_owned())];
    let mut owned = OwnedProcessRequest {
        process,
        resources: ProcessResourceEnvelope {
            memory_high_bytes: Some(1024),
            memory_max_bytes: None,
            swap_max_bytes: Some(0),
            process_max: Some(8),
        },
    };
    let options = launch_options("u.service", &owned);
    assert_eq!(
        options,
        vec![
            "--user", "--wait", "--pipe", "--quiet", "--unit=u.service", "--slice=mncs-processes.slice",
            "--working-directory=.", "--property=KillMode=control-group", "--property=TimeoutStopSec=1s",
            "--property=MemoryAccounting=yes", "--property=TasksAccounting=yes", "--property=RuntimeMaxSec=1500ms",
            "--property=MemoryHigh=1024", "--property=MemorySwapMax=0", "--property=TasksMax=8",
        ]
    );
    assert_eq!(launch_command(&owned), vec!["-i", "LANG=C", "/bin/echo", "hi", "there"]);
    owned.process.current_dir = Some("/tmp/work".to_owned());
    owned.resources = ProcessResourceEnvelope::default();
    let options = launch_options("v.service", &owned);
    assert_eq!(options.len(), 12);
    assert_eq!(options[6], "--working-directory=/tmp/work");
}
