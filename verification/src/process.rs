//! Bounded explicit-argv process requests: their limits, their validation,
//! and the bounded capture of what a process writes. Running a request is
//! the caller's I/O; everything decided about a request is here.

use vstd::prelude::*;
use vstd::string::*;

verus! {

pub const MAX_ARGUMENTS: usize = 128;

pub const MAX_ARGUMENT_BYTES: usize = 16 * 1024;

pub const MAX_ENVIRONMENT: usize = 128;

pub const MAX_ENVIRONMENT_BYTES: usize = 64 * 1024;

pub const MAX_STDIN_BYTES: usize = 4 * 1024 * 1024;

pub const MAX_CAPTURE_BYTES: usize = 4 * 1024 * 1024;

pub const MAX_DEADLINE_MS: u64 = 5 * 60 * 1000;

/// An explicit program and argv with a bounded environment, input, capture
/// and deadline. The environment is a list of (name, value) pairs.
#[derive(Debug, Clone, PartialEq, Eq)]
pub struct ProcessRequest {
    pub program: String,
    pub argv: Vec<String>,
    pub current_dir: Option<String>,
    pub environment: Vec<(String, String)>,
    pub stdin: Vec<u8>,
    pub stdout_limit: usize,
    pub stderr_limit: usize,
    pub deadline_ms: u64,
}

#[derive(Debug, Clone, PartialEq, Eq)]
pub struct ProcessResult {
    pub status: ExitStatus,
    pub stdout: Vec<u8>,
    pub stderr: Vec<u8>,
    pub stdout_truncated: bool,
    pub stderr_truncated: bool,
    pub timed_out: bool,
    pub duration_ms: u64,
}

#[derive(Debug, Clone, PartialEq, Eq)]
pub struct ExitStatus {
    pub code: Option<i32>,
    pub success: bool,
}

#[derive(Debug, Clone, PartialEq, Eq)]
pub enum ProcessError {
    Invalid(String),
    Limit(String),
    Spawn(String),
    Io(String),
}

/// Whether `c` has the Unicode White_Space property (what
/// `char::is_whitespace` decides): tab through carriage return, space, next
/// line, no-break space, ogham space mark, the spaces U+2000 to U+200A, line
/// and paragraph separators, narrow no-break space, medium mathematical
/// space, and ideographic space.
pub open spec fn white_space(c: char) -> bool {
    let u = c as u32;
    ||| 0x09 <= u <= 0x0D
    ||| u == 0x20
    ||| u == 0x85
    ||| u == 0xA0
    ||| u == 0x1680
    ||| 0x2000 <= u <= 0x200A
    ||| u == 0x2028
    ||| u == 0x2029
    ||| u == 0x202F
    ||| u == 0x205F
    ||| u == 0x3000
}

/// Whether `c` is white space.
pub(crate) fn is_white_space(c: char) -> (r: bool)
    ensures
        r == white_space(c),
{
    let u = c as u32;
    (0x09 <= u && u <= 0x0D) || u == 0x20 || u == 0x85 || u == 0xA0 || u == 0x1680 || (0x2000 <= u && u <= 0x200A)
        || u == 0x2028 || u == 0x2029 || u == 0x202F || u == 0x205F || u == 0x3000
}

/// Nothing but white space (what trimming leaves empty).
pub open spec fn blank(s: Seq<char>) -> bool {
    forall|i: int| 0 <= i < s.len() ==> white_space(#[trigger] s[i])
}

/// The length of the UTF-8 encoding of `s`.
pub open spec fn utf8_len(s: Seq<char>) -> nat {
    vstd::utf8::encode_utf8(s).len()
}

/// The UTF-8 bytes of the environment's names and values, in total.
pub open spec fn environment_bytes(env: Seq<(String, String)>) -> nat
    decreases env.len(),
{
    if env.len() == 0 {
        0
    } else {
        environment_bytes(env.drop_last()) + utf8_len(env.last().0@) + utf8_len(env.last().1@)
    }
}

/// An environment name that a process environment cannot carry.
pub open spec fn bad_name(name: Seq<char>) -> bool {
    name.len() == 0 || name.contains('=')
}

pub open spec fn request_environment_ok(env: Seq<(String, String)>) -> bool {
    &&& env.len() <= MAX_ENVIRONMENT
    &&& forall|i: int| 0 <= i < env.len() ==> !bad_name((#[trigger] env[i]).0@)
    &&& environment_bytes(env) <= MAX_ENVIRONMENT_BYTES
}

/// An error as (variant position, message).
pub open spec fn process_error_view(e: ProcessError) -> (int, Seq<char>) {
    match e {
        ProcessError::Invalid(m) => (0, m@),
        ProcessError::Limit(m) => (1, m@),
        ProcessError::Spawn(m) => (2, m@),
        ProcessError::Io(m) => (3, m@),
    }
}

/// The first bound a request breaks, in the order they are checked.
pub open spec fn request_problem(r: ProcessRequest) -> Option<(int, Seq<char>)> {
    if blank(r.program@) {
        Some((0, "program must not be empty"@))
    } else if r.argv@.len() > MAX_ARGUMENTS {
        Some((1, "too many argv entries"@))
    } else if exists|i: int| 0 <= i < r.argv@.len() && utf8_len((#[trigger] r.argv@[i])@) > MAX_ARGUMENT_BYTES {
        Some((1, "argv entry exceeds byte bound"@))
    } else if !request_environment_ok(r.environment@) {
        Some((1, "environment exceeds bound"@))
    } else if r.stdin@.len() > MAX_STDIN_BYTES {
        Some((1, "stdin exceeds byte bound"@))
    } else if r.stdout_limit > MAX_CAPTURE_BYTES || r.stderr_limit > MAX_CAPTURE_BYTES {
        Some((1, "capture limit exceeds bound"@))
    } else if r.deadline_ms == 0 || r.deadline_ms > MAX_DEADLINE_MS {
        Some((1, "deadline exceeds bound"@))
    } else {
        None
    }
}

/// Whether the text contains `c`.
pub(crate) fn text_has_char(s: &str, c: char) -> (r: bool)
    ensures
        r == s@.contains(c),
{
    let n = s.unicode_len();
    let mut i: usize = 0;
    while i < n
        invariant
            n == s@.len(),
            i <= n,
            forall|k: int| 0 <= k < i ==> s@[k] != c,
        decreases n - i,
    {
        if s.get_char(i) == c {
            assert(s@[i as int] == c);
            return true;
        }
        i = i + 1;
    }
    false
}

fn is_blank(s: &str) -> (r: bool)
    ensures
        r == blank(s@),
{
    let n = s.unicode_len();
    let mut i: usize = 0;
    while i < n
        invariant
            n == s@.len(),
            i <= n,
            forall|k: int| 0 <= k < i ==> white_space(#[trigger] s@[k]),
        decreases n - i,
    {
        if !is_white_space(s.get_char(i)) {
            return false;
        }
        i = i + 1;
    }
    true
}

/// The environment's byte total, or `None` once it exceeds `MAX_ENVIRONMENT_BYTES`.
pub(crate) fn environment_size(env: &Vec<(String, String)>) -> (r: Option<usize>)
    ensures
        r is Some <==> environment_bytes(env@) <= MAX_ENVIRONMENT_BYTES,
        r is Some ==> r.unwrap() == environment_bytes(env@),
{
    let mut total: usize = 0;
    let mut i: usize = 0;
    while i < env.len()
        invariant
            i <= env@.len(),
            total == environment_bytes(env@.subrange(0, i as int)),
            total <= MAX_ENVIRONMENT_BYTES,
        decreases env@.len() - i,
    {
        proof {
            assert(env@.subrange(0, i as int + 1).drop_last() =~= env@.subrange(0, i as int));
            assert(env@.subrange(0, i as int + 1).last() == env@[i as int]);
        }
        let key = env[i].0.as_str().as_bytes().len();
        let value = env[i].1.as_str().as_bytes().len();
        if key > MAX_ENVIRONMENT_BYTES - total || value > MAX_ENVIRONMENT_BYTES - total - key {
            proof {
                lemma_environment_bytes_grow(env@, i as int + 1);
            }
            return None;
        }
        total = total + key + value;
        i = i + 1;
    }
    assert(env@.subrange(0, i as int) =~= env@);
    Some(total)
}

proof fn lemma_environment_bytes_grow(env: Seq<(String, String)>, n: int)
    requires
        0 <= n <= env.len(),
    ensures
        environment_bytes(env.subrange(0, n)) <= environment_bytes(env),
    decreases env.len() - n,
{
    if n < env.len() {
        lemma_environment_bytes_grow(env, n + 1);
        assert(env.subrange(0, n + 1).drop_last() =~= env.subrange(0, n));
    } else {
        assert(env.subrange(0, n) =~= env);
    }
}

impl ProcessRequest {
    /// A request for `program` with `argv`: no directory, an empty
    /// environment and input, the largest capture and a one-minute deadline.
    pub fn new(program: &str, argv: Vec<String>) -> (r: Self)
        ensures
            r.program@ == program@,
            r.argv@ == argv@,
            r.current_dir is None,
            r.environment@.len() == 0,
            r.stdin@.len() == 0,
            r.stdout_limit == MAX_CAPTURE_BYTES,
            r.stderr_limit == MAX_CAPTURE_BYTES,
            r.deadline_ms == 60_000,
    {
        Self {
            program: String::from_str(program),
            argv,
            current_dir: None,
            environment: Vec::new(),
            stdin: Vec::new(),
            stdout_limit: MAX_CAPTURE_BYTES,
            stderr_limit: MAX_CAPTURE_BYTES,
            deadline_ms: 60_000,
        }
    }

    /// The first bound the request breaks, checked in a fixed order, or
    /// `Ok` when it keeps them all.
    pub fn validate(&self) -> (r: Result<(), ProcessError>)
        ensures
            r is Ok <==> request_problem(*self) is None,
            r is Err ==> request_problem(*self) == Some(process_error_view(r->Err_0)),
    {
        if is_blank(self.program.as_str()) {
            return Err(ProcessError::Invalid(String::from_str("program must not be empty")));
        }
        if self.argv.len() > MAX_ARGUMENTS {
            return Err(ProcessError::Limit(String::from_str("too many argv entries")));
        }
        let mut i: usize = 0;
        while i < self.argv.len()
            invariant
                i <= self.argv@.len(),
                !blank(self.program@),
                self.argv@.len() <= MAX_ARGUMENTS,
                forall|k: int| 0 <= k < i ==> utf8_len((#[trigger] self.argv@[k])@) <= MAX_ARGUMENT_BYTES,
            decreases self.argv@.len() - i,
        {
            if self.argv[i].as_str().as_bytes().len() > MAX_ARGUMENT_BYTES {
                assert(utf8_len(self.argv@[i as int]@) > MAX_ARGUMENT_BYTES);
                return Err(ProcessError::Limit(String::from_str("argv entry exceeds byte bound")));
            }
            i = i + 1;
        }
        let mut names_ok = true;
        let mut j: usize = 0;
        while j < self.environment.len()
            invariant
                j <= self.environment@.len(),
                names_ok == forall|k: int| 0 <= k < j ==> !bad_name((#[trigger] self.environment@[k]).0@),
            decreases self.environment@.len() - j,
        {
            let name = self.environment[j].0.as_str();
            if name.unicode_len() == 0 || text_has_char(name, '=') {
                names_ok = false;
            }
            j = j + 1;
        }
        if self.environment.len() > MAX_ENVIRONMENT || !names_ok || environment_size(&self.environment).is_none() {
            return Err(ProcessError::Limit(String::from_str("environment exceeds bound")));
        }
        if self.stdin.len() > MAX_STDIN_BYTES {
            return Err(ProcessError::Limit(String::from_str("stdin exceeds byte bound")));
        }
        if self.stdout_limit > MAX_CAPTURE_BYTES || self.stderr_limit > MAX_CAPTURE_BYTES {
            return Err(ProcessError::Limit(String::from_str("capture limit exceeds bound")));
        }
        if self.deadline_ms == 0 || self.deadline_ms > MAX_DEADLINE_MS {
            return Err(ProcessError::Limit(String::from_str("deadline exceeds bound")));
        }
        Ok(())
    }
}

impl ProcessError {
    /// The error's text: its kind, then its detail.
    pub fn message(&self) -> (r: String)
        ensures
            r@ == (match self {
                ProcessError::Invalid(m) => "invalid process request: "@ + m@,
                ProcessError::Limit(m) => "process request exceeds bound: "@ + m@,
                ProcessError::Spawn(m) => "process spawn failed: "@ + m@,
                ProcessError::Io(m) => "process I/O failed: "@ + m@,
            }),
    {
        let (prefix, detail) = match self {
            ProcessError::Invalid(m) => ("invalid process request: ", m),
            ProcessError::Limit(m) => ("process request exceeds bound: ", m),
            ProcessError::Spawn(m) => ("process spawn failed: ", m),
            ProcessError::Io(m) => ("process I/O failed: ", m),
        };
        let mut out = String::from_str(prefix);
        out.append(detail.as_str());
        out
    }
}

/// What a capture holds after `chunk` arrives: the bytes that still fit
/// under `limit`, and whether anything did not fit.
pub open spec fn capture_step(bytes: Seq<u8>, exceeded: bool, limit: nat, chunk: Seq<u8>) -> (Seq<u8>, bool) {
    let remaining: int = if bytes.len() < limit { limit - bytes.len() } else { 0 };
    let kept: int = if chunk.len() < remaining { chunk.len() as int } else { remaining };
    (bytes + chunk.take(kept), exceeded || chunk.len() > remaining)
}

/// The capture after every chunk of `chunks` arrived, in order, from empty.
pub open spec fn capture_of(limit: nat, chunks: Seq<Seq<u8>>) -> (Seq<u8>, bool)
    decreases chunks.len(),
{
    if chunks.len() == 0 {
        (Seq::empty(), false)
    } else {
        let before = capture_of(limit, chunks.drop_last());
        capture_step(before.0, before.1, limit, chunks.last())
    }
}

/// Everything that arrived, in order.
pub open spec fn concat_chunks(chunks: Seq<Seq<u8>>) -> Seq<u8>
    decreases chunks.len(),
{
    if chunks.len() == 0 {
        Seq::empty()
    } else {
        concat_chunks(chunks.drop_last()) + chunks.last()
    }
}

/// A bounded capture keeps exactly the first `limit` bytes of everything
/// that arrived, and records an overflow exactly when more than `limit`
/// bytes arrived.
pub proof fn lemma_capture_keeps_prefix(limit: nat, chunks: Seq<Seq<u8>>)
    ensures
        capture_of(limit, chunks).0 == concat_chunks(chunks).take(
            if concat_chunks(chunks).len() < limit { concat_chunks(chunks).len() as int } else { limit as int },
        ),
        capture_of(limit, chunks).1 == (concat_chunks(chunks).len() > limit),
    decreases chunks.len(),
{
    if chunks.len() > 0 {
        let rest = chunks.drop_last();
        lemma_capture_keeps_prefix(limit, rest);
        let all = concat_chunks(chunks);
        let prior = concat_chunks(rest);
        let c = chunks.last();
        assert(all == prior + c);
        let kept_before: int = if prior.len() < limit { prior.len() as int } else { limit as int };
        let remaining: int = if kept_before < limit { limit - kept_before } else { 0 };
        let kept: int = if c.len() < remaining { c.len() as int } else { remaining };
        let n: int = if all.len() < limit { all.len() as int } else { limit as int };
        assert(prior.take(kept_before) + c.take(kept) =~= all.take(n));
    }
}

/// The captured bytes of one output stream, bounded by `limit`.
#[derive(Debug)]
pub struct CapturedStream {
    pub bytes: Vec<u8>,
    pub limit: usize,
    pub exceeded: bool,
}

impl CapturedStream {
    pub fn new(limit: usize) -> (r: Self)
        ensures
            r.bytes@.len() == 0,
            r.limit == limit,
            !r.exceeded,
    {
        CapturedStream { bytes: Vec::new(), limit, exceeded: false }
    }

    /// Keep what still fits of `chunk`; remember when something did not.
    pub fn append(&mut self, chunk: &[u8])
        ensures
            final(self).limit == old(self).limit,
            (final(self).bytes@, final(self).exceeded) == capture_step(
                old(self).bytes@,
                old(self).exceeded,
                old(self).limit as nat,
                chunk@,
            ),
    {
        let remaining: usize = if self.bytes.len() < self.limit { self.limit - self.bytes.len() } else { 0 };
        let kept: usize = if chunk.len() < remaining { chunk.len() } else { remaining };
        let ghost before = self.bytes@;
        let ghost limit = self.limit;
        let ghost exceeded = self.exceeded;
        let mut i: usize = 0;
        while i < kept
            invariant
                self.limit == limit,
                self.exceeded == exceeded,
                i <= kept,
                kept <= chunk@.len(),
                self.bytes@ == before + chunk@.take(i as int),
            decreases kept - i,
        {
            self.bytes.push(chunk[i]);
            assert(chunk@.take(i as int + 1) =~= chunk@.take(i as int).push(chunk@[i as int]));
            i = i + 1;
        }
        self.exceeded = self.exceeded || chunk.len() > remaining;
    }
}

} // verus!
