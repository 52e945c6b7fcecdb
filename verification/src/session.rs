//! The client session: a half-duplex request/response state machine.
//!
//! A session is sans-I/O: callers encode a command with one of the
//! `begin_*` operations, write the returned line to their transport,
//! and feed every response frame the device sends into `on_response`
//! until a terminal step comes back. At most one command is ever
//! outstanding: `begin_*` demand an idle session, and only a terminal
//! response returns the session to idle.

use crate::protocol::FastBootCommand;
use crate::protocol::FastBootResponse;
use crate::protocol::FastBootResponseParseError;
use crate::protocol::CommandModel;
use crate::protocol::ResponseModel;
use crate::protocol::spec_wire;
use crate::vars::VarMap;
use vstd::prelude::*;
use vstd::string::StringExecFns;

verus! {

/// Fastboot communication errors.
#[derive(Debug)]
pub enum FastBootError {
    /// The transport failed; carries a description of the cause.
    Transfer(String),
    /// The device reported failure, with the reason it gave.
    FastbootFailed(String),
    /// A well-formed response arrived where the protocol does not
    /// allow it.
    FastbootUnexpectedReply,
    /// The response frame could not be parsed.
    FastbootParseError(FastBootResponseParseError),
}

/// The mathematical shape of a communication error.
pub enum ErrorModel {
    Transfer(Seq<char>),
    FastbootFailed(Seq<char>),
    FastbootUnexpectedReply,
    FastbootParseError(FastBootResponseParseError),
}

impl View for FastBootError {
    type V = ErrorModel;

    open spec fn view(&self) -> ErrorModel {
        match self {
            FastBootError::Transfer(s) => ErrorModel::Transfer(s@),
            FastBootError::FastbootFailed(s) => ErrorModel::FastbootFailed(s@),
            FastBootError::FastbootUnexpectedReply => ErrorModel::FastbootUnexpectedReply,
            FastBootError::FastbootParseError(e) => ErrorModel::FastbootParseError(*e),
        }
    }
}

/// Errors when opening the fastboot device. Opening itself is the
/// transport binding's work; this type names its outcomes.
#[derive(Debug)]
pub enum FastBootOpenError {
    /// Failed to open the device.
    Device(String),
    /// Failed to claim the interface.
    Interface(String),
    /// No interface speaks fastboot.
    MissingInterface,
    /// The fastboot interface lacks the required endpoints.
    MissingEndpoints,
    /// An early response could not be parsed.
    FastbootParseError(FastBootResponseParseError),
}

/// Errors during a data download.
#[derive(Debug)]
pub enum DownloadError {
    /// Trying to complete while nothing was queued.
    NothingQueued,
    /// The device acknowledged a different length than announced.
    IncorrectDataLength { actual: u32, expected: u32 },
    /// The underlying exchange failed.
    Nusb(FastBootError),
}

/// The Unicode characters with the `White_Space` property; these are
/// what trimming a variable line strips.
pub open spec fn spec_is_whitespace(c: char) -> bool {
    let u = c as u32;
    (0x09 <= u && u <= 0x0d) || u == 0x20 || u == 0x85 || u == 0xa0 || u == 0x1680 || (0x2000 <= u
        && u <= 0x200a) || u == 0x2028 || u == 0x2029 || u == 0x202f || u == 0x205f || u == 0x3000
}

fn is_whitespace_char(c: char) -> (r: bool)
    ensures
        r == spec_is_whitespace(c),
{
    let u = c as u32;
    (0x09 <= u && u <= 0x0d) || u == 0x20 || u == 0x85 || u == 0xa0 || u == 0x1680 || (0x2000 <= u
        && u <= 0x200a) || u == 0x2028 || u == 0x2029 || u == 0x202f || u == 0x205f || u == 0x3000
}

pub open spec fn spec_trim_start(s: Seq<char>) -> Seq<char>
    decreases s.len(),
{
    if s.len() > 0 && spec_is_whitespace(s[0]) {
        spec_trim_start(s.skip(1))
    } else {
        s
    }
}

pub open spec fn spec_trim_end(s: Seq<char>) -> Seq<char>
    decreases s.len(),
{
    if s.len() > 0 && spec_is_whitespace(s.last()) {
        spec_trim_end(s.drop_last())
    } else {
        s
    }
}

/// `s` without its leading and trailing whitespace.
pub open spec fn spec_trim(s: Seq<char>) -> Seq<char> {
    spec_trim_end(spec_trim_start(s))
}

fn trim_str(s: &str) -> (r: String)
    ensures
        r@ == spec_trim(s@),
{
    let n = s.unicode_len();
    let mut a: usize = 0;
    proof {
        assert(s@.skip(0) =~= s@);
    }
    while a < n && is_whitespace_char(s.get_char(a))
        invariant
            0 <= a <= n,
            n == s@.len(),
            spec_trim_start(s@) == spec_trim_start(s@.skip(a as int)),
        decreases n - a,
    {
        proof {
            assert(s@.skip(a as int)[0] == s@[a as int]);
            assert(s@.skip(a as int).skip(1) =~= s@.skip(a as int + 1));
        }
        a += 1;
    }
    proof {
        assert(spec_trim_start(s@) == s@.skip(a as int));
        assert(s@.skip(a as int) =~= s@.subrange(a as int, n as int));
    }
    let mut b: usize = n;
    while b > a && is_whitespace_char(s.get_char(b - 1))
        invariant
            0 <= a <= b <= n,
            n == s@.len(),
            spec_trim_start(s@) == s@.skip(a as int),
            spec_trim_end(s@.skip(a as int)) == spec_trim_end(s@.subrange(a as int, b as int)),
        decreases b,
    {
        proof {
            assert(s@.subrange(a as int, b as int).last() == s@[b - 1]);
            assert(s@.subrange(a as int, b as int).drop_last() =~= s@.subrange(
                a as int,
                b as int - 1,
            ));
        }
        b -= 1;
    }
    String::from_str(s.substring_char(a, b))
}

/// Index of the last colon in `s`; -1 when none occurs.
pub open spec fn spec_last_colon(s: Seq<char>) -> int
    decreases s.len(),
{
    if s.len() == 0 {
        -1
    } else if s.last() == ':' {
        s.len() - 1
    } else {
        spec_last_colon(s.drop_last())
    }
}

/// How a variable line from the device splits: at its last colon, both
/// sides trimmed of surrounding whitespace. A line without a colon
/// does not parse.
pub open spec fn spec_split_var_line(line: Seq<char>) -> Option<(Seq<char>, Seq<char>)> {
    let j = spec_last_colon(line);
    if j < 0 {
        None
    } else {
        Some((spec_trim(line.take(j)), spec_trim(line.skip(j + 1))))
    }
}

proof fn lemma_last_colon_at(s: Seq<char>, j: int)
    requires
        0 <= j < s.len(),
        s[j] == ':',
        forall|i: int| j < i < s.len() ==> s[i] != ':',
    ensures
        spec_last_colon(s) == j,
    decreases s.len(),
{
    if j < s.len() - 1 {
        lemma_last_colon_at(s.drop_last(), j);
    }
}

proof fn lemma_last_colon_none(s: Seq<char>)
    requires
        forall|i: int| 0 <= i < s.len() ==> s[i] != ':',
    ensures
        spec_last_colon(s) == -1,
    decreases s.len(),
{
    if s.len() > 0 {
        lemma_last_colon_none(s.drop_last());
    }
}

fn split_var_line(line: &str) -> (r: Option<(String, String)>)
    ensures
        match r {
            Some(kv) => spec_split_var_line(line@) == Some((kv.0@, kv.1@)),
            None => spec_split_var_line(line@) is None,
        },
{
    let n = line.unicode_len();
    let mut b: usize = n;
    while b > 0
        invariant
            0 <= b <= n,
            n == line@.len(),
            forall|i: int| b <= i < n ==> line@[i] != ':',
        decreases b,
    {
        if line.get_char(b - 1) == ':' {
            proof {
                lemma_last_colon_at(line@, b as int - 1);
                assert(line@.subrange(0, b as int - 1) =~= line@.take(b as int - 1));
                assert(line@.subrange(b as int, n as int) =~= line@.skip(b as int));
            }
            let k = trim_str(line.substring_char(0, b - 1));
            let v = trim_str(line.substring_char(b, n));
            return Some((k, v));
        }
        b -= 1;
    }
    proof {
        lemma_last_colon_none(line@);
    }
    None
}

enum SessionState {
    Idle,
    Simple,
    Download { info: Option<String> },
    AllVars { vars: VarMap },
}

/// The mathematical shape of a session: which operation is awaiting
/// responses, and what it has accumulated.
pub enum SessionModel {
    /// No command is outstanding.
    Idle,
    /// A simple command awaits its terminal response.
    Simple,
    /// A download announcement awaits the `DATA` acknowledgement;
    /// `info` concatenates the informational lines seen so far.
    Download { info: Option<Seq<char>> },
    /// A variable listing accumulates its mapping.
    AllVars { vars: Map<Seq<char>, Seq<char>> },
}

/// What one response did to the running operation.
#[derive(Debug)]
pub enum SessionStep {
    /// Non-terminal; keep reading responses.
    Pending,
    /// The operation finished; carries the `OKAY` payload.
    Done(String),
    /// The download announcement was accepted; carries the
    /// concatenated informational lines, when any arrived.
    DownloadReady(Option<String>),
    /// The variable listing finished.
    VarsDone(VarMap),
    /// The operation failed.
    Failed(FastBootError),
}

/// The mathematical shape of a step outcome.
pub enum StepModel {
    Pending,
    Done(Seq<char>),
    DownloadReady(Option<Seq<char>>),
    VarsDone(Map<Seq<char>, Seq<char>>),
    Failed(ErrorModel),
}

impl View for SessionStep {
    type V = StepModel;

    open spec fn view(&self) -> StepModel {
        match self {
            SessionStep::Pending => StepModel::Pending,
            SessionStep::Done(s) => StepModel::Done(s@),
            SessionStep::DownloadReady(i) => StepModel::DownloadReady(
                match i {
                    Some(s) => Some(s@),
                    None => None,
                },
            ),
            SessionStep::VarsDone(m) => StepModel::VarsDone(m@),
            SessionStep::Failed(e) => StepModel::Failed(e@),
        }
    }
}

/// What an informational line does to the accumulated variables: a
/// line with a colon binds its key; one without is skipped.
pub open spec fn spec_insert_var_line(
    vars: Map<Seq<char>, Seq<char>>,
    line: Seq<char>,
) -> Map<Seq<char>, Seq<char>> {
    match spec_split_var_line(line) {
        Some(kv) => vars.insert(kv.0, kv.1),
        None => vars,
    }
}

/// The session's response-handling state machine: what one response
/// does to a waiting operation. `Info` is never terminal; anything
/// else ends the operation and idles the session.
pub open spec fn spec_step(s: SessionModel, r: ResponseModel) -> (SessionModel, StepModel) {
    match s {
        SessionModel::Idle => (SessionModel::Idle, StepModel::Pending),
        SessionModel::Simple => match r {
            ResponseModel::Info(_) => (SessionModel::Simple, StepModel::Pending),
            ResponseModel::Okay(v) => (SessionModel::Idle, StepModel::Done(v)),
            ResponseModel::Fail(f) => (
                SessionModel::Idle,
                StepModel::Failed(ErrorModel::FastbootFailed(f)),
            ),
            ResponseModel::Data(_) => (
                SessionModel::Idle,
                StepModel::Failed(ErrorModel::FastbootUnexpectedReply),
            ),
        },
        SessionModel::Download { info } => match r {
            ResponseModel::Info(i) => (
                SessionModel::Download {
                    info: Some(
                        match info {
                            Some(acc) => acc + i,
                            None => i,
                        },
                    ),
                },
                StepModel::Pending,
            ),
            ResponseModel::Data(_) => (SessionModel::Idle, StepModel::DownloadReady(info)),
            ResponseModel::Okay(_) => (
                SessionModel::Idle,
                StepModel::Failed(ErrorModel::FastbootUnexpectedReply),
            ),
            ResponseModel::Fail(f) => (
                SessionModel::Idle,
                StepModel::Failed(ErrorModel::FastbootFailed(f)),
            ),
        },
        SessionModel::AllVars { vars } => match r {
            ResponseModel::Info(i) => (
                SessionModel::AllVars { vars: spec_insert_var_line(vars, i) },
                StepModel::Pending,
            ),
            ResponseModel::Okay(_) => (SessionModel::Idle, StepModel::VarsDone(vars)),
            ResponseModel::Data(_) => (
                SessionModel::Idle,
                StepModel::Failed(ErrorModel::FastbootUnexpectedReply),
            ),
            ResponseModel::Fail(f) => (
                SessionModel::Idle,
                StepModel::Failed(ErrorModel::FastbootFailed(f)),
            ),
        },
    }
}

/// Fastboot client session.
pub struct Fastboot {
    state: SessionState,
}

impl View for Fastboot {
    type V = SessionModel;

    closed spec fn view(&self) -> SessionModel {
        match self.state {
            SessionState::Idle => SessionModel::Idle,
            SessionState::Simple => SessionModel::Simple,
            SessionState::Download { info } => SessionModel::Download {
                info: match info {
                    Some(s) => Some(s@),
                    None => None,
                },
            },
            SessionState::AllVars { vars } => SessionModel::AllVars { vars: vars@ },
        }
    }
}

impl Fastboot {
    /// The accumulated variable store is well formed.
    pub closed spec fn wf(&self) -> bool {
        match self.state {
            SessionState::AllVars { vars } => vars.wf(),
            _ => true,
        }
    }

    /// A fresh session; no command is outstanding.
    pub fn new() -> (r: Fastboot)
        ensures
            r@ == SessionModel::Idle,
            r.wf(),
    {
        Fastboot { state: SessionState::Idle }
    }

    /// Whether no command is outstanding.
    pub fn is_idle(&self) -> (r: bool)
        ensures
            r == (self@ is Idle),
    {
        match self.state {
            SessionState::Idle => true,
            _ => false,
        }
    }

    /// Encode `cmd` and enter the simple response loop, in which
    /// informational lines are skipped and `OKAY` carries the result.
    /// The caller writes the returned line to the transport as one
    /// frame before reading responses.
    pub fn begin_simple(&mut self, cmd: &FastBootCommand) -> (wire: String)
        requires
            old(self)@ is Idle,
            old(self).wf(),
        ensures
            final(self)@ == SessionModel::Simple,
            final(self).wf(),
            wire@ == spec_wire(cmd@),
    {
        self.state = SessionState::Simple;
        cmd.encode()
    }

    /// Announce a download of `size` bytes and await the device's
    /// `DATA` acknowledgement, concatenating informational lines.
    pub fn begin_download(&mut self, size: u32) -> (wire: String)
        requires
            old(self)@ is Idle,
            old(self).wf(),
        ensures
            final(self)@ == (SessionModel::Download { info: None }),
            final(self).wf(),
            wire@ == spec_wire(CommandModel::Download(size)),
    {
        self.state = SessionState::Download { info: None };
        let cmd = FastBootCommand::Download(size);
        cmd.encode()
    }

    /// Enter the terminal-response loop that follows the streamed
    /// payload of a download; no command frame is written for it.
    pub fn begin_data_phase(&mut self)
        requires
            old(self)@ is Idle,
            old(self).wf(),
        ensures
            final(self)@ == SessionModel::Simple,
            final(self).wf(),
    {
        self.state = SessionState::Simple;
    }

    /// Ask for every variable the device knows and accumulate the
    /// listing the informational lines carry.
    pub fn begin_get_all_vars(&mut self) -> (wire: String)
        requires
            old(self)@ is Idle,
            old(self).wf(),
        ensures
            final(self)@ == (SessionModel::AllVars { vars: Map::<Seq<char>, Seq<char>>::empty() }),
            final(self).wf(),
            wire@ == spec_wire(CommandModel::GetVar("all"@)),
    {
        self.state = SessionState::AllVars { vars: VarMap::new() };
        let cmd = FastBootCommand::GetVar(String::from_str("all"));
        cmd.encode()
    }

    /// Abandon the operation in progress, as after a transport
    /// failure: the session idles and a new command may be issued.
    pub fn abort(&mut self)
        ensures
            final(self)@ == SessionModel::Idle,
            final(self).wf(),
    {
        self.state = SessionState::Idle;
    }

    /// Feed one decoded response to the waiting operation. The session
    /// returns to idle exactly when the step is terminal.
    pub fn on_response(&mut self, resp: FastBootResponse) -> (step: SessionStep)
        requires
            !(old(self)@ is Idle),
            old(self).wf(),
        ensures
            final(self).wf(),
            (final(self)@, step@) == spec_step(old(self)@, resp@),
            step matches SessionStep::VarsDone(m) ==> m.wf(),
    {
        let mut st = SessionState::Idle;
        core::mem::swap(&mut self.state, &mut st);
        match st {
            SessionState::Idle => SessionStep::Pending,
            SessionState::Simple => match resp {
                FastBootResponse::Info(_) => {
                    self.state = SessionState::Simple;
                    SessionStep::Pending
                },
                FastBootResponse::Okay(v) => SessionStep::Done(v),
                FastBootResponse::Fail(f) => SessionStep::Failed(FastBootError::FastbootFailed(f)),
                FastBootResponse::Data(_) => SessionStep::Failed(
                    FastBootError::FastbootUnexpectedReply,
                ),
            },
            SessionState::Download { info } => match resp {
                FastBootResponse::Info(i) => {
                    let joined = match info {
                        Some(mut acc) => {
                            acc.append(i.as_str());
                            acc
                        },
                        None => i,
                    };
                    self.state = SessionState::Download { info: Some(joined) };
                    SessionStep::Pending
                },
                FastBootResponse::Data(_) => SessionStep::DownloadReady(info),
                FastBootResponse::Okay(_) => SessionStep::Failed(
                    FastBootError::FastbootUnexpectedReply,
                ),
                FastBootResponse::Fail(f) => SessionStep::Failed(FastBootError::FastbootFailed(f)),
            },
            SessionState::AllVars { vars } => match resp {
                FastBootResponse::Info(i) => {
                    let mut vars = vars;
                    match split_var_line(i.as_str()) {
                        Some(kv) => {
                            vars.insert(kv.0, kv.1);
                        },
                        None => {},
                    }
                    self.state = SessionState::AllVars { vars };
                    SessionStep::Pending
                },
                FastBootResponse::Okay(_) => SessionStep::VarsDone(vars),
                FastBootResponse::Data(_) => SessionStep::Failed(
                    FastBootError::FastbootUnexpectedReply,
                ),
                FastBootResponse::Fail(f) => SessionStep::Failed(FastBootError::FastbootFailed(f)),
            },
        }
    }
}

/// While an operation awaits responses, an informational line keeps it
/// waiting: the session stays busy and asks for the next response.
pub proof fn lemma_info_keeps_busy(s: SessionModel, r: ResponseModel)
    requires
        !(s is Idle),
        r is Info,
    ensures
        !(spec_step(s, r).0 is Idle),
        spec_step(s, r).1 is Pending,
{
}

/// Any response other than an informational line is terminal: it
/// returns the session to idle, and only an idle session may issue
/// the next command frame (every `begin_*` operation demands one).
pub proof fn lemma_terminal_response_idles(s: SessionModel, r: ResponseModel)
    requires
        !(s is Idle),
        !(r is Info),
    ensures
        spec_step(s, r).0 is Idle,
        !(spec_step(s, r).1 is Pending),
{
}

/// Each operation ends only in its own kind of terminal step: a
/// simple command in `Done`, a download announcement in
/// `DownloadReady`, a variable listing in `VarsDone` — or any of them
/// in `Failed`.
pub proof fn lemma_step_outcomes(s: SessionModel, r: ResponseModel)
    ensures
        s is Simple ==> (spec_step(s, r).1 matches StepModel::Pending
            || spec_step(s, r).1 matches StepModel::Done(_)
            || spec_step(s, r).1 matches StepModel::Failed(_)),
        s is Download ==> (spec_step(s, r).1 matches StepModel::Pending
            || spec_step(s, r).1 matches StepModel::DownloadReady(_)
            || spec_step(s, r).1 matches StepModel::Failed(_)),
        s is AllVars ==> (spec_step(s, r).1 matches StepModel::Pending
            || spec_step(s, r).1 matches StepModel::VarsDone(_)
            || spec_step(s, r).1 matches StepModel::Failed(_)),
{
}

/// The session under a whole sequence of responses.
pub open spec fn spec_run(s: SessionModel, rs: Seq<ResponseModel>) -> SessionModel
    decreases rs.len(),
{
    if rs.len() == 0 {
        s
    } else {
        spec_run(spec_step(s, rs[0]).0, rs.skip(1))
    }
}

/// The sequencing invariant: however many informational lines arrive,
/// a busy session stays busy until a terminal response, so no second
/// command frame can be issued before the first command concluded.
pub proof fn lemma_busy_until_terminal(s: SessionModel, rs: Seq<ResponseModel>)
    requires
        !(s is Idle),
        forall|i: int| 0 <= i < rs.len() ==> rs[i] is Info,
    ensures
        !(spec_run(s, rs) is Idle),
    decreases rs.len(),
{
    if rs.len() > 0 {
        lemma_info_keeps_busy(s, rs[0]);
        lemma_busy_until_terminal(spec_step(s, rs[0]).0, rs.skip(1));
    }
}

} // verus!
