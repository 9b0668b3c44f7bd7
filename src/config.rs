//! The options of one program, with their defaults and validation.
use vstd::prelude::*;

use crate::text::{str_eq, words, words_of};

verus! {

/// When a process that stopped on its own is started again.
#[derive(Clone, Copy, Debug, PartialEq, Eq, Structural)]
pub enum AutoRestart {
    Always,
    Unexpected,
    Never,
}

impl Default for AutoRestart {
    fn default() -> (r: AutoRestart)
        ensures
            r == AutoRestart::Unexpected,
    {
        AutoRestart::Unexpected
    }
}

/// The signal sent to ask a process to stop.
#[derive(Clone, Copy, Debug, PartialEq, Eq, Structural)]
pub enum StopSignal {
    Term,
    Kill,
    Int,
    Quit,
    Hup,
    Usr1,
    Usr2,
}

impl Default for StopSignal {
    fn default() -> (r: StopSignal)
        ensures
            r == StopSignal::Term,
    {
        StopSignal::Term
    }
}

/// Number of identical replicas of a program; never zero.
#[derive(Clone, Copy, Debug, PartialEq, Eq, Structural)]
pub struct NumProcs(pub u32);

impl Default for NumProcs {
    fn default() -> (r: NumProcs)
        ensures
            r.0 == 1,
    {
        NumProcs(1)
    }
}

/// Seconds a process must stay up after spawn before it counts as started.
#[derive(Clone, Copy, Debug, PartialEq, Eq, Structural)]
pub struct StartTimeout(pub u32);

impl Default for StartTimeout {
    fn default() -> (r: StartTimeout)
        ensures
            r.0 == 1,
    {
        StartTimeout(1)
    }
}

/// Seconds between the stop signal and SIGKILL.
#[derive(Clone, Copy, Debug, PartialEq, Eq, Structural)]
pub struct StopTimeout(pub u32);

impl Default for StopTimeout {
    fn default() -> (r: StopTimeout)
        ensures
            r.0 == 10,
    {
        StopTimeout(10)
    }
}

/// File mode creation mask applied around the spawn of a process.
#[derive(Clone, Copy, Debug, PartialEq, Eq, Structural)]
pub struct Umask(pub u32);

/// Directory a process is started in.
#[derive(Clone, Debug)]
pub struct WorkingDir(pub String);

/// Exit codes that count as an expected exit.
#[derive(Clone, Debug)]
pub struct ExitCodes(pub Vec<i32>);

impl Default for ExitCodes {
    fn default() -> (r: ExitCodes)
        ensures
            r.0@ == seq![0i32],
    {
        ExitCodes(vec![0i32])
    }
}

impl ExitCodes {
    /// Whether `code` is one of the expected exit codes.
    pub fn is_valid(&self, code: i32) -> (r: bool)
        ensures
            r == self.0@.contains(code),
    {
        let mut i: usize = 0;
        while i < self.0.len()
            invariant
                0 <= i <= self.0@.len(),
                forall|j: int| 0 <= j < i ==> self.0@[j] != code,
            decreases self.0@.len() - i,
        {
            if self.0[i] == code {
                return true;
            }
            i = i + 1;
        }
        false
    }
}

/// Variables added to the inherited environment of a process.
#[derive(Clone, Debug)]
pub struct Env(pub Vec<(String, String)>);

/// The variables of `e` as text pairs, in order.
pub open spec fn env_view(e: Env) -> Seq<(Seq<char>, Seq<char>)> {
    e.0@.map_values(|kv: (String, String)| (kv.0@, kv.1@))
}

/// The text of an optional string.
pub open spec fn opt_view(o: Option<String>) -> Option<Seq<char>> {
    match o {
        Some(s) => Some(s@),
        None => None,
    }
}

/// The path of an optional working directory.
pub open spec fn dir_view(o: Option<WorkingDir>) -> Option<Seq<char>> {
    match o {
        Some(d) => Some(d.0@),
        None => None,
    }
}

/// The validated options of one program.
#[derive(Clone, Debug)]
pub struct JobConfig {
    /// Executable followed by its arguments, separated by blanks.
    pub cmd: String,
    pub numprocs: NumProcs,
    pub umask: Option<Umask>,
    /// `None`: the daemon's own working directory.
    pub workingdir: Option<WorkingDir>,
    pub autostart: bool,
    pub autorestart: AutoRestart,
    pub exitcodes: ExitCodes,
    /// Failed starts tolerated before the process is declared fatal.
    pub startretries: u32,
    pub starttime: StartTimeout,
    pub stoptime: StopTimeout,
    pub stopsignal: StopSignal,
    pub stdout: Option<String>,
    pub stderr: Option<String>,
    pub env: Env,
}

impl JobConfig {
    pub open spec fn wf(&self) -> bool {
        self.numprocs.0 > 0
    }
}

/// Two configurations describe the same program. Environment variables are
/// compared in the order they were written.
pub open spec fn same_config(a: JobConfig, b: JobConfig) -> bool {
    &&& a.cmd@ == b.cmd@
    &&& a.numprocs == b.numprocs
    &&& a.umask == b.umask
    &&& dir_view(a.workingdir) == dir_view(b.workingdir)
    &&& a.autostart == b.autostart
    &&& a.autorestart == b.autorestart
    &&& a.exitcodes.0@ == b.exitcodes.0@
    &&& a.startretries == b.startretries
    &&& a.starttime == b.starttime
    &&& a.stoptime == b.stoptime
    &&& a.stopsignal == b.stopsignal
    &&& opt_view(a.stdout) == opt_view(b.stdout)
    &&& opt_view(a.stderr) == opt_view(b.stderr)
    &&& env_view(a.env) == env_view(b.env)
}

fn opt_str_eq(a: &Option<String>, b: &Option<String>) -> (r: bool)
    ensures
        r == (opt_view(*a) == opt_view(*b)),
{
    match a {
        Some(x) => match b {
            Some(y) => *x == *y,
            None => false,
        },
        None => b.is_none(),
    }
}

fn dir_eq(a: &Option<WorkingDir>, b: &Option<WorkingDir>) -> (r: bool)
    ensures
        r == (dir_view(*a) == dir_view(*b)),
{
    match a {
        Some(x) => match b {
            Some(y) => x.0 == y.0,
            None => false,
        },
        None => b.is_none(),
    }
}

fn codes_eq(a: &ExitCodes, b: &ExitCodes) -> (r: bool)
    ensures
        r == (a.0@ == b.0@),
{
    if a.0.len() != b.0.len() {
        return false;
    }
    let mut i: usize = 0;
    while i < a.0.len()
        invariant
            a.0@.len() == b.0@.len(),
            0 <= i <= a.0@.len(),
            forall|j: int| 0 <= j < i ==> a.0@[j] == b.0@[j],
        decreases a.0@.len() - i,
    {
        if a.0[i] != b.0[i] {
            return false;
        }
        i = i + 1;
    }
    assert(a.0@ =~= b.0@);
    true
}

fn env_eq(a: &Env, b: &Env) -> (r: bool)
    ensures
        r == (env_view(*a) == env_view(*b)),
{
    if a.0.len() != b.0.len() {
        assert(env_view(*a).len() != env_view(*b).len());
        return false;
    }
    let mut i: usize = 0;
    while i < a.0.len()
        invariant
            a.0@.len() == b.0@.len(),
            0 <= i <= a.0@.len(),
            forall|j: int| 0 <= j < i ==> env_view(*a)[j] == env_view(*b)[j],
        decreases a.0@.len() - i,
    {
        if a.0[i].0 != b.0[i].0 || a.0[i].1 != b.0[i].1 {
            assert(env_view(*a)[i as int] != env_view(*b)[i as int]);
            return false;
        }
        i = i + 1;
    }
    assert(env_view(*a) =~= env_view(*b));
    true
}

impl PartialEq for JobConfig {
    fn eq(&self, o: &JobConfig) -> (r: bool) {
        self.cmd == o.cmd && self.numprocs == o.numprocs && self.umask == o.umask && dir_eq(
            &self.workingdir,
            &o.workingdir,
        ) && self.autostart == o.autostart && self.autorestart == o.autorestart && codes_eq(
            &self.exitcodes,
            &o.exitcodes,
        ) && self.startretries == o.startretries && self.starttime == o.starttime
            && self.stoptime == o.stoptime && self.stopsignal == o.stopsignal && opt_str_eq(
            &self.stdout,
            &o.stdout,
        ) && opt_str_eq(&self.stderr, &o.stderr) && env_eq(&self.env, &o.env)
    }
}

impl vstd::std_specs::cmp::PartialEqSpecImpl for JobConfig {
    open spec fn obeys_eq_spec() -> bool {
        true
    }

    open spec fn eq_spec(&self, o: &JobConfig) -> bool {
        same_config(*self, *o)
    }
}

/// Why a program's options were refused.
#[derive(Clone, Copy, Debug, PartialEq, Eq, Structural)]
pub enum ConfigError {
    EmptyCommand,
    InvalidNumProcs,
    InvalidUmask,
    InvalidAutoRestart,
    InvalidExitCode,
    InvalidStartRetries,
    InvalidStartTime,
    InvalidStopTime,
    InvalidStopSignal,
}

/// The options of one program as written, before defaults and checks.
#[derive(Clone, Debug)]
pub struct RawJobConfig {
    pub cmd: String,
    pub numprocs: Option<u64>,
    /// Octal digits.
    pub umask: Option<String>,
    pub workingdir: Option<String>,
    pub autostart: Option<bool>,
    pub autorestart: Option<String>,
    pub exitcodes: Option<Vec<i64>>,
    pub startretries: Option<u64>,
    pub starttime: Option<u64>,
    pub stoptime: Option<u64>,
    pub stopsignal: Option<String>,
    pub stdout: Option<String>,
    pub stderr: Option<String>,
    /// Values already written as text.
    pub env: Option<Vec<(String, String)>>,
}

/// The policy a word names: `always`, `unexpected` (or `on-unexpected`), `never`.
pub open spec fn autorestart_of(s: Seq<char>) -> Option<AutoRestart> {
    if s == "always"@ {
        Some(AutoRestart::Always)
    } else if s == "unexpected"@ {
        Some(AutoRestart::Unexpected)
    } else if s == "on-unexpected"@ {
        Some(AutoRestart::Unexpected)
    } else if s == "never"@ {
        Some(AutoRestart::Never)
    } else {
        None
    }
}

/// The signal a word names: `TERM`, `KILL`, `INT`, `QUIT`, `HUP`, `USR1`, `USR2`.
pub open spec fn stopsignal_of(s: Seq<char>) -> Option<StopSignal> {
    if s == "TERM"@ {
        Some(StopSignal::Term)
    } else if s == "KILL"@ {
        Some(StopSignal::Kill)
    } else if s == "INT"@ {
        Some(StopSignal::Int)
    } else if s == "QUIT"@ {
        Some(StopSignal::Quit)
    } else if s == "HUP"@ {
        Some(StopSignal::Hup)
    } else if s == "USR1"@ {
        Some(StopSignal::Usr1)
    } else if s == "USR2"@ {
        Some(StopSignal::Usr2)
    } else {
        None
    }
}

pub open spec fn is_octal_digit(c: char) -> bool {
    '0' <= c && c <= '7'
}

/// The value of a string of octal digits.
pub open spec fn octal_value(s: Seq<char>) -> nat
    decreases s.len(),
{
    if s.len() == 0 {
        0
    } else {
        octal_value(s.drop_last()) * 8 + (s.last() as nat - '0' as nat) as nat
    }
}

/// The mask written `s`: non-empty octal digits whose value fits in 32 bits.
pub open spec fn umask_of(s: Seq<char>) -> Option<u32> {
    if s.len() > 0 && (forall|i: int| 0 <= i < s.len() ==> is_octal_digit(#[trigger] s[i]))
        && octal_value(s) <= u32::MAX {
        Some(octal_value(s) as u32)
    } else {
        None
    }
}

proof fn lemma_octal_grows(s: Seq<char>, i: int)
    requires
        0 <= i <= s.len(),
        forall|k: int| 0 <= k < s.len() ==> is_octal_digit(#[trigger] s[k]),
    ensures
        octal_value(s.take(i)) <= octal_value(s),
    decreases s.len() - i,
{
    if i < s.len() {
        lemma_octal_grows(s, i + 1);
        assert(s.take(i + 1).drop_last() =~= s.take(i));
    } else {
        assert(s.take(i) =~= s);
    }
}

impl Umask {
    /// Reads a mask written in octal digits.
    pub fn parse(s: &str) -> (r: Option<Umask>)
        ensures
            r == match umask_of(s@) {
                Some(v) => Some(Umask(v)),
                None => None::<Umask>,
            },
    {
        let n = s.unicode_len();
        if n == 0 {
            return None;
        }
        let mut value: u64 = 0;
        let mut i: usize = 0;
        while i < n
            invariant
                n == s@.len(),
                0 <= i <= n,
                value == octal_value(s@.take(i as int)),
                value <= u32::MAX,
                forall|k: int| 0 <= k < i ==> is_octal_digit(#[trigger] s@[k]),
            decreases n - i,
        {
            let c = s.get_char(i);
            assert(s@.take(i + 1).drop_last() =~= s@.take(i as int));
            if c < '0' || c > '7' {
                return None;
            }
            assert(s@.take(i + 1).last() == c);
            let d = (c as u32 - '0' as u32) as u64;
            value = value * 8 + d;
            if value > 0xffff_ffff {
                proof {
                    assert(s@.take(i + 1).last() == c);
                    if forall|k: int| 0 <= k < s@.len() ==> is_octal_digit(#[trigger] s@[k]) {
                        lemma_octal_grows(s@, i + 1);
                    }
                }
                return None;
            }
            i = i + 1;
        }
        assert(s@.take(n as int) =~= s@);
        Some(Umask(value as u32))
    }
}

/// An optional count that fits in 32 bits.
pub open spec fn fits_u32(o: Option<u64>) -> bool {
    match o {
        Some(v) => v <= u32::MAX,
        None => true,
    }
}

/// An exit code that fits in 32 bits.
pub open spec fn fits_i32(x: i64) -> bool {
    i32::MIN <= x <= i32::MAX
}

/// Optional exit codes that all fit in 32 bits.
pub open spec fn codes_fit(o: Option<Vec<i64>>) -> bool {
    match o {
        Some(v) => forall|i: int| 0 <= i < v@.len() ==> fits_i32(#[trigger] v@[i]),
        None => true,
    }
}

/// The first check that `raw` fails, if any.
pub open spec fn raw_error(raw: RawJobConfig) -> Option<ConfigError> {
    if words_of(raw.cmd@).len() == 0 {
        Some(ConfigError::EmptyCommand)
    } else if raw.numprocs matches Some(n) && (n == 0 || n > u32::MAX) {
        Some(ConfigError::InvalidNumProcs)
    } else if raw.umask matches Some(u) && umask_of(u@) is None {
        Some(ConfigError::InvalidUmask)
    } else if raw.autorestart matches Some(a) && autorestart_of(a@) is None {
        Some(ConfigError::InvalidAutoRestart)
    } else if !codes_fit(raw.exitcodes) {
        Some(ConfigError::InvalidExitCode)
    } else if !fits_u32(raw.startretries) {
        Some(ConfigError::InvalidStartRetries)
    } else if !fits_u32(raw.starttime) {
        Some(ConfigError::InvalidStartTime)
    } else if !fits_u32(raw.stoptime) {
        Some(ConfigError::InvalidStopTime)
    } else if raw.stopsignal matches Some(g) && stopsignal_of(g@) is None {
        Some(ConfigError::InvalidStopSignal)
    } else {
        None
    }
}

/// `c` holds the options written in `raw`, with the defaults for those left
/// out.
pub open spec fn built_from(c: JobConfig, raw: RawJobConfig) -> bool {
    &&& c.cmd@ == raw.cmd@
    &&& c.numprocs.0 == match raw.numprocs {
        Some(n) => n as u32,
        None => 1u32,
    }
    &&& c.umask == match raw.umask {
        Some(u) => Some(Umask(umask_of(u@)->0)),
        None => None,
    }
    &&& dir_view(c.workingdir) == opt_view(raw.workingdir)
    &&& c.autostart == match raw.autostart {
        Some(b) => b,
        None => false,
    }
    &&& c.autorestart == match raw.autorestart {
        Some(a) => autorestart_of(a@)->0,
        None => AutoRestart::Unexpected,
    }
    &&& c.exitcodes.0@ == match raw.exitcodes {
        Some(v) => v@.map_values(|x: i64| x as i32),
        None => seq![0i32],
    }
    &&& c.startretries == match raw.startretries {
        Some(n) => n as u32,
        None => 3u32,
    }
    &&& c.starttime.0 == match raw.starttime {
        Some(n) => n as u32,
        None => 1u32,
    }
    &&& c.stoptime.0 == match raw.stoptime {
        Some(n) => n as u32,
        None => 10u32,
    }
    &&& c.stopsignal == match raw.stopsignal {
        Some(g) => stopsignal_of(g@)->0,
        None => StopSignal::Term,
    }
    &&& opt_view(c.stdout) == opt_view(raw.stdout)
    &&& opt_view(c.stderr) == opt_view(raw.stderr)
    &&& env_view(c.env) == match raw.env {
        Some(e) => env_view(Env(e)),
        None => Seq::empty(),
    }
}

fn parse_autorestart(s: &str) -> (r: Option<AutoRestart>)
    ensures
        r == autorestart_of(s@),
{
    if str_eq(s, "always") {
        Some(AutoRestart::Always)
    } else if str_eq(s, "unexpected") {
        Some(AutoRestart::Unexpected)
    } else if str_eq(s, "on-unexpected") {
        Some(AutoRestart::Unexpected)
    } else if str_eq(s, "never") {
        Some(AutoRestart::Never)
    } else {
        None
    }
}

fn parse_stopsignal(s: &str) -> (r: Option<StopSignal>)
    ensures
        r == stopsignal_of(s@),
{
    if str_eq(s, "TERM") {
        Some(StopSignal::Term)
    } else if str_eq(s, "KILL") {
        Some(StopSignal::Kill)
    } else if str_eq(s, "INT") {
        Some(StopSignal::Int)
    } else if str_eq(s, "QUIT") {
        Some(StopSignal::Quit)
    } else if str_eq(s, "HUP") {
        Some(StopSignal::Hup)
    } else if str_eq(s, "USR1") {
        Some(StopSignal::Usr1)
    } else if str_eq(s, "USR2") {
        Some(StopSignal::Usr2)
    } else {
        None
    }
}

fn narrow_codes(v: &Vec<i64>) -> (r: Option<Vec<i32>>)
    ensures
        match r {
            Some(c) => (forall|i: int| 0 <= i < v@.len() ==> fits_i32(#[trigger] v@[i])) && c@
                == v@.map_values(|x: i64| x as i32),
            None => exists|i: int| 0 <= i < v@.len() && !fits_i32(#[trigger] v@[i]),
        },
{
    let mut out: Vec<i32> = Vec::new();
    let mut i: usize = 0;
    while i < v.len()
        invariant
            0 <= i <= v@.len(),
            out@ == v@.take(i as int).map_values(|x: i64| x as i32),
            forall|k: int| 0 <= k < i ==> fits_i32(#[trigger] v@[k]),
        decreases v@.len() - i,
    {
        let x = v[i];
        if x < i32::MIN as i64 || x > i32::MAX as i64 {
            assert(v@[i as int] == x);
            assert(!fits_i32(v@[i as int]));
            return None;
        }
        out.push(x as i32);
        i = i + 1;
        assert(out@ =~= v@.take(i as int).map_values(|x: i64| x as i32));
    }
    assert(v@.take(v@.len() as int) =~= v@);
    Some(out)
}

fn narrow(o: Option<u64>, default: u32) -> (r: Option<u32>)
    ensures
        match r {
            Some(n) => fits_u32(o) && n == match o {
                Some(x) => x as u32,
                None => default,
            },
            None => !fits_u32(o),
        },
{
    match o {
        Some(x) => if x <= 0xffff_ffff {
            Some(x as u32)
        } else {
            None
        },
        None => Some(default),
    }
}

impl JobConfig {
    /// Checks the options written in `raw` and fills in the defaults: one
    /// replica, no autostart, restart on unexpected exits, exit code 0,
    /// three retries, one second to start, ten to stop, SIGTERM.
    pub fn from_raw(raw: RawJobConfig) -> (r: Result<JobConfig, ConfigError>)
        ensures
            match raw_error(raw) {
                Some(e) => r == Err::<JobConfig, ConfigError>(e),
                None => r is Ok && r->Ok_0.wf() && built_from(r->Ok_0, raw),
            },
    {
        let ghost orig = raw;
        if words(raw.cmd.as_str()).len() == 0 {
            return Err(ConfigError::EmptyCommand);
        }
        let numprocs = match raw.numprocs {
            Some(n) => if n == 0 || n > 0xffff_ffff {
                return Err(ConfigError::InvalidNumProcs);
            } else {
                n as u32
            },
            None => 1u32,
        };
        let umask = match &raw.umask {
            Some(u) => match Umask::parse(u.as_str()) {
                Some(m) => Some(m),
                None => return Err(ConfigError::InvalidUmask),
            },
            None => None,
        };
        let autorestart = match &raw.autorestart {
            Some(a) => match parse_autorestart(a.as_str()) {
                Some(x) => x,
                None => return Err(ConfigError::InvalidAutoRestart),
            },
            None => AutoRestart::Unexpected,
        };
        let exitcodes = match &raw.exitcodes {
            Some(v) => match narrow_codes(v) {
                Some(c) => ExitCodes(c),
                None => return Err(ConfigError::InvalidExitCode),
            },
            None => ExitCodes(vec![0i32]),
        };
        let startretries = match narrow(raw.startretries, 3) {
            Some(n) => n,
            None => return Err(ConfigError::InvalidStartRetries),
        };
        let starttime = match narrow(raw.starttime, 1) {
            Some(n) => n,
            None => return Err(ConfigError::InvalidStartTime),
        };
        let stoptime = match narrow(raw.stoptime, 10) {
            Some(n) => n,
            None => return Err(ConfigError::InvalidStopTime),
        };
        let stopsignal = match &raw.stopsignal {
            Some(g) => match parse_stopsignal(g.as_str()) {
                Some(x) => x,
                None => return Err(ConfigError::InvalidStopSignal),
            },
            None => StopSignal::Term,
        };
        let workingdir = match raw.workingdir {
            Some(d) => Some(WorkingDir(d)),
            None => None,
        };
        let env = match raw.env {
            Some(e) => Env(e),
            None => Env(Vec::new()),
        };
        let c = JobConfig {
            cmd: raw.cmd,
            numprocs: NumProcs(numprocs),
            umask,
            workingdir,
            autostart: match raw.autostart {
                Some(b) => b,
                None => false,
            },
            autorestart,
            exitcodes,
            startretries,
            starttime: StartTimeout(starttime),
            stoptime: StopTimeout(stoptime),
            stopsignal,
            stdout: raw.stdout,
            stderr: raw.stderr,
            env,
        };
        proof {
            assert(c.exitcodes.0@ == match orig.exitcodes {
                Some(v) => v@.map_values(|x: i64| x as i32),
                None => seq![0i32],
            });
            assert(raw_error(orig) is None);
            assert(env_view(c.env) =~= match orig.env {
                Some(e) => env_view(Env(e)),
                None => Seq::empty(),
            });
        }
        Ok(c)
    }

    /// The program and its arguments.
    pub fn argv(&self) -> (r: Vec<String>)
        ensures
            crate::text::strings_view(r@) == words_of(self.cmd@),
    {
        words(self.cmd.as_str())
    }
}

} // verus!
