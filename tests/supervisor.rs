use taskmaster::config::{AutoRestart, ConfigError, ExitCodes, JobConfig, RawJobConfig, StopSignal, Umask};
use taskmaster::control::Control;
use taskmaster::discovery::{find_config, pick_config};
use taskmaster::job::{Job, JobError, Order};
use taskmaster::jobs::{Jobs, JobsError};
use taskmaster::listener::{Action, ParseError};
use taskmaster::process::{ExitStatus, Process, RunningStatus, State, Step, StopError, StoppedStatus};
use taskmaster::sleeper::Sleeper;

fn raw(cmd: &str) -> RawJobConfig {
    RawJobConfig {
        cmd: cmd.to_string(),
        numprocs: None,
        umask: None,
        workingdir: None,
        autostart: None,
        autorestart: None,
        exitcodes: None,
        startretries: None,
        starttime: None,
        stoptime: None,
        stopsignal: None,
        stdout: None,
        stderr: None,
        env: None,
    }
}

fn config(r: RawJobConfig) -> JobConfig {
    JobConfig::from_raw(r).unwrap()
}

fn set(entries: Vec<(&str, RawJobConfig)>) -> Jobs {
    let mut v = Vec::new();
    for (n, r) in entries {
        v.push((n.to_string(), config(r)));
    }
    Jobs::from_configs(v).unwrap()
}

fn exited(pid: u32, code: i32) -> (u32, ExitStatus) {
    (pid, ExitStatus { code: Some(code) })
}

fn signalled(pid: u32) -> (u32, ExitStatus) {
    (pid, ExitStatus { code: None })
}

fn status_of(jobs: &Jobs, name: &str, now: u64) -> String {
    jobs.status(name, now).unwrap()
}

/// Moves the test into a fresh directory that holds a `config.yml`; the
/// directory goes away with the guard.
fn config_fixture() -> tempfile::TempDir {
    let dir = tempfile::tempdir().unwrap();
    let file = tempfile::NamedTempFile::new_in(dir.path()).unwrap();
    file.persist(dir.path().join("config.yml")).unwrap();
    nix::unistd::chdir(dir.path()).unwrap();
    dir
}

#[test]
fn test_find_config() {
    let _config = config_fixture();
    assert!(find_config().is_some());
    assert_eq!(find_config(), Some("config.yml".to_string()));
}

#[test]
fn pick_config_takes_the_first_found() {
    assert_eq!(pick_config(&[true, true, true]), Some("config.yml".to_string()));
    assert_eq!(pick_config(&[false, true, true]), Some("../config.yml".to_string()));
    assert_eq!(
        pick_config(&[false, false, true]),
        Some("/etc/taskmasterd/config.yml".to_string())
    );
    assert_eq!(pick_config(&[false, false, false]), None);
}

#[test]
fn defaults_are_filled_in() {
    let c = config(raw("/bin/sleep 10"));
    assert_eq!(c.numprocs.0, 1);
    assert_eq!(c.umask, None);
    assert!(c.workingdir.is_none());
    assert!(!c.autostart);
    assert_eq!(c.autorestart, AutoRestart::Unexpected);
    assert_eq!(c.exitcodes.0, vec![0]);
    assert_eq!(c.startretries, 3);
    assert_eq!(c.starttime.0, 1);
    assert_eq!(c.stoptime.0, 10);
    assert_eq!(c.stopsignal, StopSignal::Term);
    assert!(c.env.0.is_empty());
}

#[test]
fn options_are_read() {
    let mut r = raw("/usr/local/bin/nginx -c /etc/nginx/test.conf");
    r.numprocs = Some(2);
    r.umask = Some("022".to_string());
    r.workingdir = Some("/tmp".to_string());
    r.autostart = Some(true);
    r.autorestart = Some("always".to_string());
    r.exitcodes = Some(vec![0, 2]);
    r.startretries = Some(5);
    r.starttime = Some(4);
    r.stoptime = Some(7);
    r.stopsignal = Some("USR1".to_string());
    r.env = Some(vec![("ANSWER".to_string(), "42".to_string())]);
    let c = config(r);
    assert_eq!(c.numprocs.0, 2);
    assert_eq!(c.umask, Some(Umask(0o22)));
    assert_eq!(c.workingdir.unwrap().0, "/tmp");
    assert!(c.autostart);
    assert_eq!(c.autorestart, AutoRestart::Always);
    assert_eq!(c.exitcodes.0, vec![0, 2]);
    assert_eq!(c.startretries, 5);
    assert_eq!(c.starttime.0, 4);
    assert_eq!(c.stoptime.0, 7);
    assert_eq!(c.stopsignal, StopSignal::Usr1);
    assert_eq!(c.env.0, vec![("ANSWER".to_string(), "42".to_string())]);
}

#[test]
fn argv_splits_the_command() {
    let c = config(raw("  /usr/local/bin/nginx\t-c   /etc/nginx/test.conf "));
    assert_eq!(c.argv(), vec!["/usr/local/bin/nginx", "-c", "/etc/nginx/test.conf"]);
}

#[test]
fn each_config_error_has_its_input() {
    assert_eq!(JobConfig::from_raw(raw("   ")).unwrap_err(), ConfigError::EmptyCommand);
    let mut r = raw("/bin/true");
    r.numprocs = Some(0);
    assert_eq!(JobConfig::from_raw(r).unwrap_err(), ConfigError::InvalidNumProcs);
    let mut r = raw("/bin/true");
    r.umask = Some("089".to_string());
    assert_eq!(JobConfig::from_raw(r).unwrap_err(), ConfigError::InvalidUmask);
    let mut r = raw("/bin/true");
    r.autorestart = Some("sometimes".to_string());
    assert_eq!(JobConfig::from_raw(r).unwrap_err(), ConfigError::InvalidAutoRestart);
    let mut r = raw("/bin/true");
    r.exitcodes = Some(vec![0, 1 << 40]);
    assert_eq!(JobConfig::from_raw(r).unwrap_err(), ConfigError::InvalidExitCode);
    let mut r = raw("/bin/true");
    r.startretries = Some(1 << 33);
    assert_eq!(JobConfig::from_raw(r).unwrap_err(), ConfigError::InvalidStartRetries);
    let mut r = raw("/bin/true");
    r.starttime = Some(1 << 33);
    assert_eq!(JobConfig::from_raw(r).unwrap_err(), ConfigError::InvalidStartTime);
    let mut r = raw("/bin/true");
    r.stoptime = Some(1 << 33);
    assert_eq!(JobConfig::from_raw(r).unwrap_err(), ConfigError::InvalidStopTime);
    let mut r = raw("/bin/true");
    r.stopsignal = Some("STOP".to_string());
    assert_eq!(JobConfig::from_raw(r).unwrap_err(), ConfigError::InvalidStopSignal);
}

#[test]
fn umask_is_octal() {
    assert_eq!(Umask::parse("022"), Some(Umask(18)));
    assert_eq!(Umask::parse("777"), Some(Umask(511)));
    assert_eq!(Umask::parse("37777777777"), Some(Umask(u32::MAX)));
    assert_eq!(Umask::parse("40000000000"), None);
    assert_eq!(Umask::parse("8"), None);
    assert_eq!(Umask::parse(""), None);
}

#[test]
fn exit_codes_lookup() {
    let codes = ExitCodes(vec![0, 2]);
    assert!(codes.is_valid(0));
    assert!(codes.is_valid(2));
    assert!(!codes.is_valid(1));
    assert!(ExitCodes::default().is_valid(0));
}

#[test]
fn equal_configs_compare_equal() {
    let a = config(raw("/bin/sleep 5"));
    let b = config(raw("/bin/sleep 5"));
    let c = config(raw("/bin/sleep 6"));
    assert!(a == b);
    assert!(a != c);
}

#[test]
fn job_names_must_be_distinct_and_non_empty() {
    let dup = Jobs::from_configs(vec![
        ("a".to_string(), config(raw("/bin/true"))),
        ("a".to_string(), config(raw("/bin/false"))),
    ]);
    assert!(matches!(dup, Err(JobsError::DuplicateName(n)) if n == "a"));
    let empty = Jobs::from_configs(vec![("".to_string(), config(raw("/bin/true")))]);
    assert!(matches!(empty, Err(JobsError::EmptyName)));
}

#[test]
fn replicas_are_named_by_index() {
    let mut r = raw("/bin/sleep 1");
    r.numprocs = Some(3);
    let jobs = set(vec![("web", r)]);
    let names: Vec<String> = jobs.programs[0].processes.iter().map(|p| p.name.clone()).collect();
    assert_eq!(names, vec!["web-0", "web-1", "web-2"]);
}

#[test]
fn request_parsing() {
    assert!(matches!(Action::parse("start"), Ok(Action::Start(n)) if n.is_empty()));
    assert!(matches!(Action::parse(" stop  a b\n"), Ok(Action::Stop(n)) if n == vec!["a", "b"]));
    assert!(matches!(Action::parse("restart x"), Ok(Action::Restart(n)) if n == vec!["x"]));
    assert!(matches!(Action::parse("status"), Ok(Action::Status(n)) if n.is_empty()));
    assert!(matches!(Action::parse("reload"), Ok(Action::Reload)));
    assert!(matches!(Action::parse("shutdown now"), Ok(Action::Shutdown)));
    assert!(matches!(Action::parse("  "), Err(ParseError::Empty)));
    assert!(matches!(Action::parse("jump a"), Err(ParseError::UnknownVerb(v)) if v == "jump"));
}

#[test]
fn requests_are_written_as_lines() {
    let a = Action::Start(vec!["web".to_string(), "db".to_string()]);
    assert_eq!(a.to_request(), "start web db");
    assert_eq!(Action::Status(vec![]).to_request(), "status");
    assert_eq!(Action::Reload.to_request(), "reload");
    assert_eq!(Action::Shutdown.to_request(), "shutdown");
}

#[test]
fn requests_read_back_as_written() {
    let a = Action::Restart(vec!["a-1".to_string(), "b".to_string()]);
    let b = Action::parse(&a.to_request()).unwrap();
    assert!(matches!(b, Action::Restart(n) if n == vec!["a-1", "b"]));
    let b = Action::parse(&Action::Stop(vec![]).to_request()).unwrap();
    assert!(matches!(b, Action::Stop(n) if n.is_empty()));
}

#[test]
fn sleeper_waits_for_the_rest_of_the_period() {
    let mut s = Sleeper::new(100, 1000);
    assert_eq!(s.remaining(1030), 70);
    assert_eq!(s.remaining(1100), 0);
    assert_eq!(s.remaining(1500), 0);
    assert_eq!(s.remaining(900), 100);
    s.mark(1200);
    assert_eq!(s.remaining(1210), 90);
}

#[test]
fn running_until_reaped() {
    let c = config(raw("/bin/sleep 10"));
    let mut p = Process::new("x-0".to_string());
    assert!(!p.is_running());
    p.start(&c, 0, Some(42));
    assert!(p.is_running());
    assert_eq!(p.update_status(&c, 500, None), Step::Idle);
    assert!(p.is_running());
    assert_eq!(p.update_status(&c, 1500, None), Step::Idle);
    assert!(p.is_running());
    p.update_status(&c, 1600, Some(ExitStatus { code: Some(0) }));
    assert!(!p.is_running());
    assert_eq!(p.state, State::Stopped(StoppedStatus::Exited));
}

#[test]
fn tries_grow_through_backoff_and_reset_when_up() {
    let mut r = raw("/bin/false");
    r.startretries = Some(5);
    let c = config(r);
    let mut p = Process::new("x-0".to_string());
    p.start(&c, 0, None);
    assert_eq!(p.state, State::Stopped(StoppedStatus::Backoff { tries: 1, started_at: 0 }));
    assert_eq!(p.update_status(&c, 999, None), Step::Idle);
    assert_eq!(p.update_status(&c, 1000, None), Step::Spawn);
    p.start(&c, 1000, Some(7));
    assert_eq!(
        p.state,
        State::Running { pid: 7, status: RunningStatus::StartRequested { start: 1000, tries: 1 } }
    );
    p.update_status(&c, 1100, Some(ExitStatus { code: Some(1) }));
    assert_eq!(p.state, State::Stopped(StoppedStatus::Backoff { tries: 2, started_at: 1100 }));
    assert_eq!(p.update_status(&c, 3100, None), Step::Spawn);
    p.start(&c, 3100, Some(8));
    p.update_status(&c, 4100, None);
    assert_eq!(p.state, State::Running { pid: 8, status: RunningStatus::Running { started: 3100 } });
    assert_eq!(p.stop(4200, false), Ok(8));
    assert_eq!(
        p.state,
        State::Running { pid: 8, status: RunningStatus::StopRequested { since: 4200, restart: false } }
    );
    assert_eq!(p.stop(4300, false), Err(StopError::AlreadyStopping));
}

#[test]
fn fatal_stays_fatal() {
    let mut r = raw("/bin/false");
    r.startretries = Some(0);
    let c = config(r);
    let mut p = Process::new("x-0".to_string());
    p.start(&c, 0, None);
    assert_eq!(p.state, State::Stopped(StoppedStatus::Fatal));
    for t in [100u64, 10_000, 1_000_000] {
        assert_eq!(p.update_status(&c, t, None), Step::Idle);
        assert_eq!(p.state, State::Stopped(StoppedStatus::Fatal));
    }
    assert_eq!(p.stop(5, false), Err(StopError::NotRunning));
    assert_eq!(p.state, State::Stopped(StoppedStatus::Fatal));
    assert_eq!(p.restart(&c, 6), Step::Spawn);
    assert_eq!(p.state, State::Stopped(StoppedStatus::Stopped));
}

#[test]
fn kill_forgets_the_child() {
    let c = config(raw("/bin/sleep 10"));
    let mut p = Process::new("x-0".to_string());
    p.start(&c, 0, Some(9));
    assert_eq!(p.kill(), Ok(9));
    assert_eq!(p.state, State::Stopped(StoppedStatus::Stopped));
    assert_eq!(p.kill(), Err(StopError::NotRunning));
}

#[test]
fn status_lines_show_figures() {
    let mut r = raw("/bin/sleep 100");
    r.starttime = Some(2);
    let mut jobs = set(vec![("web", r)]);
    let orders = jobs.start("web").unwrap();
    assert_eq!(orders, vec![(0, Order::Spawn(0))]);
    jobs.started(0, 0, 1000, Some(12345));
    assert_eq!(status_of(&jobs, "web", 2500), "web-0: STARTING (pid: 12345, tries: 0, since: 1)\n");
    jobs.check_status(3000, &vec![]);
    assert_eq!(status_of(&jobs, "web", 75_000), "web-0: RUNNING (pid: 12345, uptime: 74)\n");
    let again = jobs.start("web");
    assert!(matches!(again, Err(JobsError::AlreadyRunning(n)) if n == "web"));
    assert!(matches!(jobs.status("nope", 0), Err(JobsError::NotFound(n)) if n == "nope"));
    let job = Job::new("solo".to_string(), config(raw("/bin/true")));
    assert_eq!(job.print_status(0), "No process running\n");
}

#[test]
fn job_start_refuses_while_running() {
    let mut job = Job::new("solo".to_string(), config(raw("/bin/true")));
    assert_eq!(job.start().unwrap(), vec![Order::Spawn(0)]);
    job.started(0, 0, Some(5));
    assert!(job.is_running());
    assert!(matches!(job.start(), Err(JobError::AlreadyRunning)));
}

#[test]
fn new_jobs_have_replicas_never_started() {
    let mut r = raw("/bin/sleep 100");
    r.numprocs = Some(2);
    let jobs = set(vec![("web", r)]);
    for p in &jobs.programs[0].processes {
        assert_eq!(p.state, State::Stopped(StoppedStatus::Never));
    }
    assert_eq!(status_of(&jobs, "web", 0), "web-0: STOPPED\nweb-1: STOPPED\n");
}

#[test]
fn stop_on_a_stopping_process_changes_nothing() {
    let c = config(raw("/bin/sleep 10"));
    let mut p = Process::new("x-0".to_string());
    p.start(&c, 0, Some(3));
    assert_eq!(p.restart(&c, 100), Step::Signal(3, StopSignal::Term));
    let before = p.state;
    assert_eq!(p.stop(200, false), Err(StopError::AlreadyStopping));
    assert_eq!(p.state, before);
    assert_eq!(p.restart(&c, 300), Step::Idle);
    assert_eq!(p.state, before);
}

#[test]
fn new_job_without_autostart_reports_stopped() {
    let mut jobs = set(vec![("web", raw("/bin/sleep 100"))]);
    assert!(jobs.auto_start().is_empty());
    let reply = jobs.dispatch(Action::parse("status").unwrap(), 0);
    assert_eq!(reply.control, Control::Continue);
    assert_eq!(reply.text, "Job status web:\nweb-0: STOPPED\n\n");
    let reply = jobs.dispatch(Action::parse("status web").unwrap(), 0);
    assert_eq!(reply.text, "web-0: STOPPED\n");
    let reply = jobs.dispatch(Action::parse("status ghost").unwrap(), 0);
    assert_eq!(reply.text, "Job ghost not found\n");
    assert_eq!(jobs.dispatch(Action::parse("shutdown").unwrap(), 0).control, Control::Shutdown);
    assert_eq!(jobs.dispatch(Action::parse("reload").unwrap(), 0).control, Control::Reload);
}

#[test]
fn autostart_then_exit_reports_exited() {
    let mut r = raw("/bin/true");
    r.autostart = Some(true);
    r.autorestart = Some("never".to_string());
    r.exitcodes = Some(vec![0]);
    let mut jobs = set(vec![("hello", r)]);
    assert_eq!(jobs.auto_start(), vec![(0, Order::Spawn(0))]);
    jobs.started(0, 0, 0, Some(100));
    assert!(jobs.check_status(1000, &vec![]).is_empty());
    assert!(jobs.check_status(1100, &vec![exited(100, 0)]).is_empty());
    assert_eq!(status_of(&jobs, "hello", 1200), "hello-0: EXITED\n");
    assert!(jobs.check_status(5000, &vec![]).is_empty());
}

#[test]
fn crash_backs_off_then_turns_fatal() {
    let mut r = raw("/bin/false");
    r.startretries = Some(2);
    r.starttime = Some(1);
    let mut jobs = set(vec![("crash", r)]);
    jobs.start("crash").unwrap();
    jobs.started(0, 0, 0, Some(200));
    assert!(jobs.check_status(100, &vec![exited(200, 1)]).is_empty());
    assert_eq!(status_of(&jobs, "crash", 100), "crash-0: BACKOFF (restarts: 1, since: 0)\n");
    assert!(jobs.check_status(1000, &vec![]).is_empty());
    assert_eq!(jobs.check_status(1100, &vec![]), vec![(0, Order::Spawn(0))]);
    jobs.started(0, 0, 1100, Some(201));
    jobs.check_status(1200, &vec![exited(201, 1)]);
    assert_eq!(status_of(&jobs, "crash", 1200), "crash-0: BACKOFF (restarts: 2, since: 0)\n");
    assert_eq!(jobs.check_status(3200, &vec![]), vec![(0, Order::Spawn(0))]);
    jobs.started(0, 0, 3200, Some(202));
    jobs.check_status(3300, &vec![exited(202, 1)]);
    assert_eq!(status_of(&jobs, "crash", 5000), "crash-0: FATAL\n");
    assert!(jobs.check_status(9000, &vec![]).is_empty());
}

#[test]
fn unexpected_exit_restarts() {
    let mut r = raw("/bin/sh -c 'sleep 2; exit 3'");
    r.starttime = Some(1);
    r.exitcodes = Some(vec![0]);
    r.autorestart = Some("unexpected".to_string());
    let mut jobs = set(vec![("flappy", r)]);
    jobs.start("flappy").unwrap();
    jobs.started(0, 0, 0, Some(300));
    assert!(status_of(&jobs, "flappy", 0).starts_with("flappy-0: STARTING"));
    jobs.check_status(1000, &vec![]);
    assert!(status_of(&jobs, "flappy", 1000).starts_with("flappy-0: RUNNING"));
    assert_eq!(jobs.check_status(2000, &vec![exited(300, 3)]), vec![(0, Order::Spawn(0))]);
    assert_eq!(status_of(&jobs, "flappy", 2000), "flappy-0: UNEXPECTED\n");
    jobs.started(0, 0, 2000, Some(301));
    assert!(status_of(&jobs, "flappy", 2000).starts_with("flappy-0: STARTING"));
    jobs.check_status(3000, &vec![]);
    assert!(status_of(&jobs, "flappy", 3000).starts_with("flappy-0: RUNNING"));
}

fn running_sleep() -> Jobs {
    let mut r = raw("/bin/sleep 3600");
    r.stopsignal = Some("TERM".to_string());
    r.stoptime = Some(2);
    let mut jobs = set(vec![("sleep", r)]);
    jobs.start("sleep").unwrap();
    jobs.started(0, 0, 0, Some(400));
    jobs.check_status(1000, &vec![]);
    jobs
}

#[test]
fn graceful_stop_sends_term_only() {
    let mut jobs = running_sleep();
    let reply = jobs.dispatch(Action::parse("stop sleep").unwrap(), 1500);
    assert_eq!(reply.orders, vec![(0, Order::Signal(400, StopSignal::Term))]);
    assert_eq!(reply.text, "stopping sleep\n");
    assert!(status_of(&jobs, "sleep", 1600).starts_with("sleep-0: STOPPING"));
    assert!(jobs.check_status(1600, &vec![signalled(400)]).is_empty());
    assert_eq!(status_of(&jobs, "sleep", 4500), "sleep-0: STOPPED\n");
    assert!(!jobs.any_running());
}

#[test]
fn stop_escalates_to_kill() {
    let mut jobs = running_sleep();
    jobs.stop("sleep", 1500).unwrap();
    assert!(jobs.check_status(3499, &vec![]).is_empty());
    assert_eq!(jobs.check_status(3500, &vec![]), vec![(0, Order::Signal(400, StopSignal::Kill))]);
    assert!(jobs.check_status(3600, &vec![signalled(400)]).is_empty());
    assert_eq!(status_of(&jobs, "sleep", 4500), "sleep-0: STOPPED\n");
}

#[test]
fn shutdown_ends_within_stoptime() {
    let mut quick = raw("/bin/sleep 3600");
    quick.stoptime = Some(2);
    let mut stubborn = raw("/bin/sh -c 'trap \"\" TERM; sleep 3600'");
    stubborn.stoptime = Some(2);
    let mut jobs = set(vec![("quick", quick), ("stubborn", stubborn)]);
    jobs.start("").unwrap();
    jobs.started(0, 0, 0, Some(1));
    jobs.started(1, 0, 0, Some(2));
    jobs.check_status(1000, &vec![]);
    let orders = jobs.shutdown(1000);
    assert_eq!(
        orders,
        vec![(0, Order::Signal(1, StopSignal::Term)), (1, Order::Signal(2, StopSignal::Term))]
    );
    assert!(jobs.check_status(1100, &vec![signalled(1)]).is_empty());
    assert!(jobs.any_running());
    assert_eq!(jobs.check_status(3000, &vec![]), vec![(1, Order::Signal(2, StopSignal::Kill))]);
    assert!(jobs.check_status(3100, &vec![signalled(2)]).is_empty());
    assert!(!jobs.any_running());
}

fn abc(b_cmd: &str, with_c: bool) -> Jobs {
    let mut a = raw("/bin/sleep 100");
    a.autostart = Some(true);
    let mut b = raw(b_cmd);
    b.autostart = Some(true);
    let mut entries = vec![("A", a), ("B", b)];
    if with_c {
        let mut c = raw("/bin/sleep 300");
        c.autostart = Some(true);
        entries.push(("C", c));
    }
    set(entries)
}

fn pid_of(jobs: &Jobs, name: &str) -> Option<u32> {
    let i = jobs.find(name)?;
    match jobs.programs[i].processes.first()?.state {
        State::Running { pid, .. } => Some(pid),
        State::Stopped(_) => None,
    }
}

#[test]
fn reload_keeps_unchanged_jobs() {
    let mut jobs = abc("/bin/sleep 200", false);
    assert_eq!(jobs.auto_start(), vec![(0, Order::Spawn(0)), (1, Order::Spawn(0))]);
    jobs.started(0, 0, 0, Some(10));
    jobs.started(1, 0, 0, Some(20));
    jobs.check_status(1000, &vec![]);

    let new = abc("/bin/sleep 201", true);
    assert_eq!(jobs.stop_outdated(&new, 2000), vec![(1, Order::Signal(20, StopSignal::Term))]);
    assert!(jobs.outdated_running(&new));
    jobs.check_status(2100, &vec![signalled(20)]);
    assert!(!jobs.outdated_running(&new));
    let orders = jobs.load_new_jobs(new);
    assert_eq!(jobs.programs.len(), 3);
    assert_eq!(pid_of(&jobs, "A"), Some(10));
    assert_eq!(pid_of(&jobs, "B"), None);
    assert!(jobs.find("C").is_some());
    let b = jobs.find("B").unwrap();
    let c = jobs.find("C").unwrap();
    assert_eq!(jobs.programs[b].config.cmd, "/bin/sleep 201");
    assert_eq!(orders.len(), 2);
    assert!(orders.contains(&(b, Order::Spawn(0))));
    assert!(orders.contains(&(c, Order::Spawn(0))));
    jobs.started(b, 0, 2200, Some(21));
    jobs.started(c, 0, 2200, Some(30));

    let same = abc("/bin/sleep 201", true);
    assert!(jobs.stop_outdated(&same, 3000).is_empty());
    assert!(!jobs.outdated_running(&same));
    assert!(jobs.load_new_jobs(same).is_empty());
    assert_eq!(pid_of(&jobs, "A"), Some(10));
    assert_eq!(pid_of(&jobs, "B"), Some(21));
    assert_eq!(pid_of(&jobs, "C"), Some(30));
}

#[test]
fn reload_removes_jobs_left_out() {
    let mut jobs = abc("/bin/sleep 200", true);
    let new = set(vec![("A", {
        let mut a = raw("/bin/sleep 100");
        a.autostart = Some(true);
        a
    })]);
    assert!(jobs.stop_outdated(&new, 0).is_empty());
    assert!(!jobs.outdated_running(&new));
    jobs.load_new_jobs(new);
    assert_eq!(jobs.programs.len(), 1);
    assert!(jobs.find("B").is_none());
    assert!(jobs.find("C").is_none());
}

#[test]
fn restart_stops_then_spawns() {
    let mut jobs = running_sleep();
    let reply = jobs.dispatch(Action::parse("restart").unwrap(), 2000);
    assert_eq!(reply.orders, vec![(0, Order::Signal(400, StopSignal::Term))]);
    assert_eq!(jobs.check_status(2100, &vec![signalled(400)]), vec![(0, Order::Spawn(0))]);
    jobs.started(0, 0, 2100, Some(401));
    assert!(status_of(&jobs, "sleep", 2100).starts_with("sleep-0: STARTING (pid: 401, tries: 0"));
}

#[test]
fn remove_job_refuses_running_jobs() {
    let mut jobs = set(vec![("a", raw("/bin/sleep 10")), ("b", raw("/bin/sleep 10"))]);
    jobs.start("a").unwrap();
    jobs.started(0, 0, 0, Some(50));
    assert!(matches!(jobs.remove_job("a"), Err(JobsError::AlreadyRunning(n)) if n == "a"));
    assert!(jobs.remove_job("b").is_ok());
    assert!(jobs.find("b").is_none());
    assert!(matches!(jobs.remove_job("zz"), Err(JobsError::NotFound(n)) if n == "zz"));
    assert_eq!(jobs.programs.len(), 1);
}

#[test]
fn clear_and_init_reset_the_set() {
    let mut r = raw("/bin/sleep 10");
    r.numprocs = Some(2);
    let mut jobs = set(vec![("a", r)]);
    jobs.start("a").unwrap();
    jobs.started(0, 0, 0, Some(60));
    jobs.started(0, 1, 0, Some(61));
    jobs.stop_all(100);
    jobs.check_status(200, &vec![signalled(60), signalled(61)]);
    assert_eq!(status_of(&jobs, "a", 200), "a-0: STOPPED\na-1: STOPPED\n");
    jobs.init();
    assert_eq!(jobs.programs[0].processes[1].state, State::Stopped(StoppedStatus::Never));
    jobs.clear_jobs();
    assert!(jobs.programs.is_empty());
}

#[test]
fn each_name_is_taken_in_turn() {
    let mut jobs = set(vec![("a", raw("/bin/sleep 10")), ("b", raw("/bin/sleep 10"))]);
    let reply = jobs.dispatch(Action::parse("start a ghost b").unwrap(), 0);
    assert_eq!(reply.orders, vec![(0, Order::Spawn(0)), (1, Order::Spawn(0))]);
    assert_eq!(reply.text, "started a\nJob ghost not found\nstarted b\n");
    jobs.started(0, 0, 0, Some(70));
    jobs.started(1, 0, 0, Some(71));
    let reply = jobs.dispatch(Action::parse("start a").unwrap(), 10);
    assert_eq!(reply.text, "Job a is already running\n");
    assert!(reply.orders.is_empty());
    let reply = jobs.dispatch(Action::parse("stop b a").unwrap(), 20);
    assert_eq!(
        reply.orders,
        vec![(1, Order::Signal(71, StopSignal::Term)), (0, Order::Signal(70, StopSignal::Term))]
    );
}

#[test]
fn job_level_stop_and_restart() {
    let mut job = Job::new("w".to_string(), config(raw("/bin/sleep 10")));
    job.start().unwrap();
    job.started(0, 0, Some(80));
    assert_eq!(job.restart(5), vec![Order::Signal(80, StopSignal::Term)]);
    assert!(job.stop(6).is_empty());
    assert_eq!(
        job.processes[0].state,
        State::Running { pid: 80, status: RunningStatus::StopRequested { since: 5, restart: true } }
    );
    assert_eq!(job.check_status(7, &vec![signalled(80)]), vec![Order::Spawn(0)]);
    assert!(!job.is_running());
    assert_eq!(job.restart(8), vec![Order::Spawn(0)]);
}

#[test]
fn shutdown_cancels_a_pending_restart() {
    let mut jobs = running_sleep();
    jobs.restart("sleep", 2000).unwrap();
    let orders = jobs.shutdown(2100);
    assert!(orders.is_empty());
    assert_eq!(
        jobs.programs[0].processes[0].state,
        State::Running { pid: 400, status: RunningStatus::StopRequested { since: 2000, restart: false } }
    );
    assert!(jobs.check_status(2200, &vec![signalled(400)]).is_empty());
    assert!(!jobs.any_running());
}
