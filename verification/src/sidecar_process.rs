//! The life of the managed sidecar process: started, running, asked to stop,
//! stopped or crashed, and restarted after a crash with a delay that doubles
//! up to a limit.
//!
//! Spawning, signalling and waiting on the process belong to the caller,
//! which reports each event here and acts on the answer. Times are
//! nanoseconds since the Unix epoch.
use vstd::prelude::*;

verus! {

/// The state of the process.
#[derive(Debug, Clone, Copy, PartialEq, Eq, Structural)]
pub enum SidecarProcessState {
    Stopped,
    Starting,
    Running,
    Stopping,
    Crashed,
}

/// What the status endpoint shows.
pub struct SidecarProcessStatus {
    pub state: SidecarProcessState,
    pub pid: Option<u32>,
    pub restart_count: u32,
    pub last_exit_code: Option<i32>,
    pub uptime_secs: Option<u64>,
}

/// Why a request on the process was refused.
#[derive(Debug, Clone, Copy, PartialEq, Eq, Structural)]
pub enum SidecarProcessError {
    /// Running or starting already, with this process id if known.
    AlreadyRunning(Option<u32>),
    NotRunning,
}

/// What the process manager knows of the process.
pub struct SidecarProcess {
    pub state: SidecarProcessState,
    pub pid: Option<u32>,
    pub restart_count: u32,
    pub last_exit_code: Option<i32>,
    pub started_at: Option<u64>,
}

/// Whether a state counts as running for start and stop.
pub open spec fn live(s: SidecarProcessState) -> bool {
    s == SidecarProcessState::Running || s == SidecarProcessState::Starting
}

impl SidecarProcess {
    /// Stopped, never started.
    pub fn new() -> (r: SidecarProcess)
        ensures
            r.state == SidecarProcessState::Stopped,
            r.pid is None,
            r.restart_count == 0,
            r.last_exit_code is None,
            r.started_at is None,
    {
        SidecarProcess {
            state: SidecarProcessState::Stopped,
            pid: None,
            restart_count: 0,
            last_exit_code: None,
            started_at: None,
        }
    }

    /// A start request: refused while running or starting, otherwise the
    /// process is starting and the caller spawns it.
    pub fn begin_start(&mut self) -> (r: Result<(), SidecarProcessError>)
        ensures
            live(old(self).state) ==> r == Err::<(), SidecarProcessError>(
                SidecarProcessError::AlreadyRunning(old(self).pid),
            ) && *final(self) == *old(self),
            !live(old(self).state) ==> r is Ok && *final(self) == (SidecarProcess {
                state: SidecarProcessState::Starting,
                ..*old(self)
            }),
    {
        if self.state == SidecarProcessState::Running || self.state == SidecarProcessState::Starting {
            return Err(SidecarProcessError::AlreadyRunning(self.pid));
        }
        self.state = SidecarProcessState::Starting;
        Ok(())
    }

    /// The process was spawned at `now` with `pid`.
    pub fn spawned(&mut self, pid: Option<u32>, now: u64)
        ensures
            *final(self) == (SidecarProcess {
                state: SidecarProcessState::Running,
                pid,
                started_at: Some(now),
                ..*old(self)
            }),
    {
        self.pid = pid;
        self.state = SidecarProcessState::Running;
        self.started_at = Some(now);
    }

    /// A stop request: refused unless running or starting, otherwise the
    /// process is stopping and the caller signals it (by this process id
    /// when it no longer holds the child).
    pub fn begin_stop(&mut self) -> (r: Result<Option<u32>, SidecarProcessError>)
        ensures
            !live(old(self).state) ==> r == Err::<Option<u32>, SidecarProcessError>(SidecarProcessError::NotRunning)
                && *final(self) == *old(self),
            live(old(self).state) ==> r == Ok::<Option<u32>, SidecarProcessError>(old(self).pid) && *final(self) == (
            SidecarProcess { state: SidecarProcessState::Stopping, ..*old(self) }),
    {
        if self.state == SidecarProcessState::Running || self.state == SidecarProcessState::Starting {
            self.state = SidecarProcessState::Stopping;
            Ok(self.pid)
        } else {
            Err(SidecarProcessError::NotRunning)
        }
    }

    /// The process exited with `exit_code`. After a requested stop it is
    /// stopped; otherwise it crashed, the restart is counted, and the answer
    /// is that it is to be started again.
    pub fn child_exited(&mut self, exit_code: i32) -> (restart: bool)
        requires
            old(self).restart_count < u32::MAX,
        ensures
            restart == (old(self).state != SidecarProcessState::Stopping),
            final(self).pid is None,
            final(self).last_exit_code == Some(exit_code),
            final(self).started_at == old(self).started_at,
            restart ==> final(self).state == SidecarProcessState::Crashed && final(self).restart_count
                == old(self).restart_count + 1,
            !restart ==> final(self).state == SidecarProcessState::Stopped && final(self).restart_count
                == old(self).restart_count,
    {
        self.pid = None;
        self.last_exit_code = Some(exit_code);
        if self.state == SidecarProcessState::Stopping {
            self.state = SidecarProcessState::Stopped;
            false
        } else {
            self.state = SidecarProcessState::Crashed;
            self.restart_count = self.restart_count + 1;
            true
        }
    }

    /// Whether the supervisor keeps watching: until the process is stopped.
    pub fn supervising(&self) -> (r: bool)
        ensures
            r == (self.state != SidecarProcessState::Stopped),
    {
        self.state != SidecarProcessState::Stopped
    }

    /// The status at `now`; the uptime is whole seconds since the start.
    pub fn status(&self, now: u64) -> (r: SidecarProcessStatus)
        ensures
            r.state == self.state,
            r.pid == self.pid,
            r.restart_count == self.restart_count,
            r.last_exit_code == self.last_exit_code,
            r.uptime_secs == match self.started_at {
                Some(t) => Some((if now >= t { (now - t) / 1_000_000_000 } else { 0 }) as u64),
                None => None,
            },
    {
        SidecarProcessStatus {
            state: self.state,
            pid: self.pid,
            restart_count: self.restart_count,
            last_exit_code: self.last_exit_code,
            uptime_secs: match self.started_at {
                Some(t) => Some(now.saturating_sub(t) / 1_000_000_000),
                None => None,
            },
        }
    }
}

/// The delay before the next restart: twice this one, at most `max`.
pub fn next_restart_delay(delay_secs: u64, max_delay_secs: u64) -> (r: u64)
    requires
        delay_secs * 2 <= u64::MAX,
    ensures
        r == if delay_secs * 2 < max_delay_secs { delay_secs * 2 } else { max_delay_secs as int },
{
    let d = delay_secs * 2;
    if d < max_delay_secs {
        d
    } else {
        max_delay_secs
    }
}

} // verus!
