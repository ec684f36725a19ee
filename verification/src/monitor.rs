use vstd::prelude::*;

verus! {

// The process monitor's decision core. The caller enumerates the running
// processes and performs the lookups and notifications; this module decides
// which monitored processes have stopped and what payload each stop yields.

/// One running process, as the monitor tracks it.
#[derive(Debug, Clone)]
pub struct Process {
    pub name: String,
    pub pid: u32,
    pub path: String,
    pub run_time: u64,
}

pub ghost struct ProcessV {
    pub name: Seq<char>,
    pub pid: u32,
    pub path: Seq<char>,
    pub run_time: u64,
}

impl View for Process {
    type V = ProcessV;

    open spec fn view(&self) -> ProcessV {
        ProcessV { name: self.name@, pid: self.pid, path: self.path@, run_time: self.run_time }
    }
}

impl DeepView for Process {
    type V = ProcessV;

    open spec fn deep_view(&self) -> ProcessV {
        self.view()
    }
}

/// What is reported when a monitored game stops: either the game the
/// executable is known under, or the bare executable name.
pub struct GameStoppedPayload {
    pub executable_name: Option<String>,
    pub game_id: Option<i32>,
    pub minutes_played: i32,
}

/// Whole minutes contained in a run time given in seconds.
pub fn minutes_of_seconds(secs: u64) -> (m: u64)
    ensures
        m == secs / 60,
{
    secs / 60
}

/// The payload for one stopped process: a known executable reports its
/// game id alone, an unknown one reports its name alone.
pub fn game_stopped_payload(lookup: Option<i32>, name: &String, minutes_played: i32) -> (p:
    GameStoppedPayload)
    ensures
        p.minutes_played == minutes_played,
        match lookup {
            Some(game_id) => p.game_id == Some(game_id) && p.executable_name is None,
            None => p.game_id is None && (match p.executable_name {
                Some(n) => n@ == name@,
                None => false,
            }),
        },
{
    match lookup {
        Some(game_id) => GameStoppedPayload {
            executable_name: None,
            game_id: Some(game_id),
            minutes_played,
        },
        None => GameStoppedPayload {
            executable_name: Some(name.clone()),
            game_id: None,
            minutes_played,
        },
    }
}

/// Some process in `ps` runs under `path`.
pub open spec fn has_path(ps: Seq<ProcessV>, path: Seq<char>) -> bool {
    exists|i: int| 0 <= i < ps.len() && (#[trigger] ps[i]).path == path
}

/// The previously running processes that no longer run and were up for at
/// least one whole minute: these are reported as stopped games.
pub open spec fn stopped_processes(prev: Seq<ProcessV>, running: Seq<ProcessV>) -> Seq<ProcessV> {
    prev.filter(|p: ProcessV| !has_path(running, p.path) && p.run_time / 60 >= 1)
}

/// `path` is one of the monitored paths.
pub open spec fn path_listed(paths: Seq<Seq<char>>, path: Seq<char>) -> bool {
    exists|i: int| 0 <= i < paths.len() && #[trigger] paths[i] == path
}

/// The processes whose executable path is among the monitored paths.
pub open spec fn listed_processes(ps: Seq<ProcessV>, paths: Seq<Seq<char>>) -> Seq<ProcessV> {
    ps.filter(|p: ProcessV| path_listed(paths, p.path))
}

fn find_path(ps: &Vec<Process>, path: &String) -> (r: bool)
    ensures
        r == has_path(ps.deep_view(), path@),
{
    let mut i: usize = 0;
    while i < ps.len()
        invariant
            i <= ps@.len(),
            forall|j: int| 0 <= j < i ==> (#[trigger] ps.deep_view()[j]).path != path@,
        decreases ps@.len() - i,
    {
        if ps[i].path == *path {
            proof {
                assert(ps.deep_view()[i as int].path == path@);
            }
            return true;
        }
        i += 1;
    }
    false
}

fn path_in_list(paths: &Vec<String>, path: &String) -> (r: bool)
    ensures
        r == path_listed(paths.deep_view(), path@),
{
    let mut i: usize = 0;
    while i < paths.len()
        invariant
            i <= paths@.len(),
            forall|j: int| 0 <= j < i ==> #[trigger] paths.deep_view()[j] != path@,
        decreases paths@.len() - i,
    {
        if paths[i] == *path {
            proof {
                assert(paths.deep_view()[i as int] == path@);
            }
            return true;
        }
        i += 1;
    }
    false
}

fn copy_process(p: &Process) -> (r: Process)
    ensures
        r@ == p@,
{
    Process { name: p.name.clone(), pid: p.pid, path: p.path.clone(), run_time: p.run_time }
}

/// The monitor: it remembers what ran a moment ago, so that a process that
/// has disappeared can be reported as a stopped game.
pub struct ProcessMonitor {
    pub previous_running_processes: Vec<Process>,
}

impl ProcessMonitor {
    /// A monitor that has seen nothing running yet.
    pub fn new() -> (m: ProcessMonitor)
        ensures
            m.previous_running_processes@.len() == 0,
    {
        ProcessMonitor { previous_running_processes: Vec::new() }
    }

    /// One monitoring step: given what runs now, report the previously
    /// running processes that stopped after at least a whole minute, and
    /// remember the current processes for the next step.
    pub fn monitor_processes(&mut self, running: Vec<Process>) -> (stopped: Vec<Process>)
        ensures
            final(self).previous_running_processes@ == running@,
            stopped.deep_view() == stopped_processes(
                old(self).previous_running_processes.deep_view(),
                running.deep_view(),
            ),
    {
        let ghost prev = self.previous_running_processes.deep_view();
        let ghost run = running.deep_view();
        let mut stopped: Vec<Process> = Vec::new();
        let mut i: usize = 0;
        while i < self.previous_running_processes.len()
            invariant
                i <= self.previous_running_processes@.len(),
                prev == self.previous_running_processes.deep_view(),
                run == running.deep_view(),
                stopped.deep_view() == stopped_processes(prev.subrange(0, i as int), run),
            decreases self.previous_running_processes@.len() - i,
        {
            let ghost dv_pre = stopped.deep_view();
            let p = &self.previous_running_processes[i];
            proof {
                assert(prev[i as int] == p@);
            }
            let gone = !find_path(&running, &p.path);
            let minutes = minutes_of_seconds(p.run_time);
            if gone && minutes >= 1 {
                let copied = copy_process(p);
                stopped.push(copied);
            }
            proof {
                reveal(Seq::filter);
                let prefix = prev.subrange(0, i as int);
                let prefix1 = prev.subrange(0, i + 1 as int);
                assert(prefix1.drop_last() =~= prefix);
                assert(prefix1.last() == prev[i as int]);
                if gone && minutes >= 1 {
                    assert(stopped.deep_view() =~= dv_pre.push(prev[i as int]));
                }
                assert(stopped.deep_view() =~= stopped_processes(prefix1, run));
            }
            i += 1;
        }
        proof {
            assert(prev.subrange(0, self.previous_running_processes@.len() as int) =~= prev);
        }
        self.previous_running_processes = running;
        stopped
    }
}

/// The processes whose executable path is among the monitored paths; the
/// rest are dropped.
pub fn filter_process_map(process_map: Vec<Process>, paths: Vec<String>) -> (r: Vec<Process>)
    ensures
        r.deep_view() == listed_processes(process_map.deep_view(), paths.deep_view()),
{
    let ghost ps = process_map.deep_view();
    let ghost pv = paths.deep_view();
    let mut r: Vec<Process> = Vec::new();
    let mut i: usize = 0;
    while i < process_map.len()
        invariant
            i <= process_map@.len(),
            ps == process_map.deep_view(),
            pv == paths.deep_view(),
            r.deep_view() == listed_processes(ps.subrange(0, i as int), pv),
        decreases process_map@.len() - i,
    {
        let ghost dv_pre = r.deep_view();
        let p = &process_map[i];
        proof {
            assert(ps[i as int] == p@);
        }
        if path_in_list(&paths, &p.path) {
            let copied = copy_process(p);
            r.push(copied);
        }
        proof {
            reveal(Seq::filter);
            let prefix = ps.subrange(0, i as int);
            let prefix1 = ps.subrange(0, i + 1 as int);
            assert(prefix1.drop_last() =~= prefix);
            assert(prefix1.last() == ps[i as int]);
            if path_listed(pv, ps[i as int].path) {
                assert(r.deep_view() =~= dv_pre.push(ps[i as int]));
            }
            assert(r.deep_view() =~= listed_processes(prefix1, pv));
        }
        i += 1;
    }
    proof {
        assert(ps.subrange(0, process_map@.len() as int) =~= ps);
    }
    r
}

} // verus!
