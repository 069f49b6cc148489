//! Telling whether other runner processes are running.
use vstd::prelude::*;

verus! {

/// A running process, with what the runner compares.
#[derive(Debug)]
pub struct ProcessEntry {
    pub pid: u32,
    /// The process name.
    pub name: Vec<u8>,
    /// Whether the process runs the runner's own executable file.
    pub same_executable: bool,
    /// The user the process runs as, when known.
    pub user_id: Option<u32>,
}

/// A process of the runner: named as the runner's executable file, or
/// running that file.
pub open spec fn is_runner(p: ProcessEntry, file_name: Seq<u8>) -> bool {
    p.name@ == file_name || p.same_executable
}

/// The user of the first runner process with pid `pid`, if any.
pub open spec fn user_of(ps: Seq<ProcessEntry>, file_name: Seq<u8>, pid: u32) -> Option<u32>
    decreases ps.len(),
{
    if ps.len() == 0 {
        None
    } else if is_runner(ps[0], file_name) && ps[0].pid == pid {
        ps[0].user_id
    } else {
        user_of(ps.drop_first(), file_name, pid)
    }
}

/// Whether some runner process other than `current_pid` runs as the same
/// user as the current one (any user, when that is unknown).
pub open spec fn spec_others_running(ps: Seq<ProcessEntry>, file_name: Seq<u8>, current_pid: u32) -> bool {
    let uid = user_of(ps, file_name, current_pid);
    exists|i: int|
        0 <= i < ps.len() && is_runner(#[trigger] ps[i], file_name) && (ps[i].user_id == uid
            || uid is None) && ps[i].pid != current_pid
}

fn bytes_eq(a: &[u8], b: &[u8]) -> (res: bool)
    ensures
        res == (a@ == b@),
{
    if a.len() != b.len() {
        return false;
    }
    let mut i: usize = 0;
    while i < a.len()
        invariant
            a@.len() == b@.len(),
            i <= a@.len(),
            forall|k: int| 0 <= k < i ==> a@[k] == b@[k],
        decreases a.len() - i,
    {
        if a[i] != b[i] {
            return false;
        }
        i = i + 1;
    }
    assert(a@ =~= b@);
    true
}

/// The user of the first runner process with pid `pid`.
fn runner_user(processes: &Vec<ProcessEntry>, file_name: &[u8], pid: u32) -> (res: Option<u32>)
    ensures
        res == user_of(processes@, file_name@, pid),
{
    let ghost ps = processes@;
    let mut i: usize = 0;
    assert(ps.skip(0) =~= ps);
    while i < processes.len()
        invariant
            i <= ps.len(),
            ps == processes@,
            user_of(ps, file_name@, pid) == user_of(ps.skip(i as int), file_name@, pid),
        decreases processes.len() - i,
    {
        let p = &processes[i];
        assert(ps.skip(i as int)[0] == *p);
        if (bytes_eq(&p.name, file_name) || p.same_executable) && p.pid == pid {
            return p.user_id;
        }
        assert(ps.skip(i as int).drop_first() =~= ps.skip(i + 1));
        i = i + 1;
    }
    None
}

/// Whether other runner processes are running: processes named as the
/// runner's executable file (`file_name`) or running it, of the same user as
/// the current process `current_pid`, other than the current process.
///
/// A hint: when it is `false` while a lock is still held, the lock will not
/// be released.
pub fn other_runner_processes(processes: &Vec<ProcessEntry>, file_name: &[u8], current_pid: u32) -> (res: bool)
    ensures
        res == spec_others_running(processes@, file_name@, current_pid),
{
    let ghost ps = processes@;
    let uid = runner_user(processes, file_name, current_pid);
    let mut j: usize = 0;
    while j < processes.len()
        invariant
            j <= ps.len(),
            ps == processes@,
            uid == user_of(ps, file_name@, current_pid),
            forall|k: int| 0 <= k < j ==> !(is_runner(#[trigger] ps[k], file_name@) && (ps[k].user_id == uid || uid is None) && ps[k].pid != current_pid),
        decreases processes.len() - j,
    {
        let p = &processes[j];
        if (bytes_eq(&p.name, file_name) || p.same_executable) && (p.user_id == uid || uid.is_none()) && p.pid != current_pid {
            return true;
        }
        j = j + 1;
    }
    false
}

} // verus!
