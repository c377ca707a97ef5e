//! What to clean up when SIGINT/SIGTERM arrives: overlays to unmount and
//! child processes to stop. The signal handler only records the signal;
//! the cleanup runs outside it, from this registry.
use vstd::prelude::*;
use crate::metadata::strs_view;

verus! {

/// A mounted overlay to take down: how it was mounted and with what.
#[derive(Debug)]
pub struct MountCleanup {
    pub merged: String,
    pub sudo_bin: String,
    pub sudo_flags: Vec<String>,
    /// Kernel overlay mounted through the elevation wrapper (true) or
    /// fuse-overlayfs (false).
    pub used_sudo: bool,
    pub umount_bin: String,
    pub fusermount_bin: String,
}

impl Clone for MountCleanup {
    fn clone(&self) -> (r: Self)
        ensures
            r.merged@ == self.merged@,
            r.sudo_bin@ == self.sudo_bin@,
            r.sudo_flags@ == self.sudo_flags@,
            r.used_sudo == self.used_sudo,
            r.umount_bin@ == self.umount_bin@,
            r.fusermount_bin@ == self.fusermount_bin@,
    {
        MountCleanup {
            merged: self.merged.clone(),
            sudo_bin: self.sudo_bin.clone(),
            sudo_flags: crate::metadata::clone_strings(&self.sudo_flags),
            used_sudo: self.used_sudo,
            umount_bin: self.umount_bin.clone(),
            fusermount_bin: self.fusermount_bin.clone(),
        }
    }
}

/// One unmount command: `program args...`, through the elevation wrapper
/// when `elevated`.
#[derive(Debug)]
pub struct UnmountAttempt {
    pub elevated: bool,
    pub program: String,
    pub args: Vec<String>,
}

pub open spec fn attempt(elevated: bool, program: Seq<char>, args: Seq<Seq<char>>) -> (
    bool,
    Seq<char>,
    Seq<Seq<char>>,
) {
    (elevated, program, args)
}

pub open spec fn attempt_view(a: UnmountAttempt) -> (bool, Seq<char>, Seq<Seq<char>>) {
    (a.elevated, a.program@, strs_view(a.args@))
}

fn make_attempt(elevated: bool, program: &String, args: Vec<String>) -> (r: UnmountAttempt)
    ensures
        attempt_view(r) == attempt(elevated, program@, strs_view(args@)),
{
    UnmountAttempt { elevated, program: program.clone(), args }
}

impl MountCleanup {
    /// A cleanup with the default unmount programs (`umount`,
    /// `fusermount3`).
    pub fn new(merged: String, sudo_bin: String, sudo_flags: Vec<String>, used_sudo: bool) -> (r:
        Self)
        ensures
            r.merged == merged,
            r.sudo_bin == sudo_bin,
            r.sudo_flags == sudo_flags,
            r.used_sudo == used_sudo,
            r.umount_bin@ == "umount"@,
            r.fusermount_bin@ == "fusermount3"@,
    {
        MountCleanup {
            merged,
            sudo_bin,
            sudo_flags,
            used_sudo,
            umount_bin: "umount".to_owned(),
            fusermount_bin: "fusermount3".to_owned(),
        }
    }

    /// The unmount commands to try, in order; the caller stops at the
    /// first that succeeds. A kernel overlay is unmounted through the
    /// wrapper, cleanly then lazily (`-l`); a FUSE overlay with
    /// `fusermount3 -u`, then `umount`, then `umount -l`. Failures are
    /// only logged: cleanup never aborts.
    pub fn run(&self) -> (r: Vec<UnmountAttempt>)
        ensures
            self.used_sudo ==> r@.map_values(|a: UnmountAttempt| attempt_view(a)) == seq![
                attempt(true, self.umount_bin@, seq![self.merged@]),
                attempt(true, self.umount_bin@, seq!["-l"@, self.merged@]),
            ],
            !self.used_sudo ==> r@.map_values(|a: UnmountAttempt| attempt_view(a)) == seq![
                attempt(false, self.fusermount_bin@, seq!["-u"@, self.merged@]),
                attempt(false, self.umount_bin@, seq![self.merged@]),
                attempt(false, self.umount_bin@, seq!["-l"@, self.merged@]),
            ],
    {
        let mut out: Vec<UnmountAttempt> = Vec::new();
        let m1 = self.merged.clone();
        let m2 = self.merged.clone();
        let m3 = self.merged.clone();
        let l1 = "-l".to_owned();
        if self.used_sudo {
            let args1 = vec![m1];
            let args2 = vec![l1, m2];
            proof {
                assert(strs_view(args1@) =~= seq![self.merged@]);
                assert(strs_view(args2@) =~= seq!["-l"@, self.merged@]);
            }
            let a1 = make_attempt(true, &self.umount_bin, args1);
            let a2 = make_attempt(true, &self.umount_bin, args2);
            out.push(a1);
            out.push(a2);
            proof {
                assert(out@.map_values(|a: UnmountAttempt| attempt_view(a)) =~= seq![
                    attempt_view(a1),
                    attempt_view(a2),
                ]);
            }
        } else {
            let u1 = "-u".to_owned();
            let args1 = vec![u1, m1];
            let args2 = vec![m2];
            let args3 = vec![l1, m3];
            proof {
                assert(strs_view(args1@) =~= seq!["-u"@, self.merged@]);
                assert(strs_view(args2@) =~= seq![self.merged@]);
                assert(strs_view(args3@) =~= seq!["-l"@, self.merged@]);
            }
            let a1 = make_attempt(false, &self.fusermount_bin, args1);
            let a2 = make_attempt(false, &self.umount_bin, args2);
            let a3 = make_attempt(false, &self.umount_bin, args3);
            out.push(a1);
            out.push(a2);
            out.push(a3);
            proof {
                assert(out@.map_values(|a: UnmountAttempt| attempt_view(a)) =~= seq![
                    attempt_view(a1),
                    attempt_view(a2),
                    attempt_view(a3),
                ]);
            }
        }
        out
    }
}

/// Mounts to take down and children to stop on a signal.
#[derive(Debug)]
pub struct CleanupRegistry {
    pub mounts: Vec<MountCleanup>,
    pub children: Vec<u32>,
    /// 0 while no signal arrived; else the signal number.
    pub got_signal: i32,
}

impl CleanupRegistry {
    pub fn new() -> (r: Self)
        ensures
            r.mounts@.len() == 0,
            r.children@.len() == 0,
            r.got_signal == 0,
    {
        CleanupRegistry { mounts: Vec::new(), children: Vec::new(), got_signal: 0 }
    }
}

/// Whether a termination signal has arrived (build loops stop between
/// packages).
pub fn is_shutting_down(reg: &CleanupRegistry) -> (r: bool)
    ensures
        r == (reg.got_signal != 0),
{
    reg.got_signal != 0
}

pub open spec fn mount_paths(v: Seq<MountCleanup>) -> Seq<Seq<char>> {
    v.map_values(|c: MountCleanup| c.merged@)
}

/// Records a mounted overlay.
pub fn register_mount(reg: &mut CleanupRegistry, c: MountCleanup)
    ensures
        final(reg).mounts@ == old(reg).mounts@.push(c),
        final(reg).children@ == old(reg).children@,
        final(reg).got_signal == old(reg).got_signal,
{
    reg.mounts.push(c);
}

/// Forgets every overlay mounted at `merged`, keeping the others in order.
pub fn unregister_mount(reg: &mut CleanupRegistry, merged: &str)
    ensures
        final(reg).mounts@ == old(reg).mounts@.filter(|c: MountCleanup| c.merged@ != merged@),
        final(reg).children@ == old(reg).children@,
        final(reg).got_signal == old(reg).got_signal,
{
    let key = merged.to_owned();
    let mut kept: Vec<MountCleanup> = Vec::new();
    let mut rest: Vec<MountCleanup> = Vec::new();
    std::mem::swap(&mut rest, &mut reg.mounts);
    let ghost orig = rest@;
    let ghost pred = |c: MountCleanup| c.merged@ != merged@;
    while rest.len() > 0
        invariant
            key@ == merged@,
            pred == (|c: MountCleanup| c.merged@ != merged@),
            orig == orig.take(orig.len() - rest@.len()) + rest@,
            rest@.len() <= orig.len(),
            kept@ == orig.take(orig.len() - rest@.len()).filter(pred),
            reg.children@ == old(reg).children@,
            reg.got_signal == old(reg).got_signal,
            orig == old(reg).mounts@,
        decreases rest@.len(),
    {
        let ghost i = orig.len() - rest@.len();
        proof {
            assert(orig[i] == rest@[0]);
            assert(orig.take(i + 1) =~= orig.take(i).push(orig[i]));
            orig.take(i).lemma_filter_push(orig[i], pred);
        }
        let c = rest.remove(0);
        proof {
            assert(orig =~= orig.take(orig.len() - rest@.len()) + rest@);
        }
        if c.merged != key {
            kept.push(c);
        }
    }
    proof {
        assert(orig.take(orig.len() as int) =~= orig);
    }
    reg.mounts = kept;
}

/// Records a child process to stop on a signal.
pub fn register_child(reg: &mut CleanupRegistry, pid: u32)
    ensures
        final(reg).children@ == old(reg).children@.push(pid),
        final(reg).mounts@ == old(reg).mounts@,
        final(reg).got_signal == old(reg).got_signal,
{
    reg.children.push(pid);
}

/// Forgets the child `pid`, keeping the others in order.
pub fn unregister_child(reg: &mut CleanupRegistry, pid: u32)
    ensures
        final(reg).children@ == old(reg).children@.filter(|p: u32| p != pid),
        final(reg).mounts@ == old(reg).mounts@,
        final(reg).got_signal == old(reg).got_signal,
{
    let ghost orig = reg.children@;
    let ghost pred = |p: u32| p != pid;
    let mut kept: Vec<u32> = Vec::new();
    let mut i: usize = 0;
    while i < reg.children.len()
        invariant
            i <= orig.len(),
            reg.children@ == orig,
            pred == (|p: u32| p != pid),
            kept@ == orig.take(i as int).filter(pred),
        decreases orig.len() - i,
    {
        proof {
            assert(orig.take(i as int + 1) =~= orig.take(i as int).push(orig[i as int]));
            orig.take(i as int).lemma_filter_push(orig[i as int], pred);
        }
        if reg.children[i] != pid {
            kept.push(reg.children[i]);
        }
        i = i + 1;
    }
    proof {
        assert(orig.take(orig.len() as int) =~= orig);
    }
    reg.children = kept;
}

/// Unregistering a path forgets it: after a cleanup for `p` was
/// registered over the cleanups `m`, unregistering `p` leaves no cleanup
/// for `p`, and every cleanup for another path is still registered.
pub proof fn lemma_unregister_forgets_mount(m: Seq<MountCleanup>, c: MountCleanup, p: Seq<char>)
    requires
        c.merged@ == p,
    ensures
        ({
            let r = m.push(c).filter(|x: MountCleanup| x.merged@ != p);
            &&& forall|i: int| 0 <= i < r.len() ==> (#[trigger] r[i]).merged@ != p
            &&& forall|x: MountCleanup| #[trigger] m.contains(x) && x.merged@ != p ==> r.contains(x)
        }),
{
    broadcast use vstd::seq_lib::group_filter_ensures;

    let pred = |x: MountCleanup| x.merged@ != p;
    let r = m.push(c).filter(pred);
    assert forall|i: int| 0 <= i < r.len() implies (#[trigger] r[i]).merged@ != p by {
        assert(pred(r[i]));
    }
    assert forall|x: MountCleanup| #[trigger] m.contains(x) && x.merged@ != p implies r.contains(x) by {
        let k = choose|k: int| 0 <= k < m.len() && m[k] == x;
        assert(m.push(c)[k] == x);
        m.push(c).lemma_filter_contains(pred, k);
    }
}

} // verus!
