//! File permissions, and the profile of the agent whose access is checked.

use crate::stat::{mode_type, FileType, Gid, Stat, Uid};
use vstd::prelude::*;

verus! {

/// The user ID of the superuser.
pub const ROOT_UID: Uid = 0;

/// The group ID of the superuser.
pub const ROOT_GID: Gid = 0;

/// The owner can read.
pub const S_IRUSR: u32 = 0o400;

/// The owner can write.
pub const S_IWUSR: u32 = 0o200;

/// The owner can execute.
pub const S_IXUSR: u32 = 0o100;

/// The group can read.
pub const S_IRGRP: u32 = 0o040;

/// The group can write.
pub const S_IWGRP: u32 = 0o020;

/// The group can execute.
pub const S_IXGRP: u32 = 0o010;

/// Everyone can read.
pub const S_IROTH: u32 = 0o004;

/// Everyone can write.
pub const S_IWOTH: u32 = 0o002;

/// Everyone can execute.
pub const S_IXOTH: u32 = 0o001;

/// Set group ID on execution; on a directory, new files get the group of the directory.
pub const S_ISGID: u32 = 0o2000;

/// Sticky bit; on a directory, only owners can remove files.
pub const S_ISVTX: u32 = 0o1000;

/// `uid` or `gid` is that of the superuser.
pub open spec fn superuser(uid: Uid, gid: Gid) -> bool {
    uid == ROOT_UID || gid == ROOT_GID
}

/// One of the three permission bits applies to `uid` and `gid`, on a file that belongs to
/// `owner` and `group` and has the mode `mode`.
pub open spec fn granted(
    uid: Uid,
    gid: Gid,
    owner: Uid,
    group: Gid,
    mode: u32,
    user_bit: u32,
    group_bit: u32,
    other_bit: u32,
) -> bool {
    ||| mode & user_bit != 0 && owner == uid
    ||| mode & group_bit != 0 && group == gid
    ||| mode & other_bit != 0
}

/// Tells whether one of the three permission bits applies.
pub fn is_granted(
    uid: Uid,
    gid: Gid,
    owner: Uid,
    group: Gid,
    mode: u32,
    user_bit: u32,
    group_bit: u32,
    other_bit: u32,
) -> (r: bool)
    ensures
        r == granted(uid, gid, owner, group, mode, user_bit, group_bit, other_bit),
{
    if mode & user_bit != 0 && owner == uid {
        return true;
    }
    if mode & group_bit != 0 && group == gid {
        return true;
    }
    mode & other_bit != 0
}

/// `ap` may write the file with status `stat`.
pub open spec fn writable(ap: AccessProfile, stat: Stat) -> bool {
    superuser(ap.euid, ap.egid) || granted(
        ap.euid,
        ap.egid,
        stat.uid,
        stat.gid,
        stat.mode,
        S_IWUSR,
        S_IWGRP,
        S_IWOTH,
    )
}

/// `ap` may execute the file with status `stat`, or search it if it is a directory. On a regular
/// file, the superuser needs the permission like everyone else.
pub open spec fn executable(ap: AccessProfile, stat: Stat) -> bool {
    ||| superuser(ap.euid, ap.egid) && mode_type(stat.mode) != Some(FileType::Regular)
    ||| granted(
        ap.euid,
        ap.egid,
        stat.uid,
        stat.gid,
        stat.mode,
        S_IXUSR,
        S_IXGRP,
        S_IXOTH,
    )
}

/// `ap` may add files to the directory with status `stat`, and remove files from it.
pub open spec fn directory_writable(ap: AccessProfile, stat: Stat) -> bool {
    writable(ap, stat) && executable(ap, stat)
}

/// The user and group IDs under which an agent acts.
#[derive(Clone, Copy, PartialEq, Eq, Structural, Debug)]
pub struct AccessProfile {
    /// Real user ID.
    pub uid: Uid,
    /// Real group ID.
    pub gid: Gid,
    /// Effective user ID: the one that accesses are checked against.
    pub euid: Uid,
    /// Effective group ID: the one that accesses are checked against.
    pub egid: Gid,
    /// Saved user ID.
    pub suid: Uid,
    /// Saved group ID.
    pub sgid: Gid,
}

/// The profile of the kernel itself.
pub open spec fn kernel_profile() -> AccessProfile {
    AccessProfile {
        uid: ROOT_UID,
        gid: ROOT_GID,
        euid: ROOT_UID,
        egid: ROOT_GID,
        suid: ROOT_UID,
        sgid: ROOT_GID,
    }
}

impl AccessProfile {
    /// Returns the profile of the kernel itself.
    pub fn kernel() -> (ap: Self)
        ensures
            ap == kernel_profile(),
    {
        AccessProfile {
            uid: ROOT_UID,
            gid: ROOT_GID,
            euid: ROOT_UID,
            egid: ROOT_GID,
            suid: ROOT_UID,
            sgid: ROOT_GID,
        }
    }

    /// Tells whether the agent can write the file with status `stat`.
    pub fn can_write_file(&self, stat: &Stat) -> (r: bool)
        ensures
            r == writable(*self, *stat),
    {
        self.euid == ROOT_UID || self.egid == ROOT_GID || is_granted(
            self.euid,
            self.egid,
            stat.uid,
            stat.gid,
            stat.mode,
            S_IWUSR,
            S_IWGRP,
            S_IWOTH,
        )
    }

    /// Tells whether the agent can execute the file with status `stat`.
    pub fn can_execute_file(&self, stat: &Stat) -> (r: bool)
        ensures
            r == executable(*self, *stat),
    {
        if self.euid == ROOT_UID || self.egid == ROOT_GID {
            match stat.get_type() {
                Some(FileType::Regular) => {},
                _ => {
                    return true;
                },
            }
        }
        is_granted(
            self.euid,
            self.egid,
            stat.uid,
            stat.gid,
            stat.mode,
            S_IXUSR,
            S_IXGRP,
            S_IXOTH,
        )
    }

    /// Tells whether the agent can look up files in the directory with status `stat`.
    pub fn can_search_directory(&self, stat: &Stat) -> (r: bool)
        ensures
            r == executable(*self, *stat),
    {
        self.can_execute_file(stat)
    }

    /// Tells whether the agent can add files to the directory with status `stat`, and remove
    /// files from it.
    pub fn can_write_directory(&self, stat: &Stat) -> (r: bool)
        ensures
            r == directory_writable(*self, *stat),
    {
        self.can_write_file(stat) && self.can_execute_file(stat)
    }
}

/// The permission bits of the three classes apply to those who belong to the class: the owner's to
/// the owner, the group's to the group, and the last to everyone. A mode that grants nothing grants
/// it to no one.
pub proof fn law_each_class_has_its_bit(
    uid: Uid,
    gid: Gid,
    owner: Uid,
    group: Gid,
    mode: u32,
    user_bit: u32,
    group_bit: u32,
    other_bit: u32,
)
    ensures
        ({
            let r = granted(uid, gid, owner, group, mode, user_bit, group_bit, other_bit);
            &&& mode & other_bit != 0 ==> r
            &&& mode & other_bit == 0 && uid != owner && gid != group ==> !r
            &&& mode & other_bit == 0 && uid == owner && gid != group ==> r == (mode & user_bit
                != 0)
            &&& mode & other_bit == 0 && uid != owner && gid == group ==> r == (mode & group_bit
                != 0)
            &&& mode & other_bit == 0 && uid == owner && gid == group ==> r == (mode & user_bit != 0
                || mode & group_bit != 0)
        }),
{
}

/// The superuser writes every file. Anyone else writes a file by the write bit of a class that they
/// belong to, under their effective IDs; their other IDs and the other bits do not matter.
pub proof fn law_write_permission(ap: AccessProfile, stat: Stat)
    ensures
        ap.euid == 0 || ap.egid == 0 ==> writable(ap, stat),
        stat.mode & 0o002 != 0 ==> writable(ap, stat),
        stat.mode & 0o200 != 0 && ap.euid == stat.uid ==> writable(ap, stat),
        stat.mode & 0o020 != 0 && ap.egid == stat.gid ==> writable(ap, stat),
        ap.euid != 0 && ap.egid != 0 && stat.mode & 0o002 == 0 && (stat.mode & 0o200 == 0 || ap.euid
            != stat.uid) && (stat.mode & 0o020 == 0 || ap.egid != stat.gid) ==> !writable(ap, stat),
{
}

/// The superuser searches every directory, and executes every file but a regular one without being
/// granted it. Anyone else, and the superuser on a regular file, does so by the execute bit of a
/// class that they belong to, under their effective IDs.
pub proof fn law_execute_permission(ap: AccessProfile, stat: Stat)
    ensures
        (ap.euid == 0 || ap.egid == 0) && stat.mode & 0o170000 != 0o100000 ==> executable(ap, stat),
        stat.mode & 0o001 != 0 ==> executable(ap, stat),
        stat.mode & 0o100 != 0 && ap.euid == stat.uid ==> executable(ap, stat),
        stat.mode & 0o010 != 0 && ap.egid == stat.gid ==> executable(ap, stat),
        (ap.euid != 0 && ap.egid != 0 || stat.mode & 0o170000 == 0o100000) && stat.mode & 0o001 == 0
            && (stat.mode & 0o100 == 0 || ap.euid != stat.uid) && (stat.mode & 0o010 == 0 || ap.egid
            != stat.gid) ==> !executable(ap, stat),
{
}

/// A directory is changed by who may both write and search it: the superuser changes every one, and
/// neither permission alone is enough for anyone else.
pub proof fn law_directory_permission(ap: AccessProfile, stat: Stat)
    ensures
        directory_writable(ap, stat) <==> writable(ap, stat) && executable(ap, stat),
        (ap.euid == 0 || ap.egid == 0) && stat.mode & 0o170000 == 0o040000 ==> directory_writable(
            ap,
            stat,
        ),
{
}

/// The kernel acts as the superuser, under all of its IDs.
pub proof fn law_kernel_is_the_superuser(stat: Stat)
    ensures
        ({
            let ap = kernel_profile();
            &&& ap.uid == 0 && ap.euid == 0 && ap.suid == 0
            &&& ap.gid == 0 && ap.egid == 0 && ap.sgid == 0
            &&& writable(ap, stat)
            &&& stat.mode & 0o170000 == 0o040000 ==> executable(ap, stat)
        }),
{
}

/// The answers on permissions are those for exactly the agent and the status that were given: who may
/// write the file, who may execute it or search it, and who may change it as a directory.
pub proof fn law_permission_answers(
    ap: &AccessProfile,
    stat: &Stat,
    write: bool,
    execute: bool,
    search: bool,
    change: bool,
    kernel: AccessProfile,
)
    requires
        call_ensures(AccessProfile::can_write_file, (ap, stat), write),
        call_ensures(AccessProfile::can_execute_file, (ap, stat), execute),
        call_ensures(AccessProfile::can_search_directory, (ap, stat), search),
        call_ensures(AccessProfile::can_write_directory, (ap, stat), change),
        call_ensures(AccessProfile::kernel, (), kernel),
    ensures
        write == (ap.euid == 0 || ap.egid == 0 || stat.mode & 0o002 != 0 || stat.mode & 0o200 != 0
            && ap.euid == stat.uid || stat.mode & 0o020 != 0 && ap.egid == stat.gid),
        execute == ((ap.euid == 0 || ap.egid == 0) && stat.mode & 0o170000 != 0o100000 || stat.mode
            & 0o001 != 0 || stat.mode & 0o100 != 0 && ap.euid == stat.uid || stat.mode & 0o010 != 0
            && ap.egid == stat.gid),
        search == execute,
        change == (write && execute),
        kernel.euid == 0 && kernel.egid == 0,
{
}

} // verus!
