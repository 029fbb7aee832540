//! What holds of the VFS as a whole.

use crate::errno::{EACCES, EBUSY, ELOOP, ENOENT, ENOMEM, ENOTDIR, EPERM};
use crate::limits::SYMLOOP_MAX;
use crate::path::{
    absolute, component_of, components, lemma_run_end, run_end, segments, ComponentView, SLASH,
};
use crate::perm::{directory_writable, executable, AccessProfile, S_ISVTX};
use crate::stat::{mode_type, FileLocation, FileType, INode, Stat};
use crate::history::World;
use crate::vfs::backend::{Call, DirEntry, Node, Ops, Reply};
use crate::vfs::children::Key;
use crate::vfs::edit::{create, link_refusal, link_to, unlink_of};
use crate::vfs::entry::{above, names_path, path_of, within, EntryView};
use crate::vfs::references::{RefCall, RefReply};
use crate::vfs::resolve::{
    applies_to, dotdot, enter, find_entry, find_file, finish, follow, get_file, has_root, left,
    lemma_find_entry, lemma_finish, lemma_follow, lemma_read_whole, lemma_resolve,
    lemma_step, lemma_walk, looks_up, most, resolve, resolve_whole, start_of, starts, step, walk,
    Place, SettingsView,
};
use crate::vfs::state::{
    at_most, lemma_ask, lemma_extends, lemma_read_from, read_from, read_whole, release_of, stat_of, type_of,
    VfsView, INCREMENT,
};
use vstd::prelude::*;

verus! {

/// A resolution that starts within its root ends within it: no path, not even through `..` or
/// through a symbolic link, leads to a parent of the root.
pub proof fn law_resolution_stays_within_root(
    w: World<Reply>,
    s: VfsView,
    path: Seq<u8>,
    settings: SettingsView,
)
    requires
        s.wf(),
        applies_to(settings, path, s),
        settings.cwd matches Some(cwd) ==> within(cwd, settings.root.id),
    ensures
        resolve_whole(w, s, path, settings).1 matches Ok(Place::Found(e)) ==> within(
            e,
            settings.root.id,
        ),
        resolve_whole(w, s, path, settings).1 matches Ok(Place::Creatable(parent, _)) ==> within(
            parent,
            settings.root.id,
        ),
{
    lemma_resolve(w, s, path, settings, 0);
}

/// No path leads to a parent of the root of the resolution, even from a current working directory
/// that lies outside of the root: it would have to be a parent of the root itself.
pub proof fn law_resolution_stays_off_parents_of_root(
    w: World<Reply>,
    s: VfsView,
    path: Seq<u8>,
    settings: SettingsView,
)
    requires
        s.wf(),
        applies_to(settings, path, s),
        settings.cwd matches Some(cwd) ==> !above(cwd, settings.root),
    ensures
        resolve_whole(w, s, path, settings).1 matches Ok(Place::Found(e)) ==> !above(
            e,
            settings.root,
        ),
        resolve_whole(w, s, path, settings).1 matches Ok(Place::Creatable(parent, _)) ==> !above(
            parent,
            settings.root,
        ),
{
    lemma_resolve(w, s, path, settings, 0);
}

/// What a resolution finds is an entry of the VFS, and it exists if the directories that the
/// resolution starts from do. A file is only offered to be created where the settings ask for
/// that.
pub proof fn law_resolution_finds_what_exists(
    w: World<Reply>,
    s: VfsView,
    path: Seq<u8>,
    settings: SettingsView,
)
    requires
        s.wf(),
        applies_to(settings, path, s),
    ensures
        ({
            let (s1, place) = resolve_whole(w, s, path, settings);
            &&& s1.wf()
            &&& s1.extends(s)
            &&& place matches Ok(Place::Found(e)) ==> s1.owns(e) && (starts(settings, path, s)
                ==> s1.reaches(e))
            &&& place matches Ok(Place::Creatable(parent, _)) ==> s1.reaches(parent)
                && settings.create
        }),
{
    assert(s.log =~= s.log.subrange(0, s.log.len() as int));
    lemma_resolve(w, s, path, settings, 0);
}

/// An absolute path leads to the same place whatever the current working directory is.
pub proof fn law_absolute_path_ignores_cwd(
    w: World<Reply>,
    s: VfsView,
    path: Seq<u8>,
    settings: SettingsView,
    cwd: Option<EntryView>,
)
    requires
        absolute(path),
    ensures
        resolve_whole(w, s, path, SettingsView { cwd, ..settings }) == resolve_whole(
            w,
            s,
            path,
            settings,
        ),
{
    let comps = components(path);
    lemma_walk_ignores_cwd(w, s, settings.root, comps.drop_last(), settings, cwd, 0);
}

/// Without a current working directory, a path leads where it leads from the root.
pub proof fn law_no_cwd_means_root(
    w: World<Reply>,
    s: VfsView,
    path: Seq<u8>,
    settings: SettingsView,
)
    ensures
        resolve_whole(w, s, path, SettingsView { cwd: None, ..settings }) == resolve_whole(
            w,
            s,
            path,
            SettingsView { cwd: Some(settings.root), ..settings },
        ),
{
    let comps = components(path);
    let at_root = SettingsView { cwd: Some(settings.root), ..settings };
    lemma_walk_ignores_cwd(w, s, settings.root, comps.drop_last(), at_root, None, 0);
}

/// Walking components does not depend on the current working directory, only on where it starts.
pub proof fn lemma_walk_ignores_cwd(
    w: World<Reply>,
    s: VfsView,
    dir: EntryView,
    comps: Seq<ComponentView>,
    settings: SettingsView,
    cwd: Option<EntryView>,
    count: int,
)
    ensures
        walk(w, s, dir, comps, SettingsView { cwd, ..settings }, count) == walk(
            w,
            s,
            dir,
            comps,
            settings,
            count,
        ),
    decreases comps.len(),
{
    if comps.len() > 0 {
        let other = SettingsView { cwd, ..settings };
        let (s1, next) = step(w, s, dir, comps[0], settings, count);
        assert(step(w, s, dir, comps[0], other, count) == (s1, next));
        if let Ok((next, n)) = next {
            let rest = comps.skip(1);
            lemma_walk_ignores_cwd(w, s1, next, rest, settings, cwd, most(count, n));
        }
    }
}

/// An empty path leads nowhere, and nothing is asked.
pub proof fn law_empty_path_is_refused(
    w: World<Reply>,
    s: VfsView,
    path: Seq<u8>,
    settings: SettingsView,
)
    ensures
        path.len() == 0 ==> resolve_whole(w, s, path, settings) == (s, Err::<Place, i32>(ENOMEM)),
{
}

/// Nothing is looked up in a directory that may not be searched: neither for the components of a
/// path that lead to others, nor for the last one.
pub proof fn law_unsearchable_directory_is_refused(
    w: World<Reply>,
    s: VfsView,
    dir: EntryView,
    comps: Seq<ComponentView>,
    name: Seq<u8>,
    settings: SettingsView,
    count: int,
    stat: Stat,
)
    requires
        s.reply(w) == Reply::Stat(Ok(stat)),
        !executable(settings.access_profile, stat),
    ensures
        ({
            let node = dir.node->0;
            let s1 = s.ask(w, Call::GetStat(node.ops, node.location));
            &&& comps.len() > 0 ==> walk(w, s, dir, comps, settings, count) == (
                s1,
                Err::<(EntryView, int), i32>(EACCES),
            )
            &&& finish(w, s, dir, ComponentView::Normal(name), settings, count) == (
                s1,
                Err::<(Place, int), i32>(EACCES),
            )
        }),
{
    if comps.len() > 0 {
        assert(step(w, s, dir, comps[0], settings, count).1 == Err::<(EntryView, int), i32>(
            EACCES,
        ));
    }
}

/// On the way to the last component, a path leads through directories, and through symbolic
/// links where they are followed: anything else is refused.
pub proof fn law_only_directories_are_entered(
    w: World<Reply>,
    s: VfsView,
    dir: EntryView,
    name: Seq<u8>,
    settings: SettingsView,
    count: int,
)
    ensures
        ({
            let (s1, found) = find_entry(w, s, dir, name);
            found matches Ok(Some(e)) ==> {
                let (s2, t) = type_of(w, s1, e.node->0);
                t matches Ok(t) ==> t != FileType::Directory && (t != FileType::Link
                    || !settings.follow_link) ==> enter(w, s, dir, name, settings, count) == (
                    s2,
                    Err::<(EntryView, int), i32>(ENOTDIR),
                )
            }
        }),
{
}

/// Once as many symbolic links as allowed were followed, following one more fails, and the link is
/// not even read.
pub proof fn law_link_beyond_the_limit_is_refused(
    w: World<Reply>,
    s: VfsView,
    link: EntryView,
    root: EntryView,
    dir: EntryView,
    access_profile: AccessProfile,
    count: int,
)
    requires
        count >= SYMLOOP_MAX,
    ensures
        follow(w, s, link, root, dir, access_profile, count) == (
            s,
            Err::<(EntryView, int), i32>(ELOOP),
        ),
{
}

/// A path is never resolved through more symbolic links than allowed, whether one leads to another
/// or they stand side by side in the path.
pub proof fn law_links_are_limited(
    w: World<Reply>,
    s: VfsView,
    path: Seq<u8>,
    settings: SettingsView,
)
    requires
        s.wf(),
        applies_to(settings, path, s),
    ensures
        resolve(w, s, path, settings, 0).1 matches Ok((_, n)) ==> 0 <= n <= SYMLOOP_MAX,
{
    lemma_resolve(w, s, path, settings, 0);
}

/// The component `comp` of a path is a symbolic link in the directory `dir`.
pub open spec fn is_link(w: World<Reply>, s: VfsView, dir: EntryView, comp: ComponentView) -> bool {
    comp matches ComponentView::Normal(name) && {
        let s1 = stat_of(w, s, dir.node->0).0;
        let (s2, found) = find_entry(w, s1, dir, name);
        found matches Ok(Some(e)) && type_of(w, s2, e.node->0).1 == Ok::<FileType, i32>(
            FileType::Link,
        )
    }
}

/// How many of the components `comps`, on the way from `dir`, are symbolic links.
pub open spec fn links_on(
    w: World<Reply>,
    s: VfsView,
    dir: EntryView,
    comps: Seq<ComponentView>,
    settings: SettingsView,
    count: int,
) -> nat
    decreases comps.len(),
{
    if comps.len() == 0 {
        0
    } else {
        let here: nat = if is_link(w, s, dir, comps[0]) {
            1
        } else {
            0
        };
        let (s1, next) = step(w, s, dir, comps[0], settings, count);
        match next {
            Err(_) => here,
            Ok((next, n)) => here + links_on(
                w,
                s1,
                next,
                comps.skip(1),
                settings,
                most(count, n),
            ),
        }
    }
}

/// Symbolic links that stand side by side in a path count together: a way through some of them
/// ends only if they are, with those followed before, no more than allowed.
pub proof fn law_links_side_by_side_are_counted(
    w: World<Reply>,
    s: VfsView,
    dir: EntryView,
    comps: Seq<ComponentView>,
    settings: SettingsView,
    count: int,
)
    requires
        s.wf(),
        s.reaches(dir),
        s.reaches(settings.root),
    ensures
        walk(w, s, dir, comps, settings, count).1 matches Ok((_, n)) ==> {
            let links = links_on(w, s, dir, comps, settings, count);
            &&& count + links <= n
            &&& links > 0 ==> n <= SYMLOOP_MAX
        },
    decreases comps.len(),
{
    if comps.len() > 0 {
        let rest = comps.skip(1);
        lemma_step(w, s, dir, comps[0], settings, count);
        if is_link(w, s, dir, comps[0]) {
            lemma_link_counts(w, s, dir, comps[0], settings, count);
        }
        let (s1, next) = step(w, s, dir, comps[0], settings, count);
        if let Ok((next, n)) = next {
            law_links_side_by_side_are_counted(w, s1, next, rest, settings, n);
            lemma_walk(w, s1, next, rest, settings, n);
        }
    }
}

proof fn lemma_link_counts(
    w: World<Reply>,
    s: VfsView,
    dir: EntryView,
    comp: ComponentView,
    settings: SettingsView,
    count: int,
)
    requires
        s.wf(),
        s.reaches(dir),
        s.reaches(settings.root),
        is_link(w, s, dir, comp),
    ensures
        step(w, s, dir, comp, settings, count).1 matches Ok((_, n)) ==> count < n <= SYMLOOP_MAX,
{
    broadcast use lemma_ask;

    let s1 = stat_of(w, s, dir.node->0).0;
    assert(s1.extends(s) && s1.wf());
    if let ComponentView::Normal(name) = comp {
        let (s2, found) = find_entry(w, s1, dir, name);
        lemma_find_entry(w, s1, dir, name);
        let entry = found->Ok_0->0;
        let s3 = type_of(w, s2, entry.node->0).0;
        lemma_extends(s1, s2, s3);
        lemma_follow(w, s3, entry, settings.root, dir, settings.access_profile, count);
    }
}

/// When the components `firsts` of a path led through as many symbolic links as allowed, and the
/// next one is a symbolic link too, the way ends with an error.
pub proof fn law_one_link_too_many_is_refused(
    w: World<Reply>,
    s: VfsView,
    dir: EntryView,
    firsts: Seq<ComponentView>,
    name: Seq<u8>,
    rest: Seq<ComponentView>,
    settings: SettingsView,
    count: int,
    link: EntryView,
)
    requires
        settings.follow_link,
        walk(w, s, dir, firsts, settings, count).1 matches Ok((at, n)) && {
            let s1 = walk(w, s, dir, firsts, settings, count).0;
            let (s2, stat) = stat_of(w, s1, at.node->0);
            let (s3, found) = find_entry(w, s2, at, name);
            &&& n >= SYMLOOP_MAX
            &&& stat matches Ok(stat) && executable(settings.access_profile, stat)
            &&& found == Ok::<Option<EntryView>, i32>(Some(link))
            &&& type_of(w, s3, link.node->0).1 == Ok::<FileType, i32>(FileType::Link)
        },
    ensures
        walk(
            w,
            s,
            dir,
            firsts + (seq![ComponentView::Normal(name)] + rest),
            settings,
            count,
        ).1 == Err::<(EntryView, int), i32>(ELOOP),
{
    let then = seq![ComponentView::Normal(name)] + rest;
    lemma_walk_append(w, s, dir, firsts, then, settings, count);
    let (s1, r) = walk(w, s, dir, firsts, settings, count);
    let (at, n) = r->Ok_0;
    let (s2, stat) = stat_of(w, s1, at.node->0);
    assert(then[0] == ComponentView::Normal(name));
    assert(enter(w, s2, at, name, settings, n).1 == Err::<(EntryView, int), i32>(ELOOP));
    assert(step(w, s1, at, then[0], settings, n) == enter(w, s2, at, name, settings, n));
}

/// An entry that was found once is found again, in the cache: the second time, nothing is asked
/// of the file system, whatever it would answer.
pub proof fn law_found_entry_is_cached(
    w: World<Reply>,
    later: World<Reply>,
    s: VfsView,
    dir: EntryView,
    name: Seq<u8>,
)
    ensures
        ({
            let (s1, found) = find_entry(w, s, dir, name);
            found matches Ok(Some(e)) ==> find_entry(later, s1, dir, name) == (
                s1,
                Ok::<Option<EntryView>, i32>(Some(e)),
            )
        }),
{
}

/// A file that was created is found under its name in its directory, in the cache.
pub proof fn law_created_file_is_found(
    w: World<Reply>,
    later: World<Reply>,
    s: VfsView,
    parent: EntryView,
    name: Seq<u8>,
    ap: AccessProfile,
    stat: Stat,
)
    ensures
        ({
            let (s1, created) = create(w, s, parent, name, ap, stat);
            created matches Ok(e) ==> find_entry(later, s1, parent, name) == (
                s1,
                Ok::<Option<EntryView>, i32>(Some(e)),
            )
        }),
{
}

/// A created file is a new entry: none that was ever made before has its identity.
pub proof fn law_created_file_is_new(
    w: World<Reply>,
    s: VfsView,
    parent: EntryView,
    name: Seq<u8>,
    ap: AccessProfile,
    stat: Stat,
)
    requires
        s.wf(),
    ensures
        create(w, s, parent, name, ap, stat).1 matches Ok(e) ==> !s.known.contains_key(e.id)
            && e.name == name && e.parent == Some(Box::new(parent)),
{
}

/// A created file lies at the inode that the file system gave it, on the mountpoint of its
/// directory, if the table of nodes answers with the node that it was asked for. The cache holds
/// one more entry then.
pub proof fn law_created_file_lies_at_its_inode(
    w: World<Reply>,
    s: VfsView,
    parent: EntryView,
    name: Seq<u8>,
    ap: AccessProfile,
    stat: Stat,
    inode: INode,
    ops: Ops,
    node: Node,
)
    requires
        w((s.log.len() + 1) as int) == Reply::Added(Ok((inode, ops))),
        w((s.log.len() + 2) as int) == Reply::Node(Ok(node)),
        node.location == (FileLocation {
            mountpoint_id: parent.node->0.location.mountpoint_id,
            inode,
        }),
    ensures
        ({
            let (s1, created) = create(w, s, parent, name, ap, stat);
            created matches Ok(e) ==> {
                &&& e.node == Some(node)
                &&& s1.children == s.children.insert((parent.id, name), e)
                &&& s1.log[(s.log.len() + 2) as int].0 == Call::GetOrInsertNode(node.location, ops)
            }
        }),
{
}

/// An agent that may not write a directory is refused to create a file there, and nothing but
/// the status of the directory was asked.
pub proof fn law_create_needs_permission(
    w: World<Reply>,
    s: VfsView,
    parent: EntryView,
    name: Seq<u8>,
    ap: AccessProfile,
    stat: Stat,
    parent_stat: Stat,
)
    requires
        s.reply(w) == Reply::Stat(Ok(parent_stat)),
        mode_type(parent_stat.mode) == Some(FileType::Directory),
        !directory_writable(ap, parent_stat),
    ensures
        create(w, s, parent, name, ap, stat) == (
            s.ask(w, Call::GetStat(parent.node->0.ops, parent.node->0.location)),
            Err::<EntryView, i32>(EACCES),
        ),
{
}

/// An agent that may not write a directory is refused to remove a link from there, and nothing
/// but the status of the directory was asked.
pub proof fn law_unlink_needs_permission(
    w: World<Reply>,
    v: World<RefReply>,
    s: VfsView,
    parent: EntryView,
    name: Seq<u8>,
    ap: AccessProfile,
    parent_stat: Stat,
)
    requires
        s.reply(w) == Reply::Stat(Ok(parent_stat)),
        mode_type(parent_stat.mode) == Some(FileType::Directory),
        !directory_writable(ap, parent_stat),
    ensures
        unlink_of(w, v, s, parent, name, ap) == (
            s.ask(w, Call::GetStat(parent.node->0.ops, parent.node->0.location)),
            Err::<(), i32>(EACCES),
        ),
{
}

/// Once a link was removed, no entry is cached for it, and it is not found any more: the file system
/// is asked, and when it knows no such name, there is no such entry.
pub proof fn law_removed_link_is_not_found(
    w: World<Reply>,
    v: World<RefReply>,
    s: VfsView,
    parent: EntryView,
    name: Seq<u8>,
    ap: AccessProfile,
    later: World<Reply>,
)
    ensures
        ({
            let (s1, r) = unlink_of(w, v, s, parent, name, ap);
            r is Ok ==> {
                &&& !s1.children.contains_key((parent.id, name))
                &&& s1.reply(later) == Reply::Entry(Ok(None)) ==> find_entry(
                    later,
                    s1,
                    parent,
                    name,
                ).1 == Ok::<Option<EntryView>, i32>(None)
            }
        }),
{
}

/// A mountpoint is not removed: there is an error, and nothing but the status of the directory
/// was asked.
pub proof fn law_mountpoint_is_not_removed(
    w: World<Reply>,
    v: World<RefReply>,
    s: VfsView,
    parent: EntryView,
    name: Seq<u8>,
    ap: AccessProfile,
    parent_stat: Stat,
    node: Node,
)
    requires
        s.reply(w) == Reply::Stat(Ok(parent_stat)),
        mode_type(parent_stat.mode) == Some(FileType::Directory),
        directory_writable(ap, parent_stat),
        s.children.contains_key((parent.id, name)),
        s.children[(parent.id, name)].node == Some(node),
        node.location.mountpoint_id != parent.node->0.location.mountpoint_id,
    ensures
        unlink_of(w, v, s, parent, name, ap) == (
            s.ask(w, Call::GetStat(parent.node->0.ops, parent.node->0.location)),
            Err::<(), i32>(EBUSY),
        ),
{
}

/// In a directory with the sticky bit, only the owner of a file and the owner of the directory
/// remove the file: anyone else is refused, and the file system is not asked to remove anything.
pub proof fn law_sticky_bit_protects_files(
    w: World<Reply>,
    v: World<RefReply>,
    s: VfsView,
    parent: EntryView,
    parent_stat: Stat,
    name: Seq<u8>,
    ap: AccessProfile,
    stat: Stat,
)
    requires
        s.reply(w) == Reply::Stat(Ok(parent_stat)),
        mode_type(parent_stat.mode) == Some(FileType::Directory),
        directory_writable(ap, parent_stat),
        parent_stat.mode & S_ISVTX != 0,
        ap.euid != stat.uid,
        ap.euid != parent_stat.uid,
        s.children.contains_key((parent.id, name)),
        s.children[(parent.id, name)].node is Some,
        s.children[(parent.id, name)].node->0.location.mountpoint_id
            == parent.node->0.location.mountpoint_id,
        w((s.log.len() + 1) as int) == Reply::Stat(Ok(stat)),
    ensures
        ({
            let node = s.children[(parent.id, name)].node->0;
            unlink_of(w, v, s, parent, name, ap) == (
                s.ask(w, Call::GetStat(parent.node->0.ops, parent.node->0.location)).ask(
                    w,
                    Call::GetStat(node.ops, node.location),
                ),
                Err::<(), i32>(EACCES),
            )
        }),
{
}

/// The sticky bit protects a file that is not cached too: its directory is asked for it, and
/// nothing is removed.
pub proof fn law_sticky_bit_protects_uncached_files(
    w: World<Reply>,
    v: World<RefReply>,
    s: VfsView,
    parent: EntryView,
    parent_stat: Stat,
    name: Seq<u8>,
    ap: AccessProfile,
    entry: DirEntry,
    ops: Ops,
    stat: Stat,
)
    requires
        s.reply(w) == Reply::Stat(Ok(parent_stat)),
        mode_type(parent_stat.mode) == Some(FileType::Directory),
        directory_writable(ap, parent_stat),
        parent_stat.mode & S_ISVTX != 0,
        ap.euid != stat.uid,
        ap.euid != parent_stat.uid,
        !s.children.contains_key((parent.id, name)),
        w((s.log.len() + 1) as int) == Reply::Entry(Ok(Some((entry, ops)))),
        w((s.log.len() + 2) as int) == Reply::Stat(Ok(stat)),
    ensures
        ({
            let dir = parent.node->0;
            let location = FileLocation {
                mountpoint_id: dir.location.mountpoint_id,
                inode: entry.inode,
            };
            unlink_of(w, v, s, parent, name, ap) == (
                s.ask(w, Call::GetStat(dir.ops, dir.location)).ask(
                    w,
                    Call::EntryByName(dir.ops, dir.location, name),
                ).ask(w, Call::GetStat(ops, location)),
                Err::<(), i32>(EACCES),
            )
        }),
{
}

/// A link that is refused changes nothing: neither in the cache nor, since only the status of
/// the files was asked, on the file system. A directory is never linked.
pub proof fn law_refused_link_changes_nothing(
    w: World<Reply>,
    s: VfsView,
    parent: Node,
    name: Seq<u8>,
    target: Node,
    ap: AccessProfile,
    parent_stat: Stat,
    target_stat: Stat,
)
    requires
        s.reply(w) == Reply::Stat(Ok(parent_stat)),
        mode_type(parent_stat.mode) == Some(FileType::Directory),
        w((s.log.len() + 1) as int) == Reply::Stat(Ok(target_stat)),
        link_refusal(parent, target, target_stat, parent_stat, ap) is Some,
    ensures
        ({
            let (s1, r) = link_to(w, s, parent, name, target, ap);
            &&& r is Err
            &&& s1 == s.ask(w, Call::GetStat(parent.ops, parent.location)).ask(
                w,
                Call::GetStat(target.ops, target.location),
            )
            &&& mode_type(target_stat.mode) == Some(FileType::Directory) ==> r == Err::<(), i32>(
                EPERM,
            )
        }),
{
}

/// A file that does not exist is none for one function and an error for the other; on anything
/// else, both agree.
pub proof fn law_missing_file_is_none(
    w: World<Reply>,
    s: VfsView,
    path: Seq<u8>,
    settings: SettingsView,
)
    ensures
        find_file(w, s, path, settings).0 == get_file(w, s, path, settings).0,
        find_file(w, s, path, settings).1 == Ok::<Option<EntryView>, i32>(None) <==> get_file(
            w,
            s,
            path,
            settings,
        ).1 == Err::<EntryView, i32>(ENOENT),
        find_file(w, s, path, settings).1 matches Ok(Some(e)) ==> get_file(
            w,
            s,
            path,
            settings,
        ).1 == Ok::<EntryView, i32>(e),
        get_file(w, s, path, settings).1 matches Ok(e) ==> find_file(w, s, path, settings).1 == Ok::<
            Option<EntryView>,
            i32,
        >(Some(e)),
{
}

/// An entry that is in use elsewhere stays cached when it is released, and its node is kept.
pub proof fn law_entry_in_use_is_kept(w: World<Reply>, v: World<RefReply>, s: VfsView, e: EntryView)
    requires
        e.parent is Some,
        s.refs_reply(v)->Count_0 > 2,
    ensures
        release_of(w, v, s, e) == (s.ask_refs(v, RefCall::Count(e.id)), Ok::<(), i32>(())),
{
}

/// The last release of an entry drops it from the cache and gives its node back.
pub proof fn law_last_release_gives_node_back(
    w: World<Reply>,
    v: World<RefReply>,
    s: VfsView,
    e: EntryView,
    p: EntryView,
    node: Node,
)
    requires
        e.parent == Some(Box::new(p)),
        e.node == Some(node),
        s.refs_reply(v)->Count_0 <= 2,
        v((s.refs.len() + 1) as int) == RefReply::Taken(true),
    ensures
        ({
            let s1 = release_of(w, v, s, e).0;
            &&& !s1.children.contains_key((p.id, e.name))
            &&& s1.log.len() == s.log.len() + 1
            &&& s1.log.last().0 == Call::ReleaseNode(node)
            &&& release_of(w, v, s, e).1 == s1.log.last().1->Done_0
        }),
{
}

/// The call looks something up, and changes nothing on a file system.
pub open spec fn is_lookup(call: Call) -> bool {
    match call {
        Call::GetStat(_, _) => true,
        Call::EntryByName(_, _, _) => true,
        Call::ReadContent(_, _, _, _) => true,
        Call::InsertNode(_) => true,
        _ => false,
    }
}

/// Between the states `s` and `s1`, only lookups were made, and what was cached is still cached.
pub open spec fn only_looked_up(s: VfsView, s1: VfsView) -> bool {
    &&& s.log.len() <= s1.log.len()
    &&& forall|i: int|
        s.log.len() <= i < s1.log.len() ==> is_lookup(#[trigger] s1.log[i].0)
    &&& forall|i: int| 0 <= i < s.log.len() ==> #[trigger] s1.log[i] == s.log[i]
    &&& forall|key: Key| #[trigger]
        s.children.contains_key(key) ==> s1.children.contains_key(key) && s1.children[key]
            == s.children[key]
}

/// A resolution only looks things up: it changes nothing on a file system, and drops nothing
/// from the cache.
pub proof fn law_resolution_only_looks_up(
    w: World<Reply>,
    s: VfsView,
    path: Seq<u8>,
    settings: SettingsView,
)
    ensures
        only_looked_up(s, resolve_whole(w, s, path, settings).0),
{
    lemma_resolve_looks_up(w, s, path, settings, 0);
}

proof fn lemma_looked_up(a: VfsView, b: VfsView, c: VfsView)
    requires
        only_looked_up(a, b),
        only_looked_up(b, c),
    ensures
        only_looked_up(a, c),
{
    assert forall|i: int| a.log.len() <= i < c.log.len() implies is_lookup(
        #[trigger] c.log[i].0,
    ) by {
        if i < b.log.len() {
            assert(c.log[i] == b.log[i]);
        }
    }
    assert forall|i: int| 0 <= i < a.log.len() implies #[trigger] c.log[i] == a.log[i] by {
        assert(b.log[i] == a.log[i]);
    }
}

proof fn lemma_find_looks_up(w: World<Reply>, s: VfsView, dir: EntryView, name: Seq<u8>)
    ensures
        only_looked_up(s, find_entry(w, s, dir, name).0),
{
}

proof fn lemma_read_looks_up(
    w: World<Reply>,
    s: VfsView,
    node: Node,
    size: int,
    data: Seq<u8>,
)
    ensures
        only_looked_up(s, read_from(w, s, node, size, data).0),
    decreases usize::MAX - data.len(),
{
    let grown = if data.len() >= size {
        size + INCREMENT
    } else {
        size
    };
    if grown <= usize::MAX && data.len() < grown {
        let room = grown - data.len();
        let s1 = s.ask(
            w,
            Call::ReadContent(node.ops, node.location, data.len() as u64, room as usize),
        );
        if let Ok(more) = s.reply(w)->Data_0 {
            if more.len() > 0 {
                let all = data + at_most(more, room);
                lemma_read_looks_up(w, s1, node, grown, all);
                lemma_looked_up(s, s1, read_from(w, s1, node, grown, all).0);
            }
        }
    }
}

proof fn lemma_follow_looks_up(
    w: World<Reply>,
    s: VfsView,
    link: EntryView,
    root: EntryView,
    dir: EntryView,
    access_profile: AccessProfile,
    count: int,
)
    ensures
        only_looked_up(s, follow(w, s, link, root, dir, access_profile, count).0),
    decreases left(count), 0int, 0int,
{
    if count < SYMLOOP_MAX {
        let node = link.node->0;
        let (s0, stat) = stat_of(w, s, node);
        let (s1, content) = read_whole(w, s, node);
        if let Ok(stat) = stat {
            lemma_read_looks_up(w, s0, node, stat.size + INCREMENT, Seq::empty());
        }
        if s1 != s0 {
            lemma_looked_up(s, s0, s1);
        }
        if let Ok(path) = content {
            let settings = SettingsView {
                root,
                cwd: Some(dir),
                access_profile,
                create: false,
                follow_link: true,
            };
            lemma_resolve_looks_up(w, s1, path, settings, count + 1);
            lemma_looked_up(s, s1, resolve(w, s1, path, settings, count + 1).0);
        }
    }
}

proof fn lemma_enter_looks_up(
    w: World<Reply>,
    s: VfsView,
    dir: EntryView,
    name: Seq<u8>,
    settings: SettingsView,
    count: int,
)
    ensures
        only_looked_up(s, enter(w, s, dir, name, settings, count).0),
    decreases left(count), 1int, 0int,
{
    let (s1, found) = find_entry(w, s, dir, name);
    lemma_find_looks_up(w, s, dir, name);
    if let Ok(Some(entry)) = found {
        let (s2, t) = type_of(w, s1, entry.node->0);
        lemma_looked_up(s, s1, s2);
        lemma_follow_looks_up(w, s2, entry, settings.root, dir, settings.access_profile, count);
        lemma_looked_up(
            s,
            s2,
            follow(w, s2, entry, settings.root, dir, settings.access_profile, count).0,
        );
    }
}

proof fn lemma_walk_looks_up(
    w: World<Reply>,
    s: VfsView,
    dir: EntryView,
    comps: Seq<ComponentView>,
    settings: SettingsView,
    count: int,
)
    ensures
        only_looked_up(s, walk(w, s, dir, comps, settings, count).0),
    decreases left(count), 3int, comps.len(),
{
    if comps.len() > 0 {
        let end = walk(w, s, dir, comps, settings, count).0;
        let s0 = stat_of(w, s, dir.node->0).0;
        let (s1, next) = step(w, s, dir, comps[0], settings, count);
        if let ComponentView::Normal(name) = comps[0] {
            lemma_enter_looks_up(w, s0, dir, name, settings, count);
            lemma_looked_up(s, s0, enter(w, s0, dir, name, settings, count).0);
        }
        assert(only_looked_up(s, s1));
        if let Ok((next, n)) = next {
            lemma_walk_looks_up(w, s1, next, comps.skip(1), settings, most(count, n));
            lemma_looked_up(s, s1, end);
        }
    }
}

proof fn lemma_finish_looks_up(
    w: World<Reply>,
    s: VfsView,
    dir: EntryView,
    comp: ComponentView,
    settings: SettingsView,
    count: int,
)
    ensures
        only_looked_up(s, finish(w, s, dir, comp, settings, count).0),
    decreases left(count), 1int, 0int,
{
    if let ComponentView::Normal(name) = comp {
        let (s1, stat) = stat_of(w, s, dir.node->0);
        let (s2, found) = find_entry(w, s1, dir, name);
        lemma_find_looks_up(w, s1, dir, name);
        lemma_looked_up(s, s1, s2);
        if let Ok(Some(entry)) = found {
            let (s3, stat) = stat_of(w, s2, entry.node->0);
            lemma_looked_up(s, s2, s3);
            let ap = settings.access_profile;
            lemma_follow_looks_up(w, s3, entry, settings.root, dir, ap, count);
            lemma_looked_up(s, s3, follow(w, s3, entry, settings.root, dir, ap, count).0);
        }
    }
}

proof fn lemma_resolve_looks_up(
    w: World<Reply>,
    s: VfsView,
    path: Seq<u8>,
    settings: SettingsView,
    count: int,
)
    ensures
        only_looked_up(s, resolve(w, s, path, settings, count).0),
    decreases left(count), 4int, 0int,
{
    let start = start_of(path, settings);
    let comps = components(path);
    if comps.len() > 0 {
        lemma_walk_looks_up(w, s, start, comps.drop_last(), settings, count);
        let (s1, dir) = walk(w, s, start, comps.drop_last(), settings, count);
        if let Ok((dir, n)) = dir {
            let m = most(count, n);
            lemma_finish_looks_up(w, s1, dir, comps.last(), settings, m);
            lemma_looked_up(s, s1, finish(w, s1, dir, comps.last(), settings, m).0);
        }
    }
}

/// The reply `data` to a read of `len` bytes from the offset `off` is right for a file whose
/// content is `content`: it gives the next bytes, and none only at the end of the file.
pub open spec fn right_data(content: Seq<u8>, off: u64, len: usize, data: Seq<u8>) -> bool {
    &&& data.len() <= len
    &&& off + data.len() <= content.len()
    &&& data == content.subrange(off as int, off + data.len())
    &&& data.len() == 0 ==> off == content.len()
}

/// In the log from the position `from` on, every reply to a read of `node` is right for a file
/// whose content is `content`.
pub open spec fn reads_right(
    log: Seq<(Call, Reply)>,
    from: int,
    node: Node,
    content: Seq<u8>,
) -> bool {
    forall|i: int|
        #![trigger log[i]]
        from <= i < log.len() ==> match log[i] {
            (Call::ReadContent(ops, loc, off, len), Reply::Data(Ok(data))) => ops == node.ops
                && loc == node.location ==> right_data(content, off, len, data),
            _ => true,
        }
}

/// A file whose content does not change while it is read is read as it is: whatever size its
/// status states, and however its content comes in parts, what is returned is the whole content.
pub proof fn law_content_is_read_whole(
    w: World<Reply>,
    s: VfsView,
    node: Node,
    content: Seq<u8>,
)
    requires
        reads_right(read_whole(w, s, node).0.log, s.log.len() as int, node, content),
        forall|i: int|
            s.log.len() < i < read_whole(w, s, node).0.log.len() ==> (#[trigger] w(i)) is Data,
    ensures
        read_whole(w, s, node).1 matches Ok(data) ==> data == content,
{
    let (s1, stat) = stat_of(w, s, node);
    if let Ok(stat) = stat {
        assert(content.take(0) =~= Seq::empty());
        lemma_content_is_read(w, s1, node, stat.size + INCREMENT, Seq::empty(), content);
    }
}

/// A file that can be read, and that fits in memory with the room to see its end, is read: when
/// every reply is right, the whole content is returned.
pub proof fn law_whole_content_is_read(
    w: World<Reply>,
    s: VfsView,
    node: Node,
    content: Seq<u8>,
    stat: Stat,
)
    requires
        s.reply(w) == Reply::Stat(Ok(stat)),
        stat.size + INCREMENT <= usize::MAX,
        content.len() + INCREMENT <= usize::MAX,
        reads_right(read_whole(w, s, node).0.log, s.log.len() as int, node, content),
        forall|i: int|
            s.log.len() < i < read_whole(w, s, node).0.log.len() ==> (#[trigger] w(
                i,
            ) matches Reply::Data(Ok(_))),
    ensures
        read_whole(w, s, node).1 == Ok::<Seq<u8>, i32>(content),
{
    let s1 = stat_of(w, s, node).0;
    assert(content.take(0) =~= Seq::empty());
    lemma_content_is_read(w, s1, node, stat.size + INCREMENT, Seq::empty(), content);
}

proof fn lemma_content_is_read(
    w: World<Reply>,
    s: VfsView,
    node: Node,
    size: int,
    data: Seq<u8>,
    content: Seq<u8>,
)
    requires
        reads_right(read_from(w, s, node, size, data).0.log, s.log.len() as int, node, content),
        forall|i: int|
            s.log.len() <= i < read_from(w, s, node, size, data).0.log.len() ==> (#[trigger] w(
                i,
            )) is Data,
        data.len() <= content.len(),
        data == content.take(data.len() as int),
    ensures
        read_from(w, s, node, size, data).1 matches Ok(all) ==> all == content,
        data.len() <= size <= usize::MAX && content.len() + INCREMENT <= usize::MAX && (forall|
            i: int,
        |
            s.log.len() <= i < read_from(w, s, node, size, data).0.log.len() ==> (#[trigger] w(
                i,
            ) matches Reply::Data(Ok(_)))) ==> read_from(
            w,
            s,
            node,
            size,
            data,
        ).1 is Ok,
    decreases usize::MAX - data.len(),
{
    let end = read_from(w, s, node, size, data).0;
    let grown = if data.len() >= size {
        size + INCREMENT
    } else {
        size
    };
    if grown <= usize::MAX && data.len() < grown {
        let room = grown - data.len();
        let call = Call::ReadContent(node.ops, node.location, data.len() as u64, room as usize);
        let s1 = s.ask(w, call);
        lemma_read_from(w, s, node, size, data);
        if let Ok(more) = s.reply(w)->Data_0 {
            if more.len() > 0 {
                lemma_read_from(w, s1, node, grown, data + at_most(more, room));
            }
        }
        assert(end.log.len() > s.log.len());
        assert(w(s.log.len() as int) is Data);
        if let Ok(more) = s.reply(w)->Data_0 {
            let at = s.log.len() as int;
            if more.len() > 0 {
                lemma_read_looks_up(w, s1, node, grown, data + at_most(more, room));
            }
            assert(end.log[at] == (call, w(at)));
            assert(right_data(content, data.len() as u64, room as usize, more));
            if more.len() > 0 {
                assert(data + more =~= content.take((data + more).len() as int));
                lemma_content_is_read(w, s1, node, grown, data + more, content);
            } else {
                assert(content.take(data.len() as int) =~= content);
            }
        }
    }
}

/// The names on the way from the root to the entry.
pub open spec fn names_of(e: EntryView) -> Seq<Seq<u8>>
    decreases e,
{
    match e.parent {
        None => Seq::empty(),
        Some(p) => names_of(*p).push(e.name),
    }
}

/// `name` can be the name of a file.
pub open spec fn is_name(name: Seq<u8>) -> bool {
    &&& name.len() > 0
    &&& forall|i: int| 0 <= i < name.len() ==> #[trigger] name[i] != SLASH
    &&& component_of(name) is Normal
}

/// Every name on the way from the root to the entry can be the name of a file.
pub open spec fn has_names(e: EntryView) -> bool
    decreases e,
{
    match e.parent {
        None => true,
        Some(p) => is_name(e.name) && has_names(*p),
    }
}

/// The components that the names stand for.
pub open spec fn as_components(names: Seq<Seq<u8>>) -> Seq<ComponentView> {
    names.map_values(|name: Seq<u8>| ComponentView::Normal(name))
}

/// The components of the path of an entry are the root, then the names on the way from there to
/// the entry.
pub proof fn law_path_holds_names(e: EntryView)
    requires
        has_names(e),
    ensures
        components(path_of(e)) == seq![ComponentView::RootDir] + as_components(names_of(e)),
{
    lemma_path_segments(e);
    match e.parent {
        None => {
            assert(segments(seq![SLASH], 0) =~= Seq::empty()) by {
                reveal_with_fuel(segments, 3);
            }
        },
        Some(_) => {},
    }
    lemma_names_are_components(e);
    assert(components(path_of(e)) =~= seq![ComponentView::RootDir] + as_components(
        names_of(e),
    ));
}

proof fn lemma_names_are_components(e: EntryView)
    requires
        has_names(e),
    ensures
        names_of(e).map_values(|name: Seq<u8>| component_of(name)) =~= as_components(names_of(e)),
    decreases e,
{
    if let Some(p) = e.parent {
        lemma_names_are_components(*p);
        let names = names_of(*p);
        let classify = |name: Seq<u8>| component_of(name);
        assert forall|i: int| 0 <= i < names_of(e).len() implies #[trigger] names_of(e).map_values(
            classify,
        )[i] == as_components(names_of(e))[i] by {
            if i < names.len() {
                assert(names.map_values(classify)[i] == as_components(names)[i]);
            }
        }
    }
}

proof fn lemma_path_segments(e: EntryView)
    requires
        has_names(e),
    ensures
        segments(names_path(e), 0) == names_of(e),
        e.parent is Some ==> absolute(names_path(e)),
    decreases e,
{
    if let Some(p) = e.parent {
        lemma_path_segments(*p);
        lemma_segments_push(names_path(*p), e.name, 0);
    }
}

/// A slash and a name at the end of a path add one segment.
proof fn lemma_segments_push(s: Seq<u8>, name: Seq<u8>, i: int)
    requires
        0 <= i <= s.len(),
        is_name(name),
    ensures
        segments(s + seq![SLASH] + name, i) == segments(s, i).push(name),
    decreases s.len() - i,
{
    let t = s + seq![SLASH] + name;
    if i == s.len() {
        lemma_run_end(t, i + 1);
        let j = run_end(t, i + 1);
        if j < t.len() {
            assert(t[j] == name[j - i - 1]);
        }
        assert(t[i + 1] == name[0]);
        assert(t.subrange(i + 1, t.len() as int) =~= name);
        assert(segments(t, i) == segments(t, i + 1));
        assert(segments(t, t.len() as int) =~= Seq::empty());
        assert(segments(t, i + 1) =~= seq![name]);
        assert(segments(s, i).push(name) =~= seq![name]);
    } else if s[i] == SLASH {
        assert(t[i] == SLASH);
        lemma_segments_push(s, name, i + 1);
    } else {
        assert(t[i] == s[i]);
        lemma_run_end(s, i);
        lemma_run_end(t, i);
        lemma_same_run(s, name, i);
        let j = run_end(s, i);
        lemma_segments_push(s, name, j);
        assert(t.subrange(i, j) =~= s.subrange(i, j));
        assert(seq![s.subrange(i, j)] + segments(s, j).push(name) =~= (seq![s.subrange(i, j)]
            + segments(s, j)).push(name));
    }
}

proof fn lemma_same_run(s: Seq<u8>, name: Seq<u8>, i: int)
    requires
        0 <= i <= s.len(),
    ensures
        run_end(s + seq![SLASH] + name, i) == run_end(s, i),
    decreases s.len() - i,
{
    let t = s + seq![SLASH] + name;
    if i < s.len() {
        assert(t[i] == s[i]);
        if s[i] != SLASH {
            lemma_same_run(s, name, i + 1);
        }
    } else {
        assert(t[i] == SLASH);
    }
}

/// The entry and all those on the way to it are cached, and the file exists.
pub open spec fn is_cached(s: VfsView, e: EntryView) -> bool
    decreases e,
{
    match e.parent {
        None => true,
        Some(p) => {
            &&& s.children.contains_key((p.id, e.name))
            &&& s.children[(p.id, e.name)] == e
            &&& e.node is Some
            &&& is_cached(s, *p)
        },
    }
}

/// The `n` replies from the position `from` on are statuses of directories that `ap` may search.
pub open spec fn way_is_open(w: World<Reply>, from: int, n: int, ap: AccessProfile) -> bool {
    forall|i: int|
        from <= i < from + n ==> {
            &&& #[trigger] w(i) matches Reply::Stat(Ok(stat))
            &&& mode_type(stat.mode) == Some(FileType::Directory)
            &&& executable(ap, stat)
        }
}

/// The path of an entry leads to that entry: it is the absolute path to reach it. What is on the
/// way must be cached directories that may be searched, and the entry itself not a symbolic
/// link that is to be followed.
pub proof fn law_path_reaches_entry(
    w: World<Reply>,
    s: VfsView,
    e: EntryView,
    settings: SettingsView,
)
    requires
        s.wf(),
        s.owns(e),
        e.parent is Some,
        has_names(e),
        is_cached(s, e),
        settings.root == s.root,
        way_is_open(w, s.log.len() as int, 2 * names_of(e).len() as int, settings.access_profile),
        settings.follow_link ==> (w((s.log.len() + 2 * names_of(e).len()) as int) matches Reply::Stat(
            Ok(stat),
        ) && mode_type(stat.mode) != Some(FileType::Link)),
    ensures
        resolve_whole(w, s, path_of(e), settings).1 == Ok::<Place, i32>(Place::Found(e)),
{
    law_path_holds_names(e);
    lemma_path_segments(e);
    let p = *e.parent->0;
    let ap = settings.access_profile;
    let comps = components(path_of(e));
    let lead = seq![ComponentView::RootDir];
    let between = as_components(names_of(p));
    assert(comps.drop_last() =~= lead + between);
    assert(comps.last() == ComponentView::Normal(e.name));
    assert(start_of(path_of(e), settings) == s.root);
    let n = s.log.len() as int;
    assert(s.known.contains_key(e.id));
    // The root
    let s1 = stat_of(w, s, s.root.node->0).0;
    assert(w(n) is Stat);
    assert(lead.skip(1) =~= Seq::empty());
    assert(walk(w, s1, s.root, lead.skip(1), settings, 0) == (s1, Ok::<(EntryView, int), i32>((s.root, 0int))));
    assert(step(w, s, s.root, lead[0], settings, 0) == (s1, Ok::<(EntryView, int), i32>((s.root, 0int))));
    assert(walk(w, s, s.root, lead, settings, 0) == (s1, Ok::<(EntryView, int), i32>((s.root, 0int))));
    // The names
    lemma_walk_append(w, s, s.root, lead, between, settings, 0);
    lemma_ask(s, w, Call::GetStat(s.root.node->0.ops, s.root.node->0.location));
    assert(way_is_open(w, n + 1, 2 * names_of(p).len() as int, ap));
    lemma_cached_same(s, s1, p);
    lemma_walk_names(w, s1, p, settings);
    let s2 = walk(w, s1, s.root, between, settings, 0).0;
    // The last component
    assert(w(s2.log.len() as int) is Stat);
    let s3 = stat_of(w, s2, p.node->0).0;
    assert(find_entry(w, s3, p, e.name) == (s3, Ok::<Option<EntryView>, i32>(Some(e))));
    assert(s3.log.len() == n + 2 * names_of(e).len());
}

proof fn lemma_cached_same(a: VfsView, b: VfsView, e: EntryView)
    requires
        a.children == b.children,
    ensures
        is_cached(a, e) == is_cached(b, e),
    decreases e,
{
    if let Some(p) = e.parent {
        lemma_cached_same(a, b, *p);
    }
}

/// The names on the way to a cached directory lead there from the root.
proof fn lemma_walk_names(w: World<Reply>, s: VfsView, e: EntryView, settings: SettingsView)
    requires
        s.wf(),
        s.owns(e),
        is_cached(s, e),
        way_is_open(w, s.log.len() as int, 2 * names_of(e).len() as int, settings.access_profile),
    ensures
        ({
            let (s1, r) = walk(w, s, s.root, as_components(names_of(e)), settings, 0);
            &&& r == Ok::<(EntryView, int), i32>((e, 0int))
            &&& s1.children == s.children
            &&& s1.log.len() == s.log.len() + 2 * names_of(e).len()
        }),
    decreases e,
{
    assert(s.known.contains_key(e.id));
    match e.parent {
        None => {
            assert(as_components(names_of(e)).len() == 0);
        },
        Some(p) => {
            let p = *p;
            let n = names_of(p).len();
            assert(way_is_open(
                w,
                s.log.len() as int,
                2 * names_of(p).len() as int,
                settings.access_profile,
            ));
            lemma_walk_names(w, s, p, settings);
            let firsts = as_components(names_of(p));
            let last = seq![ComponentView::Normal(e.name)];
            assert(as_components(names_of(e)) =~= firsts + last);
            lemma_walk_append(w, s, s.root, firsts, last, settings, 0);
            let s1 = walk(w, s, s.root, firsts, settings, 0).0;
            let (s2, stat) = stat_of(w, s1, p.node->0);
            assert(w(s1.log.len() as int) is Stat);
            let (s3, t) = type_of(w, s2, e.node->0);
            assert(w(s2.log.len() as int) is Stat);
            assert(find_entry(w, s2, p, e.name) == (s2, Ok::<Option<EntryView>, i32>(Some(e))));
            assert(enter(w, s2, p, e.name, settings, 0) == (s3, Ok::<(EntryView, int), i32>((e, 0int))));
            assert(last.skip(1) =~= Seq::empty());
            assert(walk(w, s3, e, last.skip(1), settings, 0) == (s3, Ok::<(EntryView, int), i32>((e, 0int))));
            assert(step(w, s1, p, last[0], settings, 0) == (s3, Ok::<(EntryView, int), i32>((e, 0int))));
            assert(walk(w, s1, p, last, settings, 0) == (s3, Ok::<(EntryView, int), i32>((e, 0int))));
        },
    }
}

/// Walking two lists of components is walking the one, then the other.
proof fn lemma_walk_append(
    w: World<Reply>,
    s: VfsView,
    dir: EntryView,
    a: Seq<ComponentView>,
    b: Seq<ComponentView>,
    settings: SettingsView,
    count: int,
)
    ensures
        walk(w, s, dir, a + b, settings, count) == ({
            let (s1, r) = walk(w, s, dir, a, settings, count);
            match r {
                Err(e) => (s1, Err(e)),
                Ok((next, n)) => walk(w, s1, next, b, settings, n),
            }
        }),
    decreases a.len(),
{
    if a.len() == 0 {
        assert(a + b =~= b);
    } else {
        let (s1, next) = step(w, s, dir, a[0], settings, count);
        let rest = a.skip(1);
        assert((a + b).skip(1) =~= rest + b);
        assert((a + b)[0] == a[0]);
        if let Ok((next, n)) = next {
            lemma_walk_append(w, s1, next, rest, b, settings, most(count, n));
        }
    }
}

/// From the position `from` of the log on, whatever was said of the type of a node is what `types`
/// gives: the types did not change meanwhile.
pub open spec fn told_types(
    log: Seq<(Call, Reply)>,
    from: int,
    types: spec_fn(Node) -> Option<FileType>,
) -> bool {
    forall|i: int|
        #![trigger log[i]]
        from <= i < log.len() ==> match log[i].0 {
            Call::GetStat(ops, location) => match log[i].1->Stat_0 {
                Ok(stat) => mode_type(stat.mode) == types(Node { location, ops }),
                Err(_) => true,
            },
            _ => true,
        }
}

/// The entry is no symbolic link.
pub open spec fn is_no_link(types: spec_fn(Node) -> Option<FileType>, e: EntryView) -> bool {
    e.node matches Some(node) ==> types(node) != Some(FileType::Link)
}

/// Neither the entry nor a directory on the way from the root to it is a symbolic link.
pub open spec fn has_no_link(types: spec_fn(Node) -> Option<FileType>, e: EntryView) -> bool
    decreases e,
{
    is_no_link(types, e) && match e.parent {
        None => true,
        Some(p) => has_no_link(types, *p),
    }
}

/// When symbolic links are followed, what is found is no symbolic link, as long as the directories
/// that the resolution starts from are none.
pub proof fn law_followed_links_give_no_link(
    w: World<Reply>,
    s: VfsView,
    path: Seq<u8>,
    settings: SettingsView,
    types: spec_fn(Node) -> Option<FileType>,
)
    requires
        s.wf(),
        applies_to(settings, path, s),
        settings.follow_link,
        told_types(resolve_whole(w, s, path, settings).0.log, s.log.len() as int, types),
        has_no_link(types, settings.root),
        has_no_link(types, start_of(path, settings)),
    ensures
        resolve_whole(w, s, path, settings).1 matches Ok(Place::Found(e)) ==> is_no_link(types, e),
{
    if path.len() > 0 {
        let end = resolve_whole(w, s, path, settings).0;
        assert(end == resolve(w, s, path, settings, 0).0);
        lemma_resolve_no_link(w, s, path, settings, 0, end, s.log.len() as int, types);
    }
}

proof fn lemma_told(
    w: World<Reply>,
    s: VfsView,
    node: Node,
    end: VfsView,
    from: int,
    types: spec_fn(Node) -> Option<FileType>,
)
    requires
        end.extends(stat_of(w, s, node).0),
        from <= s.log.len(),
        told_types(end.log, from, types),
    ensures
        stat_of(w, s, node).1 matches Ok(stat) ==> mode_type(stat.mode) == types(node),
{
    let s1 = stat_of(w, s, node).0;
    let n = s.log.len() as int;
    assert(s1.log[n] == end.log.subrange(0, s1.log.len() as int)[n]);
    assert(end.log[n] == (Call::GetStat(node.ops, node.location), w(n)));
}

proof fn lemma_follow_no_link(
    w: World<Reply>,
    s: VfsView,
    link: EntryView,
    root: EntryView,
    dir: EntryView,
    access_profile: AccessProfile,
    count: int,
    end: VfsView,
    from: int,
    types: spec_fn(Node) -> Option<FileType>,
)
    requires
        s.wf(),
        s.reaches(root),
        s.reaches(dir),
        has_no_link(types, root),
        has_no_link(types, dir),
        end.extends(follow(w, s, link, root, dir, access_profile, count).0),
        from <= s.log.len(),
        told_types(end.log, from, types),
    ensures
        follow(w, s, link, root, dir, access_profile, count).1 matches Ok((e, _)) ==> has_no_link(
            types,
            e,
        ),
    decreases left(count), 0int, 0int,
{
    if count < SYMLOOP_MAX {
        let (s1, content) = read_whole(w, s, link.node->0);
        lemma_read_whole(w, s, link.node->0);
        if let Ok(path) = content {
            let settings = SettingsView {
                root,
                cwd: Some(dir),
                access_profile,
                create: false,
                follow_link: true,
            };
            let s2 = resolve(w, s1, path, settings, count + 1).0;
            if follow(w, s, link, root, dir, access_profile, count).1 is Ok {
                assert(follow(w, s, link, root, dir, access_profile, count).0 == s2);
                lemma_resolve_no_link(w, s1, path, settings, count + 1, end, from, types);
            }
        }
    }
}

proof fn lemma_enter_no_link(
    w: World<Reply>,
    s: VfsView,
    dir: EntryView,
    name: Seq<u8>,
    settings: SettingsView,
    count: int,
    end: VfsView,
    from: int,
    types: spec_fn(Node) -> Option<FileType>,
)
    requires
        s.wf(),
        s.reaches(dir),
        settings.follow_link,
        has_root(settings, s),
        has_no_link(types, settings.root),
        has_no_link(types, dir),
        end.extends(enter(w, s, dir, name, settings, count).0),
        from <= s.log.len(),
        told_types(end.log, from, types),
    ensures
        enter(w, s, dir, name, settings, count).1 matches Ok((e, _)) ==> has_no_link(types, e),
    decreases left(count), 1int, 0int,
{
    broadcast use lemma_ask;

    let (s1, found) = find_entry(w, s, dir, name);
    lemma_find_entry(w, s, dir, name);
    if let Ok(Some(entry)) = found {
        let (s2, t) = type_of(w, s1, entry.node->0);
        if t == Ok::<FileType, i32>(FileType::Link) {
            lemma_follow_no_link(
                w,
                s2,
                entry,
                settings.root,
                dir,
                settings.access_profile,
                count,
                end,
                from,
                types,
            );
        } else if t == Ok::<FileType, i32>(FileType::Directory) {
            lemma_told(w, s1, entry.node->0, end, from, types);
        }
    }
}

proof fn lemma_step_no_link(
    w: World<Reply>,
    s: VfsView,
    dir: EntryView,
    comp: ComponentView,
    settings: SettingsView,
    count: int,
    end: VfsView,
    from: int,
    types: spec_fn(Node) -> Option<FileType>,
)
    requires
        s.wf(),
        s.reaches(dir),
        settings.follow_link,
        has_root(settings, s),
        has_no_link(types, settings.root),
        has_no_link(types, dir),
        end.extends(step(w, s, dir, comp, settings, count).0),
        from <= s.log.len(),
        told_types(end.log, from, types),
    ensures
        step(w, s, dir, comp, settings, count).1 matches Ok((e, _)) ==> has_no_link(types, e),
    decreases left(count), 2int, 0int,
{
    broadcast use lemma_ask;

    let (s1, stat) = stat_of(w, s, dir.node->0);
    assert(has_no_link(types, dotdot(dir, settings.root)));
    if let ComponentView::Normal(name) = comp {
        if step(w, s, dir, comp, settings, count).1 is Ok {
            assert(step(w, s, dir, comp, settings, count) == enter(
                w,
                s1,
                dir,
                name,
                settings,
                count,
            ));
            lemma_enter_no_link(w, s1, dir, name, settings, count, end, from, types);
        }
    }
}

proof fn lemma_walk_no_link(
    w: World<Reply>,
    s: VfsView,
    dir: EntryView,
    comps: Seq<ComponentView>,
    settings: SettingsView,
    count: int,
    end: VfsView,
    from: int,
    types: spec_fn(Node) -> Option<FileType>,
)
    requires
        s.wf(),
        s.reaches(dir),
        settings.follow_link,
        has_root(settings, s),
        has_no_link(types, settings.root),
        has_no_link(types, dir),
        end.extends(walk(w, s, dir, comps, settings, count).0),
        from <= s.log.len(),
        told_types(end.log, from, types),
    ensures
        walk(w, s, dir, comps, settings, count).1 matches Ok((e, _)) ==> has_no_link(types, e),
    decreases left(count), 3int, comps.len(),
{
    if comps.len() > 0 {
        let (s1, next) = step(w, s, dir, comps[0], settings, count);
        lemma_step(w, s, dir, comps[0], settings, count);
        if let Ok((next, n)) = next {
            let rest = comps.skip(1);
            let s2 = walk(w, s1, next, rest, settings, n).0;
            assert(walk(w, s, dir, comps, settings, count).0 == s2);
            lemma_walk(w, s1, next, rest, settings, n);
            lemma_extends(s1, s2, end);
            lemma_step_no_link(w, s, dir, comps[0], settings, count, end, from, types);
            lemma_walk_no_link(w, s1, next, rest, settings, n, end, from, types);
        }
    }
}

proof fn lemma_finish_no_link(
    w: World<Reply>,
    s: VfsView,
    dir: EntryView,
    comp: ComponentView,
    settings: SettingsView,
    count: int,
    end: VfsView,
    from: int,
    types: spec_fn(Node) -> Option<FileType>,
)
    requires
        s.wf(),
        s.reaches(dir),
        settings.follow_link,
        has_root(settings, s),
        has_no_link(types, settings.root),
        has_no_link(types, dir),
        end.extends(finish(w, s, dir, comp, settings, count).0),
        from <= s.log.len(),
        told_types(end.log, from, types),
    ensures
        finish(w, s, dir, comp, settings, count).1 matches Ok((Place::Found(e), _)) ==> has_no_link(
            types,
            e,
        ),
    decreases left(count), 1int, 0int,
{
    broadcast use lemma_ask;

    assert(has_no_link(types, dotdot(dir, settings.root)));
    if let ComponentView::Normal(name) = comp {
        let (s1, stat) = stat_of(w, s, dir.node->0);
        if let Ok(stat) = stat {
            if executable(settings.access_profile, stat) {
                lemma_find_entry(w, s1, dir, name);
                let (s2, found) = find_entry(w, s1, dir, name);
                if let Ok(Some(entry)) = found {
                    let (s3, stat) = stat_of(w, s2, entry.node->0);
                    if let Ok(stat) = stat {
                        if mode_type(stat.mode) == Some(FileType::Link) {
                            lemma_follow_no_link(
                                w,
                                s3,
                                entry,
                                settings.root,
                                dir,
                                settings.access_profile,
                                count,
                                end,
                                from,
                                types,
                            );
                        } else {
                            lemma_told(w, s2, entry.node->0, end, from, types);
                        }
                    }
                }
            }
        }
    }
}

proof fn lemma_resolve_no_link(
    w: World<Reply>,
    s: VfsView,
    path: Seq<u8>,
    settings: SettingsView,
    count: int,
    end: VfsView,
    from: int,
    types: spec_fn(Node) -> Option<FileType>,
)
    requires
        s.wf(),
        applies_to(settings, path, s),
        settings.follow_link,
        has_no_link(types, settings.root),
        has_no_link(types, start_of(path, settings)),
        end.extends(resolve(w, s, path, settings, count).0),
        from <= s.log.len(),
        told_types(end.log, from, types),
    ensures
        resolve(w, s, path, settings, count).1 matches Ok((Place::Found(e), _)) ==> has_no_link(
            types,
            e,
        ),
    decreases left(count), 4int, 0int,
{
    let start = start_of(path, settings);
    let comps = components(path);
    if comps.len() > 0 {
        let (s1, dir) = walk(w, s, start, comps.drop_last(), settings, count);
        if looks_up(path) {
            lemma_walk(w, s, start, comps.drop_last(), settings, count);
            if let Ok((dir, n)) = dir {
                let s2 = finish(w, s1, dir, comps.last(), settings, n).0;
                assert(resolve(w, s, path, settings, count).0 == s2);
                lemma_finish(w, s1, dir, comps.last(), settings, n);
                lemma_extends(s1, s2, end);
                lemma_walk_no_link(
                    w,
                    s,
                    start,
                    comps.drop_last(),
                    settings,
                    count,
                    end,
                    from,
                    types,
                );
                lemma_finish_no_link(w, s1, dir, comps.last(), settings, n, end, from, types);
            }
        } else {
            assert(comps.drop_last().len() == 0);
            assert((s1, dir) == (s, Ok::<(EntryView, int), i32>((start, count))));
            assert(has_no_link(types, dotdot(start, settings.root)));
        }
    }
}

} // verus!
