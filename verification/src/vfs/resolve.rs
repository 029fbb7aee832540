//! Path resolution.

use crate::errno::{EResult, EACCES, ELOOP, ENAMETOOLONG, ENOENT, ENOMEM, ENOTDIR};
use crate::limits::{PATH_MAX, SYMLOOP_MAX};
use crate::path::{absolute, components, Component, ComponentView, Path, PathBuf};
use crate::perm::{executable, kernel_profile, AccessProfile};
use crate::stat::{mode_type, FileLocation, FileType, Stat};
use crate::history::{heard, replies_of, World};
use crate::vfs::backend::{node_view, Backend, Call, Node, Reply};
use crate::vfs::children::key_of;
use crate::vfs::entry::{above, rooted, within, Entry, EntryView};
use crate::vfs::state::{
    entry_view, lemma_ask, lemma_extends, lemma_heard, lemma_make_entry, lemma_read_from,
    lemma_said, make_entry, read_whole, stat_of, type_of, Vfs, VfsView,
};
use std::sync::Arc;
use vstd::prelude::*;

verus! {

/// Settings for a path resolution operation.
pub struct ResolutionSettings {
    /// The location of the root directory for the operation.
    ///
    /// Contrary to the `cwd` field, resolution *cannot* access a parent of this path: `..` does not
    /// lead to one, from wherever it is used. Only a `cwd` that is itself a parent of the root is
    /// above it.
    pub root: Arc<Entry>,
    /// The current working directory, from which the resolution starts.
    ///
    /// If `None`, resolution starts from `root`.
    pub cwd: Option<Arc<Entry>>,
    /// The access profile to use for resolution.
    pub access_profile: AccessProfile,
    /// If `true`, the path is resolved for creation, meaning the operation will not fail if the
    /// file does not exist.
    pub create: bool,
    /// If `true` and if the last component of the path is a symbolic link, path resolution
    /// follows it.
    pub follow_link: bool,
}

/// The settings of a resolution, in contracts.
pub struct SettingsView {
    pub root: EntryView,
    pub cwd: Option<EntryView>,
    pub access_profile: AccessProfile,
    pub create: bool,
    pub follow_link: bool,
}

/// What a process has to say on the resolution of its paths.
pub struct ProcessFs {
    /// The root directory of the process.
    pub chroot: Arc<Entry>,
    /// The current working directory of the process.
    pub cwd: Arc<Entry>,
    /// The access profile of the process.
    pub access_profile: AccessProfile,
}

impl ResolutionSettings {
    pub open spec fn view(&self) -> SettingsView {
        SettingsView {
            root: self.root@,
            cwd: match self.cwd {
                Some(cwd) => Some(cwd@),
                None => None,
            },
            access_profile: self.access_profile,
            create: self.create,
            follow_link: self.follow_link,
        }
    }

    /// Kernel access, following symbolic links.
    pub fn kernel_follow<B: Backend>(vfs: &Vfs<B>) -> (settings: Self)
        ensures
            settings@ == (SettingsView {
                root: vfs@.root,
                cwd: None,
                access_profile: kernel_profile(),
                create: false,
                follow_link: true,
            }),
    {
        ResolutionSettings {
            root: root(vfs),
            cwd: None,
            access_profile: AccessProfile::kernel(),
            create: false,
            follow_link: true,
        }
    }

    /// Kernel access, without following symbolic links.
    pub fn kernel_nofollow<B: Backend>(vfs: &Vfs<B>) -> (settings: Self)
        ensures
            settings@ == (SettingsView {
                root: vfs@.root,
                cwd: None,
                access_profile: kernel_profile(),
                create: false,
                follow_link: false,
            }),
    {
        ResolutionSettings { follow_link: false, ..Self::kernel_follow(vfs) }
    }

    /// Returns the default for the given process.
    ///
    /// `follow_links` tells whether symbolic links are followed.
    pub fn for_process(fs: &ProcessFs, follow_links: bool) -> (settings: Self)
        ensures
            settings@ == (SettingsView {
                root: fs.chroot@,
                cwd: Some(fs.cwd@),
                access_profile: fs.access_profile,
                create: false,
                follow_link: follow_links,
            }),
    {
        ResolutionSettings {
            root: fs.chroot.clone(),
            cwd: Some(fs.cwd.clone()),
            access_profile: fs.access_profile,
            create: false,
            follow_link: follow_links,
        }
    }
}

/// Returns the root entry.
pub fn root<B: Backend>(vfs: &Vfs<B>) -> (e: Arc<Entry>)
    ensures
        e@ == vfs@.root,
{
    vfs.root.clone()
}

/// The result of the path resolution operation.
pub enum Resolved<'s> {
    /// The file has been found.
    Found(Arc<Entry>),
    /// The file can be created.
    ///
    /// This variant can be returned only if the `create` field is set to `true` in
    /// [`ResolutionSettings`].
    Creatable {
        /// The parent directory in which the file is to be created.
        parent: Arc<Entry>,
        /// The name of the file to be created.
        name: &'s [u8],
    },
}

/// The result of the path resolution operation, in contracts.
pub enum Place {
    Found(EntryView),
    Creatable(EntryView, Seq<u8>),
}

impl<'s> Resolved<'s> {
    pub open spec fn view(&self) -> Place {
        match self {
            Resolved::Found(e) => Place::Found(e@),
            Resolved::Creatable { parent, name } => Place::Creatable(parent@, name@),
        }
    }
}

/// The result of a resolution that may have failed, in contracts.
pub open spec fn resolved_view(r: EResult<Resolved<'_>>) -> EResult<Place> {
    match r {
        Ok(resolved) => Ok(resolved@),
        Err(e) => Err(e),
    }
}

/// An entry that was found after a number of symbolic links, in contracts.
pub open spec fn counted_view(r: EResult<(Arc<Entry>, usize)>) -> EResult<(EntryView, int)> {
    match r {
        Ok((e, n)) => Ok((e@, n as int)),
        Err(e) => Err(e),
    }
}

/// The result of a resolution after a number of symbolic links, in contracts.
pub open spec fn counted_place(r: EResult<(Resolved<'_>, usize)>) -> EResult<(Place, int)> {
    match r {
        Ok((resolved, n)) => Ok((resolved@, n as int)),
        Err(e) => Err(e),
    }
}

/// An entry that may have been found, in contracts.
pub open spec fn found_view(r: EResult<Option<Arc<Entry>>>) -> EResult<Option<EntryView>> {
    match r {
        Ok(Some(e)) => Ok(Some(e@)),
        Ok(None) => Ok(None),
        Err(e) => Err(e),
    }
}

/// The directory that `..` leads to: the parent, but neither from the root of the VFS nor from
/// the root of the resolution, and never to a parent of the root of the resolution.
pub open spec fn dotdot(dir: EntryView, root: EntryView) -> EntryView {
    if dir.id == root.id {
        dir
    } else {
        match dir.parent {
            Some(p) => if above(*p, root) {
                dir
            } else {
                *p
            },
            None => dir,
        }
    }
}

/// The entry `name` of the directory `dir`: from the cache, else from the file system, which is
/// then cached.
pub open spec fn find_entry(w: World<Reply>, s: VfsView, dir: EntryView, name: Seq<u8>) -> (
    VfsView,
    EResult<Option<EntryView>>,
) {
    if s.children.contains_key((dir.id, name)) {
        let e = s.children[(dir.id, name)];
        if e.node is Some {
            (s, Ok(Some(e)))
        } else {
            (s, Ok(None))
        }
    } else {
        let node = dir.node->0;
        let s1 = s.ask(w, Call::EntryByName(node.ops, node.location, name));
        match s.reply(w)->Entry_0 {
            Err(e) => (s1, Err(e)),
            Ok(None) => (s1, Ok(None)),
            Ok(Some((entry, ops))) => {
                let location = FileLocation {
                    mountpoint_id: node.location.mountpoint_id,
                    inode: entry.inode,
                };
                let s2 = s1.ask(w, Call::InsertNode(Node { location, ops }));
                match s1.reply(w)->Node_0 {
                    Err(e) => (s2, Err(e)),
                    Ok(n) => {
                        let (s3, r) = make_entry(s2, dir, name, n);
                        match r {
                            Err(e) => (s3, Err(e)),
                            Ok(e) => (s3, Ok(Some(e))),
                        }
                    },
                }
            },
        }
    }
}

/// How many more symbolic links can be followed after `count` of them.
pub open spec fn left(count: int) -> int {
    if count < SYMLOOP_MAX {
        SYMLOOP_MAX - count
    } else {
        0
    }
}

/// The greater of two numbers of symbolic links. The number of links followed never goes down:
/// what is reached after `count` of them and then some is reached after `most(count, then)`.
pub open spec fn most(count: int, then: int) -> int {
    if count < then {
        then
    } else {
        count
    }
}

/// The target of the symbolic link `link`, found in the directory `dir`, when `count` links were
/// followed before; and how many were followed then. If they were as many as allowed, the link is
/// not even read.
pub open spec fn follow(
    w: World<Reply>,
    s: VfsView,
    link: EntryView,
    root: EntryView,
    dir: EntryView,
    access_profile: AccessProfile,
    count: int,
) -> (VfsView, EResult<(EntryView, int)>)
    decreases left(count), 0int, 0int,
{
    if count >= SYMLOOP_MAX {
        (s, Err(ELOOP))
    } else {
        let (s1, content) = read_whole(w, s, link.node->0);
        match content {
            Err(e) => (s1, Err(e)),
            Ok(path) => if path.len() > PATH_MAX {
                (s1, Err(ENAMETOOLONG))
            } else {
                let settings = SettingsView {
                    root,
                    cwd: Some(dir),
                    access_profile,
                    create: false,
                    follow_link: true,
                };
                let (s2, place) = resolve(w, s1, path, settings, count + 1);
                match place {
                    Err(e) => (s2, Err(e)),
                    Ok((Place::Found(e), n)) => (s2, Ok((e, n))),
                    Ok((Place::Creatable(_, _), _)) => (s2, Err(ENOENT)),
                }
            },
        }
    }
}

/// The directory that the component `name`, not the last one of a path, leads to from `dir`, and
/// the number of links followed then.
pub open spec fn enter(
    w: World<Reply>,
    s: VfsView,
    dir: EntryView,
    name: Seq<u8>,
    settings: SettingsView,
    count: int,
) -> (VfsView, EResult<(EntryView, int)>)
    decreases left(count), 1int, 0int,
{
    let (s1, found) = find_entry(w, s, dir, name);
    match found {
        Err(e) => (s1, Err(e)),
        Ok(None) => (s1, Err(ENOENT)),
        Ok(Some(entry)) => {
            let (s2, t) = type_of(w, s1, entry.node->0);
            match t {
                Err(e) => (s2, Err(e)),
                Ok(FileType::Directory) => (s2, Ok((entry, count))),
                Ok(FileType::Link) => if settings.follow_link {
                    follow(w, s2, entry, settings.root, dir, settings.access_profile, count)
                } else {
                    (s2, Err(ENOTDIR))
                },
                Ok(_) => (s2, Err(ENOTDIR)),
            }
        },
    }
}

/// The directory that the component `comp`, not the last one of a path, leads to from `dir`, and
/// the number of links followed then.
pub open spec fn step(
    w: World<Reply>,
    s: VfsView,
    dir: EntryView,
    comp: ComponentView,
    settings: SettingsView,
    count: int,
) -> (VfsView, EResult<(EntryView, int)>)
    decreases left(count), 2int, 0int,
{
    let (s1, stat) = stat_of(w, s, dir.node->0);
    match stat {
        Err(e) => (s1, Err(e)),
        Ok(stat) => if !executable(settings.access_profile, stat) {
            (s1, Err(EACCES))
        } else {
            match comp {
                ComponentView::ParentDir => (s1, Ok((dotdot(dir, settings.root), count))),
                ComponentView::Normal(name) => enter(w, s1, dir, name, settings, count),
                _ => (s1, Ok((dir, count))),
            }
        },
    }
}

/// The directory that the components `comps`, none of which is the last one of a path, lead to
/// from `dir`, and the number of links followed then.
pub open spec fn walk(
    w: World<Reply>,
    s: VfsView,
    dir: EntryView,
    comps: Seq<ComponentView>,
    settings: SettingsView,
    count: int,
) -> (VfsView, EResult<(EntryView, int)>)
    decreases left(count), 3int, comps.len(),
{
    if comps.len() == 0 {
        (s, Ok((dir, count)))
    } else {
        let (s1, next) = step(w, s, dir, comps[0], settings, count);
        match next {
            Err(e) => (s1, Err(e)),
            Ok((next, n)) => walk(w, s1, next, comps.skip(1), settings, most(count, n)),
        }
    }
}

/// What the last component `comp` of a path leads to from `dir`, and the number of links followed
/// then.
pub open spec fn finish(
    w: World<Reply>,
    s: VfsView,
    dir: EntryView,
    comp: ComponentView,
    settings: SettingsView,
    count: int,
) -> (VfsView, EResult<(Place, int)>)
    decreases left(count), 1int, 0int,
{
    match comp {
        ComponentView::RootDir | ComponentView::CurDir => (s, Ok((Place::Found(dir), count))),
        ComponentView::ParentDir => (
            s,
            Ok((Place::Found(dotdot(dir, settings.root)), count)),
        ),
        ComponentView::Normal(name) => {
            let (s1, stat) = stat_of(w, s, dir.node->0);
            match stat {
                Err(e) => (s1, Err(e)),
                Ok(stat) => if !executable(settings.access_profile, stat) {
                    (s1, Err(EACCES))
                } else {
                    let (s2, found) = find_entry(w, s1, dir, name);
                    match found {
                        Err(e) => (s2, Err(e)),
                        Ok(None) => if settings.create {
                            (s2, Ok((Place::Creatable(dir, name), count)))
                        } else {
                            (s2, Err(ENOENT))
                        },
                        Ok(Some(entry)) => if settings.follow_link {
                            let (s3, stat) = stat_of(w, s2, entry.node->0);
                            match stat {
                                Err(e) => (s3, Err(e)),
                                Ok(stat) => if mode_type(stat.mode) == Some(FileType::Link) {
                                    let (s4, target) = follow(
                                        w,
                                        s3,
                                        entry,
                                        settings.root,
                                        dir,
                                        settings.access_profile,
                                        count,
                                    );
                                    match target {
                                        Err(e) => (s4, Err(e)),
                                        Ok((e, n)) => (s4, Ok((Place::Found(e), n))),
                                    }
                                } else {
                                    (s3, Ok((Place::Found(entry), count)))
                                },
                            }
                        } else {
                            (s2, Ok((Place::Found(entry), count)))
                        },
                    }
                },
            }
        },
    }
}

/// The directory that a resolution of `path` starts from.
pub open spec fn start_of(path: Seq<u8>, settings: SettingsView) -> EntryView {
    match settings.cwd {
        Some(cwd) => if absolute(path) {
            settings.root
        } else {
            cwd
        },
        None => settings.root,
    }
}

/// What `path` leads to, when `count` symbolic links were followed before; and how many were
/// followed then.
pub open spec fn resolve(
    w: World<Reply>,
    s: VfsView,
    path: Seq<u8>,
    settings: SettingsView,
    count: int,
) -> (VfsView, EResult<(Place, int)>)
    decreases left(count), 4int, 0int,
{
    let start = start_of(path, settings);
    let comps = components(path);
    if comps.len() == 0 {
        (s, Ok((Place::Found(start), count)))
    } else {
        let (s1, dir) = walk(w, s, start, comps.drop_last(), settings, count);
        match dir {
            Err(e) => (s1, Err(e)),
            Ok((dir, n)) => finish(w, s1, dir, comps.last(), settings, most(count, n)),
        }
    }
}

/// What `path` leads to. An empty path leads nowhere.
pub open spec fn resolve_whole(
    w: World<Reply>,
    s: VfsView,
    path: Seq<u8>,
    settings: SettingsView,
) -> (VfsView, EResult<Place>) {
    if path.len() == 0 {
        (s, Err(ENOMEM))
    } else {
        let (s1, place) = resolve(w, s, path, settings, 0);
        match place {
            Err(e) => (s1, Err(e)),
            Ok((place, _)) => (s1, Ok(place)),
        }
    }
}

/// The file that `path` leads to, if it exists.
pub open spec fn find_file(
    w: World<Reply>,
    s: VfsView,
    path: Seq<u8>,
    settings: SettingsView,
) -> (VfsView, EResult<Option<EntryView>>) {
    let (s1, place) = resolve_whole(w, s, path, settings);
    match place {
        Ok(Place::Found(e)) => (s1, Ok(Some(e))),
        Ok(Place::Creatable(_, _)) => (s1, Ok(None)),
        Err(e) => if e == ENOENT {
            (s1, Ok(None))
        } else {
            (s1, Err(e))
        },
    }
}

/// The file that `path` leads to, which must exist.
pub open spec fn get_file(
    w: World<Reply>,
    s: VfsView,
    path: Seq<u8>,
    settings: SettingsView,
) -> (VfsView, EResult<EntryView>) {
    let (s1, file) = find_file(w, s, path, settings);
    match file {
        Ok(Some(e)) => (s1, Ok(e)),
        Ok(None) => (s1, Err(ENOENT)),
        Err(e) => (s1, Err(e)),
    }
}

/// A file has to be looked at on the way along `path`: it has a name at its end, or anything
/// before its end.
pub open spec fn looks_up(path: Seq<u8>) -> bool {
    let comps = components(path);
    comps.len() > 1 || comps.len() == 1 && comps[0] is Normal
}

/// The root of the resolution is an entry of this VFS, and exists with all the directories above it
/// if symbolic links, which may start there, are followed.
pub open spec fn has_root(settings: SettingsView, s: VfsView) -> bool {
    s.owns(settings.root) && (settings.follow_link ==> rooted(settings.root))
}

/// The directory where the way along `path` starts, and the root of the resolution where it may be
/// needed, exist with all the directories above them.
pub open spec fn starts(settings: SettingsView, path: Seq<u8>, s: VfsView) -> bool {
    has_root(settings, s) && s.reaches(start_of(path, settings))
}

/// The settings apply to the path `path` in this VFS: they name entries of it, and directories that
/// exist if a file has to be looked at.
pub open spec fn applies_to(settings: SettingsView, path: Seq<u8>, s: VfsView) -> bool {
    &&& s.owns(settings.root)
    &&& settings.cwd matches Some(cwd) ==> s.owns(cwd)
    &&& looks_up(path) ==> starts(settings, path, s)
}

/// Looking an entry up keeps the invariant, and gives an entry of that name and directory.
pub proof fn lemma_find_entry(w: World<Reply>, s: VfsView, dir: EntryView, name: Seq<u8>)
    requires
        s.wf(),
        s.owns(dir),
    ensures
        ({
            let (s1, r) = find_entry(w, s, dir, name);
            &&& s1.wf()
            &&& s1.extends(s)
            &&& r matches Ok(Some(e)) ==> s1.live(e) && e.parent == Some(Box::new(dir)) && e.name
                == name
        }),
{
    broadcast use lemma_ask;

    assert(s.log =~= s.log.subrange(0, s.log.len() as int));
    if s.children.contains_key((dir.id, name)) {
        let e = s.children[(dir.id, name)];
        assert(key_of(e) == (dir.id, name));
        assert(s.known.contains_key(e.id));
        assert(s.owns(*e.parent->0));
    } else {
        let node = dir.node->0;
        let s1 = s.ask(w, Call::EntryByName(node.ops, node.location, name));
        if let Ok(Some((entry, ops))) = s.reply(w)->Entry_0 {
            let location = FileLocation {
                mountpoint_id: node.location.mountpoint_id,
                inode: entry.inode,
            };
            let s2 = s1.ask(w, Call::InsertNode(Node { location, ops }));
            lemma_extends(s, s1, s2);
            if let Ok(n) = s1.reply(w)->Node_0 {
                lemma_make_entry(s2, dir, name, n);
                lemma_extends(s, s2, make_entry(s2, dir, name, n).0);
            }
        }
    }
}

/// Reading a node whole keeps the invariant.
pub proof fn lemma_read_whole(w: World<Reply>, s: VfsView, node: Node)
    requires
        s.wf(),
    ensures
        read_whole(w, s, node).0.wf(),
        read_whole(w, s, node).0.extends(s),
{
    broadcast use lemma_ask;

    let (s1, stat) = stat_of(w, s, node);
    if let Ok(stat) = stat {
        let size = stat.size + crate::vfs::state::INCREMENT;
        if size <= usize::MAX {
            lemma_read_from(w, s1, node, size, Seq::empty());
            lemma_extends(s, s1, read_whole(w, s, node).0);
        }
    }
}

/// Following a symbolic link keeps the invariant, gives an existing entry, and does not leave
/// the root of the resolution.
pub proof fn lemma_follow(
    w: World<Reply>,
    s: VfsView,
    link: EntryView,
    root: EntryView,
    dir: EntryView,
    access_profile: AccessProfile,
    count: int,
)
    requires
        s.wf(),
        s.reaches(root),
        s.reaches(dir),
    ensures
        ({
            let (s1, r) = follow(w, s, link, root, dir, access_profile, count);
            &&& s1.wf()
            &&& s1.extends(s)
            &&& r matches Ok((e, n)) ==> {
                &&& s1.reaches(e)
                &&& count < n <= SYMLOOP_MAX
                &&& within(dir, root.id) ==> within(e, root.id)
                &&& !above(dir, root) ==> !above(e, root)
            }
        }),
    decreases left(count), 0int, 0int,
{
    assert(s.log =~= s.log.subrange(0, s.log.len() as int));
    if count < SYMLOOP_MAX {
        let (s1, content) = read_whole(w, s, link.node->0);
        lemma_read_whole(w, s, link.node->0);
        if let Ok(path) = content {
            if path.len() <= PATH_MAX {
                let settings = SettingsView {
                    root,
                    cwd: Some(dir),
                    access_profile,
                    create: false,
                    follow_link: true,
                };
                lemma_resolve(w, s1, path, settings, count + 1);
                lemma_extends(s, s1, resolve(w, s1, path, settings, count + 1).0);
            }
        }
    }
}

/// Entering a component keeps the invariant, gives an existing entry, and does not leave the
/// root of the resolution.
pub proof fn lemma_enter(
    w: World<Reply>,
    s: VfsView,
    dir: EntryView,
    name: Seq<u8>,
    settings: SettingsView,
    count: int,
)
    requires
        s.wf(),
        s.reaches(dir),
        has_root(settings, s),
    ensures
        ({
            let (s1, r) = enter(w, s, dir, name, settings, count);
            &&& s1.wf()
            &&& s1.extends(s)
            &&& r matches Ok((e, n)) ==> {
                &&& s1.reaches(e)
                &&& count <= n <= most(count, SYMLOOP_MAX as int)
                &&& within(dir, settings.root.id) ==> within(e, settings.root.id)
                &&& !above(dir, settings.root) ==> !above(e, settings.root)
            }
        }),
    decreases left(count), 1int, 0int,
{
    broadcast use lemma_ask;

    let (s1, found) = find_entry(w, s, dir, name);
    lemma_find_entry(w, s, dir, name);
    if let Ok(Some(entry)) = found {
        let (s2, t) = type_of(w, s1, entry.node->0);
        lemma_extends(s, s1, s2);
        if above(entry, settings.root) {
            lemma_above(s1, entry, dir, settings.root);
        }
        if t == Ok::<FileType, i32>(FileType::Link) && settings.follow_link {
            lemma_follow(w, s2, entry, settings.root, dir, settings.access_profile, count);
            lemma_extends(
                s,
                s2,
                follow(w, s2, entry, settings.root, dir, settings.access_profile, count).0,
            );
        }
    }
}

/// `..` leads to an entry of the VFS, which exists if the directory does with those above it, and
/// does not leave the root of the resolution.
pub proof fn lemma_dotdot(s: VfsView, dir: EntryView, root: EntryView)
    requires
        s.wf(),
        s.owns(dir),
        s.owns(root),
    ensures
        s.owns(dotdot(dir, root)),
        rooted(dir) ==> rooted(dotdot(dir, root)),
        within(dir, root.id) ==> within(dotdot(dir, root), root.id),
        !above(dir, root) ==> !above(dotdot(dir, root), root),
{
    assert(s.known.contains_key(dir.id));
    if let Some(p) = dir.parent {
        if above(*p, root) && within(dir, root.id) && dir.id != root.id {
            lemma_within_older(s, *p, root.id);
            lemma_within_older(s, root, p.id);
        }
    }
}

/// What an entry lies within is not younger than the entry.
proof fn lemma_within_older(s: VfsView, e: EntryView, id: u64)
    requires
        s.wf(),
        s.owns(e),
        within(e, id),
    ensures
        id <= e.id,
    decreases e,
{
    assert(s.known.contains_key(e.id));
    if e.id != id {
        lemma_within_older(s, *e.parent->0, id);
    }
}

/// The parent of a parent of the root is a parent of the root too.
proof fn lemma_above(s: VfsView, e: EntryView, p: EntryView, root: EntryView)
    requires
        s.wf(),
        s.owns(e),
        s.owns(root),
        e.parent == Some(Box::new(p)),
        above(e, root),
    ensures
        above(p, root),
    decreases root,
{
    assert(s.known.contains_key(e.id));
    assert(s.known.contains_key(root.id));
    let q = *root.parent->0;
    lemma_within_older(s, root, e.id);
    if q.id != e.id {
        lemma_above(s, e, p, q);
    } else {
        assert(within(q, p.id)) by {
            assert(q == e);
            assert(within(p, p.id));
        }
    }
}

/// A component keeps the invariant, gives an existing entry, and does not leave the root of the
/// resolution.
pub proof fn lemma_step(
    w: World<Reply>,
    s: VfsView,
    dir: EntryView,
    comp: ComponentView,
    settings: SettingsView,
    count: int,
)
    requires
        s.wf(),
        s.reaches(dir),
        has_root(settings, s),
    ensures
        ({
            let (s1, r) = step(w, s, dir, comp, settings, count);
            &&& s1.wf()
            &&& s1.extends(s)
            &&& r matches Ok((e, n)) ==> {
                &&& s1.reaches(e)
                &&& count <= n <= most(count, SYMLOOP_MAX as int)
                &&& within(dir, settings.root.id) ==> within(e, settings.root.id)
                &&& !above(dir, settings.root) ==> !above(e, settings.root)
            }
        }),
    decreases left(count), 2int, 0int,
{
    broadcast use lemma_ask;

    let s1 = stat_of(w, s, dir.node->0).0;
    assert(s1.extends(s) && s1.wf());
    lemma_dotdot(s1, dir, settings.root);
    if let ComponentView::Normal(name) = comp {
        lemma_enter(w, s1, dir, name, settings, count);
        lemma_extends(s, s1, enter(w, s1, dir, name, settings, count).0);
    }
}

/// Walking components keeps the invariant, gives an existing entry, and does not leave the root
/// of the resolution.
pub proof fn lemma_walk(
    w: World<Reply>,
    s: VfsView,
    dir: EntryView,
    comps: Seq<ComponentView>,
    settings: SettingsView,
    count: int,
)
    requires
        s.wf(),
        s.reaches(dir),
        has_root(settings, s),
    ensures
        ({
            let (s1, r) = walk(w, s, dir, comps, settings, count);
            &&& s1.wf()
            &&& s1.extends(s)
            &&& r matches Ok((e, n)) ==> {
                &&& s1.reaches(e)
                &&& count <= n <= most(count, SYMLOOP_MAX as int)
                &&& within(dir, settings.root.id) ==> within(e, settings.root.id)
                &&& !above(dir, settings.root) ==> !above(e, settings.root)
            }
        }),
    decreases left(count), 3int, comps.len(),
{
    assert(s.log =~= s.log.subrange(0, s.log.len() as int));
    if comps.len() > 0 {
        lemma_step(w, s, dir, comps[0], settings, count);
        let (s1, next) = step(w, s, dir, comps[0], settings, count);
        if let Ok((next, n)) = next {
            lemma_walk(w, s1, next, comps.skip(1), settings, n);
            lemma_extends(s, s1, walk(w, s, dir, comps, settings, count).0);
        }
    }
}

/// What is known of the place that a resolution from the directory `dir` ends at: an entry of the
/// VFS, which exists if the directories that the resolution starts from do, lies within the root of
/// the resolution if it starts there, and is not a parent of that root unless it starts at one.
pub open spec fn placed(
    s: VfsView,
    place: EResult<Place>,
    dir: EntryView,
    settings: SettingsView,
) -> bool {
    match place {
        Err(_) => true,
        Ok(Place::Found(e)) => {
            &&& s.owns(e)
            &&& rooted(dir) && (settings.follow_link ==> rooted(settings.root)) ==> rooted(e)
            &&& within(dir, settings.root.id) ==> within(e, settings.root.id)
            &&& !above(dir, settings.root) ==> !above(e, settings.root)
        },
        Ok(Place::Creatable(e, _)) => {
            &&& settings.create
            &&& s.reaches(e)
            &&& within(dir, settings.root.id) ==> within(e, settings.root.id)
            &&& !above(dir, settings.root) ==> !above(e, settings.root)
        },
    }
}

/// The place that was found, without the number of links.
pub open spec fn place_of(r: EResult<(Place, int)>) -> EResult<Place> {
    match r {
        Ok((place, _)) => Ok(place),
        Err(e) => Err(e),
    }
}

/// The last component keeps the invariant, and leads to an existing entry within the root of the
/// resolution.
pub proof fn lemma_finish(
    w: World<Reply>,
    s: VfsView,
    dir: EntryView,
    comp: ComponentView,
    settings: SettingsView,
    count: int,
)
    requires
        s.wf(),
        s.reaches(dir),
        has_root(settings, s),
    ensures
        ({
            let (s1, r) = finish(w, s, dir, comp, settings, count);
            &&& s1.wf()
            &&& s1.extends(s)
            &&& placed(s1, place_of(r), dir, settings)
            &&& r matches Ok((_, n)) ==> count <= n <= most(count, SYMLOOP_MAX as int)
        }),
    decreases left(count), 1int, 0int,
{
    broadcast use lemma_ask;

    assert(s.log =~= s.log.subrange(0, s.log.len() as int));
    assert(s.known.contains_key(dir.id));
    if let ComponentView::Normal(name) = comp {
        let (s1, stat) = stat_of(w, s, dir.node->0);
        assert(s1.extends(s) && s1.wf());
        if let Ok(stat) = stat {
            if executable(settings.access_profile, stat) {
                lemma_find_entry(w, s1, dir, name);
                let (s2, found) = find_entry(w, s1, dir, name);
                lemma_extends(s, s1, s2);
                if let Ok(Some(entry)) = found {
                    if above(entry, settings.root) {
                        lemma_above(s2, entry, dir, settings.root);
                    }
                    if settings.follow_link {
                        let (s3, stat) = stat_of(w, s2, entry.node->0);
                        lemma_extends(s, s2, s3);
                        if let Ok(stat) = stat {
                            if mode_type(stat.mode) == Some(FileType::Link) {
                                lemma_follow(
                                    w,
                                    s3,
                                    entry,
                                    settings.root,
                                    dir,
                                    settings.access_profile,
                                    count,
                                );
                                lemma_extends(
                                    s,
                                    s3,
                                    finish(w, s, dir, comp, settings, count).0,
                                );
                            }
                        }
                    }
                }
            }
        }
    }
}

/// A resolution keeps the invariant, and leads to an existing entry within its root.
pub proof fn lemma_resolve(
    w: World<Reply>,
    s: VfsView,
    path: Seq<u8>,
    settings: SettingsView,
    count: int,
)
    requires
        s.wf(),
        applies_to(settings, path, s),
    ensures
        ({
            let (s1, r) = resolve(w, s, path, settings, count);
            &&& s1.wf()
            &&& s1.extends(s)
            &&& placed(s1, place_of(r), start_of(path, settings), settings)
            &&& r matches Ok((_, n)) ==> count <= n <= most(count, SYMLOOP_MAX as int)
        }),
    decreases left(count), 5int, 0int,
{
    let start = start_of(path, settings);
    let comps = components(path);
    if looks_up(path) {
        lemma_resolve_names(w, s, path, settings, count);
    } else {
        assert(s.log =~= s.log.subrange(0, s.log.len() as int));
        lemma_dotdot(s, start, settings.root);
        if comps.len() > 0 {
            assert(comps.drop_last().len() == 0);
            assert(walk(w, s, start, comps.drop_last(), settings, count) == (
                s,
                Ok::<(EntryView, int), i32>((start, count)),
            ));
            assert(resolve(w, s, path, settings, count) == finish(
                w,
                s,
                start,
                comps.last(),
                settings,
                count,
            ));
        }
    }
}

#[verifier::spinoff_prover]
#[verifier::rlimit(40)]
proof fn lemma_resolve_names(
    w: World<Reply>,
    s: VfsView,
    path: Seq<u8>,
    settings: SettingsView,
    count: int,
)
    requires
        s.wf(),
        starts(settings, path, s),
        components(path).len() > 0,
    ensures
        ({
            let (s1, r) = resolve(w, s, path, settings, count);
            &&& s1.wf()
            &&& s1.extends(s)
            &&& placed(s1, place_of(r), start_of(path, settings), settings)
            &&& r matches Ok((_, n)) ==> count <= n <= most(count, SYMLOOP_MAX as int)
        }),
    decreases left(count), 4int, 0int,
{
    let start = start_of(path, settings);
    let comps = components(path);
    lemma_walk(w, s, start, comps.drop_last(), settings, count);
    let (s1, dir) = walk(w, s, start, comps.drop_last(), settings, count);
    match dir {
        Ok((dir, n)) => {
            lemma_finish(w, s1, dir, comps.last(), settings, n);
            let (s2, r) = finish(w, s1, dir, comps.last(), settings, n);
            assert(resolve(w, s, path, settings, count) == (s2, r));
            lemma_extends(s, s1, s2);
            lemma_placed(s2, place_of(r), start, dir, settings);
        },
        Err(e) => {
            assert(resolve(w, s, path, settings, count) == (s1, Err::<(Place, int), i32>(e)));
        },
    }
}

/// What is found from `dir` is found from `start`, which leads to `dir`.
proof fn lemma_placed(
    s: VfsView,
    place: EResult<Place>,
    start: EntryView,
    dir: EntryView,
    settings: SettingsView,
)
    requires
        placed(s, place, dir, settings),
        rooted(dir),
        within(start, settings.root.id) ==> within(dir, settings.root.id),
        !above(start, settings.root) ==> !above(dir, settings.root),
    ensures
        placed(s, place, start, settings),
{
}

/// Resolves an entry with the given `name`, in the given `lookup_dir`.
///
/// If the entry does not exist, the function returns `None`.
pub fn resolve_entry<B: Backend>(
    lookup_dir: &Arc<Entry>,
    name: &[u8],
    vfs: &mut Vfs<B>,
) -> (r: EResult<Option<Arc<Entry>>>)
    requires
        old(vfs).wf(),
        old(vfs)@.owns(lookup_dir@),
        lookup_dir@.node is Some || old(vfs)@.children.contains_key((lookup_dir@.id, name@)),
    ensures
        final(vfs).wf(),
        final(vfs)@.extends(old(vfs)@),
        forall|w: World<Reply>| #[trigger]
            heard(final(vfs)@.log, w) ==> find_entry(w, old(vfs)@, lookup_dir@, name@) == (
                final(vfs)@,
                found_view(r),
            ),
        r matches Ok(Some(e)) ==> final(vfs)@.live(e@),
{
    broadcast use lemma_heard;

    proof {
        lemma_find_entry(replies_of(vfs@.log), vfs@, lookup_dir@, name@);
    }
    // Try to get from cache first
    match vfs.children.get(lookup_dir.get_id(), name) {
        Some(entry) => {
            return if entry.has_node() {
                Ok(Some(entry))
            } else {
                Ok(None)
            };
        },
        None => {},
    }
    // Not in cache. Try to get from the filesystem
    let node: Node = **lookup_dir.node();
    let r = vfs.services.entry_by_name(node.ops, node.location, name);
    proof {
        lemma_said(
            old(vfs)@,
            vfs@,
            Call::EntryByName(node.ops, node.location, name@),
            Reply::Entry(r),
        );
    }
    let (entry, ops) = match r? {
        Some(found) => found,
        None => {
            return Ok(None);
        },
    };
    let ghost s1 = vfs@;
    // The file is on the same mountpoint as the parent since mountpoint roots are always in
    // cache
    let location: FileLocation = FileLocation {
        mountpoint_id: node.location.mountpoint_id,
        inode: entry.inode,
    };
    let r = vfs.services.insert_node(Node { location, ops });
    proof {
        lemma_said(s1, vfs@, Call::InsertNode(Node { location, ops }), Reply::Node(node_view(r)));
        lemma_extends(old(vfs)@, s1, vfs@);
    }
    let node: Arc<Node> = r?;
    let ghost s2 = vfs@;
    // Create entry and insert in parent
    let r = vfs.add_entry(lookup_dir, name, node);
    proof {
        lemma_extends(old(vfs)@, s2, vfs@);
        lemma_make_entry(s2, lookup_dir@, name@, *node);
    }
    Ok(Some(r?))
}

/// Resolves the symbolic link `link` and returns the target.
///
/// Arguments:
/// - `root` is the root directory
/// - `lookup_dir` is the directory from which the resolution of the target starts
/// - `access_profile` is the access profile used for resolution
/// - `symlink_rec` is the number of symbolic links followed so far
///
/// Symbolic links are followed recursively, including the last element of the target path. The
/// function also returns the number of symbolic links followed then.
fn resolve_link<B: Backend>(
    link: &Entry,
    root: Arc<Entry>,
    lookup_dir: Arc<Entry>,
    access_profile: AccessProfile,
    symlink_rec: usize,
    vfs: &mut Vfs<B>,
) -> (r: EResult<(Arc<Entry>, usize)>)
    requires
        old(vfs).wf(),
        symlink_rec < SYMLOOP_MAX ==> {
            &&& link@.node is Some
            &&& old(vfs)@.reaches(root@)
            &&& old(vfs)@.reaches(lookup_dir@)
        },
    ensures
        final(vfs).wf(),
        final(vfs)@.extends(old(vfs)@),
        forall|w: World<Reply>| #[trigger]
            heard(final(vfs)@.log, w) ==> follow(
                w,
                old(vfs)@,
                link@,
                root@,
                lookup_dir@,
                access_profile,
                symlink_rec as int,
            ) == (final(vfs)@, counted_view(r)),
        r matches Ok((e, n)) ==> final(vfs)@.reaches(e@) && symlink_rec < n,
    decreases left(symlink_rec as int), 0int,
{
    broadcast use lemma_heard;

    assert(vfs@.log =~= vfs@.log.subrange(0, vfs@.log.len() as int));
    // If too many links were followed, error
    if symlink_rec >= SYMLOOP_MAX {
        return Err(ELOOP);
    }
    // Read link
    let content: Vec<u8> = link.read_all(vfs)?;
    let link_path: PathBuf = PathBuf::try_from(content)?;
    let ghost s1 = vfs@;
    // Resolve link
    let settings: ResolutionSettings = ResolutionSettings {
        root,
        cwd: Some(lookup_dir),
        access_profile,
        create: false,
        follow_link: true,
    };
    let r = resolve_path_impl(link_path.as_path(), &settings, symlink_rec + 1, vfs);
    proof {
        lemma_extends(old(vfs)@, s1, vfs@);
    }
    match r? {
        (Resolved::Found(target), links) => Ok((target, links)),
        // Because `create` is set to `false`
        (Resolved::Creatable { .. }, _) => {
            assert(false);
            Err(ENOENT)
        },
    }
}

/// Returns the directory that `..` leads to from `dir`, in a resolution whose root is `root`.
fn parent_dir(dir: Arc<Entry>, root: &Arc<Entry>) -> (r: Arc<Entry>)
    ensures
        r@ == dotdot(dir@, root@),
{
    if dir.get_id() == root.get_id() {
        return dir;
    }
    let parent: Option<Arc<Entry>> = match dir.get_parent() {
        Some(parent) => Some(parent.clone()),
        None => None,
    };
    match parent {
        Some(parent) => {
            if parent.get_id() != root.get_id() && root.is_within(parent.get_id()) {
                dir
            } else {
                parent
            }
        },
        None => dir,
    }
}

/// Returns the directory that the component `name`, not the last one of a path, leads to from
/// `lookup_dir`, and the number of symbolic links followed then.
fn enter_directory<B: Backend>(
    lookup_dir: Arc<Entry>,
    name: &[u8],
    settings: &ResolutionSettings,
    symlink_rec: usize,
    vfs: &mut Vfs<B>,
) -> (r: EResult<(Arc<Entry>, usize)>)
    requires
        old(vfs).wf(),
        old(vfs)@.reaches(lookup_dir@),
        has_root(settings@, old(vfs)@),
    ensures
        final(vfs).wf(),
        final(vfs)@.extends(old(vfs)@),
        forall|w: World<Reply>| #[trigger]
            heard(final(vfs)@.log, w) ==> enter(
                w,
                old(vfs)@,
                lookup_dir@,
                name@,
                settings@,
                symlink_rec as int,
            ) == (final(vfs)@, counted_view(r)),
    decreases left(symlink_rec as int), 1int,
{
    broadcast use lemma_heard;

    // Get entry
    let r = resolve_entry(&lookup_dir, name, vfs);
    let ghost s1 = vfs@;
    let entry: Arc<Entry> = match r? {
        Some(entry) => entry,
        None => {
            return Err(ENOENT);
        },
    };
    let r = entry.get_type(vfs);
    let ghost s2 = vfs@;
    proof {
        lemma_extends(old(vfs)@, s1, s2);
    }
    match r? {
        FileType::Directory => Ok((entry, symlink_rec)),
        FileType::Link => {
            if !settings.follow_link {
                return Err(ENOTDIR);
            }
            let r = resolve_link(
                &entry,
                settings.root.clone(),
                lookup_dir,
                settings.access_profile,
                symlink_rec,
                vfs,
            );
            proof {
                lemma_extends(old(vfs)@, s2, vfs@);
            }
            r
        },
        _ => Err(ENOTDIR),
    }
}

/// Returns the directory that the component `comp`, not the last one of a path, leads to from
/// `lookup_dir`, and the number of symbolic links followed then.
fn enter_component<B: Backend>(
    lookup_dir: Arc<Entry>,
    comp: &Component<'_>,
    settings: &ResolutionSettings,
    symlink_rec: usize,
    vfs: &mut Vfs<B>,
) -> (r: EResult<(Arc<Entry>, usize)>)
    requires
        old(vfs).wf(),
        old(vfs)@.reaches(lookup_dir@),
        has_root(settings@, old(vfs)@),
    ensures
        final(vfs).wf(),
        final(vfs)@.extends(old(vfs)@),
        forall|w: World<Reply>| #[trigger]
            heard(final(vfs)@.log, w) ==> step(
                w,
                old(vfs)@,
                lookup_dir@,
                comp@,
                settings@,
                symlink_rec as int,
            ) == (final(vfs)@, counted_view(r)),
    decreases left(symlink_rec as int), 2int,
{
    broadcast use lemma_heard;

    // Check lookup permission
    let r = lookup_dir.stat(vfs);
    let ghost s1 = vfs@;
    let stat: Stat = r?;
    if !settings.access_profile.can_search_directory(&stat) {
        return Err(EACCES);
    }
    // Get the name of the next entry
    match comp {
        Component::ParentDir => Ok((parent_dir(lookup_dir, &settings.root), symlink_rec)),
        Component::Normal(name) => {
            let r = enter_directory(lookup_dir, name, settings, symlink_rec, vfs);
            proof {
                lemma_extends(old(vfs)@, s1, vfs@);
            }
            r
        },
        // Ignore
        _ => Ok((lookup_dir, symlink_rec)),
    }
}

/// Resolves the last component of a path, which is the name `name`, in the directory `lookup_dir`.
/// The function also returns the number of symbolic links followed then.
fn resolve_name<'p, B: Backend>(
    lookup_dir: Arc<Entry>,
    name: &'p [u8],
    settings: &ResolutionSettings,
    symlink_rec: usize,
    vfs: &mut Vfs<B>,
) -> (r: EResult<(Resolved<'p>, usize)>)
    requires
        old(vfs).wf(),
        old(vfs)@.reaches(lookup_dir@),
        has_root(settings@, old(vfs)@),
    ensures
        final(vfs).wf(),
        final(vfs)@.extends(old(vfs)@),
        forall|w: World<Reply>| #[trigger]
            heard(final(vfs)@.log, w) ==> finish(
                w,
                old(vfs)@,
                lookup_dir@,
                ComponentView::Normal(name@),
                settings@,
                symlink_rec as int,
            ) == (final(vfs)@, counted_place(r)),
    decreases left(symlink_rec as int), 1int,
{
    broadcast use lemma_heard;

    // Check lookup permission
    let r = lookup_dir.stat(vfs);
    let ghost s1 = vfs@;
    let stat: Stat = r?;
    if !settings.access_profile.can_search_directory(&stat) {
        return Err(EACCES);
    }
    // Get entry
    let r = resolve_entry(&lookup_dir, name, vfs);
    let ghost s2 = vfs@;
    proof {
        lemma_extends(old(vfs)@, s1, s2);
    }
    let entry: Arc<Entry> = match r? {
        Some(entry) => entry,
        // The file does not exist
        None => {
            return if settings.create {
                Ok((Resolved::Creatable { parent: lookup_dir, name }, symlink_rec))
            } else {
                Err(ENOENT)
            };
        },
    };
    // Resolve symbolic link if necessary
    if settings.follow_link {
        let r = entry.stat(vfs);
        let ghost s3 = vfs@;
        proof {
            lemma_extends(old(vfs)@, s2, s3);
        }
        let stat: Stat = r?;
        match stat.get_type() {
            Some(FileType::Link) => {
                let r = resolve_link(
                    &entry,
                    settings.root.clone(),
                    lookup_dir,
                    settings.access_profile,
                    symlink_rec,
                    vfs,
                );
                proof {
                    lemma_extends(old(vfs)@, s3, vfs@);
                }
                let (target, links) = r?;
                return Ok((Resolved::Found(target), links));
            },
            _ => {},
        }
    }
    Ok((Resolved::Found(entry), symlink_rec))
}

/// The components of a path but the last, then that one.
proof fn lemma_resolve_last(
    w: World<Reply>,
    s: VfsView,
    path: Seq<u8>,
    settings: SettingsView,
    count: int,
    s1: VfsView,
    dir: EntryView,
    n: int,
)
    requires
        components(path).len() > 0,
        walk(w, s, start_of(path, settings), components(path).drop_last(), settings, count) == (
            s1,
            Ok::<(EntryView, int), i32>((dir, n)),
        ),
        count <= n,
    ensures
        resolve(w, s, path, settings, count) == finish(
            w,
            s1,
            dir,
            components(path).last(),
            settings,
            n,
        ),
{
}

/// The components `comps`, in contracts.
pub open spec fn comps_view(comps: Seq<Component<'_>>) -> Seq<ComponentView> {
    comps.map_values(|c: Component<'_>| c@)
}

/// One component of a walk, then the others.
proof fn lemma_walk_first(
    w: World<Reply>,
    s: VfsView,
    dir: EntryView,
    comps: Seq<ComponentView>,
    settings: SettingsView,
    count: int,
    s1: VfsView,
    next: EResult<(EntryView, int)>,
)
    requires
        comps.len() > 0,
        step(w, s, dir, comps[0], settings, count) == (s1, next),
        next matches Ok((_, n)) ==> count <= n,
    ensures
        walk(w, s, dir, comps, settings, count) == match next {
            Err(e) => (s1, Err(e)),
            Ok((next, n)) => walk(w, s1, next, comps.skip(1), settings, n),
        },
{
}

/// Returns the directory that the components `comps`, none of which is the last one of a path, lead
/// to from `start`, and the number of symbolic links followed then.
#[verifier::rlimit(40)]
fn walk_components<B: Backend>(
    start: Arc<Entry>,
    comps: &Vec<Component<'_>>,
    settings: &ResolutionSettings,
    symlink_rec: usize,
    vfs: &mut Vfs<B>,
) -> (r: EResult<(Arc<Entry>, usize)>)
    requires
        old(vfs).wf(),
        old(vfs)@.reaches(start@),
        has_root(settings@, old(vfs)@),
    ensures
        final(vfs).wf(),
        final(vfs)@.extends(old(vfs)@),
        forall|w: World<Reply>| #[trigger]
            heard(final(vfs)@.log, w) ==> walk(
                w,
                old(vfs)@,
                start@,
                comps_view(comps@),
                settings@,
                symlink_rec as int,
            ) == (final(vfs)@, counted_view(r)),
    decreases left(symlink_rec as int), 3int,
{
    broadcast use lemma_heard;

    let ghost st = settings@;
    let ghost all = comps_view(comps@);
    let ghost first = start@;
    let mut lookup_dir: Arc<Entry> = start;
    let mut links: usize = symlink_rec;
    let mut i: usize = 0;
    proof {
        assert(vfs@.log =~= vfs@.log.subrange(0, vfs@.log.len() as int));
        assert(all.skip(0) =~= all);
    }
    while i < comps.len()
        invariant
            vfs.wf(),
            vfs@.extends(old(vfs)@),
            vfs@.reaches(lookup_dir@),
            has_root(st, vfs@),
            st == settings@,
            first == start@,
            symlink_rec <= links,
            i <= comps@.len(),
            all == comps_view(comps@),
            forall|w: World<Reply>| #[trigger]
                heard(vfs@.log, w) ==> walk(w, old(vfs)@, first, all, st, symlink_rec as int)
                    == walk(w, vfs@, lookup_dir@, all.skip(i as int), st, links as int),
        decreases comps@.len() - i,
    {
        let ghost s0 = vfs@;
        let ghost dir = lookup_dir@;
        let ghost before = links as int;
        let ghost rest = all.skip(i as int);
        proof {
            assert(rest[0] == comps@[i as int]@);
            assert(rest.skip(1) =~= all.skip(i + 1));
        }
        let r = enter_component(lookup_dir, &comps[i], settings, links, vfs);
        proof {
            lemma_extends(old(vfs)@, s0, vfs@);
            let w = replies_of(vfs@.log);
            assert(heard(vfs@.log, w));
            lemma_step(w, s0, dir, rest[0], st, before);
            assert forall|w: World<Reply>| #[trigger] heard(vfs@.log, w) implies walk(
                w,
                old(vfs)@,
                first,
                all,
                st,
                symlink_rec as int,
            ) == match counted_view(r) {
                Err(e) => (vfs@, Err(e)),
                Ok((next, n)) => walk(w, vfs@, next, rest.skip(1), st, n),
            } by {
                assert(heard(s0.log, w));
                lemma_walk_first(w, s0, dir, rest, st, before, vfs@, counted_view(r));
            }
        }
        let (next, n) = r?;
        lookup_dir = next;
        links = n;
        i = i + 1;
    }
    assert(all.skip(i as int).len() == 0);
    Ok((lookup_dir, links))
}

/// Resolves the last component of a path, in the directory `lookup_dir`. The function also returns
/// the number of symbolic links followed then.
fn resolve_last<'p, B: Backend>(
    lookup_dir: Arc<Entry>,
    comp: Component<'p>,
    settings: &ResolutionSettings,
    symlink_rec: usize,
    vfs: &mut Vfs<B>,
) -> (r: EResult<(Resolved<'p>, usize)>)
    requires
        old(vfs).wf(),
        comp@ is Normal ==> old(vfs)@.reaches(lookup_dir@) && has_root(settings@, old(vfs)@),
    ensures
        final(vfs).wf(),
        final(vfs)@.extends(old(vfs)@),
        forall|w: World<Reply>| #[trigger]
            heard(final(vfs)@.log, w) ==> finish(
                w,
                old(vfs)@,
                lookup_dir@,
                comp@,
                settings@,
                symlink_rec as int,
            ) == (final(vfs)@, counted_place(r)),
    decreases left(symlink_rec as int), 2int,
{
    assert(vfs@.log =~= vfs@.log.subrange(0, vfs@.log.len() as int));
    match comp {
        Component::RootDir | Component::CurDir => {
            // If the component is `RootDir`, the entire path equals `/` and `lookup_dir` can only
            // be the root. If the component is `CurDir`, the `lookup_dir` is the target
            Ok((Resolved::Found(lookup_dir), symlink_rec))
        },
        Component::ParentDir => Ok(
            (Resolved::Found(parent_dir(lookup_dir, &settings.root)), symlink_rec),
        ),
        Component::Normal(name) => resolve_name(lookup_dir, name, settings, symlink_rec, vfs),
    }
}

/// Implementation of [`resolve_path`].
///
/// `symlink_rec` is the number of symbolic links followed so far. The function also returns the
/// number of them followed then.
#[verifier::rlimit(40)]
fn resolve_path_impl<'p, B: Backend>(
    path: Path<'p>,
    settings: &ResolutionSettings,
    symlink_rec: usize,
    vfs: &mut Vfs<B>,
) -> (r: EResult<(Resolved<'p>, usize)>)
    requires
        old(vfs).wf(),
        applies_to(settings@, path@, old(vfs)@),
    ensures
        final(vfs).wf(),
        final(vfs)@.extends(old(vfs)@),
        forall|w: World<Reply>| #[trigger]
            heard(final(vfs)@.log, w) ==> resolve(
                w,
                old(vfs)@,
                path@,
                settings@,
                symlink_rec as int,
            ) == (final(vfs)@, counted_place(r)),
        placed(
            final(vfs)@,
            place_of(counted_place(r)),
            start_of(path@, settings@),
            settings@,
        ),
        r matches Ok((_, n)) ==> symlink_rec <= n,
    decreases left(symlink_rec as int), 4int,
{
    broadcast use lemma_heard;

    let ghost st = settings@;
    let ghost rec = symlink_rec as int;
    let ghost start = start_of(path@, st);
    let ghost all = components(path@);
    assert(vfs@.log =~= vfs@.log.subrange(0, vfs@.log.len() as int));
    // Get start lookup directory
    let mut lookup_dir: Arc<Entry> = match &settings.cwd {
        Some(cwd) => {
            if path.is_absolute() {
                settings.root.clone()
            } else {
                cwd.clone()
            }
        },
        None => settings.root.clone(),
    };
    let mut comps: Vec<Component<'p>> = path.components();
    let last: Component<'p> = match comps.pop() {
        Some(last) => last,
        None => {
            assert(all.len() == 0);
            return Ok((Resolved::Found(lookup_dir), symlink_rec));
        },
    };
    let ghost firsts = all.drop_last();
    assert(all.last() == last@);
    assert(comps_view(comps@) =~= firsts);
    // Iterate on intermediate components
    let mut links: usize = symlink_rec;
    if comps.len() > 0 {
        assert(looks_up(path@));
        let r = walk_components(lookup_dir, &comps, settings, symlink_rec, vfs);
        proof {
            let w = replies_of(vfs@.log);
            assert(heard(vfs@.log, w));
            lemma_walk(w, old(vfs)@, start, firsts, st, rec);
        }
        let (dir, n) = r?;
        lookup_dir = dir;
        links = n;
    }
    let ghost s0 = vfs@;
    let ghost dir = lookup_dir@;
    // Final component lookup
    let r = resolve_last(lookup_dir, last, settings, links, vfs);
    proof {
        lemma_extends(old(vfs)@, s0, vfs@);
        assert forall|w: World<Reply>| #[trigger] heard(vfs@.log, w) implies resolve(
            w,
            old(vfs)@,
            path@,
            st,
            rec,
        ) == (vfs@, counted_place(r)) by {
            assert(heard(s0.log, w));
            lemma_resolve_last(w, old(vfs)@, path@, st, rec, s0, dir, links as int);
        }
        let w = replies_of(vfs@.log);
        assert(heard(vfs@.log, w));
        lemma_resolve(w, old(vfs)@, path@, st, rec);
    }
    r
}

/// Resolves the given `path` with the given `settings`.
///
/// The following conditions can cause errors:
/// - If the path is empty, the function returns [`ENOMEM`].
/// - If a component of the path cannot be accessed with the provided access profile, the function
///   returns [`EACCES`].
/// - If a component of the path (excluding the last) is not a directory nor a symbolic link, the
///   function returns [`ENOTDIR`].
/// - If a component of the path (excluding the last) is a symbolic link and following them is
///   disabled, the function returns [`ENOTDIR`].
/// - If the resolution of the path requires more symbolic link indirections than
///   [`SYMLOOP_MAX`], the function returns [`ELOOP`].
pub fn resolve_path<'p, B: Backend>(
    path: Path<'p>,
    settings: &ResolutionSettings,
    vfs: &mut Vfs<B>,
) -> (r: EResult<Resolved<'p>>)
    requires
        old(vfs).wf(),
        applies_to(settings@, path@, old(vfs)@),
    ensures
        final(vfs).wf(),
        final(vfs)@.extends(old(vfs)@),
        forall|w: World<Reply>| #[trigger]
            heard(final(vfs)@.log, w) ==> resolve_whole(w, old(vfs)@, path@, settings@) == (
                final(vfs)@,
                resolved_view(r),
            ),
        placed(final(vfs)@, resolved_view(r), start_of(path@, settings@), settings@),
{
    assert(vfs@.log =~= vfs@.log.subrange(0, vfs@.log.len() as int));
    if path.is_empty() {
        return Err(ENOMEM);
    }
    let (resolved, _) = resolve_path_impl(path, settings, 0, vfs)?;
    Ok(resolved)
}

/// Like [`get_file_from_path`], but returns `None` if the file does not exist.
pub fn get_file_from_path_opt<B: Backend>(
    path: Path<'_>,
    resolution_settings: &ResolutionSettings,
    vfs: &mut Vfs<B>,
) -> (r: EResult<Option<Arc<Entry>>>)
    requires
        old(vfs).wf(),
        applies_to(resolution_settings@, path@, old(vfs)@),
    ensures
        final(vfs).wf(),
        final(vfs)@.extends(old(vfs)@),
        forall|w: World<Reply>| #[trigger]
            heard(final(vfs)@.log, w) ==> find_file(w, old(vfs)@, path@, resolution_settings@)
                == (final(vfs)@, found_view(r)),
        r matches Ok(Some(e)) ==> final(vfs)@.owns(e@),
        starts(resolution_settings@, path@, old(vfs)@) ==> (r matches Ok(Some(e)) ==>
            final(vfs)@.reaches(e@)),
{
    match resolve_path(path, resolution_settings, vfs) {
        Ok(Resolved::Found(file)) => Ok(Some(file)),
        Ok(Resolved::Creatable { .. }) => Ok(None),
        Err(e) => {
            if e == ENOENT {
                Ok(None)
            } else {
                Err(e)
            }
        },
    }
}

/// Returns the file at the given `path`.
///
/// If the file does not exist, the function returns [`ENOENT`].
pub fn get_file_from_path<B: Backend>(
    path: Path<'_>,
    resolution_settings: &ResolutionSettings,
    vfs: &mut Vfs<B>,
) -> (r: EResult<Arc<Entry>>)
    requires
        old(vfs).wf(),
        applies_to(resolution_settings@, path@, old(vfs)@),
    ensures
        final(vfs).wf(),
        final(vfs)@.extends(old(vfs)@),
        forall|w: World<Reply>| #[trigger]
            heard(final(vfs)@.log, w) ==> get_file(w, old(vfs)@, path@, resolution_settings@) == (
                final(vfs)@,
                entry_view(r),
            ),
        r matches Ok(e) ==> final(vfs)@.owns(e@),
        starts(resolution_settings@, path@, old(vfs)@) ==> (r matches Ok(e) ==>
            final(vfs)@.reaches(e@)),
{
    match get_file_from_path_opt(path, resolution_settings, vfs)? {
        Some(file) => Ok(file),
        None => Err(ENOENT),
    }
}

} // verus!
