//! What a path leads to: component by component, and through symbolic links.

use crate::errno::{EACCES, ELOOP, ENAMETOOLONG, ENOENT, ENOTDIR};
use crate::history::World;
use crate::limits::{PATH_MAX, SYMLOOP_MAX};
use crate::path::{components, parent, ComponentView};
use crate::perm::{executable, AccessProfile};
use crate::stat::{FileType, Stat};
use crate::vfs::backend::{Call, Reply};
use crate::vfs::edit::{unlink_of, unlink_path};
use crate::vfs::entry::{above, EntryView};
use crate::vfs::laws::{law_whole_content_is_read, lemma_walk_ignores_cwd, reads_right};
use crate::vfs::references::RefReply;
use crate::vfs::resolve::{
    enter, find_entry, find_file, finish, follow, get_file, has_root, left,
    lemma_find_entry, lemma_finish, lemma_read_whole, lemma_resolve, lemma_step, lemma_walk, most,
    resolve, resolve_whole, start_of, starts, step, walk,
    Place, SettingsView,
};
use crate::vfs::state::{lemma_ask, read_whole, stat_of, type_of, VfsView, INCREMENT};
use vstd::prelude::*;

verus! {

/// `b` is `a`, but after `k` more symbolic links were followed before: they end alike, as long as
/// the links are no more than allowed.
pub open spec fn same_but_later<X>(
    a: (VfsView, Result<(X, int), i32>),
    b: (VfsView, Result<(X, int), i32>),
    k: int,
) -> bool {
    &&& a.1 matches Ok((x, n)) ==> n + k <= SYMLOOP_MAX ==> b == (a.0, Ok::<(X, int), i32>((x, n + k)))
    &&& b.1 matches Ok((x, n)) ==> a == (b.0, Ok::<(X, int), i32>((x, n - k)))
}

/// The symbolic links that were followed before count, and change nothing else: a path leads to the
/// same place from the same state, as long as the links, with those before, are no more than
/// allowed.
pub proof fn law_earlier_links_only_count(
    w: World<Reply>,
    s: VfsView,
    path: Seq<u8>,
    settings: SettingsView,
    count: int,
    k: int,
)
    requires
        s.wf(),
        starts(settings, path, s),
        0 <= k,
    ensures
        same_but_later(
            resolve(w, s, path, settings, count),
            resolve(w, s, path, settings, count + k),
            k,
        ),
    decreases left(count), 4int, 0int,
{
    let start = start_of(path, settings);
    let comps = components(path);
    if comps.len() > 0 {
        let firsts = comps.drop_last();
        lemma_walk_later(w, s, start, firsts, settings, count, k);
        lemma_walk(w, s, start, firsts, settings, count);
        lemma_walk(w, s, start, firsts, settings, count + k);
        let (s1, a) = walk(w, s, start, firsts, settings, count);
        let (s2, b) = walk(w, s, start, firsts, settings, count + k);
        if let Ok((dir, n)) = a {
            assert(most(count, n) == n);
            assert(resolve(w, s, path, settings, count) == finish(
                w,
                s1,
                dir,
                comps.last(),
                settings,
                n,
            ));
            lemma_finish(w, s1, dir, comps.last(), settings, n);
            lemma_finish_later(w, s1, dir, comps.last(), settings, n, k);
        }
        if let Ok((dir, n)) = b {
            assert(most(count + k, n) == n);
            assert(resolve(w, s, path, settings, count + k) == finish(
                w,
                s2,
                dir,
                comps.last(),
                settings,
                n,
            ));
        }
    }
}

proof fn lemma_follow_later(
    w: World<Reply>,
    s: VfsView,
    link: EntryView,
    root: EntryView,
    dir: EntryView,
    access_profile: AccessProfile,
    count: int,
    k: int,
)
    requires
        s.wf(),
        s.reaches(root),
        s.reaches(dir),
        0 <= k,
    ensures
        same_but_later(
            follow(w, s, link, root, dir, access_profile, count),
            follow(w, s, link, root, dir, access_profile, count + k),
            k,
        ),
    decreases left(count), 0int, 0int,
{
    if count < SYMLOOP_MAX {
        let (s1, content) = read_whole(w, s, link.node->0);
        lemma_read_whole(w, s, link.node->0);
        if let Ok(path) = content {
            let settings = SettingsView {
                root,
                cwd: Some(dir),
                access_profile,
                create: false,
                follow_link: true,
            };
            law_earlier_links_only_count(w, s1, path, settings, count + 1, k);
            lemma_resolve(w, s1, path, settings, count + 1);
            assert(count + 1 + k == count + k + 1);
        }
    }
}

proof fn lemma_enter_later(
    w: World<Reply>,
    s: VfsView,
    dir: EntryView,
    name: Seq<u8>,
    settings: SettingsView,
    count: int,
    k: int,
)
    requires
        s.wf(),
        s.reaches(dir),
        has_root(settings, s),
        0 <= k,
    ensures
        same_but_later(
            enter(w, s, dir, name, settings, count),
            enter(w, s, dir, name, settings, count + k),
            k,
        ),
    decreases left(count), 1int, 0int,
{
    broadcast use lemma_ask;

    let (s1, found) = find_entry(w, s, dir, name);
    lemma_find_entry(w, s, dir, name);
    if let Ok(Some(entry)) = found {
        let (s2, t) = type_of(w, s1, entry.node->0);
        if t == Ok::<FileType, i32>(FileType::Link) && settings.follow_link {
            lemma_follow_later(
                w,
                s2,
                entry,
                settings.root,
                dir,
                settings.access_profile,
                count,
                k,
            );
        }
    }
}

proof fn lemma_step_later(
    w: World<Reply>,
    s: VfsView,
    dir: EntryView,
    comp: ComponentView,
    settings: SettingsView,
    count: int,
    k: int,
)
    requires
        s.wf(),
        s.reaches(dir),
        has_root(settings, s),
        0 <= k,
    ensures
        same_but_later(
            step(w, s, dir, comp, settings, count),
            step(w, s, dir, comp, settings, count + k),
            k,
        ),
    decreases left(count), 2int, 0int,
{
    broadcast use lemma_ask;

    let s1 = stat_of(w, s, dir.node->0).0;
    if let ComponentView::Normal(name) = comp {
        lemma_enter_later(w, s1, dir, name, settings, count, k);
    }
}

proof fn lemma_walk_later(
    w: World<Reply>,
    s: VfsView,
    dir: EntryView,
    comps: Seq<ComponentView>,
    settings: SettingsView,
    count: int,
    k: int,
)
    requires
        s.wf(),
        s.reaches(dir),
        has_root(settings, s),
        0 <= k,
    ensures
        same_but_later(
            walk(w, s, dir, comps, settings, count),
            walk(w, s, dir, comps, settings, count + k),
            k,
        ),
    decreases left(count), 3int, comps.len(),
{
    if comps.len() > 0 {
        let rest = comps.skip(1);
        lemma_step(w, s, dir, comps[0], settings, count);
        lemma_step(w, s, dir, comps[0], settings, count + k);
        lemma_step_later(w, s, dir, comps[0], settings, count, k);
        let (s1, a) = step(w, s, dir, comps[0], settings, count);
        let (s2, b) = step(w, s, dir, comps[0], settings, count + k);
        if let Ok((next, n)) = a {
            assert(walk(w, s, dir, comps, settings, count) == walk(w, s1, next, rest, settings, n));
            lemma_walk(w, s1, next, rest, settings, n);
            lemma_walk_later(w, s1, next, rest, settings, n, k);
        }
        if let Ok((next, n)) = b {
            assert(walk(w, s, dir, comps, settings, count + k) == walk(
                w,
                s2,
                next,
                rest,
                settings,
                n,
            ));
        }
    }
}

proof fn lemma_finish_later(
    w: World<Reply>,
    s: VfsView,
    dir: EntryView,
    comp: ComponentView,
    settings: SettingsView,
    count: int,
    k: int,
)
    requires
        s.wf(),
        s.reaches(dir),
        has_root(settings, s),
        0 <= k,
    ensures
        same_but_later(
            finish(w, s, dir, comp, settings, count),
            finish(w, s, dir, comp, settings, count + k),
            k,
        ),
    decreases left(count), 1int, 0int,
{
    broadcast use lemma_ask;

    if let ComponentView::Normal(name) = comp {
        let (s1, stat) = stat_of(w, s, dir.node->0);
        if let Ok(stat) = stat {
            if executable(settings.access_profile, stat) {
                lemma_find_entry(w, s1, dir, name);
                let (s2, found) = find_entry(w, s1, dir, name);
                if let Ok(Some(entry)) = found {
                    if settings.follow_link {
                        let s3 = stat_of(w, s2, entry.node->0).0;
                        lemma_follow_later(
                            w,
                            s3,
                            entry,
                            settings.root,
                            dir,
                            settings.access_profile,
                            count,
                            k,
                        );
                    }
                }
            }
        }
    }
}

/// A resolution of `path` starts at the directory `dir`: an absolute path starts at the root of the
/// resolution, and a relative one at the current working directory, if there is one.
pub open spec fn is_start(path: Seq<u8>, settings: SettingsView, dir: EntryView) -> bool {
    if path.len() > 0 && path[0] == 0x2f {
        dir == settings.root
    } else {
        match settings.cwd {
            Some(cwd) => dir == cwd,
            None => dir == settings.root,
        }
    }
}

/// `path` is the component `first`, then the relative path `rest`.
pub open spec fn is_followed_by(path: Seq<u8>, first: ComponentView, rest: Seq<u8>) -> bool {
    &&& rest.len() > 0 && rest[0] != 0x2f
    &&& components(rest).len() > 0
    &&& components(path) == seq![first] + components(rest)
}

/// `..` leads from `dir` to `up`: to the parent, but not from the root of the resolution, and not to
/// a parent of that root.
pub open spec fn leads_up(dir: EntryView, root: EntryView, up: EntryView) -> bool {
    &&& dir.id == root.id || dir.parent is None ==> up == dir
    &&& dir.id != root.id ==> (dir.parent matches Some(p) ==> {
        &&& above(*p, root) ==> up == dir
        &&& !above(*p, root) ==> up == *p
    })
}

/// The settings `settings`, with the current working directory `cwd`.
pub open spec fn from_directory(settings: SettingsView, cwd: EntryView) -> SettingsView {
    SettingsView {
        root: settings.root,
        cwd: Some(cwd),
        access_profile: settings.access_profile,
        create: settings.create,
        follow_link: settings.follow_link,
    }
}

proof fn lemma_first(
    w: World<Reply>,
    s: VfsView,
    path: Seq<u8>,
    first: ComponentView,
    rest: Seq<u8>,
    settings: SettingsView,
    count: int,
    dir: EntryView,
)
    requires
        is_start(path, settings, dir),
        is_followed_by(path, first, rest),
    ensures
        resolve(w, s, path, settings, count) == ({
            let (s1, next) = step(w, s, dir, first, settings, count);
            match next {
                Err(e) => (s1, Err(e)),
                Ok((next, n)) => resolve(
                    w,
                    s1,
                    rest,
                    from_directory(settings, next),
                    most(count, n),
                ),
            }
        }),
{
    let comps = components(path);
    let others = components(rest);
    assert(comps.drop_last() =~= seq![first] + others.drop_last());
    assert(comps.drop_last()[0] == first);
    assert(comps.drop_last().skip(1) =~= others.drop_last());
    assert(comps.last() == others.last());
    let (s1, next) = step(w, s, dir, first, settings, count);
    if let Ok((next, n)) = next {
        let m = most(count, n);
        let there = from_directory(settings, next);
        lemma_walk_ignores_cwd(w, s1, next, others.drop_last(), settings, Some(next), m);
        assert(there == SettingsView { cwd: Some(next), ..settings });
        assert(start_of(rest, there) == next);
        let (s2, last) = walk(w, s1, next, others.drop_last(), settings, m);
        assert(walk(w, s, dir, comps.drop_last(), settings, count) == (s2, last));
        if let Ok((at, k)) = last {
            // Walking on never lowers the number of links
            lemma_walk_counts(w, s1, next, others.drop_last(), settings, m);
            assert(most(count, k) == most(m, k));
            assert(finish(w, s2, at, others.last(), there, most(m, k)) == finish(
                w,
                s2,
                at,
                others.last(),
                settings,
                most(m, k),
            ));
        }
    }
}

proof fn lemma_walk_counts(
    w: World<Reply>,
    s: VfsView,
    dir: EntryView,
    comps: Seq<ComponentView>,
    settings: SettingsView,
    count: int,
)
    ensures
        walk(w, s, dir, comps, settings, count).1 matches Ok((_, n)) ==> n >= count,
    decreases comps.len(),
{
    if comps.len() > 0 {
        let (s1, next) = step(w, s, dir, comps[0], settings, count);
        if let Ok((next, n)) = next {
            lemma_walk_counts(w, s1, next, comps.skip(1), settings, most(count, n));
        }
    }
}

/// An absolute path is resolved from the root of the resolution: once the root may be searched, what
/// follows the slash is resolved as a relative path from there.
pub proof fn law_absolute_path_goes_on_from_root(
    w: World<Reply>,
    s: VfsView,
    path: Seq<u8>,
    rest: Seq<u8>,
    settings: SettingsView,
    count: int,
    stat: Stat,
)
    requires
        is_followed_by(path, ComponentView::RootDir, rest),
        path.len() > 0 && path[0] == 0x2f,
        w(s.log.len() as int) == Reply::Stat(Ok(stat)),
        executable(settings.access_profile, stat),
    ensures
        ({
            let node = settings.root.node->0;
            let s1 = VfsView {
                log: s.log.push((Call::GetStat(node.ops, node.location), w(s.log.len() as int))),
                ..s
            };
            resolve(w, s, path, settings, count) == resolve(
                w,
                s1,
                rest,
                from_directory(settings, settings.root),
                count,
            )
        }),
{
    let first = ComponentView::RootDir;
    lemma_first(w, s, path, first, rest, settings, count, settings.root);
    let s1 = stat_of(w, s, settings.root.node->0).0;
    assert(step(w, s, settings.root, first, settings, count) == (
        s1,
        Ok::<(EntryView, int), i32>((settings.root, count)),
    ));
}

/// `.` on the way stays where it is: once the directory may be searched, the rest of the path is
/// resolved from there.
pub proof fn law_dot_stays(
    w: World<Reply>,
    s: VfsView,
    path: Seq<u8>,
    rest: Seq<u8>,
    settings: SettingsView,
    count: int,
    dir: EntryView,
    stat: Stat,
)
    requires
        is_start(path, settings, dir),
        is_followed_by(path, ComponentView::CurDir, rest),
        w(s.log.len() as int) == Reply::Stat(Ok(stat)),
        executable(settings.access_profile, stat),
    ensures
        ({
            let node = dir.node->0;
            let s1 = VfsView {
                log: s.log.push((Call::GetStat(node.ops, node.location), w(s.log.len() as int))),
                ..s
            };
            resolve(w, s, path, settings, count) == resolve(
                w,
                s1,
                rest,
                from_directory(settings, dir),
                count,
            )
        }),
{
    let first = ComponentView::CurDir;
    lemma_first(w, s, path, first, rest, settings, count, dir);
    let s1 = stat_of(w, s, dir.node->0).0;
    assert(step(w, s, dir, first, settings, count) == (
        s1,
        Ok::<(EntryView, int), i32>((dir, count)),
    ));
}

/// `..` on the way leads to the parent: once the directory may be searched, the rest of the path is
/// resolved from the parent, as far as the root of the resolution lets it.
pub proof fn law_dots_lead_to_the_parent(
    w: World<Reply>,
    s: VfsView,
    path: Seq<u8>,
    rest: Seq<u8>,
    settings: SettingsView,
    count: int,
    dir: EntryView,
    up: EntryView,
    stat: Stat,
)
    requires
        is_start(path, settings, dir),
        is_followed_by(path, ComponentView::ParentDir, rest),
        leads_up(dir, settings.root, up),
        w(s.log.len() as int) == Reply::Stat(Ok(stat)),
        executable(settings.access_profile, stat),
    ensures
        ({
            let node = dir.node->0;
            let s1 = VfsView {
                log: s.log.push((Call::GetStat(node.ops, node.location), w(s.log.len() as int))),
                ..s
            };
            resolve(w, s, path, settings, count) == resolve(
                w,
                s1,
                rest,
                from_directory(settings, up),
                count,
            )
        }),
{
    let first = ComponentView::ParentDir;
    lemma_first(w, s, path, first, rest, settings, count, dir);
    let s1 = stat_of(w, s, dir.node->0).0;
    assert(step(w, s, dir, first, settings, count) == (s1, Ok::<(EntryView, int), i32>((up, count))));
}

/// A name on the way leads to the directory that has it: once the directory may be searched, and the
/// file of this name in it is a directory, the rest of the path is resolved from there.
pub proof fn law_name_leads_into_directory(
    w: World<Reply>,
    s: VfsView,
    path: Seq<u8>,
    name: Seq<u8>,
    rest: Seq<u8>,
    settings: SettingsView,
    count: int,
    dir: EntryView,
    stat: Stat,
    entry: EntryView,
    entry_stat: Stat,
)
    requires
        is_start(path, settings, dir),
        is_followed_by(path, ComponentView::Normal(name), rest),
        w(s.log.len() as int) == Reply::Stat(Ok(stat)),
        executable(settings.access_profile, stat),
        ({
            let (s2, found) = find_entry(w, stat_of(w, s, dir.node->0).0, dir, name);
            &&& found == Ok::<Option<EntryView>, i32>(Some(entry))
            &&& w(s2.log.len() as int) == Reply::Stat(Ok(entry_stat))
            &&& entry_stat.mode & 0o170000 == 0o040000
        }),
    ensures
        ({
            let s2 = find_entry(w, stat_of(w, s, dir.node->0).0, dir, name).0;
            let node = entry.node->0;
            let s3 = VfsView {
                log: s2.log.push((Call::GetStat(node.ops, node.location), w(s2.log.len() as int))),
                ..s2
            };
            resolve(w, s, path, settings, count) == resolve(
                w,
                s3,
                rest,
                from_directory(settings, entry),
                count,
            )
        }),
{
    let first = ComponentView::Normal(name);
    lemma_first(w, s, path, first, rest, settings, count, dir);
    let s1 = stat_of(w, s, dir.node->0).0;
    let s2 = find_entry(w, s1, dir, name).0;
    let s3 = stat_of(w, s2, entry.node->0).0;
    assert(enter(w, s1, dir, name, settings, count) == (
        s3,
        Ok::<(EntryView, int), i32>((entry, count)),
    ));
    assert(step(w, s, dir, first, settings, count) == enter(w, s1, dir, name, settings, count));
}

/// The way ends where it cannot go on, and nothing more is asked then: when the status of the
/// directory cannot be had, when the directory may not be searched, when it has no file of the name,
/// and when that file is neither a directory nor a symbolic link that is followed.
pub proof fn law_way_ends_with_an_error(
    w: World<Reply>,
    s: VfsView,
    path: Seq<u8>,
    name: Seq<u8>,
    rest: Seq<u8>,
    settings: SettingsView,
    count: int,
    dir: EntryView,
)
    requires
        is_start(path, settings, dir),
        is_followed_by(path, ComponentView::Normal(name), rest),
    ensures
        ({
            let n = s.log.len() as int;
            let s1 = stat_of(w, s, dir.node->0).0;
            let (s2, found) = find_entry(w, s1, dir, name);
            let (end, r) = resolve(w, s, path, settings, count);
            &&& w(n) matches Reply::Stat(Err(e)) ==> end == s1 && r == Err::<(Place, int), i32>(e)
            &&& w(n) matches Reply::Stat(Ok(stat)) ==> {
                &&& !executable(settings.access_profile, stat) ==> end == s1 && r == Err::<
                    (Place, int),
                    i32,
                >(EACCES)
                &&& executable(settings.access_profile, stat) ==> {
                    &&& found matches Err(e) ==> end == s2 && r == Err::<(Place, int), i32>(e)
                    &&& found == Ok::<Option<EntryView>, i32>(None) ==> end == s2 && r == Err::<
                        (Place, int),
                        i32,
                    >(ENOENT)
                    &&& found matches Ok(Some(entry)) ==> {
                        let m = s2.log.len() as int;
                        &&& w(m) matches Reply::Stat(Err(e)) ==> r == Err::<(Place, int), i32>(e)
                        &&& w(m) matches Reply::Stat(Ok(st)) ==> {
                            let bits = st.mode & 0o170000;
                            bits == 0o140000 || bits == 0o120000 && !settings.follow_link || bits
                                == 0o100000 || bits == 0o060000 || bits == 0o020000 || bits
                                == 0o010000 ==> r == Err::<(Place, int), i32>(ENOTDIR)
                        }
                    }
                }
            }
        }),
{
    lemma_first(w, s, path, ComponentView::Normal(name), rest, settings, count, dir);
    let s1 = stat_of(w, s, dir.node->0).0;
    let e = enter(w, s1, dir, name, settings, count);
    let (s2, found) = find_entry(w, s1, dir, name);
    let st = step(w, s, dir, ComponentView::Normal(name), settings, count);
    if let Ok(Some(entry)) = found {
        let t = type_of(w, s2, entry.node->0);
        assert(t.1 is Err ==> e.1 is Err);
    }
    assert(w(s.log.len() as int) matches Reply::Stat(Ok(stat)) ==> executable(
        settings.access_profile,
        stat,
    ) ==> st == e);
}

/// A path of a single component that names no file leads to where it starts, or to the parent of
/// that for `..`, and nothing is asked.
pub proof fn law_dots_alone(
    w: World<Reply>,
    s: VfsView,
    path: Seq<u8>,
    settings: SettingsView,
    count: int,
    dir: EntryView,
    up: EntryView,
)
    requires
        is_start(path, settings, dir),
        leads_up(dir, settings.root, up),
    ensures
        components(path).len() == 0 || components(path) == seq![ComponentView::RootDir]
            || components(path) == seq![ComponentView::CurDir] ==> resolve(
            w,
            s,
            path,
            settings,
            count,
        ) == (s, Ok::<(Place, int), i32>((Place::Found(dir), count))),
        components(path) == seq![ComponentView::ParentDir] ==> resolve(w, s, path, settings, count)
            == (s, Ok::<(Place, int), i32>((Place::Found(up), count))),
{
    let comps = components(path);
    assert(comps.len() == 1 ==> walk(w, s, dir, comps.drop_last(), settings, count) == (
        s,
        Ok::<(EntryView, int), i32>((dir, count)),
    ));
}

/// A path of a single name leads to the file of that name in the directory where it starts, which
/// must be one that may be searched. If there is no such file, it is offered to be created if the
/// settings ask for that, and is an error else. Unless links are followed and the file is one, it is
/// what is found.
pub proof fn law_name_alone(
    w: World<Reply>,
    s: VfsView,
    path: Seq<u8>,
    name: Seq<u8>,
    settings: SettingsView,
    count: int,
    dir: EntryView,
)
    requires
        is_start(path, settings, dir),
        components(path) == seq![ComponentView::Normal(name)],
    ensures
        ({
            let n = s.log.len() as int;
            let s1 = stat_of(w, s, dir.node->0).0;
            let (s2, found) = find_entry(w, s1, dir, name);
            let (end, r) = resolve(w, s, path, settings, count);
            &&& w(n) matches Reply::Stat(Err(e)) ==> end == s1 && r == Err::<(Place, int), i32>(e)
            &&& w(n) matches Reply::Stat(Ok(stat)) ==> {
                &&& !executable(settings.access_profile, stat) ==> end == s1 && r == Err::<
                    (Place, int),
                    i32,
                >(EACCES)
                &&& executable(settings.access_profile, stat) ==> {
                    &&& found matches Err(e) ==> end == s2 && r == Err::<(Place, int), i32>(e)
                    &&& found == Ok::<Option<EntryView>, i32>(None) && settings.create ==> end == s2
                        && r == Ok::<(Place, int), i32>((Place::Creatable(dir, name), count))
                    &&& found == Ok::<Option<EntryView>, i32>(None) && !settings.create ==> end
                        == s2 && r == Err::<(Place, int), i32>(ENOENT)
                    &&& found matches Ok(Some(entry)) ==> {
                        let m = s2.log.len() as int;
                        let s3 = stat_of(w, s2, entry.node->0).0;
                        &&& !settings.follow_link ==> end == s2 && r == Ok::<(Place, int), i32>(
                            (Place::Found(entry), count),
                        )
                        &&& settings.follow_link ==> {
                            &&& w(m) matches Reply::Stat(Err(e)) ==> end == s3 && r == Err::<
                                (Place, int),
                                i32,
                            >(e)
                            &&& w(m) matches Reply::Stat(Ok(st)) ==> st.mode & 0o170000 != 0o120000
                                ==> end == s3 && r == Ok::<(Place, int), i32>(
                                (Place::Found(entry), count),
                            )
                        }
                    }
                }
            }
        }),
{
    let comps = components(path);
    assert(walk(w, s, dir, comps.drop_last(), settings, count) == (
        s,
        Ok::<(EntryView, int), i32>((dir, count)),
    ));
    assert(resolve(w, s, path, settings, count) == finish(
        w,
        s,
        dir,
        ComponentView::Normal(name),
        settings,
        count,
    ));
}

/// What is resolved for a caller starts without any link followed.
pub proof fn law_resolution_starts_without_links(
    w: World<Reply>,
    s: VfsView,
    path: Seq<u8>,
    settings: SettingsView,
)
    requires
        path.len() > 0,
    ensures
        ({
            let (s1, r) = resolve(w, s, path, settings, 0);
            let (s2, place) = resolve_whole(w, s, path, settings);
            &&& s1 == s2
            &&& r matches Ok((p, _)) ==> place == Ok::<Place, i32>(p)
            &&& r matches Err(e) ==> place == Err::<Place, i32>(e)
        }),
{
}

/// The target of the link `link` in the directory `dir` is `target`: from the state `s` on, it can be
/// read, and every reply to a read of it is right for this content.
pub open spec fn is_link_to(w: World<Reply>, s: VfsView, link: EntryView, target: Seq<u8>) -> bool {
    let node = link.node->0;
    let end = read_whole(w, s, node).0;
    &&& w(s.log.len() as int) matches Reply::Stat(Ok(stat)) && stat.size + INCREMENT <= usize::MAX
    &&& reads_right(end.log, s.log.len() as int, node, target)
    &&& forall|i: int|
        s.log.len() < i < end.log.len() ==> (#[trigger] w(i) matches Reply::Data(Ok(_)))
    &&& target.len() <= PATH_MAX
}

/// The settings with which the target of a link in the directory `dir` is resolved: from that
/// directory, with the root and for the agent of the resolution that came across the link.
pub open spec fn from_link(settings: SettingsView, dir: EntryView) -> SettingsView {
    SettingsView {
        root: settings.root,
        cwd: Some(dir),
        access_profile: settings.access_profile,
        create: false,
        follow_link: true,
    }
}

/// After the components of `path` before its last one, the symbolic link `link` is found under the
/// name `name` in the directory `dir`, when `n` links were followed; and its status is known in the
/// state `s1`.
pub open spec fn comes_across(
    w: World<Reply>,
    s: VfsView,
    path: Seq<u8>,
    settings: SettingsView,
    count: int,
    dir: EntryView,
    name: Seq<u8>,
    n: int,
    link: EntryView,
    s1: VfsView,
) -> bool {
    let comps = components(path);
    let (before, at) = walk(w, s, start_of(path, settings), comps.drop_last(), settings, count);
    let (s0, stat) = stat_of(w, before, dir.node->0);
    let (found_at, found) = find_entry(w, s0, dir, name);
    let m = found_at.log.len() as int;
    &&& comps.len() > 0 && comps.last() == ComponentView::Normal(name)
    &&& at == Ok::<(EntryView, int), i32>((dir, n))
    &&& stat matches Ok(stat) && executable(settings.access_profile, stat)
    &&& found == Ok::<Option<EntryView>, i32>(Some(link))
    &&& w(m) matches Reply::Stat(Ok(st)) && st.mode & 0o170000 == 0o120000
    &&& s1 == VfsView {
        log: found_at.log.push(
            (Call::GetStat(link.node->0.ops, link.node->0.location), w(m)),
        ),
        ..found_at
    }
}

/// A path whose last component is a symbolic link leads where the target of the link leads: when the
/// link holds `target`, what is found is what resolving exactly `target` finds, from the state that
/// was reached with the link read, with the same root, for the same agent, and from the directory
/// that the link stands in. The link counts.
pub proof fn law_link_leads_to_its_target(
    w: World<Reply>,
    s: VfsView,
    path: Seq<u8>,
    settings: SettingsView,
    count: int,
    dir: EntryView,
    name: Seq<u8>,
    n: int,
    link: EntryView,
    s1: VfsView,
    target: Seq<u8>,
)
    requires
        settings.follow_link,
        count <= n < SYMLOOP_MAX,
        comes_across(w, s, path, settings, count, dir, name, n, link, s1),
        is_link_to(w, s1, link, target),
    ensures
        resolve(w, s, path, settings, count) == resolve(
            w,
            read_whole(w, s1, link.node->0).0,
            target,
            from_link(settings, dir),
            n + 1,
        ),
{
    let comps = components(path);
    let (before, at) = walk(w, s, start_of(path, settings), comps.drop_last(), settings, count);
    let node = link.node->0;
    let stat = w(s1.log.len() as int)->Stat_0->Ok_0;
    law_whole_content_is_read(w, s1, node, target, stat);
    let s2 = read_whole(w, s1, node).0;
    let there = from_link(settings, dir);
    lemma_not_created(w, s2, target, there, n + 1);
    let r = resolve(w, s2, target, there, n + 1);
    let f = follow(w, s1, link, settings.root, dir, settings.access_profile, n);
    assert(most(count, n) == n);
    assert(resolve(w, s, path, settings, count) == finish(
        w,
        before,
        dir,
        ComponentView::Normal(name),
        settings,
        n,
    ));
    match r.1 {
        Ok((Place::Found(e), m)) => {
            assert(f == (r.0, Ok::<(EntryView, int), i32>((e, m))));
        },
        Ok((Place::Creatable(_, _), _)) => {},
        Err(e) => {
            assert(f == (r.0, Err::<(EntryView, int), i32>(e)));
        },
    }
}

proof fn lemma_not_created(
    w: World<Reply>,
    s: VfsView,
    path: Seq<u8>,
    settings: SettingsView,
    count: int,
)
    requires
        !settings.create,
    ensures
        !(resolve(w, s, path, settings, count).1 matches Ok((Place::Creatable(_, _), _))),
{
    let comps = components(path);
    if comps.len() > 0 {
        let (s1, dir) = walk(w, s, start_of(path, settings), comps.drop_last(), settings, count);
        if let Ok((dir, n)) = dir {
            assert(!(finish(w, s1, dir, comps.last(), settings, most(count, n)).1 matches Ok(
                (Place::Creatable(_, _), _),
            )));
        }
    }
}

/// A symbolic link with an absolute target leads where that target leads from the root of the
/// resolution, whatever directory the link stands in, and whatever the current working directory is;
/// as if the target were resolved by itself, as long as the links are no more than allowed.
pub proof fn law_absolute_link_leads_from_root(
    w: World<Reply>,
    s: VfsView,
    path: Seq<u8>,
    settings: SettingsView,
    dir: EntryView,
    name: Seq<u8>,
    n: int,
    link: EntryView,
    s1: VfsView,
    target: Seq<u8>,
    cwd: Option<EntryView>,
)
    requires
        settings.follow_link,
        0 <= n < SYMLOOP_MAX,
        path.len() > 0,
        comes_across(w, s, path, settings, 0, dir, name, n, link, s1),
        is_link_to(w, s1, link, target),
        target.len() > 0 && target[0] == 0x2f,
        read_whole(w, s1, link.node->0).0.wf(),
        read_whole(w, s1, link.node->0).0.reaches(settings.root),
    ensures
        ({
            let s2 = read_whole(w, s1, link.node->0).0;
            let alone = SettingsView {
                root: settings.root,
                cwd,
                access_profile: settings.access_profile,
                create: false,
                follow_link: true,
            };
            let (end, place) = resolve_whole(w, s, path, settings);
            let (end1, place1) = resolve_whole(w, s2, target, alone);
            let links = resolve(w, s2, target, alone, 0).1;
            &&& place is Ok ==> (end, place) == (end1, place1)
            &&& place1 is Ok && links->Ok_0.1 + n + 1 <= SYMLOOP_MAX ==> (end, place) == (
                end1,
                place1,
            )
        }),
{
    let s2 = read_whole(w, s1, link.node->0).0;
    let there = from_link(settings, dir);
    let alone = SettingsView { cwd, ..there };
    law_link_leads_to_its_target(w, s, path, settings, 0, dir, name, n, link, s1, target);
    let comps = components(target);
    lemma_walk_ignores_cwd(w, s2, settings.root, comps.drop_last(), there, cwd, 0);
    lemma_walk_ignores_cwd(w, s2, settings.root, comps.drop_last(), there, cwd, n + 1);
    let (a, dir_a) = walk(w, s2, settings.root, comps.drop_last(), there, 0);
    if let Ok((at, k)) = dir_a {
        assert(finish(w, a, at, comps.last(), there, most(0, k)) == finish(
            w,
            a,
            at,
            comps.last(),
            alone,
            most(0, k),
        ));
    }
    assert(resolve(w, s2, target, there, 0) == resolve(w, s2, target, alone, 0));
    law_earlier_links_only_count(w, s2, target, there, 0, n + 1);
    lemma_not_created(w, s2, target, there, 0);
}

/// A symbolic link on the way leads where its target leads, and the rest of the path goes on from
/// there.
pub proof fn law_link_on_the_way_leads_to_its_target(
    w: World<Reply>,
    s: VfsView,
    path: Seq<u8>,
    name: Seq<u8>,
    rest: Seq<u8>,
    settings: SettingsView,
    count: int,
    dir: EntryView,
    stat: Stat,
    link: EntryView,
    link_stat: Stat,
    target: Seq<u8>,
)
    requires
        is_start(path, settings, dir),
        is_followed_by(path, ComponentView::Normal(name), rest),
        settings.follow_link,
        count < SYMLOOP_MAX,
        w(s.log.len() as int) == Reply::Stat(Ok(stat)),
        executable(settings.access_profile, stat),
        ({
            let (s2, found) = find_entry(w, stat_of(w, s, dir.node->0).0, dir, name);
            &&& found == Ok::<Option<EntryView>, i32>(Some(link))
            &&& w(s2.log.len() as int) == Reply::Stat(Ok(link_stat))
            &&& link_stat.mode & 0o170000 == 0o120000
            &&& is_link_to(w, stat_of(w, s2, link.node->0).0, link, target)
        }),
    ensures
        ({
            let s2 = find_entry(w, stat_of(w, s, dir.node->0).0, dir, name).0;
            let s3 = stat_of(w, s2, link.node->0).0;
            let s4 = read_whole(w, s3, link.node->0).0;
            let (s5, there) = resolve(w, s4, target, from_link(settings, dir), count + 1);
            let (end, r) = resolve(w, s, path, settings, count);
            &&& there matches Err(e) ==> (end, r) == (s5, Err::<(Place, int), i32>(e))
            &&& there matches Ok((Place::Found(e), n)) ==> (end, r) == resolve(
                w,
                s5,
                rest,
                from_directory(settings, e),
                most(count, n),
            )
        }),
{
    let first = ComponentView::Normal(name);
    lemma_first(w, s, path, first, rest, settings, count, dir);
    let s1 = stat_of(w, s, dir.node->0).0;
    let s2 = find_entry(w, s1, dir, name).0;
    let s3 = stat_of(w, s2, link.node->0).0;
    let stat3 = w(s3.log.len() as int)->Stat_0->Ok_0;
    law_whole_content_is_read(w, s3, link.node->0, target, stat3);
    let s4 = read_whole(w, s3, link.node->0).0;
    let (s5, there) = resolve(w, s4, target, from_link(settings, dir), count + 1);
    let f = follow(w, s3, link, settings.root, dir, settings.access_profile, count);
    match there {
        Err(e) => {
            assert(f == (s5, Err::<(EntryView, int), i32>(e)));
        },
        Ok((Place::Found(e), n)) => {
            assert(f == (s5, Ok::<(EntryView, int), i32>((e, n))));
        },
        _ => {},
    }
    assert(enter(w, s1, dir, name, settings, count) == f);
    assert(step(w, s, dir, first, settings, count) == enter(w, s1, dir, name, settings, count));
}

/// A symbolic link is not followed when as many as allowed were followed before: the error says so.
/// Nor is one whose content is longer than a path may be, or cannot be read.
pub proof fn law_link_is_not_followed(
    w: World<Reply>,
    s: VfsView,
    path: Seq<u8>,
    settings: SettingsView,
    count: int,
    dir: EntryView,
    name: Seq<u8>,
    n: int,
    link: EntryView,
    s1: VfsView,
)
    requires
        settings.follow_link,
        count <= n,
        comes_across(w, s, path, settings, count, dir, name, n, link, s1),
    ensures
        ({
            let (s2, content) = read_whole(w, s1, link.node->0);
            let (end, r) = resolve(w, s, path, settings, count);
            &&& n >= SYMLOOP_MAX ==> end == s1 && r == Err::<(Place, int), i32>(ELOOP)
            &&& n < SYMLOOP_MAX ==> {
                &&& content matches Err(e) ==> end == s2 && r == Err::<(Place, int), i32>(e)
                &&& content matches Ok(target) ==> target.len() > PATH_MAX ==> end == s2 && r
                    == Err::<(Place, int), i32>(ENAMETOOLONG)
            }
        }),
{
    let comps = components(path);
    let before = walk(w, s, start_of(path, settings), comps.drop_last(), settings, count).0;
    let (s2, content) = read_whole(w, s1, link.node->0);
    let f = follow(w, s1, link, settings.root, dir, settings.access_profile, n);
    assert(most(count, n) == n);
    assert(resolve(w, s, path, settings, count) == finish(
        w,
        before,
        dir,
        ComponentView::Normal(name),
        settings,
        n,
    ));
    assert(n >= SYMLOOP_MAX ==> f == (s1, Err::<(EntryView, int), i32>(ELOOP)));
}

/// What a path leads to is what the caller gets: the file that was found; none, or an error, if there
/// is no such file; and any other error as it is.
pub proof fn law_found_file_is_handed_out(
    w: World<Reply>,
    s: VfsView,
    path: Seq<u8>,
    settings: SettingsView,
)
    ensures
        ({
            let (s1, place) = resolve_whole(w, s, path, settings);
            &&& find_file(w, s, path, settings).0 == s1
            &&& get_file(w, s, path, settings).0 == s1
            &&& place matches Ok(Place::Found(e)) ==> {
                &&& find_file(w, s, path, settings).1 == Ok::<Option<EntryView>, i32>(Some(e))
                &&& get_file(w, s, path, settings).1 == Ok::<EntryView, i32>(e)
            }
            &&& (place matches Ok(Place::Creatable(_, _))) || place == Err::<Place, i32>(ENOENT) ==> {
                &&& find_file(w, s, path, settings).1 == Ok::<Option<EntryView>, i32>(None)
                &&& get_file(w, s, path, settings).1 == Err::<EntryView, i32>(ENOENT)
            }
            &&& place matches Err(e) ==> e != ENOENT ==> {
                &&& find_file(w, s, path, settings).1 == Err::<Option<EntryView>, i32>(e)
                &&& get_file(w, s, path, settings).1 == Err::<EntryView, i32>(e)
            }
        }),
{
}

/// A path is unlinked by removing its last name from the directory that the path of its parent leads
/// to, as the agent of the resolution. When that directory is not found, its error is the result. A
/// path that does not end with a name cannot be unlinked.
pub proof fn law_path_is_unlinked_from_its_parent(
    w: World<Reply>,
    v: World<RefReply>,
    s: VfsView,
    path: Seq<u8>,
    settings: SettingsView,
)
    ensures
        ({
            let comps = components(path);
            let r = unlink_path(w, v, s, path, settings);
            &&& comps.len() > 0 ==> (comps.last() matches ComponentView::Normal(name) ==> (parent(
                path,
            ) matches Some(dir_path) ==> {
                let (s1, dir) = get_file(w, s, dir_path, settings);
                &&& dir matches Err(e) ==> r == (s1, Err::<(), i32>(e))
                &&& dir matches Ok(dir) ==> r == unlink_of(
                    w,
                    v,
                    s1,
                    dir,
                    name,
                    settings.access_profile,
                )
            }))
            &&& comps.len() == 0 || !(comps.last() is Normal) ==> r == (s, Err::<(), i32>(ENOENT))
        }),
{
}

} // verus!
