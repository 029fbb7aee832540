//! Paths: bytes, with components parted by slashes.

use crate::bytes::bytes_eq;
use crate::errno::{EResult, ENAMETOOLONG};
use crate::limits::PATH_MAX;
use vstd::prelude::*;
use vstd::slice::slice_subrange;

verus! {

/// The byte that parts components.
pub const SLASH: u8 = 0x2f;

/// The byte of which the names `.` and `..` are made.
pub const DOT: u8 = 0x2e;

/// A component of a path, in contracts.
pub enum ComponentView {
    RootDir,
    CurDir,
    ParentDir,
    Normal(Seq<u8>),
}

/// A component of a path.
pub enum Component<'p> {
    /// The root directory: the slash that an absolute path begins with.
    RootDir,
    /// `.`
    CurDir,
    /// `..`
    ParentDir,
    /// The name of a file.
    Normal(&'p [u8]),
}

impl<'p> Component<'p> {
    pub open spec fn view(&self) -> ComponentView {
        match self {
            Component::RootDir => ComponentView::RootDir,
            Component::CurDir => ComponentView::CurDir,
            Component::ParentDir => ComponentView::ParentDir,
            Component::Normal(name) => ComponentView::Normal(name@),
        }
    }
}

/// The end of the run of bytes other than slashes that starts at `i` in `s`.
pub open spec fn run_end(s: Seq<u8>, i: int) -> int
    decreases s.len() - i,
{
    if i < 0 || i >= s.len() || s[i] == SLASH {
        i
    } else {
        run_end(s, i + 1)
    }
}

/// The longest runs of bytes other than slashes in `s`, from the position `i` on.
pub open spec fn segments(s: Seq<u8>, i: int) -> Seq<Seq<u8>>
    decreases s.len() - i,
{
    if i < 0 || i >= s.len() {
        Seq::empty()
    } else if s[i] == SLASH {
        segments(s, i + 1)
    } else {
        let j = run_end(s, i);
        proof {
            lemma_run_end(s, i);
        }
        seq![s.subrange(i, j)] + segments(s, j)
    }
}

/// A run lies within the path, and is followed by a slash or by the end of the path.
pub proof fn lemma_run_end(s: Seq<u8>, i: int)
    requires
        0 <= i <= s.len(),
    ensures
        i <= run_end(s, i) <= s.len(),
        i < s.len() && s[i] != SLASH ==> i < run_end(s, i),
        forall|k: int| i <= k < run_end(s, i) ==> s[k] != SLASH,
        run_end(s, i) < s.len() ==> s[run_end(s, i)] == SLASH,
    decreases s.len() - i,
{
    if i < s.len() && s[i] != SLASH {
        lemma_run_end(s, i + 1);
    }
}

/// What the segment `name` stands for.
pub open spec fn component_of(name: Seq<u8>) -> ComponentView {
    if name == seq![DOT] {
        ComponentView::CurDir
    } else if name == seq![DOT, DOT] {
        ComponentView::ParentDir
    } else {
        ComponentView::Normal(name)
    }
}

/// The path `s` starts at the root.
pub open spec fn absolute(s: Seq<u8>) -> bool {
    s.len() > 0 && s[0] == SLASH
}

/// The components of the path `s`.
pub open spec fn components(s: Seq<u8>) -> Seq<ComponentView> {
    let names = segments(s, 0).map_values(|name: Seq<u8>| component_of(name));
    if absolute(s) {
        seq![ComponentView::RootDir] + names
    } else {
        names
    }
}

/// The length of `s` without the slashes at its end, when all of `s` from `i` on is slashes.
pub open spec fn trimmed(s: Seq<u8>, i: int) -> int
    decreases i,
{
    if 0 < i <= s.len() && s[i - 1] == SLASH {
        trimmed(s, i - 1)
    } else {
        i
    }
}

/// The start of the run of bytes other than slashes that ends at `i` in `s`.
pub open spec fn run_start(s: Seq<u8>, i: int) -> int
    decreases i,
{
    if 0 < i <= s.len() && s[i - 1] != SLASH {
        run_start(s, i - 1)
    } else {
        i
    }
}

/// The name of the file that the path `s` leads to: its last component, if that is a name.
pub open spec fn file_name(s: Seq<u8>) -> Option<Seq<u8>> {
    let all = components(s);
    if all.len() == 0 {
        None
    } else {
        match all.last() {
            ComponentView::Normal(name) => Some(name),
            _ => None,
        }
    }
}

/// The path of the directory that holds what `s` leads to: `s` up to its last segment, or `.` if
/// nothing stands before that. A path without segments has none.
pub open spec fn parent(s: Seq<u8>) -> Option<Seq<u8>> {
    let end = trimmed(s, s.len() as int);
    let start = run_start(s, end);
    if end <= 0 {
        None
    } else if start == 0 {
        Some(seq![DOT])
    } else {
        Some(s.take(start))
    }
}

/// Splits `bytes` at the slashes, leaving out what is empty.
pub fn split<'p>(bytes: &'p [u8]) -> (names: Vec<&'p [u8]>)
    ensures
        names@.map_values(|name: &'p [u8]| name@) == segments(bytes@, 0),
{
    let ghost shown = |name: &'p [u8]| name@;
    let mut names: Vec<&'p [u8]> = Vec::new();
    let mut i: usize = 0;
    assert(names@.map_values(shown) + segments(bytes@, 0) =~= segments(bytes@, 0));
    while i < bytes.len()
        invariant
            i <= bytes@.len(),
            shown == (|name: &'p [u8]| name@),
            names@.map_values(shown) + segments(bytes@, i as int) == segments(bytes@, 0),
        decreases bytes@.len() - i,
    {
        if bytes[i] == SLASH {
            i = i + 1;
        } else {
            let start: usize = i;
            i = i + 1;
            while i < bytes.len() && bytes[i] != SLASH
                invariant
                    start < i <= bytes@.len(),
                    run_end(bytes@, start as int) == run_end(bytes@, i as int),
                decreases bytes@.len() - i,
            {
                i = i + 1;
            }
            let name: &'p [u8] = slice_subrange(bytes, start, i);
            let ghost before = names@.map_values(shown);
            names.push(name);
            proof {
                let rest = segments(bytes@, i as int);
                assert(run_end(bytes@, start as int) == i);
                assert(segments(bytes@, start as int) == seq![name@] + rest);
                assert(names@.map_values(shown) =~= before + seq![name@]);
                assert(before + (seq![name@] + rest) =~= names@.map_values(shown) + rest);
            }
        }
    }
    assert(names@.map_values(shown) + Seq::<Seq<u8>>::empty() =~= names@.map_values(shown));
    names
}

/// A path, borrowed.
#[derive(Clone, Copy)]
pub struct Path<'p> {
    bytes: &'p [u8],
}

/// A path, owned.
pub struct PathBuf {
    bytes: Vec<u8>,
}

impl<'p> Path<'p> {
    pub closed spec fn view(&self) -> Seq<u8> {
        self.bytes@
    }

    /// Takes `bytes` for a path.
    pub fn new(bytes: &'p [u8]) -> (path: Self)
        ensures
            path@ == bytes@,
    {
        Path { bytes }
    }

    /// Returns the bytes of the path.
    pub fn as_bytes(&self) -> (bytes: &'p [u8])
        ensures
            bytes@ == self@,
    {
        self.bytes
    }

    /// Tells whether the path is empty.
    pub fn is_empty(&self) -> (r: bool)
        ensures
            r == (self@.len() == 0),
    {
        self.bytes.len() == 0
    }

    /// Tells whether the path starts at the root.
    pub fn is_absolute(&self) -> (r: bool)
        ensures
            r == absolute(self@),
    {
        self.bytes.len() > 0 && self.bytes[0] == SLASH
    }

    /// Returns the components of the path.
    pub fn components(&self) -> (all: Vec<Component<'p>>)
        ensures
            all@.map_values(|c: Component<'p>| c@) == components(self@),
    {
        let names: Vec<&'p [u8]> = split(self.bytes);
        let ghost classify = |name: Seq<u8>| component_of(name);
        let ghost shown = |c: Component<'p>| c@;
        let ghost parts = segments(self@, 0);
        let ghost lead = if absolute(self@) {
            seq![ComponentView::RootDir]
        } else {
            Seq::empty()
        };
        let mut all: Vec<Component<'p>> = Vec::new();
        if self.is_absolute() {
            all.push(Component::RootDir);
        }
        assert(all@.map_values(shown) =~= lead + parts.take(0).map_values(classify));
        let mut i: usize = 0;
        while i < names.len()
            invariant
                i <= names@.len(),
                shown == (|c: Component<'p>| c@),
                classify == (|name: Seq<u8>| component_of(name)),
                names@.map_values(|name: &'p [u8]| name@) == parts,
                all@.map_values(shown) == lead + parts.take(i as int).map_values(classify),
            decreases names@.len() - i,
        {
            let ghost before = all@.map_values(shown);
            let c: Component<'p> = Component::of(names[i]);
            all.push(c);
            proof {
                assert(parts[i as int] == names@[i as int]@);
                assert(all@.map_values(shown) =~= before.push(c@));
                assert(parts.take(i + 1).map_values(classify) =~= parts.take(i as int).map_values(
                    classify,
                ).push(c@));
                assert(before.push(c@) =~= lead + parts.take(i + 1).map_values(classify));
            }
            i = i + 1;
        }
        assert(parts.take(i as int) =~= parts);
        assert(lead + parts.map_values(classify) =~= components(self@));
        all
    }

    /// Returns the last component of the path, if that is the name of a file.
    pub fn file_name(&self) -> (name: Option<&'p [u8]>)
        ensures
            match name {
                Some(n) => file_name(self@) == Some(n@),
                None => file_name(self@) is None,
            },
    {
        let mut all: Vec<Component<'p>> = self.components();
        let ghost shown = all@.map_values(|c: Component<'p>| c@);
        match all.pop() {
            Some(c) => {
                assert(shown.last() == c@);
                match c {
                    Component::Normal(name) => Some(name),
                    _ => None,
                }
            },
            None => None,
        }
    }

    /// Returns the path of the directory that holds what the path leads to.
    pub fn parent(&self) -> (dir: Option<PathBuf>)
        ensures
            match dir {
                Some(d) => parent(self@) == Some(d@),
                None => parent(self@) is None,
            },
    {
        let bytes: &'p [u8] = self.bytes;
        let mut end: usize = bytes.len();
        while end > 0 && bytes[end - 1] == SLASH
            invariant
                end <= bytes.len(),
                trimmed(bytes@, bytes@.len() as int) == trimmed(bytes@, end as int),
            decreases end,
        {
            end = end - 1;
        }
        if end == 0 {
            return None;
        }
        let mut start: usize = end;
        while start > 0 && bytes[start - 1] != SLASH
            invariant
                start <= end <= bytes.len(),
                run_start(bytes@, end as int) == run_start(bytes@, start as int),
            decreases start,
        {
            start = start - 1;
        }
        let mut dir: Vec<u8> = Vec::new();
        if start == 0 {
            dir.push(DOT);
            assert(dir@ =~= seq![DOT]);
        } else {
            dir = vstd::slice::slice_to_vec(slice_subrange(bytes, 0, start));
            assert(dir@ =~= bytes@.take(start as int));
        }
        Some(PathBuf { bytes: dir })
    }
}

impl<'p> Component<'p> {
    /// Tells what the segment `name` stands for.
    fn of(name: &'p [u8]) -> (c: Self)
        ensures
            c@ == component_of(name@),
    {
        let dot: [u8; 1] = [DOT];
        let dots: [u8; 2] = [DOT, DOT];
        assert(dot@ =~= seq![DOT]);
        assert(dots@ =~= seq![DOT, DOT]);
        if bytes_eq(name, &dot) {
            Component::CurDir
        } else if bytes_eq(name, &dots) {
            Component::ParentDir
        } else {
            Component::Normal(name)
        }
    }
}

impl PathBuf {
    pub closed spec fn view(&self) -> Seq<u8> {
        self.bytes@
    }

    /// Returns the path of the root.
    pub fn root() -> (path: Self)
        ensures
            path@ == seq![SLASH],
    {
        let mut bytes: Vec<u8> = Vec::new();
        bytes.push(SLASH);
        assert(bytes@ =~= seq![SLASH]);
        PathBuf { bytes }
    }

    /// Takes `bytes` for a path.
    ///
    /// If they are longer than [`PATH_MAX`], the function returns [`ENAMETOOLONG`].
    pub fn try_from(bytes: Vec<u8>) -> (path: EResult<Self>)
        ensures
            match path {
                Ok(p) => bytes@.len() <= PATH_MAX && p@ == bytes@,
                Err(e) => bytes@.len() > PATH_MAX && e == ENAMETOOLONG,
            },
    {
        if bytes.len() > PATH_MAX {
            Err(ENAMETOOLONG)
        } else {
            Ok(PathBuf { bytes })
        }
    }

    /// Takes `bytes` for a path, whatever their length.
    pub fn new_unchecked(bytes: Vec<u8>) -> (path: Self)
        ensures
            path@ == bytes@,
    {
        PathBuf { bytes }
    }

    /// Borrows the path.
    pub fn as_path<'p>(&'p self) -> (path: Path<'p>)
        ensures
            path@ == self@,
    {
        Path { bytes: self.bytes.as_slice() }
    }

    /// Returns the bytes of the path.
    pub fn as_bytes(&self) -> (bytes: &[u8])
        ensures
            bytes@ == self@,
    {
        self.bytes.as_slice()
    }
}

/// A path is its parent, then its last segment: without its last component, the path has the
/// components of its parent. Of a path with a single segment and no slash before it, the parent
/// is `.`.
pub proof fn law_parent_drops_last_component(s: Seq<u8>)
    ensures
        match parent(s) {
            None => forall|i: int| 0 <= i < s.len() ==> #[trigger] s[i] == SLASH,
            Some(dir) => {
                &&& components(s).len() > 0
                &&& dir == seq![DOT] && components(s).len() == 1 || components(dir) == components(
                    s,
                ).drop_last()
            },
        },
{
    let end = trimmed(s, s.len() as int);
    lemma_trimmed(s, s.len() as int);
    if end > 0 {
        let start = run_start(s, end);
        lemma_run_start(s, end);
        let name = s.subrange(start, end);
        let classify = |n: Seq<u8>| component_of(n);
        let dir = s.take(start);
        lemma_last_segment(s, start, end, 0);
        let before = segments(dir, 0);
        assert(before.push(name).map_values(classify) =~= before.map_values(classify).push(
            component_of(name),
        ));
        if start == 0 {
            assert(before.len() == 0);
            assert(s[0] != SLASH);
            assert(components(s).len() == 1);
        } else {
            assert(dir[0] == s[0]);
            assert(components(s).drop_last() =~= components(dir));
        }
    }
}

proof fn lemma_trimmed(s: Seq<u8>, i: int)
    requires
        0 <= i <= s.len(),
        forall|k: int| i <= k < s.len() ==> #[trigger] s[k] == SLASH,
    ensures
        0 <= trimmed(s, i) <= i,
        forall|k: int| trimmed(s, i) <= k < s.len() ==> #[trigger] s[k] == SLASH,
        trimmed(s, i) > 0 ==> s[trimmed(s, i) - 1] != SLASH,
    decreases i,
{
    if i > 0 && s[i - 1] == SLASH {
        lemma_trimmed(s, i - 1);
    }
}

proof fn lemma_run_start(s: Seq<u8>, i: int)
    requires
        0 <= i <= s.len(),
    ensures
        0 <= run_start(s, i) <= i,
        i > 0 && s[i - 1] != SLASH ==> run_start(s, i) < i,
        forall|k: int| run_start(s, i) <= k < i ==> #[trigger] s[k] != SLASH,
        run_start(s, i) > 0 ==> s[run_start(s, i) - 1] == SLASH,
    decreases i,
{
    if i > 0 && s[i - 1] != SLASH {
        lemma_run_start(s, i - 1);
    }
}

/// From `end` on, where nothing but slashes is left, there is no segment.
proof fn lemma_no_segments(s: Seq<u8>, end: int)
    requires
        0 <= end <= s.len(),
        forall|k: int| end <= k < s.len() ==> #[trigger] s[k] == SLASH,
    ensures
        segments(s, end) == Seq::<Seq<u8>>::empty(),
    decreases s.len() - end,
{
    if end < s.len() {
        lemma_no_segments(s, end + 1);
    }
}

/// The segments of a path are those before its last one, then that one.
proof fn lemma_last_segment(s: Seq<u8>, start: int, end: int, i: int)
    requires
        0 <= i <= start < end <= s.len(),
        start > 0 ==> s[start - 1] == SLASH,
        forall|k: int| start <= k < end ==> #[trigger] s[k] != SLASH,
        forall|k: int| end <= k < s.len() ==> #[trigger] s[k] == SLASH,
    ensures
        segments(s, i) == segments(s.take(start), i).push(s.subrange(start, end)),
    decreases start - i,
{
    let dir = s.take(start);
    let name = s.subrange(start, end);
    if i == start {
        lemma_run_end(s, i);
        let j = run_end(s, i);
        assert(j == end) by {
            if j < end {
                assert(s[j] != SLASH);
            }
            if j > end {
                assert(s[end] == SLASH);
            }
        }
        lemma_no_segments(s, end);
        assert(segments(s, i) =~= seq![name]);
        assert(segments(dir, i).push(name) =~= seq![name]);
    } else if s[i] == SLASH {
        assert(dir[i] == s[i]);
        lemma_last_segment(s, start, end, i + 1);
    } else {
        assert(dir[i] == s[i]);
        lemma_run_end(s, i);
        lemma_run_end(dir, i);
        let j = run_end(s, i);
        let k = run_end(dir, i);
        assert(j == k) by {
            assert(j < start) by {
                if j >= start {
                    assert(s[start - 1] != SLASH);
                }
            }
            if j < k {
                assert(dir[j] == s[j]);
            }
            if k < j {
                assert(dir[k] == s[k]);
            }
        }
        lemma_last_segment(s, start, end, j);
        assert(dir.subrange(i, j) =~= s.subrange(i, j));
        assert(seq![s.subrange(i, j)] + segments(dir, j).push(name) =~= (seq![s.subrange(i, j)]
            + segments(dir, j)).push(name));
    }
}

/// A slash parts what stands before it from what stands behind it, and nothing else does: the
/// segments of the whole are those of the two sides, a run of bytes without a slash is one segment,
/// and nothing is none.
pub proof fn law_slashes_part_segments(a: Seq<u8>, b: Seq<u8>, name: Seq<u8>)
    requires
        name.len() > 0,
        forall|i: int| 0 <= i < name.len() ==> #[trigger] name[i] != 0x2f,
    ensures
        segments(a + seq![0x2fu8] + b, 0) == segments(a, 0) + segments(b, 0),
        segments(name, 0) == seq![name],
        segments(Seq::<u8>::empty(), 0) == Seq::<Seq<u8>>::empty(),
{
    lemma_joined_segments(a, b, 0);
    lemma_run_end(name, 0);
    assert(run_end(name, 0) == name.len());
    assert(name.subrange(0, name.len() as int) =~= name);
    assert(segments(name, name.len() as int) =~= Seq::<Seq<u8>>::empty());
    assert(segments(name, 0) =~= seq![name]);
}

proof fn lemma_joined_segments(a: Seq<u8>, b: Seq<u8>, i: int)
    requires
        0 <= i <= a.len(),
    ensures
        segments(a + seq![SLASH] + b, i) == segments(a, i) + segments(b, 0),
    decreases a.len() - i,
{
    let t = a + seq![SLASH] + b;
    if i == a.len() {
        assert(t[i] == SLASH);
        lemma_later_segments(a, b, 0);
        assert(segments(a, i) + segments(b, 0) =~= segments(b, 0));
    } else if a[i] == SLASH {
        assert(t[i] == SLASH);
        lemma_joined_segments(a, b, i + 1);
    } else {
        let j = run_end(a, i);
        lemma_run_end(a, i);
        lemma_joined_run(a, b, i);
        assert(t[i] == a[i]);
        assert(t.subrange(i, j) =~= a.subrange(i, j));
        lemma_joined_segments(a, b, j);
        assert(segments(t, i) =~= segments(a, i) + segments(b, 0));
    }
}

proof fn lemma_joined_run(a: Seq<u8>, b: Seq<u8>, i: int)
    requires
        0 <= i <= a.len(),
    ensures
        run_end(a + seq![SLASH] + b, i) == run_end(a, i),
    decreases a.len() - i,
{
    let t = a + seq![SLASH] + b;
    if i < a.len() {
        assert(t[i] == a[i]);
        if a[i] != SLASH {
            lemma_joined_run(a, b, i + 1);
        }
    } else {
        assert(t[i] == SLASH);
    }
}

proof fn lemma_later_segments(a: Seq<u8>, b: Seq<u8>, i: int)
    requires
        0 <= i <= b.len(),
    ensures
        segments(a + seq![SLASH] + b, a.len() + 1 + i) == segments(b, i),
    decreases b.len() - i,
{
    let t = a + seq![SLASH] + b;
    let at = a.len() + 1 + i;
    if i < b.len() {
        assert(t[at] == b[i]);
        if b[i] == SLASH {
            lemma_later_segments(a, b, i + 1);
        } else {
            let j = run_end(b, i);
            lemma_run_end(b, i);
            lemma_later_run(a, b, i);
            assert(t.subrange(at, a.len() + 1 + j) =~= b.subrange(i, j));
            lemma_later_segments(a, b, j);
        }
    }
}

proof fn lemma_later_run(a: Seq<u8>, b: Seq<u8>, i: int)
    requires
        0 <= i <= b.len(),
    ensures
        run_end(a + seq![SLASH] + b, a.len() + 1 + i) == a.len() + 1 + run_end(b, i),
    decreases b.len() - i,
{
    let t = a + seq![SLASH] + b;
    if i < b.len() {
        assert(t[a.len() + 1 + i] == b[i]);
        if b[i] != SLASH {
            lemma_later_run(a, b, i + 1);
        }
    }
}

/// A segment of one dot is the directory itself, one of two dots its parent, and any other one a
/// name, even if it is made of dots.
pub proof fn law_dots_are_no_names(name: Seq<u8>)
    ensures
        component_of(name) == ComponentView::CurDir <==> name.len() == 1 && name[0] == 0x2e,
        component_of(name) == ComponentView::ParentDir <==> name.len() == 2 && name[0] == 0x2e
            && name[1] == 0x2e,
        !(component_of(name) is CurDir) && !(component_of(name) is ParentDir) ==> component_of(name)
            == ComponentView::Normal(name),
        !(component_of(name) is RootDir),
{
    if name.len() == 1 && name[0] == 0x2e {
        assert(name =~= seq![DOT]);
    }
    if name.len() == 2 && name[0] == 0x2e && name[1] == 0x2e {
        assert(name =~= seq![DOT, DOT]);
    }
}

/// The components of a path are what its segments stand for, in their order; before them stands the
/// root if, and only if, the path begins with a slash.
pub proof fn law_components_are_segments(s: Seq<u8>)
    ensures
        ({
            let names = segments(s, 0);
            let all = components(s);
            let lead: int = if s.len() > 0 && s[0] == 0x2f {
                1
            } else {
                0
            };
            &&& absolute(s) <==> lead == 1
            &&& all.len() == names.len() + lead
            &&& lead == 1 ==> all[0] == ComponentView::RootDir
            &&& forall|i: int|
                0 <= i < names.len() ==> all[i + lead] == component_of(#[trigger] names[i])
        }),
{
    let names = segments(s, 0);
    let all = components(s);
    let lead: int = if s.len() > 0 && s[0] == 0x2f {
        1
    } else {
        0
    };
    assert forall|i: int| 0 <= i < names.len() implies all[i + lead] == component_of(
        #[trigger] names[i],
    ) by {
        assert(names.map_values(|name: Seq<u8>| component_of(name))[i] == component_of(names[i]));
    }
}

/// The file name of a path is its last component, if that is a name: a path that ends with a name
/// behind a slash has that name, with any slashes behind it.
pub proof fn law_file_name_is_the_last_name(dir: Seq<u8>, name: Seq<u8>)
    requires
        name.len() > 0,
        forall|i: int| 0 <= i < name.len() ==> #[trigger] name[i] != 0x2f,
        component_of(name) == ComponentView::Normal(name),
    ensures
        file_name(dir + seq![0x2fu8] + name) == Some(name),
        file_name(dir + seq![0x2fu8] + name + seq![0x2fu8]) == Some(name),
        file_name(name) == Some(name),
{
    let a = dir + seq![SLASH] + name;
    let b = a + seq![SLASH] + Seq::<u8>::empty();
    law_slashes_part_segments(dir, name, name);
    law_slashes_part_segments(a, Seq::empty(), name);
    assert(b =~= a + seq![SLASH]);
    assert(segments(b, 0) =~= segments(dir, 0).push(name));
    assert(segments(a, 0) =~= segments(dir, 0).push(name));
    law_components_are_segments(a);
    law_components_are_segments(b);
    law_components_are_segments(name);
    assert(segments(a, 0).last() == name);
    assert(segments(name, 0)[0] == name);
    lemma_last_name(a, name);
    lemma_last_name(b, name);
    lemma_last_name(name, name);
}

proof fn lemma_last_name(s: Seq<u8>, name: Seq<u8>)
    requires
        segments(s, 0).len() > 0,
        segments(s, 0).last() == name,
        component_of(name) == ComponentView::Normal(name),
    ensures
        file_name(s) == Some(name),
{
    let names = segments(s, 0);
    let mapped = names.map_values(|n: Seq<u8>| component_of(n));
    assert(mapped[names.len() - 1] == component_of(name));
    assert(components(s).last() == mapped.last());
}

/// A path that ends with a dot, with two dots, or with nothing but slashes has no file name.
pub proof fn law_dots_have_no_file_name(s: Seq<u8>)
    ensures
        segments(s, 0).len() == 0 ==> file_name(s) is None,
        segments(s, 0).len() > 0 && !(component_of(segments(s, 0).last()) is Normal) ==> file_name(
            s,
        ) is None,
{
    let names = segments(s, 0);
    let mapped = names.map_values(|n: Seq<u8>| component_of(n));
    if names.len() > 0 {
        assert(mapped[names.len() - 1] == component_of(names.last()));
        assert(components(s).last() == mapped.last());
    }
}

/// The answers on a path are those for exactly its bytes: whether it is empty or absolute, its
/// components, its file name and its parent.
pub proof fn law_path_answers<'p>(
    path: &Path<'p>,
    empty: bool,
    is_absolute: bool,
    all: Vec<Component<'p>>,
    name: Option<&'p [u8]>,
    dir: Option<PathBuf>,
)
    requires
        call_ensures(Path::is_empty, (path,), empty),
        call_ensures(Path::is_absolute, (path,), is_absolute),
        call_ensures(Path::components, (path,), all),
        call_ensures(Path::file_name, (path,), name),
        call_ensures(Path::parent, (path,), dir),
    ensures
        empty == (path@.len() == 0),
        is_absolute == (path@.len() > 0 && path@[0] == 0x2f),
        all@.len() == components(path@).len(),
        forall|i: int| 0 <= i < all@.len() ==> (#[trigger] all@[i])@ == components(path@)[i],
        name matches Some(n) ==> all@.len() > 0 && components(path@).last() == ComponentView::Normal(
            n@,
        ),
        name is None ==> all@.len() == 0 || !(components(path@).last() is Normal),
        dir is None ==> forall|i: int| 0 <= i < path@.len() ==> #[trigger] path@[i] == 0x2f,
        dir matches Some(d) ==> all@.len() > 0 && (components(d@) == components(path@).drop_last()
            || all@.len() == 1 && d@ == seq![0x2eu8]),
{
    law_parent_drops_last_component(path@);
    let shown = all@.map_values(|c: Component<'p>| c@);
    assert forall|i: int| 0 <= i < all@.len() implies (#[trigger] all@[i])@ == components(
        path@,
    )[i] by {
        assert(shown[i] == all@[i]@);
    }
}

} // verus!
