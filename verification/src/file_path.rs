//! Paths as lists of names.

use crate::bytes::bytes_eq;
use crate::path::{absolute, law_slashes_part_segments, segments, split, SLASH};
use vstd::prelude::*;

verus! {

/// A path, in contracts.
#[verifier::ext_equal]
pub struct FilePathView {
    /// The path starts at the root.
    pub absolute: bool,
    /// The names that the path is made of.
    pub parts: Seq<Seq<u8>>,
}

/// The names in `parts`, in contracts.
pub open spec fn names_view(parts: Seq<Vec<u8>>) -> Seq<Seq<u8>> {
    parts.map_values(|part: Vec<u8>| part@)
}

/// The path that `other` leads to from `base`: `other` itself if it is absolute.
pub open spec fn joined(base: FilePathView, other: FilePathView) -> FilePathView {
    if other.absolute {
        other
    } else {
        FilePathView { absolute: base.absolute, parts: base.parts + other.parts }
    }
}

/// The path `p` without its last name.
pub open spec fn popped(p: FilePathView) -> FilePathView {
    if p.parts.len() == 0 {
        p
    } else {
        FilePathView { absolute: p.absolute, parts: p.parts.drop_last() }
    }
}

/// The path that the bytes `s` spell.
pub open spec fn parsed(s: Seq<u8>) -> FilePathView {
    FilePathView { absolute: absolute(s), parts: segments(s, 0) }
}

/// The path of the root.
pub open spec fn root_path() -> FilePathView {
    FilePathView { absolute: true, parts: Seq::empty() }
}

/// A path: a list of names.
pub struct FilePath {
    absolute: bool,
    parts: Vec<Vec<u8>>,
}

impl FilePath {
    pub closed spec fn view(&self) -> FilePathView {
        FilePathView { absolute: self.absolute, parts: names_view(self.parts@) }
    }

    /// Returns the path of the root.
    pub fn root() -> (path: Self)
        ensures
            path@ == root_path(),
    {
        let path = FilePath { absolute: true, parts: Vec::new() };
        assert(path@ =~= root_path());
        path
    }

    /// Returns the path that `bytes` spell.
    pub fn from_bytes(bytes: &[u8]) -> (path: Self)
        ensures
            path@ == parsed(bytes@),
    {
        let names: Vec<&[u8]> = split(bytes);
        let ghost all = segments(bytes@, 0);
        let mut parts: Vec<Vec<u8>> = Vec::new();
        let mut i: usize = 0;
        assert(names_view(parts@) =~= all.take(0));
        while i < names.len()
            invariant
                i <= names@.len(),
                names@.map_values(|name: &[u8]| name@) == all,
                names_view(parts@) == all.take(i as int),
            decreases names@.len() - i,
        {
            let ghost before = parts@;
            parts.push(vstd::slice::slice_to_vec(names[i]));
            proof {
                assert(all[i as int] == names@[i as int]@);
                assert(names_view(parts@) =~= names_view(before).push(all[i as int]));
                assert(all.take(i + 1) =~= all.take(i as int).push(all[i as int]));
            }
            i = i + 1;
        }
        assert(all.take(i as int) =~= all);
        FilePath { absolute: bytes.len() > 0 && bytes[0] == SLASH, parts }
    }

    /// Returns the number of names in the path.
    pub fn get_elements_count(&self) -> (n: usize)
        ensures
            n == self@.parts.len(),
    {
        self.parts.len()
    }

    /// Returns the name number `i` of the path.
    pub fn get_element(&self, i: usize) -> (name: &[u8])
        requires
            i < self@.parts.len(),
        ensures
            name@ == self@.parts[i as int],
    {
        self.parts[i].as_slice()
    }

    /// Tells whether the two paths are the same.
    pub fn is_same(&self, other: &Self) -> (r: bool)
        ensures
            r == (self@ == other@),
    {
        assert(self@.parts.len() == self.parts@.len());
        assert(other@.parts.len() == other.parts@.len());
        if self.absolute != other.absolute || self.parts.len() != other.parts.len() {
            return false;
        }
        let mut i: usize = 0;
        while i < self.parts.len()
            invariant
                i <= self.parts@.len(),
                self.absolute == other.absolute,
                self.parts@.len() == other.parts@.len(),
                forall|j: int| 0 <= j < i ==> #[trigger] self@.parts[j] == other@.parts[j],
            decreases self.parts@.len() - i,
        {
            assert(self@.parts[i as int] == self.parts@[i as int]@);
            assert(other@.parts[i as int] == other.parts@[i as int]@);
            if !bytes_eq(self.parts[i].as_slice(), other.parts[i].as_slice()) {
                return false;
            }
            i = i + 1;
        }
        assert(self@ =~= other@);
        true
    }

    /// Adds the names of `other`, from the one number `start` on, behind those of the path.
    pub fn append(&mut self, other: &Self, start: usize)
        requires
            start <= other@.parts.len(),
        ensures
            final(self)@ == (FilePathView {
                absolute: old(self)@.absolute,
                parts: old(self)@.parts + other@.parts.skip(start as int),
            }),
    {
        let ghost added = other@.parts.skip(start as int);
        let mut i: usize = start;
        assert(self@.parts =~= old(self)@.parts + added.take(0));
        while i < other.parts.len()
            invariant
                start <= i <= other.parts@.len(),
                added == other@.parts.skip(start as int),
                self@.absolute == old(self)@.absolute,
                self@.parts == old(self)@.parts + added.take(i - start),
            decreases other.parts@.len() - i,
        {
            let ghost before = self@.parts;
            let part: Vec<u8> = vstd::slice::slice_to_vec(other.parts[i].as_slice());
            self.parts.push(part);
            proof {
                assert(part@ =~= added[i - start]);
                assert(self@.parts =~= before.push(part@));
                assert(added.take(i - start + 1) =~= added.take(i - start).push(part@));
                assert(before.push(part@) =~= old(self)@.parts + added.take(i - start + 1));
            }
            i = i + 1;
        }
        assert(added.take(i - start) =~= added);
        assert(self@ =~= FilePathView {
            absolute: old(self)@.absolute,
            parts: old(self)@.parts + added,
        });
    }

    /// Returns the path that is made of the first `n` names of the path.
    pub fn prefix(&self, n: usize) -> (path: Self)
        requires
            n <= self@.parts.len(),
        ensures
            path@ == (FilePathView { absolute: self@.absolute, parts: self@.parts.take(n as int) }),
    {
        let mut path: FilePath = self.copied();
        assert(path@.parts.len() == path.parts@.len());
        assert(self@.parts.take(self@.parts.len() as int) =~= self@.parts);
        while path.parts.len() > n
            invariant
                n <= path.parts@.len() <= self@.parts.len(),
                path@.absolute == self@.absolute,
                path@.parts == self@.parts.take(path.parts@.len() as int),
            decreases path.parts@.len(),
        {
            let ghost before = path@.parts;
            path.pop();
            assert(path@.parts.len() == path.parts@.len());
            assert(before.drop_last() =~= self@.parts.take(before.len() - 1));
        }
        path
    }

    /// Returns a copy of the path.
    pub fn copied(&self) -> (path: Self)
        ensures
            path@ == self@,
    {
        let mut path = FilePath { absolute: self.absolute, parts: Vec::new() };
        path.append(self, 0);
        assert(path@ =~= self@);
        path
    }

    /// Returns the path that `other` leads to from this one: `other` itself if it is absolute.
    pub fn concat(&self, other: &Self) -> (path: Self)
        ensures
            path@ == joined(self@, other@),
    {
        if other.absolute {
            return other.copied();
        }
        let mut path: FilePath = self.copied();
        path.append(other, 0);
        assert(other@.parts.skip(0) =~= other@.parts);
        path
    }

    /// Adds a name behind those of the path.
    pub fn push(&mut self, name: Vec<u8>)
        ensures
            final(self)@ == (FilePathView {
                absolute: old(self)@.absolute,
                parts: old(self)@.parts.push(name@),
            }),
    {
        self.parts.push(name);
        assert(self@ =~= FilePathView {
            absolute: old(self)@.absolute,
            parts: old(self)@.parts.push(name@),
        });
    }

    /// Removes the last name of the path, if any.
    pub fn pop(&mut self)
        ensures
            final(self)@ == popped(old(self)@),
    {
        let _ = self.parts.pop();
        assert(self@ =~= popped(old(self)@));
    }
}

/// A path of bytes starts at the root if it begins with a slash, and its names are the runs of bytes
/// between slashes.
pub proof fn law_parsed_path_holds_the_names(a: Seq<u8>, b: Seq<u8>, name: Seq<u8>)
    requires
        name.len() > 0,
        forall|i: int| 0 <= i < name.len() ==> #[trigger] name[i] != 0x2f,
    ensures
        parsed(a).absolute <==> a.len() > 0 && a[0] == 0x2f,
        parsed(a + seq![0x2fu8] + b).parts == parsed(a).parts + parsed(b).parts,
        parsed(name).parts == seq![name],
        parsed(Seq::<u8>::empty()).parts.len() == 0,
{
    law_slashes_part_segments(a, b, name);
}

/// An absolute path leads to the same place from everywhere. A relative one adds its names to where
/// it starts. Step by step or at once makes no difference, and a path without names leads nowhere
/// else.
pub proof fn law_paths_are_joined(a: FilePathView, b: FilePathView, c: FilePathView)
    ensures
        b.absolute ==> joined(a, b) == b,
        !b.absolute ==> joined(a, b).absolute == a.absolute && joined(a, b).parts == a.parts
            + b.parts,
        joined(joined(a, b), c) == joined(a, joined(b, c)),
        joined(root_path(), a).absolute,
        joined(root_path(), a).parts == a.parts,
        root_path().absolute && root_path().parts.len() == 0,
{
    assert(joined(joined(a, b), c) =~= joined(a, joined(b, c)));
    assert(joined(root_path(), a).parts =~= a.parts);
}

/// Removing the last name undoes adding one.
pub proof fn law_popping_undoes_adding(p: FilePathView, name: Seq<u8>)
    ensures
        popped(FilePathView { absolute: p.absolute, parts: p.parts.push(name) }) == p,
        p.parts.len() == 0 ==> popped(p) == p,
{
    assert(p.parts.push(name).drop_last() =~= p.parts);
}

/// A path that is read from bytes, joined with another or compared is so by exactly what was given.
pub proof fn law_path_operations(
    bytes: &[u8],
    read: FilePath,
    a: &FilePath,
    b: &FilePath,
    both: FilePath,
    same: bool,
)
    requires
        call_ensures(FilePath::from_bytes, (bytes,), read),
        call_ensures(FilePath::concat, (a, b), both),
        call_ensures(FilePath::is_same, (a, b), same),
    ensures
        read@.absolute == (bytes@.len() > 0 && bytes@[0] == 0x2f),
        read@.parts == segments(bytes@, 0),
        b@.absolute ==> both@ == b@,
        !b@.absolute ==> both@.absolute == a@.absolute && both@.parts == a@.parts + b@.parts,
        same == (a@.absolute == b@.absolute && a@.parts == b@.parts),
{
    if a@.absolute == b@.absolute && a@.parts == b@.parts {
        assert(a@ =~= b@);
    }
}

} // verus!
