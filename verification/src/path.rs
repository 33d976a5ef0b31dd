//! Paths as the library reads them: names in a row, each held as the bytes that the file
//! system gave.

use vstd::prelude::*;

use crate::text;

verus! {

/// What `String::from_utf8_lossy` makes of bytes that are not valid UTF-8.
pub uninterp spec fn utf8_repaired(bytes: Seq<u8>) -> Seq<char>;

/// Bytes as text: what they encode where they are valid UTF-8, a repaired text elsewhere.
pub open spec fn lossy(bytes: Seq<u8>) -> Seq<char> {
    if vstd::utf8::valid_utf8(bytes) {
        vstd::utf8::decode_utf8(bytes)
    } else {
        utf8_repaired(bytes)
    }
}

/// Calls `String::from_utf8_lossy`, which decodes valid UTF-8 as it is and puts replacement
/// characters in place of the sequences that are not valid. Which replacements a sequence
/// gets is left to the name `utf8_repaired`.
#[verifier::external_body]
pub(crate) fn lossy_text(bytes: &[u8]) -> (r: String)
    ensures
        r@ == (if vstd::utf8::valid_utf8(bytes@) {
            vstd::utf8::decode_utf8(bytes@)
        } else {
            utf8_repaired(bytes@)
        }),
{
    String::from_utf8_lossy(bytes).into_owned()
}

/// The contents of each byte vector.
pub open spec fn byte_views(v: Seq<Vec<u8>>) -> Seq<Seq<u8>> {
    v.map_values(|x: Vec<u8>| x@)
}

/// What a path says: whether it starts at the root, and the names that follow.
#[verifier::ext_equal]
pub struct PathModel {
    pub absolute: bool,
    pub parts: Seq<Seq<u8>>,
}

impl PathModel {
    /// Whether the names of `base` come first. The empty relative path comes before every
    /// path.
    pub open spec fn starts_with(self, base: PathModel) -> bool {
        &&& base.absolute == self.absolute || (!base.absolute && base.parts.len() == 0)
        &&& base.parts.is_prefix_of(self.parts)
    }

    /// The path below `base`.
    pub open spec fn below(self, base: PathModel) -> PathModel {
        PathModel {
            absolute: self.absolute && !base.absolute,
            parts: self.parts.skip(base.parts.len() as int),
        }
    }

    /// The path `other` as seen from this one.
    pub open spec fn join(self, other: PathModel) -> PathModel {
        if other.absolute {
            other
        } else {
            PathModel { absolute: self.absolute, parts: self.parts + other.parts }
        }
    }

    /// The path of the entry `name` in this directory.
    pub open spec fn child(self, name: Seq<u8>) -> PathModel {
        PathModel { absolute: self.absolute, parts: self.parts.push(name) }
    }

    /// The directory that holds this path, if it has a name to drop.
    pub open spec fn parent(self) -> Option<PathModel> {
        if self.parts.len() == 0 {
            None
        } else {
            Some(PathModel { absolute: self.absolute, parts: self.parts.drop_last() })
        }
    }

    /// The names as text, the root as `/`.
    pub open spec fn part_texts(self) -> Seq<Seq<char>> {
        let names = self.parts.map_values(|p: Seq<u8>| lossy(p));
        if self.absolute {
            seq![seq!['/']] + names
        } else {
            names
        }
    }

    /// The path written with `/`.
    pub open spec fn bytes(self) -> Seq<u8> {
        if self.absolute {
            seq![47u8] + join_bytes(self.parts)
        } else {
            join_bytes(self.parts)
        }
    }

    /// The written path as text.
    pub open spec fn text(self) -> Seq<char> {
        lossy(self.bytes())
    }
}

/// The names with a `/` between neighbours.
pub open spec fn join_bytes(parts: Seq<Seq<u8>>) -> Seq<u8>
    decreases parts.len(),
{
    if parts.len() == 0 {
        Seq::empty()
    } else if parts.len() == 1 {
        parts[0]
    } else {
        join_bytes(parts.drop_last()).push(47u8) + parts.last()
    }
}

/// A path: names in a row, from the root of the file system or from somewhere else.
#[derive(Debug)]
pub struct FsPath {
    pub absolute: bool,
    pub parts: Vec<Vec<u8>>,
}

impl View for FsPath {
    type V = PathModel;

    open spec fn view(&self) -> PathModel {
        PathModel { absolute: self.absolute, parts: byte_views(self.parts@) }
    }
}

/// The models of several paths.
pub open spec fn path_views(v: Seq<FsPath>) -> Seq<PathModel> {
    v.map_values(|p: FsPath| p@)
}

/// Whether two names are the same.
pub fn same_bytes(a: &[u8], b: &[u8]) -> (r: bool)
    ensures
        r == (a@ == b@),
{
    if a.len() != b.len() {
        return false;
    }
    let mut i: usize = 0;
    while i < a.len()
        invariant
            i <= a.len(),
            a@.len() == b@.len(),
            forall|k: int| 0 <= k < i ==> a@[k] == b@[k],
        decreases a.len() - i,
    {
        if a[i] != b[i] {
            return false;
        }
        i = i + 1;
    }
    assert(a@ =~= b@);
    true
}

/// A copy of some bytes.
pub fn copy_bytes(a: &[u8]) -> (r: Vec<u8>)
    ensures
        r@ == a@,
{
    let mut r: Vec<u8> = Vec::new();
    append_bytes(&mut r, a);
    assert(r@ =~= a@);
    r
}

/// Appends some bytes.
pub fn append_bytes(to: &mut Vec<u8>, more: &[u8])
    ensures
        final(to)@ == old(to)@ + more@,
{
    let mut i: usize = 0;
    while i < more.len()
        invariant
            i <= more.len(),
            to@ == old(to)@ + more@.take(i as int),
        decreases more.len() - i,
    {
        to.push(more[i]);
        assert(more@.take(i + 1) =~= more@.take(i as int).push(more@[i as int]));
        i = i + 1;
    }
    assert(more@.take(more@.len() as int) =~= more@);
}

/// Appends copies of the names from `from` on.
fn append_parts(to: &mut Vec<Vec<u8>>, parts: &Vec<Vec<u8>>, from: usize)
    requires
        from <= parts@.len(),
    ensures
        byte_views(final(to)@) == byte_views(old(to)@) + byte_views(parts@).skip(from as int),
{
    let ghost all = byte_views(parts@);
    let mut i: usize = from;
    assert(byte_views(to@) =~= byte_views(old(to)@) + all.subrange(from as int, from as int));
    while i < parts.len()
        invariant
            from <= i <= parts.len(),
            all == byte_views(parts@),
            byte_views(to@) == byte_views(old(to)@) + all.subrange(from as int, i as int),
        decreases parts.len() - i,
    {
        let ghost was = byte_views(to@);
        let part = copy_bytes(parts[i].as_slice());
        to.push(part);
        assert(byte_views(to@) =~= was.push(part@));
        assert(all.subrange(from as int, i + 1) =~= all.subrange(from as int, i as int).push(
            all[i as int],
        ));
        i = i + 1;
    }
    assert(all.subrange(from as int, all.len() as int) =~= all.skip(from as int));
}

impl Clone for FsPath {
    fn clone(&self) -> (r: Self)
        ensures
            r@ == self@,
    {
        let mut parts: Vec<Vec<u8>> = Vec::new();
        append_parts(&mut parts, &self.parts, 0);
        assert(byte_views(parts@) =~= byte_views(self.parts@));
        FsPath { absolute: self.absolute, parts }
    }
}

impl FsPath {
    /// The path made of the given names.
    pub fn new(absolute: bool, parts: Vec<Vec<u8>>) -> (r: FsPath)
        ensures
            r@ == (PathModel { absolute, parts: byte_views(parts@) }),
    {
        FsPath { absolute, parts }
    }

    /// Whether two paths are the same.
    pub fn same(&self, other: &FsPath) -> (r: bool)
        ensures
            r == (self@ == other@),
    {
        self.absolute == other.absolute && self.parts.len() == other.parts.len()
            && self.names_first(other)
    }

    /// Whether the names of `base` are the first names of this path.
    fn names_first(&self, base: &FsPath) -> (r: bool)
        ensures
            r == base@.parts.is_prefix_of(self@.parts),
            r && self@.absolute == base@.absolute && self@.parts.len() == base@.parts.len()
                ==> self@ == base@,
    {
        if base.parts.len() > self.parts.len() {
            return false;
        }
        let ghost mine = self@.parts;
        let ghost other = base@.parts;
        let mut i: usize = 0;
        while i < base.parts.len()
            invariant
                i <= base.parts.len() <= self.parts.len(),
                mine == byte_views(self.parts@),
                other == byte_views(base.parts@),
                forall|k: int| 0 <= k < i ==> mine[k] == other[k],
            decreases base.parts.len() - i,
        {
            if !same_bytes(self.parts[i].as_slice(), base.parts[i].as_slice()) {
                assert(mine[i as int] != other[i as int]);
                assert(!(other =~= mine.subrange(0, other.len() as int))) by {
                    assert(mine.subrange(0, other.len() as int)[i as int] == mine[i as int]);
                }
                return false;
            }
            i = i + 1;
        }
        assert(other =~= mine.subrange(0, other.len() as int));
        proof {
            if mine.len() == other.len() {
                assert(mine =~= other);
            }
        }
        true
    }

    /// Whether this path is `base` or lies below it.
    pub fn starts_with(&self, base: &FsPath) -> (r: bool)
        ensures
            r == self@.starts_with(base@),
    {
        (base.absolute == self.absolute || (!base.absolute && base.parts.len() == 0))
            && self.names_first(base)
    }

    /// The path below `base`, where this path lies there.
    pub fn strip_prefix(&self, base: &FsPath) -> (r: Option<FsPath>)
        ensures
            match r {
                Some(p) => self@.starts_with(base@) && p@ == self@.below(base@),
                None => !self@.starts_with(base@),
            },
    {
        if !self.starts_with(base) {
            return None;
        }
        let mut parts: Vec<Vec<u8>> = Vec::new();
        append_parts(&mut parts, &self.parts, base.parts.len());
        assert(byte_views(parts@) =~= self@.parts.skip(base@.parts.len() as int));
        Some(FsPath { absolute: self.absolute && !base.absolute, parts })
    }

    /// The path `other`, taken from here where it is relative.
    pub fn join(&self, other: &FsPath) -> (r: FsPath)
        ensures
            r@ == self@.join(other@),
    {
        if other.absolute {
            return other.clone();
        }
        let mut parts = self.clone().parts;
        append_parts(&mut parts, &other.parts, 0);
        assert(byte_views(parts@) =~= self@.parts + other@.parts);
        FsPath { absolute: self.absolute, parts }
    }

    /// The path of the entry `name` in this directory.
    pub fn child(&self, name: &[u8]) -> (r: FsPath)
        ensures
            r@ == self@.child(name@),
    {
        let mut parts: Vec<Vec<u8>> = Vec::new();
        append_parts(&mut parts, &self.parts, 0);
        let ghost was = byte_views(parts@);
        parts.push(copy_bytes(name));
        assert(byte_views(parts@) =~= was.push(name@));
        assert(byte_views(parts@) =~= self@.parts.push(name@));
        FsPath { absolute: self.absolute, parts }
    }

    /// The directory that holds this path.
    pub fn parent(&self) -> (r: Option<FsPath>)
        ensures
            match r {
                Some(p) => self@.parent() == Some(p@),
                None => self@.parent() is None,
            },
    {
        if self.parts.len() == 0 {
            return None;
        }
        let mut parts = self.clone().parts;
        let _ = parts.pop();
        assert(byte_views(parts@) =~= self@.parts.drop_last());
        Some(FsPath { absolute: self.absolute, parts })
    }

    /// The names as text, the root as `/`.
    pub fn part_texts(&self) -> (r: Vec<String>)
        ensures
            text::texts(r@) == self@.part_texts(),
    {
        let mut r: Vec<String> = Vec::new();
        let ghost head: Seq<Seq<char>> = if self.absolute {
            seq![seq!['/']]
        } else {
            Seq::empty()
        };
        if self.absolute {
            let mut slash: String = String::new();
            slash.push('/');
            r.push(slash);
            assert(slash@ =~= seq!['/']);
        }
        let ghost names = self@.parts.map_values(|p: Seq<u8>| lossy(p));
        assert(text::texts(r@) =~= head + names.take(0));
        let mut i: usize = 0;
        while i < self.parts.len()
            invariant
                i <= self.parts.len(),
                names == self@.parts.map_values(|p: Seq<u8>| lossy(p)),
                text::texts(r@) == head + names.take(i as int),
            decreases self.parts.len() - i,
        {
            let ghost was = text::texts(r@);
            let name = lossy_text(self.parts[i].as_slice());
            r.push(name);
            assert(text::texts(r@) =~= was.push(name@));
            assert(names.take(i + 1) =~= names.take(i as int).push(names[i as int]));
            i = i + 1;
        }
        assert(head + names.take(names.len() as int) =~= self@.part_texts());
        r
    }

    /// The path written with `/`, in bytes.
    pub fn to_bytes(&self) -> (r: Vec<u8>)
        ensures
            r@ == self@.bytes(),
    {
        let mut r: Vec<u8> = Vec::new();
        let ghost head: Seq<u8> = if self.absolute {
            seq![47u8]
        } else {
            Seq::empty()
        };
        if self.absolute {
            r.push(47);
        }
        let ghost names = self@.parts;
        assert(r@ =~= head + join_bytes(names.take(0)));
        let mut i: usize = 0;
        while i < self.parts.len()
            invariant
                i <= self.parts.len(),
                names == byte_views(self.parts@),
                r@ == head + join_bytes(names.take(i as int)),
            decreases self.parts.len() - i,
        {
            assert(names.take(i + 1).drop_last() =~= names.take(i as int));
            if i > 0 {
                r.push(47);
            }
            append_bytes(&mut r, self.parts[i].as_slice());
            assert(r@ =~= head + join_bytes(names.take(i + 1)));
            i = i + 1;
        }
        assert(names.take(names.len() as int) =~= names);
        assert(head + join_bytes(names) =~= self@.bytes());
        r
    }

    /// The path written with `/`, as text.
    pub fn to_text(&self) -> (r: String)
        ensures
            r@ == self@.text(),
    {
        let bytes = self.to_bytes();
        lossy_text(bytes.as_slice())
    }
}

} // verus!
