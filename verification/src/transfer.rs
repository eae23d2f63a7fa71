//! Multi-file transfers that a program sends to the host: where each entry
//! lands below a private staging directory, which links it may make, and
//! which link targets stay inside the transfer.
use vstd::prelude::*;
use vstd::string::StrSliceExecFns;
use vstd::utf8::{decode_utf8, valid_utf8};
use crate::downloads::{safe_filename, safe_name};
use crate::pty::opt_view;
use crate::text::{same_text, starts_with_text};
use std::path::Component;

verus! {

/// The kind of file system object that a transfer entry describes.
#[derive(Clone, Copy, Debug, PartialEq, Eq, Structural)]
pub enum TransferKind {
    Regular,
    Directory,
    Symlink,
    HardLink,
}

/// One entry of a multi-file transfer, in the order the program listed it.
/// `parent` names an earlier directory entry by its id; a link keeps its
/// target in `data`.
#[derive(Clone, Debug, PartialEq, Eq)]
pub struct TransferEntry {
    pub id: String,
    pub parent: Option<String>,
    pub name: String,
    pub kind: TransferKind,
    pub data: Vec<u8>,
    pub permissions: Option<u32>,
    pub modified_ns: Option<u64>,
}

/// A path that a program asks to upload, with the id it gave the request.
#[derive(Clone, Debug, PartialEq, Eq)]
pub struct UploadPath {
    pub id: String,
    pub name: String,
}

/// One part of a path, as the platform's path rules split it.
#[derive(Clone, Copy, Debug, PartialEq, Eq, Structural)]
pub enum PathPart {
    Prefix,
    Root,
    Current,
    Parent,
    Normal,
}

/// Why a link target is refused.
#[derive(Clone, Copy, Debug, PartialEq, Eq, Structural)]
pub enum TargetProblem {
    /// It climbs above the directory it must stay in.
    Escapes,
    /// It starts at a root or a drive.
    NotRelative,
}

/// Walks `parts` from `depth` levels below the top: `..` climbs one level
/// (refused at the top), a name descends one, `.` stays.
pub open spec fn target_walk(depth: int, parts: Seq<PathPart>) -> Result<(), TargetProblem>
    decreases parts.len(),
{
    if parts.len() == 0 {
        Ok(())
    } else {
        match parts[0] {
            PathPart::Parent => if depth <= 0 {
                Err(TargetProblem::Escapes)
            } else {
                target_walk(depth - 1, parts.drop_first())
            },
            PathPart::Normal => target_walk(depth + 1, parts.drop_first()),
            PathPart::Current => target_walk(depth, parts.drop_first()),
            _ => Err(TargetProblem::NotRelative),
        }
    }
}

/// Checks that the relative path made of `parts`, followed from `depth`
/// levels below the top, never leaves the top.
pub fn walk_target(depth: usize, parts: &Vec<PathPart>) -> (r: Result<(), TargetProblem>)
    ensures
        r == target_walk(depth as int, parts@),
{
    let mut level: u128 = depth as u128;
    let mut i: usize = 0;
    proof {
        assert(parts@.skip(0) =~= parts@);
    }
    while i < parts.len()
        invariant
            i <= parts@.len(),
            level <= depth + i,
            target_walk(depth as int, parts@) == target_walk(level as int, parts@.skip(i as int)),
        decreases parts@.len() - i,
    {
        proof {
            assert(parts@.skip(i as int).drop_first() =~= parts@.skip(i + 1));
            assert(parts@.skip(i as int)[0] == parts@[i as int]);
        }
        match parts[i] {
            PathPart::Parent => {
                if level == 0 {
                    return Err(TargetProblem::Escapes);
                }
                level = level - 1;
            },
            PathPart::Normal => {
                level = level + 1;
            },
            PathPart::Current => {},
            _ => {
                return Err(TargetProblem::NotRelative);
            },
        }
        i = i + 1;
    }
    proof {
        assert(parts@.skip(i as int).len() == 0);
    }
    Ok(())
}

/// Whether `path` is absolute on this platform.
#[verifier::external_body]
pub(crate) fn path_is_absolute(path: &str) -> bool {
    std::path::Path::new(path).is_absolute()
}

/// Splits `path` with `std::path::Path::components`, one part for each
/// component. How a path splits depends on the platform's path rules, so
/// nothing is stated of the parts.
#[verifier::external_body]
pub(crate) fn path_parts(path: &str) -> Vec<PathPart> {
    std::path::Path::new(path).components().map(
        |component| match component {
            Component::Prefix(_) => PathPart::Prefix,
            Component::RootDir => PathPart::Root,
            Component::CurDir => PathPart::Current,
            Component::ParentDir => PathPart::Parent,
            Component::Normal(_) => PathPart::Normal,
        },
    ).collect()
}

/// Reads `bytes` as UTF-8 with `std::str::from_utf8`: text exactly when
/// the bytes are valid UTF-8, and then the characters they encode.
#[verifier::external_body]
fn utf8_text(bytes: &[u8]) -> (r: Option<&str>)
    ensures
        r.is_some() == valid_utf8(bytes@),
        r matches Some(text) ==> text@ == decode_utf8(bytes@),
{
    std::str::from_utf8(bytes).ok()
}

/// The verdict on a symbolic link inside a transfer whose target is a
/// literal path: it must be relative, without a drive, and stay inside
/// the transfer when followed from the link's directory, `depth` levels
/// below the transfer's top.
pub open spec fn literal_target_verdict(absolute: bool, depth: int, parts: Seq<PathPart>) -> Result<
    (),
    Seq<char>,
> {
    if absolute || parts.contains(PathPart::Prefix) {
        Err("OSC symbolic-link target outside the transfer is not allowed"@)
    } else {
        match target_walk(depth, parts) {
            Ok(()) => Ok(()),
            Err(TargetProblem::Escapes) => Err("OSC symbolic-link target escapes the transfer"@),
            Err(TargetProblem::NotRelative) => Err("OSC symbolic-link target is not relative"@),
        }
    }
}

/// Checks a literal symbolic-link target of a transfer, given whether the
/// platform calls it absolute and how it splits.
pub fn check_literal_target(absolute: bool, depth: usize, parts: &Vec<PathPart>) -> (r: Result<
    (),
    String,
>)
    ensures
        match literal_target_verdict(absolute, depth as int, parts@) {
            Ok(()) => r is Ok,
            Err(e) => r matches Err(m) && m@ == e,
        },
{
    let mut has_prefix = false;
    let mut i: usize = 0;
    while i < parts.len()
        invariant
            i <= parts@.len(),
            has_prefix == exists|k: int| 0 <= k < i && parts@[k] == PathPart::Prefix,
        decreases parts@.len() - i,
    {
        if parts[i] == PathPart::Prefix {
            has_prefix = true;
        }
        i = i + 1;
    }
    if absolute || has_prefix {
        return Err(String::from_str("OSC symbolic-link target outside the transfer is not allowed"));
    }
    match walk_target(depth, parts) {
        Ok(()) => Ok(()),
        Err(TargetProblem::Escapes) => Err(
            String::from_str("OSC symbolic-link target escapes the transfer"),
        ),
        Err(TargetProblem::NotRelative) => Err(
            String::from_str("OSC symbolic-link target is not relative"),
        ),
    }
}

/// The verdict on a symbolic link offered for upload: its target must be
/// relative and stay below the upload root when followed from the link's
/// directory, `depth` levels below the root.
pub open spec fn upload_link_verdict(absolute: bool, depth: int, parts: Seq<PathPart>) -> Result<
    (),
    Seq<char>,
> {
    if absolute {
        Err("EPERM:Absolute symbolic-link uploads are not allowed"@)
    } else {
        match target_walk(depth, parts) {
            Ok(()) => Ok(()),
            Err(TargetProblem::Escapes) => Err("EPERM:Symbolic-link target escapes the upload root"@),
            Err(TargetProblem::NotRelative) => Err("EPERM:Invalid symbolic-link target"@),
        }
    }
}

/// Checks the target of a symbolic link offered for upload, given whether
/// the platform calls it absolute and how it splits.
pub fn check_upload_link_target(absolute: bool, depth: usize, parts: &Vec<PathPart>) -> (r: Result<
    (),
    String,
>)
    ensures
        match upload_link_verdict(absolute, depth as int, parts@) {
            Ok(()) => r is Ok,
            Err(e) => r matches Err(m) && m@ == e,
        },
{
    if absolute {
        return Err(String::from_str("EPERM:Absolute symbolic-link uploads are not allowed"));
    }
    match walk_target(depth, parts) {
        Ok(()) => Ok(()),
        Err(TargetProblem::Escapes) => Err(
            String::from_str("EPERM:Symbolic-link target escapes the upload root"),
        ),
        Err(TargetProblem::NotRelative) => Err(String::from_str("EPERM:Invalid symbolic-link target")),
    }
}

/// An entry that has its place below the staging directory: its id, the
/// names of the directories down to it and its own name, and its kind.
#[derive(Clone, Debug, PartialEq, Eq)]
pub struct PlacedEntry {
    pub id: String,
    pub path: Vec<String>,
    pub kind: TransferKind,
}

/// A path by the texts of its parts.
pub open spec fn path_view(path: Seq<String>) -> Seq<Seq<char>> {
    path.map_values(|part: String| part@)
}

/// An entry's id, path and kind, as plain values.
pub type Place = (Seq<char>, Seq<Seq<char>>, TransferKind);

/// No two places share an id or a path.
pub open spec fn distinct_places(v: Seq<Place>) -> bool {
    forall|i: int, j: int| 0 <= i < j < v.len() ==> v[i].0 != v[j].0 && v[i].1 != v[j].1
}

/// Whether some place has the id `id`.
pub open spec fn has_id(v: Seq<Place>, id: Seq<char>) -> bool {
    exists|i: int| 0 <= i < v.len() && (#[trigger] v[i]).0 == id
}

/// The place with the id `id`, where there is one.
pub open spec fn place_of(v: Seq<Place>, id: Seq<char>) -> Place {
    v[choose|i: int| 0 <= i < v.len() && (#[trigger] v[i]).0 == id]
}

/// Whether some place has the path `path`.
pub open spec fn has_path(v: Seq<Place>, path: Seq<Seq<char>>) -> bool {
    exists|i: int| 0 <= i < v.len() && (#[trigger] v[i]).1 == path
}

/// The directory an entry goes into: the top for no parent, else the
/// place of its parent, which must come earlier and be a directory.
pub open spec fn parent_place(v: Seq<Place>, parent: Option<Seq<char>>) -> Result<
    Seq<Seq<char>>,
    Seq<char>,
> {
    match parent {
        None => Ok(Seq::empty()),
        Some(id) => if !has_id(v, id) {
            Err("OSC transfer parent is missing or out of order"@)
        } else if place_of(v, id).2 == TransferKind::Directory {
            Ok(place_of(v, id).1)
        } else {
            Err("OSC transfer parent is not a directory"@)
        },
    }
}

/// Where the next entry goes, after the places `v`: below its parent,
/// under the safe form of its name; refused for an id or a path already
/// taken, and for a directory that carries data.
pub open spec fn placement(
    v: Seq<Place>,
    id: Seq<char>,
    parent: Option<Seq<char>>,
    name: Seq<char>,
    kind: TransferKind,
    has_data: bool,
) -> Result<Seq<Seq<char>>, Seq<char>> {
    if has_id(v, id) {
        Err("OSC transfer contains duplicate file ids"@)
    } else {
        match parent_place(v, parent) {
            Err(e) => Err(e),
            Ok(dir) => if has_path(v, dir.push(safe_name(name))) {
                Err("OSC transfer contains duplicate destination paths"@)
            } else if kind == TransferKind::Directory && has_data {
                Err("OSC transfer directory contains data"@)
            } else {
                Ok(dir.push(safe_name(name)))
            },
        }
    }
}

/// Whether two paths have the same parts.
pub fn same_path(a: &Vec<String>, b: &Vec<String>) -> (r: bool)
    ensures
        r == (path_view(a@) == path_view(b@)),
{
    if a.len() != b.len() {
        proof {
            assert(path_view(a@).len() != path_view(b@).len());
        }
        return false;
    }
    let mut i: usize = 0;
    while i < a.len()
        invariant
            a@.len() == b@.len(),
            i <= a@.len(),
            forall|k: int| 0 <= k < i ==> a@[k]@ == b@[k]@,
        decreases a@.len() - i,
    {
        if !same_text(a[i].as_str(), b[i].as_str()) {
            proof {
                assert(path_view(a@)[i as int] != path_view(b@)[i as int]);
            }
            return false;
        }
        i = i + 1;
    }
    proof {
        assert(path_view(a@) =~= path_view(b@));
    }
    true
}

/// A copy of a path.
pub fn copy_path(path: &Vec<String>) -> (r: Vec<String>)
    ensures
        path_view(r@) == path_view(path@),
{
    let mut out: Vec<String> = Vec::new();
    let mut i: usize = 0;
    while i < path.len()
        invariant
            i <= path@.len(),
            out@.len() == i,
            forall|k: int| 0 <= k < i ==> out@[k]@ == path@[k]@,
        decreases path@.len() - i,
    {
        let part = path[i].clone();
        proof {
            assert(part == path@[i as int]);
        }
        out.push(part);
        i = i + 1;
    }
    proof {
        assert(path_view(out@) =~= path_view(path@));
    }
    out
}

/// The entries of a transfer placed so far, in the order they came.
pub struct TransferPlan {
    placed: Vec<PlacedEntry>,
}

impl View for TransferPlan {
    type V = Seq<Place>;

    closed spec fn view(&self) -> Seq<Place> {
        self.placed@.map_values(|p: PlacedEntry| (p.id@, path_view(p.path@), p.kind))
    }
}

impl TransferPlan {
    /// No two placed entries share an id or a path.
    pub open spec fn wf(&self) -> bool {
        &&& distinct_places(self@)
        &&& forall|i: int| 0 <= i < self@.len() ==> (#[trigger] self@[i]).1.len() > 0
    }

    /// A plan with nothing placed.
    pub fn new() -> (r: TransferPlan)
        ensures
            r@ == Seq::<Place>::empty(),
            r.wf(),
    {
        let r = TransferPlan { placed: Vec::new() };
        proof {
            assert(r@ =~= Seq::<Place>::empty());
        }
        r
    }

    /// The placed entries, in order.
    pub fn placed(&self) -> (r: &Vec<PlacedEntry>)
        ensures
            r@.map_values(|p: PlacedEntry| (p.id@, path_view(p.path@), p.kind)) == self@,
    {
        &self.placed
    }

    /// The index of the entry with the id `id`, if one is placed.
    fn find_id(&self, id: &str) -> (r: Option<usize>)
        requires
            self.wf(),
        ensures
            match r {
                Some(i) => i < self@.len() && self@[i as int].0 == id@ && place_of(self@, id@)
                    == self@[i as int] && has_id(self@, id@),
                None => !has_id(self@, id@),
            },
    {
        let mut i: usize = 0;
        while i < self.placed.len()
            invariant
                i <= self@.len(),
                self@.len() == self.placed@.len(),
                self.wf(),
                forall|k: int| 0 <= k < i ==> (#[trigger] self@[k]).0 != id@,
            decreases self@.len() - i,
        {
            proof {
                assert(self@[i as int].0 == self.placed@[i as int].id@);
            }
            if same_text(self.placed[i].id.as_str(), id) {
                proof {
                    let v = self@;
                    assert(has_id(v, id@));
                    let j = choose|j: int| 0 <= j < v.len() && (#[trigger] v[j]).0 == id@;
                    if j != i as int {
                        if j < i {
                            assert(v[j].0 != v[i as int].0);
                        } else {
                            assert(v[i as int].0 != v[j].0);
                        }
                    }
                }
                return Some(i);
            }
            i = i + 1;
        }
        None
    }

    /// Whether some placed entry has the path `path`.
    fn path_taken(&self, path: &Vec<String>) -> (r: bool)
        ensures
            r == has_path(self@, path_view(path@)),
    {
        let mut i: usize = 0;
        while i < self.placed.len()
            invariant
                i <= self@.len(),
                self@.len() == self.placed@.len(),
                forall|k: int| 0 <= k < i ==> (#[trigger] self@[k]).1 != path_view(path@),
            decreases self@.len() - i,
        {
            proof {
                assert(self@[i as int].1 == path_view(self.placed@[i as int].path@));
            }
            if same_path(&self.placed[i].path, path) {
                return true;
            }
            i = i + 1;
        }
        false
    }

    /// Places the next entry of a transfer below its parent, under the
    /// safe form of its name, or says why it cannot be placed; a refused
    /// entry leaves the plan as it was.
    pub fn place(&mut self, entry: &TransferEntry) -> (r: Result<(), String>)
        requires
            old(self).wf(),
        ensures
            final(self).wf(),
            match placement(
                old(self)@,
                entry.id@,
                opt_view(entry.parent),
                entry.name@,
                entry.kind,
                entry.data@.len() > 0,
            ) {
                Ok(path) => r is Ok && final(self)@ == old(self)@.push((entry.id@, path, entry.kind)),
                Err(e) => r matches Err(m) && m@ == e && final(self)@ == old(self)@,
            },
    {
        if self.find_id(entry.id.as_str()).is_some() {
            return Err(String::from_str("OSC transfer contains duplicate file ids"));
        }
        let mut path: Vec<String> = match &entry.parent {
            None => Vec::new(),
            Some(parent) => match self.find_id(parent.as_str()) {
                None => {
                    return Err(String::from_str("OSC transfer parent is missing or out of order"));
                },
                Some(i) => {
                    if self.placed[i].kind == TransferKind::Directory {
                        proof {
                            assert(self@[i as int].1 == path_view(self.placed@[i as int].path@));
                        }
                        copy_path(&self.placed[i].path)
                    } else {
                        return Err(String::from_str("OSC transfer parent is not a directory"));
                    }
                },
            },
        };
        let ghost dir = path_view(path@);
        proof {
            if entry.parent is None {
                assert(dir =~= Seq::<Seq<char>>::empty());
            }
            assert(parent_place(self@, opt_view(entry.parent)) == Ok::<Seq<Seq<char>>, Seq<char>>(
                dir,
            ));
        }
        let leaf = safe_filename(entry.name.as_str());
        path.push(leaf);
        proof {
            assert(path_view(path@) =~= dir.push(safe_name(entry.name@)));
        }
        if self.path_taken(&path) {
            return Err(String::from_str("OSC transfer contains duplicate destination paths"));
        }
        if entry.kind == TransferKind::Directory && entry.data.len() > 0 {
            return Err(String::from_str("OSC transfer directory contains data"));
        }
        let ghost before = self@;
        let ghost new_place: Place = (entry.id@, path_view(path@), entry.kind);
        self.placed.push(PlacedEntry { id: entry.id.clone(), path, kind: entry.kind });
        proof {
            assert(self@ =~= before.push(new_place));
            assert forall|i: int, j: int| 0 <= i < j < self@.len() implies self@[i].0 != self@[j].0
                && self@[i].1 != self@[j].1 by {
                if j == before.len() {
                    assert(self@[i] == before[i]);
                    if self@[i].0 == new_place.0 {
                        assert(has_id(before, entry.id@));
                    }
                    if self@[i].1 == new_place.1 {
                        assert(has_path(before, new_place.1));
                    }
                } else {
                    assert(self@[i] == before[i] && self@[j] == before[j]);
                }
            }
            assert forall|i: int| 0 <= i < self@.len() implies (#[trigger] self@[i]).1.len() > 0 by {
                if i < before.len() {
                    assert(self@[i] == before[i]);
                }
            }
        }
        Ok(())
    }
}

/// How many leading parts two paths share.
pub open spec fn common_len(a: Seq<Seq<char>>, b: Seq<Seq<char>>) -> nat
    decreases a.len(),
{
    if a.len() == 0 || b.len() == 0 || a[0] != b[0] {
        0
    } else {
        1 + common_len(a.drop_first(), b.drop_first())
    }
}

proof fn lemma_common_len(a: Seq<Seq<char>>, b: Seq<Seq<char>>, c: int)
    requires
        0 <= c <= a.len(),
        c <= b.len(),
        forall|k: int| 0 <= k < c ==> a[k] == b[k],
        c == a.len() || c == b.len() || a[c] != b[c],
    ensures
        common_len(a, b) == c,
    decreases c,
{
    if c > 0 {
        assert(a[0] == b[0]);
        let a1 = a.drop_first();
        let b1 = b.drop_first();
        assert forall|k: int| 0 <= k < c - 1 implies a1[k] == b1[k] by {
            assert(a[k + 1] == b[k + 1]);
        }
        lemma_common_len(a1, b1, c - 1);
    }
}

/// `n` steps up.
pub open spec fn ups(n: nat) -> Seq<Seq<char>> {
    Seq::new(n, |i: int| ".."@)
}

/// The way from the directory `from` to `to`, both counted from the same
/// top: up out of what `from` does not share with `to`, then down along
/// the rest of `to`.
pub open spec fn relative_path(from: Seq<Seq<char>>, to: Seq<Seq<char>>) -> Seq<Seq<char>> {
    ups((from.len() - common_len(from, to)) as nat) + to.skip(common_len(from, to) as int)
}

/// The relative path from the directory `from` to `to`.
pub fn relative_components(from: &Vec<String>, to: &Vec<String>) -> (r: Vec<String>)
    ensures
        path_view(r@) == relative_path(path_view(from@), path_view(to@)),
{
    let mut c: usize = 0;
    while c < from.len() && c < to.len() && same_text(from[c].as_str(), to[c].as_str())
        invariant
            c <= from@.len(),
            c <= to@.len(),
            forall|k: int| 0 <= k < c ==> from@[k]@ == to@[k]@,
        decreases from@.len() - c,
    {
        c = c + 1;
    }
    let ghost a = path_view(from@);
    let ghost b = path_view(to@);
    proof {
        assert forall|k: int| 0 <= k < c implies a[k] == b[k] by {
            assert(from@[k]@ == to@[k]@);
        }
        if c < a.len() && c < b.len() {
            assert(a[c as int] == from@[c as int]@);
        }
        lemma_common_len(a, b, c as int);
    }
    let mut out: Vec<String> = Vec::new();
    let mut k: usize = c;
    while k < from.len()
        invariant
            c <= k <= from@.len(),
            out@.len() == k - c,
            forall|j: int| 0 <= j < out@.len() ==> out@[j]@ == ".."@,
        decreases from@.len() - k,
    {
        out.push(String::from_str(".."));
        k = k + 1;
    }
    let ghost up_count = out@.len();
    let mut j: usize = c;
    while j < to.len()
        invariant
            c <= j <= to@.len(),
            up_count == from@.len() - c,
            out@.len() == up_count + (j - c),
            forall|i: int| 0 <= i < up_count ==> out@[i]@ == ".."@,
            forall|i: int| up_count <= i < out@.len() ==> out@[i]@ == to@[c + i - up_count]@,
        decreases to@.len() - j,
    {
        let part = to[j].clone();
        proof {
            assert(part == to@[j as int]);
        }
        out.push(part);
        j = j + 1;
    }
    proof {
        let want = relative_path(a, b);
        assert(path_view(out@) =~= want);
    }
    out
}

/// What `value` holds after `prefix`, when it starts with it.
pub open spec fn stripped(value: Seq<char>, prefix: Seq<char>) -> Option<Seq<char>> {
    if prefix.len() <= value.len() && value.take(prefix.len() as int) == prefix {
        Some(value.skip(prefix.len() as int))
    } else {
        None
    }
}

/// The text of `value` after `prefix`, when it starts with it.
pub fn strip_text<'a>(value: &'a str, prefix: &str) -> (r: Option<&'a str>)
    ensures
        match r {
            Some(rest) => stripped(value@, prefix@) == Some(rest@),
            None => stripped(value@, prefix@) is None,
        },
{
    if starts_with_text(value, prefix) {
        let n = value.unicode_len();
        let m = prefix.unicode_len();
        let rest = value.substring_char(m, n);
        proof {
            assert(rest@ =~= value@.skip(prefix@.len() as int));
        }
        Some(rest)
    } else {
        None
    }
}

/// The id that a symbolic-link target names with `fid:` or `fid_abs:`.
pub open spec fn target_id(value: Seq<char>) -> Option<Seq<char>> {
    if stripped(value, "fid:"@) is Some {
        stripped(value, "fid:"@)
    } else {
        stripped(value, "fid_abs:"@)
    }
}

/// What to do for a link entry once every entry of the transfer is placed.
#[derive(Debug, PartialEq, Eq)]
pub enum LinkAction {
    /// Make `link` a hard link to the regular file at `target`.
    Hard { target: Vec<String>, link: Vec<String> },
    /// Make `link` a symbolic link that reaches, along `target` from the
    /// link's directory, an entry of kind `kind`.
    ToEntry { target: Vec<String>, kind: TransferKind, link: Vec<String> },
    /// Make `link` a symbolic link to the literal relative path `target`,
    /// to be treated as a regular file.
    Literal { target: String, link: Vec<String> },
}

/// What a link entry with the id `id`, the kind `kind` and the target
/// `data` gives, once the places `v` are made: the place it links to, or
/// why it is refused. `absolute` and `parts` are what the platform makes
/// of a literal target.
pub open spec fn link_outcome(
    r: Result<LinkAction, String>,
    v: Seq<Place>,
    id: Seq<char>,
    kind: TransferKind,
    data: Seq<u8>,
    absolute: bool,
    parts: Seq<PathPart>,
) -> bool {
    if !has_id(v, id) {
        r matches Err(m) && m@ == "OSC transfer link path is missing"@
    } else if !valid_utf8(data) {
        r matches Err(m) && m@ == (if kind == TransferKind::HardLink {
            "OSC hard-link target is not UTF-8"@
        } else {
            "OSC symbolic-link target is not UTF-8"@
        })
    } else {
        let link = place_of(v, id).1;
        let value = decode_utf8(data);
        if kind == TransferKind::HardLink {
            if !has_id(v, value) {
                r matches Err(m) && m@ == "OSC hard-link target is missing"@
            } else if place_of(v, value).2 != TransferKind::Regular {
                r matches Err(m) && m@ == "OSC hard-link target is not a regular file"@
            } else {
                r matches Ok(LinkAction::Hard { target: t, link: l }) && path_view(t@) == place_of(
                    v,
                    value,
                ).1 && path_view(l@) == link
            }
        } else if target_id(value) is Some {
            let tid = target_id(value)->0;
            if !has_id(v, tid) {
                r matches Err(m) && m@ == "OSC symbolic-link target is missing"@
            } else {
                r matches Ok(LinkAction::ToEntry { target: t, kind: k, link: l }) && path_view(t@)
                    == relative_path(link.drop_last(), place_of(v, tid).1) && k == place_of(v, tid).2
                    && path_view(l@) == link
            }
        } else if stripped(value, "path:"@) is Some {
            match literal_target_verdict(absolute, link.len() - 1, parts) {
                Err(e) => r matches Err(m) && m@ == e,
                Ok(()) => r matches Ok(LinkAction::Literal { target: t, link: l }) && t@ == stripped(
                    value,
                    "path:"@,
                )->0 && path_view(l@) == link,
            }
        } else {
            r matches Err(m) && m@ == "OSC symbolic-link target has an invalid prefix"@
        }
    }
}

impl TransferPlan {
    fn resolve_link(&self, entry: &TransferEntry) -> (out: (
        Result<LinkAction, String>,
        Ghost<bool>,
        Ghost<Seq<PathPart>>,
    ))
        requires
            self.wf(),
            entry.kind == TransferKind::Symlink || entry.kind == TransferKind::HardLink,
        ensures
            link_outcome(out.0, self@, entry.id@, entry.kind, entry.data@, out.1@, out.2@),
    {
        let none: Ghost<Seq<PathPart>> = Ghost(Seq::empty());
        let i = match self.find_id(entry.id.as_str()) {
            None => {
                return (
                    Err(String::from_str("OSC transfer link path is missing")),
                    Ghost(false),
                    none,
                );
            },
            Some(i) => i,
        };
        let link = &self.placed[i].path;
        proof {
            assert(self@[i as int].1 == path_view(link@));
            assert(self@[i as int].1.len() > 0);
        }
        let value = match utf8_text(entry.data.as_slice()) {
            None => {
                let message = if entry.kind == TransferKind::HardLink {
                    String::from_str("OSC hard-link target is not UTF-8")
                } else {
                    String::from_str("OSC symbolic-link target is not UTF-8")
                };
                return (Err(message), Ghost(false), none);
            },
            Some(value) => value,
        };
        if entry.kind == TransferKind::HardLink {
            return match self.find_id(value) {
                None => (Err(String::from_str("OSC hard-link target is missing")), Ghost(false), none),
                Some(t) => {
                    if self.placed[t].kind != TransferKind::Regular {
                        (
                            Err(String::from_str("OSC hard-link target is not a regular file")),
                            Ghost(false),
                            none,
                        )
                    } else {
                        proof {
                            assert(self@[t as int].1 == path_view(self.placed@[t as int].path@));
                        }
                        let target = copy_path(&self.placed[t].path);
                        (Ok(LinkAction::Hard { target, link: copy_path(link) }), Ghost(false), none)
                    }
                },
            };
        }
        let by_id = match strip_text(value, "fid:") {
            Some(rest) => Some(rest),
            None => strip_text(value, "fid_abs:"),
        };
        match by_id {
            Some(tid) => {
                match self.find_id(tid) {
                    None => (
                        Err(String::from_str("OSC symbolic-link target is missing")),
                        Ghost(false),
                        none,
                    ),
                    Some(t) => {
                        proof {
                            assert(self@[t as int].1 == path_view(self.placed@[t as int].path@));
                        }
                        let mut from = copy_path(link);
                        let ghost full = path_view(from@);
                        from.pop();
                        proof {
                            assert(path_view(from@) =~= full.drop_last());
                        }
                        let target = relative_components(&from, &self.placed[t].path);
                        (
                            Ok(
                                LinkAction::ToEntry {
                                    target,
                                    kind: self.placed[t].kind,
                                    link: copy_path(link),
                                },
                            ),
                            Ghost(false),
                            none,
                        )
                    },
                }
            },
            None => match strip_text(value, "path:") {
                None => (
                    Err(String::from_str("OSC symbolic-link target has an invalid prefix")),
                    Ghost(false),
                    none,
                ),
                Some(text) => {
                    let absolute = path_is_absolute(text);
                    let parts = path_parts(text);
                    let depth = link.len() - 1;
                    match check_literal_target(absolute, depth, &parts) {
                        Err(message) => (Err(message), Ghost(absolute), Ghost(parts@)),
                        Ok(()) => (
                            Ok(LinkAction::Literal { target: text.to_owned(), link: copy_path(link) }),
                            Ghost(absolute),
                            Ghost(parts@),
                        ),
                    }
                },
            },
        }
    }

    /// Decides what a link entry makes once every entry is placed: a hard
    /// link to a placed regular file, a symbolic link to a placed entry,
    /// or a symbolic link to a literal relative path that stays inside the
    /// transfer; or why it is refused. How the platform reads a literal
    /// target is left open; [`check_literal_target`] states the verdict
    /// for each reading.
    pub fn link_action(&self, entry: &TransferEntry) -> (r: Result<LinkAction, String>)
        requires
            self.wf(),
            entry.kind == TransferKind::Symlink || entry.kind == TransferKind::HardLink,
        ensures
            exists|absolute: bool, parts: Seq<PathPart>|
                link_outcome(r, self@, entry.id@, entry.kind, entry.data@, absolute, parts),
    {
        let (r, Ghost(absolute), Ghost(parts)) = self.resolve_link(entry);
        proof {
            assert(link_outcome(r, self@, entry.id@, entry.kind, entry.data@, absolute, parts));
        }
        r
    }
}

} // verus!
