//! In-memory filesystem: a tree of files and directories held in the kernel
//! heap, addressed by absolute or relative paths.
use vstd::prelude::*;
use vstd::string::{StrSliceExecFns, StringExecFns};
use std::collections::BTreeMap;

verus! {

broadcast use vstd::laws_cmp::group_laws_cmp;

pub type InodeId = u64;

/// Inode of the root directory; its parent is itself.
pub const ROOT: InodeId = 0;

#[derive(Clone, Copy, PartialEq, Eq, Structural, Debug)]
pub enum FsError {
    NotFound,
    AlreadyExists,
    NotADirectory,
    NotAFile,
    DirectoryNotEmpty,
    InvalidPath,
}

impl FsError {
    /// The message the shell prints for this error.
    pub fn as_str(&self) -> (r: &'static str)
        ensures
            r@ == (match self {
                FsError::NotFound => "not found"@,
                FsError::AlreadyExists => "already exists"@,
                FsError::NotADirectory => "not a directory"@,
                FsError::NotAFile => "not a file"@,
                FsError::DirectoryNotEmpty => "directory not empty"@,
                FsError::InvalidPath => "invalid path"@,
            }),
    {
        match self {
            FsError::NotFound => "not found",
            FsError::AlreadyExists => "already exists",
            FsError::NotADirectory => "not a directory",
            FsError::NotAFile => "not a file",
            FsError::DirectoryNotEmpty => "directory not empty",
            FsError::InvalidPath => "invalid path",
        }
    }
}

/// A file's bytes, or a directory's entries (name and inode), in name order.
pub enum InodeKind {
    File(Vec<u8>),
    Directory(Vec<(String, InodeId)>),
}

pub struct Inode {
    pub kind: InodeKind,
    pub parent: InodeId,
}

pub struct FileSystem {
    inodes: BTreeMap<InodeId, Inode>,
    next_inode: InodeId,
}

/// What an inode holds, as values.
pub enum NodeKind {
    File(Seq<u8>),
    Dir(Seq<(Seq<char>, InodeId)>),
}

pub struct Node {
    pub kind: NodeKind,
    pub parent: InodeId,
}

pub open spec fn entries_view(es: Seq<(String, InodeId)>) -> Seq<(Seq<char>, InodeId)> {
    es.map_values(|e: (String, InodeId)| (e.0@, e.1))
}

pub open spec fn node_view(i: Inode) -> Node {
    Node {
        kind: match i.kind {
            InodeKind::File(d) => NodeKind::File(d@),
            InodeKind::Directory(es) => NodeKind::Dir(entries_view(es@)),
        },
        parent: i.parent,
    }
}

pub type Tree = Map<InodeId, Node>;

/// `c` is white space in the sense of Unicode's `White_Space` property.
pub open spec fn spec_is_whitespace(c: char) -> bool {
    let u = c as u32;
    (0x9 <= u && u <= 0xD) || u == 0x20 || u == 0x85 || u == 0xA0 || u == 0x1680
        || (0x2000 <= u && u <= 0x200A) || u == 0x2028 || u == 0x2029 || u == 0x202F
        || u == 0x205F || u == 0x3000
}

/// Number of white-space characters at the start of `p`.
pub open spec fn lead_ws(p: Seq<char>) -> nat
    decreases p.len(),
{
    if p.len() > 0 && spec_is_whitespace(p[0]) { 1 + lead_ws(p.subrange(1, p.len() as int)) } else { 0 }
}

/// Number of white-space characters at the end of `p`.
pub open spec fn trail_ws(p: Seq<char>) -> nat
    decreases p.len(),
{
    if p.len() > 0 && spec_is_whitespace(p.last()) { 1 + trail_ws(p.drop_last()) } else { 0 }
}

/// `p` without white space at either end.
pub open spec fn trimmed(p: Seq<char>) -> Seq<char> {
    if lead_ws(p) >= p.len() { Seq::empty() } else { p.subrange(lead_ws(p) as int, p.len() - trail_ws(p)) }
}

/// The pieces of `p` between slashes (as `str::split('/')` gives them).
pub open spec fn split_slash(p: Seq<char>) -> Seq<Seq<char>>
    decreases p.len(),
{
    if p.len() == 0 {
        seq![Seq::empty()]
    } else {
        let parts = split_slash(p.drop_last());
        if p.last() == '/' {
            parts.push(Seq::empty())
        } else {
            parts.update(parts.len() - 1, parts.last().push(p.last()))
        }
    }
}

/// The inode named `name` in `es`, if any.
pub open spec fn lookup(es: Seq<(Seq<char>, InodeId)>, name: Seq<char>) -> Option<InodeId>
    decreases es.len(),
{
    if es.len() == 0 {
        None
    } else if es[0].0 == name {
        Some(es[0].1)
    } else {
        lookup(es.subrange(1, es.len() as int), name)
    }
}

/// One path component taken from directory `cur`.
pub open spec fn step(t: Tree, cur: InodeId, c: Seq<char>) -> Result<InodeId, FsError> {
    if c.len() == 0 || c == seq!['.'] {
        Ok(cur)
    } else if !t.contains_key(cur) {
        Err(FsError::NotFound)
    } else if c == seq!['.', '.'] {
        Ok(t[cur].parent)
    } else {
        match t[cur].kind {
            NodeKind::Dir(es) => match lookup(es, c) {
                Some(id) => Ok(id),
                None => Err(FsError::NotFound),
            },
            NodeKind::File(_) => Err(FsError::NotADirectory),
        }
    }
}

/// The components `cs` taken in turn from `start`; the first error stops.
pub open spec fn walk(t: Tree, start: InodeId, cs: Seq<Seq<char>>) -> Result<InodeId, FsError>
    decreases cs.len(),
{
    if cs.len() == 0 {
        Ok(start)
    } else {
        match walk(t, start, cs.drop_last()) {
            Ok(cur) => step(t, cur, cs.last()),
            Err(e) => Err(e),
        }
    }
}

/// The inode path `p` names, from `cwd` (from the root when it starts with
/// a slash); an empty path names `cwd`.
pub open spec fn spec_resolve_path(t: Tree, p: Seq<char>, cwd: InodeId) -> Result<InodeId, FsError> {
    let q = trimmed(p);
    if q.len() == 0 {
        Ok(cwd)
    } else {
        walk(t, if q[0] == '/' { ROOT } else { cwd }, split_slash(q))
    }
}

/// Number of slashes at the end of `p`.
pub open spec fn trail_slashes(p: Seq<char>) -> nat
    decreases p.len(),
{
    if p.len() > 0 && p.last() == '/' { 1 + trail_slashes(p.drop_last()) } else { 0 }
}

/// Index of the last slash of `p`, or -1.
pub open spec fn last_slash(p: Seq<char>) -> int
    decreases p.len(),
{
    if p.len() == 0 {
        -1
    } else if p.last() == '/' {
        p.len() - 1
    } else {
        last_slash(p.drop_last())
    }
}

/// The directory that would hold the last component of `p`, and that
/// component's name.
pub open spec fn spec_resolve_parent(t: Tree, p: Seq<char>, cwd: InodeId) -> Result<(InodeId, Seq<char>), FsError> {
    let q = trimmed(p);
    if q.len() == 0 || q == seq!['/'] {
        Err(FsError::InvalidPath)
    } else {
        let r = q.subrange(0, q.len() - trail_slashes(q));
        if r.len() == 0 {
            Err(FsError::InvalidPath)
        } else {
            let pos = last_slash(r);
            if pos < 0 {
                Ok((cwd, r))
            } else {
                let parent_path = r.subrange(0, pos);
                let child = r.subrange(pos + 1, r.len() as int);
                if child.len() == 0 {
                    Err(FsError::InvalidPath)
                } else {
                    let parent = if parent_path.len() == 0 { Ok(ROOT) } else { spec_resolve_path(t, parent_path, cwd) };
                    match parent {
                        Ok(id) => Ok((id, child)),
                        Err(e) => Err(e),
                    }
                }
            }
        }
    }
}

proof fn lemma_split_nonempty(p: Seq<char>)
    ensures
        split_slash(p).len() >= 1,
    decreases p.len(),
{
    if p.len() > 0 {
        lemma_split_nonempty(p.drop_last());
    }
}

pub fn is_whitespace(c: char) -> (r: bool)
    ensures
        r == spec_is_whitespace(c),
{
    let u = c as u32;
    (0x9 <= u && u <= 0xD) || u == 0x20 || u == 0x85 || u == 0xA0 || u == 0x1680
        || (0x2000 <= u && u <= 0x200A) || u == 0x2028 || u == 0x2029 || u == 0x202F
        || u == 0x205F || u == 0x3000
}

proof fn lemma_lead_le(p: Seq<char>)
    ensures
        lead_ws(p) <= p.len(),
    decreases p.len(),
{
    if p.len() > 0 && spec_is_whitespace(p[0]) {
        lemma_lead_le(p.subrange(1, p.len() as int));
    }
}


proof fn lemma_lookup_first(es: Seq<(Seq<char>, InodeId)>, name: Seq<char>, k: int)
    requires
        0 <= k <= es.len(),
        forall|j: int| 0 <= j < k ==> (#[trigger] es[j]).0 != name,
        k < es.len() ==> es[k].0 == name,
    ensures
        lookup(es, name) == (if k < es.len() { Some(es[k].1) } else { None::<InodeId> }),
    decreases k,
{
    if k > 0 {
        let rest = es.subrange(1, es.len() as int);
        assert(es[0].0 != name);
        assert forall|j: int| 0 <= j < k - 1 implies (#[trigger] rest[j]).0 != name by {
            assert(rest[j] == es[j + 1]);
        }
        if k < es.len() {
            assert(rest[k - 1] == es[k]);
        }
        lemma_lookup_first(rest, name, k - 1);
    }
}

proof fn lemma_split_push(p: Seq<char>, c: char)
    ensures
        split_slash(p.push(c)) == (if c == '/' {
            split_slash(p).push(Seq::empty())
        } else {
            split_slash(p).update(split_slash(p).len() - 1, split_slash(p).last().push(c))
        }),
{
    assert(p.push(c).drop_last() =~= p);
}

/// Whether `name` equals the characters `a..b` of `path`.
fn name_matches(name: &String, path: &str, a: usize, b: usize) -> (r: bool)
    requires
        a <= b <= path@.len(),
    ensures
        r == (name@ == path@.subrange(a as int, b as int)),
{
    let s = name.as_str();
    let n = s.unicode_len();
    if n != b - a {
        return false;
    }
    let mut i: usize = 0;
    while i < n
        invariant
            s@ == name@,
            n == s@.len(),
            n == b - a,
            a <= b <= path@.len(),
            0 <= i <= n,
            forall|j: int| 0 <= j < i ==> s@[j] == path@[a + j],
        decreases n - i,
    {
        if s.get_char(i) != path.get_char(a + i) {
            assert(s@[i as int] != path@.subrange(a as int, b as int)[i as int]);
            return false;
        }
        i = i + 1;
    }
    assert(name@ =~= path@.subrange(a as int, b as int));
    true
}

/// Index of the entry named by the characters `a..b` of `path`.
fn find_entry(es: &Vec<(String, InodeId)>, path: &str, a: usize, b: usize) -> (r: Option<usize>)
    requires
        a <= b <= path@.len(),
    ensures
        lookup(entries_view(es@), path@.subrange(a as int, b as int)) == (match r {
            Some(k) => Some(es@[k as int].1),
            None => None::<InodeId>,
        }),
        match r {
            Some(k) => k < es@.len() && es@[k as int].0@ == path@.subrange(a as int, b as int)
                && forall|j: int| 0 <= j < k ==> (#[trigger] es@[j]).0@ != path@.subrange(a as int, b as int),
            None => forall|j: int| 0 <= j < es@.len() ==> (#[trigger] es@[j]).0@ != path@.subrange(a as int, b as int),
        },
{
    let ghost name = path@.subrange(a as int, b as int);
    let ghost ev = entries_view(es@);
    let mut k: usize = 0;
    while k < es.len()
        invariant
            a <= b <= path@.len(),
            name == path@.subrange(a as int, b as int),
            ev == entries_view(es@),
            0 <= k <= es@.len(),
            forall|j: int| 0 <= j < k ==> (#[trigger] es@[j]).0@ != name,
        decreases es@.len() - k,
    {
        if name_matches(&es[k].0, path, a, b) {
            proof {
                assert forall|j: int| 0 <= j < k implies (#[trigger] ev[j]).0 != name by {
                    assert(ev[j].0 == es@[j].0@);
                }
                lemma_lookup_first(ev, name, k as int);
            }
            return Some(k);
        }
        k = k + 1;
    }
    proof {
        assert forall|j: int| 0 <= j < ev.len() implies (#[trigger] ev[j]).0 != name by {
            assert(ev[j].0 == es@[j].0@);
        }
        lemma_lookup_first(ev, name, ev.len() as int);
    }
    None
}

impl View for FileSystem {
    type V = Tree;

    closed spec fn view(&self) -> Tree {
        self.inodes@.map_values(|i: Inode| node_view(i))
    }
}

impl FileSystem {
    proof fn lemma_view(&self)
        ensures
            forall|k: InodeId| #[trigger] self@.contains_key(k) <==> self.inodes@.contains_key(k),
            forall|k: InodeId| self.inodes@.contains_key(k) ==> #[trigger] self@[k] == node_view(self.inodes@[k]),
    {
    }

    /// The inode number the next file or directory gets.
    pub closed spec fn next_id(&self) -> InodeId {
        self.next_inode
    }

    /// The component `a..b` of `path` taken from `cur`.
    fn step_component(&self, cur: InodeId, path: &str, a: usize, b: usize) -> (r: Result<InodeId, FsError>)
        requires
            a <= b <= path@.len(),
        ensures
            r == step(self@, cur, path@.subrange(a as int, b as int)),
    {
        let ghost c = path@.subrange(a as int, b as int);
        proof {
            self.lemma_view();
        }
        if b == a {
            return Ok(cur);
        }
        if b - a == 1 && path.get_char(a) == '.' {
            assert(c =~= seq!['.']);
            return Ok(cur);
        }
        proof {
            if c == seq!['.'] {
                assert(c[0] == path@[a as int]);
            }
        }
        let node = match self.inodes.get(&cur) {
            Some(n) => n,
            None => {
                assert(!self@.contains_key(cur));
                assert(c.len() > 0);
                assert(c != seq!['.']);
                return Err(FsError::NotFound);
            },
        };
        if b - a == 2 && path.get_char(a) == '.' && path.get_char(a + 1) == '.' {
            assert(c =~= seq!['.', '.']);
            return Ok(node.parent);
        }
        proof {
            if c == seq!['.', '.'] {
                assert(c[0] == path@[a as int]);
                assert(c[1] == path@[a + 1]);
            }
        }
        match &node.kind {
            InodeKind::Directory(es) => match find_entry(es, path, a, b) {
                Some(k) => Ok(es[k].1),
                None => Err(FsError::NotFound),
            },
            InodeKind::File(_) => Err(FsError::NotADirectory),
        }
    }

    /// Resolves the characters `lo..hi` of `path`, taken as a path.
    fn resolve_range(&self, path: &str, lo: usize, hi: usize, cwd: InodeId) -> (r: Result<InodeId, FsError>)
        requires
            lo <= hi <= path@.len(),
        ensures
            r == spec_resolve_path(self@, path@.subrange(lo as int, hi as int), cwd),
    {
        let ghost p = path@.subrange(lo as int, hi as int);
        let (tl, th) = trim_bounds_range(path, lo, hi);
        let ghost q = path@.subrange(tl as int, th as int);
        assert(q == trimmed(p));
        if tl == th {
            return Ok(cwd);
        }
        let start = if path.get_char(tl) == '/' { ROOT } else { cwd };
        assert(q[0] == path@[tl as int]);
        let mut cur: Result<InodeId, FsError> = Ok(start);
        let mut cs: usize = tl;
        let mut i: usize = tl;
        assert(q.subrange(0, 0) =~= Seq::<char>::empty());
        assert(split_slash(Seq::<char>::empty()).drop_last() =~= Seq::<Seq<char>>::empty());
        assert(path@.subrange(tl as int, tl as int) =~= Seq::<char>::empty());
        while i < th
            invariant
                lo <= tl <= cs <= i <= th <= hi <= path@.len(),
                q == path@.subrange(tl as int, th as int),
                split_slash(q.subrange(0, i - tl)).len() >= 1,
                walk(self@, start, split_slash(q.subrange(0, i - tl)).drop_last()) == cur,
                split_slash(q.subrange(0, i - tl)).last() == path@.subrange(cs as int, i as int),
            decreases th - i,
        {
            let c = path.get_char(i);
            let ghost pre = q.subrange(0, i - tl);
            proof {
                assert(q.subrange(0, i + 1 - tl) =~= pre.push(c));
                lemma_split_push(pre, c);
                lemma_split_nonempty(pre);
            }
            if c == '/' {
                let next = match cur {
                    Ok(d) => self.step_component(d, path, cs, i),
                    Err(e) => Err(e),
                };
                proof {
                    let parts = split_slash(pre);
                    assert(split_slash(pre.push(c)).drop_last() =~= parts);
                    assert(parts =~= parts.drop_last().push(parts.last()));
                    assert(walk(self@, start, parts) == next);
                    assert(path@.subrange(i + 1, i + 1) =~= Seq::<char>::empty());
                }
                cur = next;
                cs = i + 1;
            } else {
                proof {
                    let parts = split_slash(pre);
                    assert(split_slash(pre.push(c)).drop_last() =~= parts.drop_last());
                    assert(path@.subrange(cs as int, i + 1) =~= path@.subrange(cs as int, i as int).push(c));
                }
            }
            i = i + 1;
        }
        proof {
            assert(q.subrange(0, th - tl) =~= q);
            lemma_split_nonempty(q);
            let parts = split_slash(q);
            assert(parts =~= parts.drop_last().push(parts.last()));
        }
        match cur {
            Ok(d) => self.step_component(d, path, cs, th),
            Err(e) => Err(e),
        }
    }

    /// The inode that `path` names, from directory `cwd`.
    pub fn resolve_path(&self, path: &str, cwd: InodeId) -> (r: Result<InodeId, FsError>)
        ensures
            r == spec_resolve_path(self@, path@, cwd),
    {
        let n = path.unicode_len();
        assert(path@.subrange(0, n as int) =~= path@);
        self.resolve_range(path, 0, n, cwd)
    }
}

/// Bounds of the characters `lo..hi` of `p` without white space at either end.
pub(crate) fn trim_bounds_range(p: &str, lo: usize, hi: usize) -> (r: (usize, usize))
    requires
        lo <= hi <= p@.len(),
    ensures
        lo <= r.0 <= r.1 <= hi,
        p@.subrange(r.0 as int, r.1 as int) == trimmed(p@.subrange(lo as int, hi as int)),
{
    let ghost s = p@.subrange(lo as int, hi as int);
    let mut a: usize = lo;
    assert(p@.subrange(lo as int, hi as int) =~= s);
    while a < hi && is_whitespace(p.get_char(a))
        invariant
            lo <= a <= hi <= p@.len(),
            s == p@.subrange(lo as int, hi as int),
            lead_ws(s) == (a - lo) + lead_ws(p@.subrange(a as int, hi as int)),
        decreases hi - a,
    {
        proof {
            let t = p@.subrange(a as int, hi as int);
            assert(t.subrange(1, t.len() as int) =~= p@.subrange(a + 1, hi as int));
        }
        a = a + 1;
    }
    proof {
        if a < hi {
            assert(p@.subrange(a as int, hi as int)[0] == p@[a as int]);
        }
    }
    if a == hi {
        proof {
            lemma_lead_le(s);
        }
        assert(p@.subrange(hi as int, hi as int) =~= Seq::<char>::empty());
        return (hi, hi);
    }
    let mut b: usize = hi;
    assert(p@.subrange(lo as int, hi as int) =~= s);
    while b > a && is_whitespace(p.get_char(b - 1))
        invariant
            lo <= a < b <= hi <= p@.len(),
            s == p@.subrange(lo as int, hi as int),
            !spec_is_whitespace(p@[a as int]),
            trail_ws(s) == (hi - b) + trail_ws(p@.subrange(lo as int, b as int)),
        decreases b,
    {
        proof {
            let t = p@.subrange(lo as int, b as int);
            assert(t.drop_last() =~= p@.subrange(lo as int, b - 1));
            assert(b - 1 != a);
        }
        b = b - 1;
    }
    proof {
        assert(p@.subrange(lo as int, b as int).last() == p@[b - 1]);
        assert(trail_ws(p@.subrange(lo as int, b as int)) == 0);
        assert(lead_ws(p@.subrange(a as int, hi as int)) == 0);
        assert(p@.subrange(a as int, b as int) =~= s.subrange(a - lo, s.len() - trail_ws(s)));
    }
    (a, b)
}


/// `a` comes before `b` in character order (the order of their UTF-8 bytes).
pub open spec fn name_lt(a: Seq<char>, b: Seq<char>) -> bool
    decreases a.len(),
{
    if b.len() == 0 {
        false
    } else if a.len() == 0 {
        true
    } else if (a[0] as u32) != (b[0] as u32) {
        (a[0] as u32) < (b[0] as u32)
    } else {
        name_lt(a.subrange(1, a.len() as int), b.subrange(1, b.len() as int))
    }
}

/// The names of `es` are strictly increasing.
pub open spec fn sorted_names(es: Seq<(Seq<char>, InodeId)>) -> bool {
    forall|i: int, j: int| 0 <= i < j < es.len() ==> name_lt(es[i].0, es[j].0)
}

/// Every directory of `t` lists its names in strictly increasing order.
pub open spec fn dirs_sorted(t: Tree) -> bool {
    forall|k: InodeId| #[trigger] t.contains_key(k) ==> (t[k].kind matches NodeKind::Dir(es) ==> sorted_names(es))
}

proof fn lemma_lt_irrefl(a: Seq<char>)
    ensures
        !name_lt(a, a),
    decreases a.len(),
{
    if a.len() > 0 {
        lemma_lt_irrefl(a.subrange(1, a.len() as int));
    }
}

proof fn lemma_lt_total(a: Seq<char>, b: Seq<char>)
    requires
        a != b,
    ensures
        name_lt(a, b) || name_lt(b, a),
    decreases a.len(),
{
    if a.len() > 0 && b.len() > 0 && (a[0] as u32) == (b[0] as u32) {
        let a1 = a.subrange(1, a.len() as int);
        let b1 = b.subrange(1, b.len() as int);
        if a1 == b1 {
            vstd::utf8::char_u32_cast(a[0], a[0] as u32);
            vstd::utf8::char_u32_cast(b[0], b[0] as u32);
            assert(a[0] == b[0]);
            assert(a1.len() == b1.len());
            assert(a.len() == b.len());
            assert(a =~= b) by {
                assert forall|i: int| 0 <= i < a.len() implies a[i] == b[i] by {
                    if i > 0 {
                        assert(a[i] == a1[i - 1]);
                        assert(b[i] == b1[i - 1]);
                    }
                }
            }
        }
        lemma_lt_total(a1, b1);
    } else if a.len() == 0 && b.len() == 0 {
        assert(a =~= b);
    }
}

proof fn lemma_lt_trans(a: Seq<char>, b: Seq<char>, c: Seq<char>)
    requires
        name_lt(a, b),
        name_lt(b, c),
    ensures
        name_lt(a, c),
    decreases a.len(),
{
    if a.len() > 0 && (a[0] as u32) == (b[0] as u32) && (b[0] as u32) == (c[0] as u32) {
        lemma_lt_trans(a.subrange(1, a.len() as int), b.subrange(1, b.len() as int), c.subrange(1, c.len() as int));
    }
}

proof fn lemma_sorted_distinct(es: Seq<(Seq<char>, InodeId)>, i: int, j: int)
    requires
        sorted_names(es),
        0 <= i < es.len(),
        0 <= j < es.len(),
        i != j,
    ensures
        es[i].0 != es[j].0,
{
    if i < j {
        lemma_lt_irrefl(es[i].0);
    } else {
        lemma_lt_irrefl(es[j].0);
    }
}

proof fn lemma_sorted_insert(es: Seq<(Seq<char>, InodeId)>, name: Seq<char>, id: InodeId, i: int)
    requires
        sorted_names(es),
        0 <= i <= es.len(),
        forall|j: int| 0 <= j < i ==> name_lt((#[trigger] es[j]).0, name),
        i < es.len() ==> !name_lt(es[i].0, name),
        forall|j: int| 0 <= j < es.len() ==> (#[trigger] es[j]).0 != name,
    ensures
        sorted_names(es.insert(i, (name, id))),
{
    let n = es.insert(i, (name, id));
    if i < es.len() {
        lemma_lt_total(es[i].0, name);
    }
    assert forall|a: int, b: int| 0 <= a < b < n.len() implies name_lt(n[a].0, n[b].0) by {
        if b < i {
            assert(n[a] == es[a] && n[b] == es[b]);
        } else if b == i {
            assert(n[a] == es[a]);
        } else if a == i {
            assert(n[b] == es[b - 1]);
            if b - 1 > i {
                lemma_lt_trans(name, es[i].0, es[b - 1].0);
            }
        } else if a < i {
            assert(n[a] == es[a] && n[b] == es[b - 1]);
        } else {
            assert(n[a] == es[a - 1] && n[b] == es[b - 1]);
        }
    }
}

proof fn lemma_sorted_remove(es: Seq<(Seq<char>, InodeId)>, k: int)
    requires
        sorted_names(es),
        0 <= k < es.len(),
    ensures
        sorted_names(es.remove(k)),
        forall|j: int| 0 <= j < es.remove(k).len() ==> (#[trigger] es.remove(k)[j]).0 != es[k].0,
{
    let n = es.remove(k);
    assert forall|a: int, b: int| 0 <= a < b < n.len() implies name_lt(n[a].0, n[b].0) by {
        let a0 = if a < k { a } else { a + 1 };
        let b0 = if b < k { b } else { b + 1 };
        assert(n[a] == es[a0] && n[b] == es[b0]);
    }
    assert forall|j: int| 0 <= j < n.len() implies (#[trigger] n[j]).0 != es[k].0 by {
        let j0 = if j < k { j } else { j + 1 };
        assert(n[j] == es[j0]);
        lemma_sorted_distinct(es, j0, k);
    }
}

/// `es` with `(name, id)` inserted before the first entry not ordered
/// before `name`: the entries stay in name order.
pub open spec fn insert_sorted(es: Seq<(Seq<char>, InodeId)>, name: Seq<char>, id: InodeId) -> Seq<(Seq<char>, InodeId)>
    decreases es.len(),
{
    if es.len() == 0 {
        seq![(name, id)]
    } else if name_lt(es[0].0, name) {
        seq![es[0]] + insert_sorted(es.subrange(1, es.len() as int), name, id)
    } else {
        seq![(name, id)] + es
    }
}

/// `es` without its first entry named `name`.
pub open spec fn remove_first(es: Seq<(Seq<char>, InodeId)>, name: Seq<char>) -> Seq<(Seq<char>, InodeId)>
    decreases es.len(),
{
    if es.len() == 0 {
        es
    } else if es[0].0 == name {
        es.subrange(1, es.len() as int)
    } else {
        seq![es[0]] + remove_first(es.subrange(1, es.len() as int), name)
    }
}

/// What creating an entry of kind `kind` at `path` does: the result, and
/// the tree after it. The new inode is numbered `next`.
pub open spec fn spec_create(t: Tree, next: InodeId, path: Seq<char>, cwd: InodeId, kind: NodeKind) -> (Result<InodeId, FsError>, Tree) {
    match spec_resolve_parent(t, path, cwd) {
        Err(e) => (Err(e), t),
        Ok((pid, name)) => if !t.contains_key(pid) {
            (Err(FsError::NotFound), t)
        } else {
            match t[pid].kind {
                NodeKind::File(_) => (Err(FsError::NotADirectory), t),
                NodeKind::Dir(es) => if lookup(es, name) is Some {
                    (Err(FsError::AlreadyExists), t)
                } else {
                    (
                        Ok(next),
                        t.insert(next, Node { kind, parent: pid }).insert(
                            pid,
                            Node { kind: NodeKind::Dir(insert_sorted(es, name, next)), parent: t[pid].parent },
                        ),
                    )
                },
            }
        },
    }
}

/// What removing `path` does: the result, and the tree after it.
pub open spec fn spec_remove(t: Tree, path: Seq<char>, cwd: InodeId) -> (Result<(), FsError>, Tree) {
    match spec_resolve_parent(t, path, cwd) {
        Err(e) => (Err(e), t),
        Ok((pid, name)) => if !t.contains_key(pid) {
            (Err(FsError::NotFound), t)
        } else {
            match t[pid].kind {
                NodeKind::File(_) => (Err(FsError::NotADirectory), t),
                NodeKind::Dir(es) => match lookup(es, name) {
                    None => (Err(FsError::NotFound), t),
                    Some(cid) => if !t.contains_key(cid) {
                        (Err(FsError::NotFound), t)
                    } else if t[cid].kind matches NodeKind::Dir(ces) && ces.len() > 0 {
                        (Err(FsError::DirectoryNotEmpty), t)
                    } else {
                        (
                            Ok(()),
                            t.insert(pid, Node { kind: NodeKind::Dir(remove_first(es, name)), parent: t[pid].parent }).remove(cid),
                        )
                    },
                },
            }
        },
    }
}

/// The name under which directory node `n` lists inode `id` (the first such
/// entry), as a sequence of zero or one names.
pub open spec fn names_for(n: Node, id: InodeId) -> Seq<Seq<char>> {
    match n.kind {
        NodeKind::Dir(es) => if first_entry_for(es, id) < es.len() {
            seq![es[first_entry_for(es, id)].0]
        } else {
            Seq::empty()
        },
        NodeKind::File(_) => Seq::empty(),
    }
}

/// Index of the first entry of `es` for inode `id`, or `es.len()`.
pub open spec fn first_entry_for(es: Seq<(Seq<char>, InodeId)>, id: InodeId) -> int
    decreases es.len(),
{
    if es.len() == 0 {
        0
    } else if es[0].1 == id {
        0
    } else {
        1 + first_entry_for(es.subrange(1, es.len() as int), id)
    }
}

proof fn lemma_first_entry_for(es: Seq<(Seq<char>, InodeId)>, id: InodeId, k: int)
    requires
        0 <= k <= es.len(),
        forall|j: int| 0 <= j < k ==> (#[trigger] es[j]).1 != id,
        k < es.len() ==> es[k].1 == id,
    ensures
        first_entry_for(es, id) == k,
    decreases k,
{
    if k > 0 {
        let rest = es.subrange(1, es.len() as int);
        assert(es[0].1 != id);
        assert forall|j: int| 0 <= j < k - 1 implies (#[trigger] rest[j]).1 != id by {
            assert(rest[j] == es[j + 1]);
        }
        if k < es.len() {
            assert(rest[k - 1] == es[k]);
        }
        lemma_first_entry_for(rest, id, k - 1);
    }
}

/// The names on the way from `id` up to the root, innermost first, following
/// at most `fuel` parent links.
pub open spec fn up_names(t: Tree, id: InodeId, fuel: nat) -> Result<Seq<Seq<char>>, FsError>
    decreases fuel,
{
    if !t.contains_key(id) {
        Err(FsError::NotFound)
    } else if t[id].parent == id {
        Ok(Seq::empty())
    } else if fuel == 0 {
        Err(FsError::NotFound)
    } else if !t.contains_key(t[id].parent) {
        Err(FsError::NotFound)
    } else {
        match up_names(t, t[id].parent, (fuel - 1) as nat) {
            Ok(rest) => Ok(names_for(t[t[id].parent], id) + rest),
            Err(e) => Err(e),
        }
    }
}

/// The names `qs` joined with slashes.
pub open spec fn join_slash(qs: Seq<Seq<char>>) -> Seq<char>
    decreases qs.len(),
{
    if qs.len() == 0 {
        Seq::empty()
    } else if qs.len() == 1 {
        qs[0]
    } else {
        join_slash(qs.drop_last()) + seq!['/'] + qs.last()
    }
}

/// The absolute path of `id`: the root is `/`; any other inode is its names
/// from the root down, joined with slashes, after a leading slash.
pub open spec fn spec_get_path(t: Tree, id: InodeId, fuel: nat) -> Result<Seq<char>, FsError> {
    if id == ROOT {
        Ok(seq!['/'])
    } else {
        match up_names(t, id, fuel) {
            Ok(ns) => Ok(seq!['/'] + join_slash(ns.reverse())),
            Err(e) => Err(e),
        }
    }
}

proof fn lemma_insert_sorted_at(es: Seq<(Seq<char>, InodeId)>, name: Seq<char>, id: InodeId, i: int)
    requires
        0 <= i <= es.len(),
        forall|j: int| 0 <= j < i ==> name_lt((#[trigger] es[j]).0, name),
        i < es.len() ==> !name_lt(es[i].0, name),
    ensures
        insert_sorted(es, name, id) == es.insert(i, (name, id)),
    decreases i,
{
    if i == 0 {
        if es.len() > 0 {
            assert(seq![(name, id)] + es =~= es.insert(0, (name, id)));
        } else {
            assert(seq![(name, id)] =~= es.insert(0, (name, id)));
        }
    } else {
        let rest = es.subrange(1, es.len() as int);
        assert(name_lt(es[0].0, name));
        assert forall|j: int| 0 <= j < i - 1 implies name_lt((#[trigger] rest[j]).0, name) by {
            assert(rest[j] == es[j + 1]);
        }
        if i < es.len() {
            assert(rest[i - 1] == es[i]);
        }
        lemma_insert_sorted_at(rest, name, id, i - 1);
        assert(seq![es[0]] + rest.insert(i - 1, (name, id)) =~= es.insert(i, (name, id)));
    }
}

proof fn lemma_remove_first_at(es: Seq<(Seq<char>, InodeId)>, name: Seq<char>, k: int)
    requires
        0 <= k < es.len(),
        forall|j: int| 0 <= j < k ==> (#[trigger] es[j]).0 != name,
        es[k].0 == name,
    ensures
        remove_first(es, name) == es.remove(k),
    decreases k,
{
    if k == 0 {
        assert(es.subrange(1, es.len() as int) =~= es.remove(0));
    } else {
        let rest = es.subrange(1, es.len() as int);
        assert(es[0].0 != name);
        assert forall|j: int| 0 <= j < k - 1 implies (#[trigger] rest[j]).0 != name by {
            assert(rest[j] == es[j + 1]);
        }
        assert(rest[k - 1] == es[k]);
        lemma_remove_first_at(rest, name, k - 1);
        assert(seq![es[0]] + rest.remove(k - 1) =~= es.remove(k));
    }
}

/// Whether `a` comes before `b` in character order.
fn name_less(a: &String, b: &String) -> (r: bool)
    ensures
        r == name_lt(a@, b@),
{
    let sa = a.as_str();
    let sb = b.as_str();
    let na = sa.unicode_len();
    let nb = sb.unicode_len();
    let mut i: usize = 0;
    assert(a@.subrange(0, na as int) =~= a@);
    assert(b@.subrange(0, nb as int) =~= b@);
    while i < na && i < nb
        invariant
            sa@ == a@,
            sb@ == b@,
            na == a@.len(),
            nb == b@.len(),
            0 <= i <= na,
            i <= nb,
            name_lt(a@, b@) == name_lt(a@.subrange(i as int, na as int), b@.subrange(i as int, nb as int)),
        decreases na - i,
    {
        let ca = sa.get_char(i);
        let cb = sb.get_char(i);
        proof {
            let x = a@.subrange(i as int, na as int);
            let y = b@.subrange(i as int, nb as int);
            assert(x[0] == ca && y[0] == cb);
            assert(x.subrange(1, x.len() as int) =~= a@.subrange(i + 1, na as int));
            assert(y.subrange(1, y.len() as int) =~= b@.subrange(i + 1, nb as int));
        }
        if (ca as u32) != (cb as u32) {
            return (ca as u32) < (cb as u32);
        }
        i = i + 1;
    }
    proof {
        assert(b@.subrange(i as int, nb as int).len() == nb - i);
    }
    i == na && i < nb
}

impl FileSystem {
    /// Every inode number is below the next one to hand out, and every
    /// directory lists its names in strictly increasing order (so each name
    /// once).
    pub closed spec fn wf(&self) -> bool {
        &&& forall|k: InodeId| #[trigger] self.inodes@.contains_key(k) ==> k < self.next_inode
        &&& dirs_sorted(self@)
    }

    /// Number of inodes.
    pub closed spec fn inode_count(&self) -> nat {
        self.inodes@.len()
    }

    /// Hands out the next inode number.
    fn alloc_inode(&mut self) -> (id: InodeId)
        requires
            old(self).next_id() < u64::MAX,
        ensures
            id == old(self).next_id(),
            final(self).next_id() == old(self).next_id() + 1,
            final(self).inodes == old(self).inodes,
    {
        let id = self.next_inode;
        self.next_inode = id + 1;
        id
    }

    /// Whether another inode number can be handed out.
    pub fn can_allocate(&self) -> (r: bool)
        ensures
            r == (self.next_id() < u64::MAX),
    {
        self.next_inode < u64::MAX
    }

    /// Whether `inode` exists and is a directory.
    pub fn is_directory(&self, inode: InodeId) -> (r: bool)
        ensures
            r == (self@.contains_key(inode) && self@[inode].kind is Dir),
    {
        match self.inodes.get(&inode) {
            Some(n) => match &n.kind {
                InodeKind::Directory(_) => true,
                InodeKind::File(_) => false,
            },
            None => false,
        }
    }

    /// A file's content.
    pub fn read_file(&self, inode: InodeId) -> (r: Result<&[u8], FsError>)
        ensures
            match r {
                Ok(d) => self@.contains_key(inode) && self@[inode].kind == NodeKind::File(d@),
                Err(e) => if !self@.contains_key(inode) { e == FsError::NotFound } else {
                    self@[inode].kind is Dir && e == FsError::NotAFile
                },
            },
    {
        let node = match self.inodes.get(&inode) {
            Some(n) => n,
            None => {
                return Err(FsError::NotFound);
            },
        };
        match &node.kind {
            InodeKind::File(data) => Ok(data.as_slice()),
            InodeKind::Directory(_) => Err(FsError::NotAFile),
        }
    }

    /// A directory's entries in name order: each name, and whether it is a
    /// directory.
    pub fn list_dir(&self, inode: InodeId) -> (r: Result<Vec<(String, bool)>, FsError>)
        requires
            self.wf(),
        ensures
            r matches Ok(v) ==> forall|i: int, j: int| 0 <= i < j < v@.len() ==> name_lt(v@[i].0@, v@[j].0@),
            !self@.contains_key(inode) ==> r == Err::<Vec<(String, bool)>, FsError>(FsError::NotFound),
            self@.contains_key(inode) && self@[inode].kind is File ==> r == Err::<Vec<(String, bool)>, FsError>(FsError::NotADirectory),
            self@.contains_key(inode) ==> match self@[inode].kind {
                NodeKind::Dir(es) => if forall|k: int| 0 <= k < es.len() ==> self@.contains_key(#[trigger] es[k].1) {
                    r matches Ok(v) && v@.len() == es.len() && forall|k: int| 0 <= k < es.len()
                        ==> (#[trigger] v@[k]).0@ == es[k].0 && v@[k].1 == (self@[es[k].1].kind is Dir)
                } else {
                    r == Err::<Vec<(String, bool)>, FsError>(FsError::NotFound)
                },
                NodeKind::File(_) => true,
            },
    {
        let node = match self.inodes.get(&inode) {
            Some(n) => n,
            None => {
                return Err(FsError::NotFound);
            },
        };
        match &node.kind {
            InodeKind::Directory(entries) => {
                let ghost es = entries_view(entries@);
                let mut result: Vec<(String, bool)> = Vec::new();
                let mut k: usize = 0;
                while k < entries.len()
                    invariant
                        self@.contains_key(inode),
                        self@[inode].kind == NodeKind::Dir(es),
                        es == entries_view(entries@),
                        0 <= k <= entries@.len(),
                        result@.len() == k,
                        forall|j: int| 0 <= j < k ==> self@.contains_key(#[trigger] es[j].1),
                        forall|j: int| 0 <= j < k ==> (#[trigger] result@[j]).0@ == es[j].0 && result@[j].1 == (self@[es[j].1].kind is Dir),
                    decreases entries@.len() - k,
                {
                    let child_id = entries[k].1;
                    let child = match self.inodes.get(&child_id) {
                        Some(c) => c,
                        None => {
                            assert(!self@.contains_key(es[k as int].1));
                            return Err(FsError::NotFound);
                        },
                    };
                    let is_dir = match &child.kind {
                        InodeKind::Directory(_) => true,
                        InodeKind::File(_) => false,
                    };
                    result.push((entries[k].0.clone(), is_dir));
                    k = k + 1;
                }
                Ok(result)
            },
            InodeKind::File(_) => Err(FsError::NotADirectory),
        }
    }
}

/// An empty filesystem: the root directory alone, its own parent.
pub fn init() -> (r: FileSystem)
    ensures
        r.wf(),
        r@ == Map::<InodeId, Node>::empty().insert(ROOT, Node { kind: NodeKind::Dir(Seq::empty()), parent: ROOT }),
        r.next_id() == 1,
{
    let mut inodes: BTreeMap<InodeId, Inode> = BTreeMap::new();
    inodes.insert(ROOT, Inode { kind: InodeKind::Directory(Vec::new()), parent: ROOT });
    let r = FileSystem { inodes, next_inode: 1 };
    proof {
        let e: Seq<(String, InodeId)> = Seq::empty();
        assert(entries_view(e) =~= Seq::empty());
        assert(r@ =~= Map::<InodeId, Node>::empty().insert(ROOT, Node { kind: NodeKind::Dir(Seq::empty()), parent: ROOT }));
    }
    r
}


proof fn lemma_entries_insert(es: Seq<(String, InodeId)>, i: int, x: (String, InodeId))
    requires
        0 <= i <= es.len(),
    ensures
        entries_view(es.insert(i, x)) == entries_view(es).insert(i, (x.0@, x.1)),
{
    assert(entries_view(es.insert(i, x)) =~= entries_view(es).insert(i, (x.0@, x.1)));
}

proof fn lemma_entries_remove(es: Seq<(String, InodeId)>, i: int)
    requires
        0 <= i < es.len(),
    ensures
        entries_view(es.remove(i)) == entries_view(es).remove(i),
{
    assert(entries_view(es.remove(i)) =~= entries_view(es).remove(i));
}

/// Index before which `name` goes to keep `es` in name order.
fn insertion_index(es: &Vec<(String, InodeId)>, name: &String) -> (i: usize)
    ensures
        i <= es@.len(),
        forall|j: int| 0 <= j < i ==> name_lt((#[trigger] es@[j]).0@, name@),
        i < es@.len() ==> !name_lt(es@[i as int].0@, name@),
{
    let mut i: usize = 0;
    while i < es.len() && name_less(&es[i].0, name)
        invariant
            0 <= i <= es@.len(),
            forall|j: int| 0 <= j < i ==> name_lt((#[trigger] es@[j]).0@, name@),
        decreases es@.len() - i,
    {
        i = i + 1;
    }
    i
}

/// A copy of `content`.
fn copy_bytes(content: &[u8]) -> (r: Vec<u8>)
    ensures
        r@ == content@,
{
    let mut r: Vec<u8> = Vec::new();
    let mut i: usize = 0;
    while i < content.len()
        invariant
            0 <= i <= content@.len(),
            r@ == content@.subrange(0, i as int),
        decreases content@.len() - i,
    {
        r.push(content[i]);
        i = i + 1;
        assert(r@ =~= content@.subrange(0, i as int));
    }
    r
}

/// What `write_file` does: the result, and the tree after it.
pub open spec fn spec_write(t: Tree, next: InodeId, path: Seq<char>, content: Seq<u8>, cwd: InodeId) -> (Result<(), FsError>, Tree) {
    match spec_resolve_path(t, path, cwd) {
        Ok(id) => if !t.contains_key(id) {
            (Err(FsError::NotFound), t)
        } else {
            match t[id].kind {
                NodeKind::File(_) => (Ok(()), t.insert(id, Node { kind: NodeKind::File(content), parent: t[id].parent })),
                NodeKind::Dir(_) => (Err(FsError::NotAFile), t),
            }
        },
        Err(FsError::NotFound) => {
            let (cr, t1) = spec_create(t, next, path, cwd, NodeKind::File(Seq::empty()));
            match cr {
                Ok(id) => (Ok(()), t1.insert(id, Node { kind: NodeKind::File(content), parent: t1[id].parent })),
                Err(e) => (Err(e), t1),
            }
        },
        Err(e) => (Err(e), t),
    }
}

impl FileSystem {
    /// The directory that would hold the last component of `path`, and the
    /// component's name.
    #[verifier::rlimit(40)]
    pub fn resolve_parent(&self, path: &str, cwd: InodeId) -> (r: Result<(InodeId, String), FsError>)
        ensures
            match (r, spec_resolve_parent(self@, path@, cwd)) {
                (Ok((id, name)), Ok((sid, sname))) => id == sid && name@ == sname,
                (Err(e), Err(se)) => e == se,
                _ => false,
            },
    {
        let n = path.unicode_len();
        assert(path@.subrange(0, n as int) =~= path@);
        let (tl, th) = trim_bounds_range(path, 0, n);
        let ghost q = path@.subrange(tl as int, th as int);
        if tl == th {
            return Err(FsError::InvalidPath);
        }
        if th - tl == 1 && path.get_char(tl) == '/' {
            assert(q =~= seq!['/']);
            return Err(FsError::InvalidPath);
        }
        proof {
            if q == seq!['/'] {
                assert(q[0] == path@[tl as int]);
            }
        }
        let mut e: usize = th;
        assert(path@.subrange(tl as int, th as int) =~= q);
        while e > tl && path.get_char(e - 1) == '/'
            invariant
                0 <= tl <= e <= th <= path@.len(),
                q == path@.subrange(tl as int, th as int),
                trail_slashes(q) == (th - e) + trail_slashes(path@.subrange(tl as int, e as int)),
            decreases e,
        {
            proof {
                let t = path@.subrange(tl as int, e as int);
                assert(t.drop_last() =~= path@.subrange(tl as int, e - 1));
                assert(t.last() == path@[e - 1]);
            }
            e = e - 1;
        }
        proof {
            if e > tl {
                assert(path@.subrange(tl as int, e as int).last() == path@[e - 1]);
            }
            assert(q.subrange(0, q.len() - trail_slashes(q)) =~= path@.subrange(tl as int, e as int));
        }
        if e == tl {
            return Err(FsError::InvalidPath);
        }
        let ghost rr = path@.subrange(tl as int, e as int);
        let mut k: usize = e;
        while k > tl && path.get_char(k - 1) != '/'
            invariant
                0 <= tl <= k <= e <= path@.len(),
                rr == path@.subrange(tl as int, e as int),
                last_slash(rr) == last_slash(path@.subrange(tl as int, k as int)),
            decreases k,
        {
            proof {
                let t = path@.subrange(tl as int, k as int);
                assert(t.drop_last() =~= path@.subrange(tl as int, k - 1));
                assert(t.last() == path@[k - 1]);
            }
            k = k - 1;
        }
        proof {
            if k > tl {
                assert(path@.subrange(tl as int, k as int).last() == path@[k - 1]);
            }
        }
        if k == tl {
            let name = String::from_str(path.substring_char(tl, e));
            return Ok((cwd, name));
        }
        proof {
            assert(rr.subrange(0, k - 1 - tl) =~= path@.subrange(tl as int, k - 1));
            assert(rr.subrange(k - tl, rr.len() as int) =~= path@.subrange(k as int, e as int));
        }
        if k == e {
            return Err(FsError::InvalidPath);
        }
        let parent = if k - 1 == tl { Ok(ROOT) } else { self.resolve_range(path, tl, k - 1, cwd) };
        match parent {
            Ok(id) => Ok((id, String::from_str(path.substring_char(k, e)))),
            Err(err) => Err(err),
        }
    }

    /// Creates an empty file (or directory) at `path`.
    fn create_node(&mut self, path: &str, cwd: InodeId, is_dir: bool) -> (r: Result<InodeId, FsError>)
        requires
            old(self).wf(),
            old(self).next_id() < u64::MAX,
        ensures
            final(self).wf(),
            (r, final(self)@) == spec_create(old(self)@, old(self).next_id(), path@, cwd,
                if is_dir { NodeKind::Dir(Seq::empty()) } else { NodeKind::File(Seq::empty()) }),
            final(self).next_id() == (if r is Ok { old(self).next_id() + 1 } else { old(self).next_id() as int }),
    {
        let (parent_id, name) = match self.resolve_parent(path, cwd) {
            Ok(x) => x,
            Err(e) => {
                return Err(e);
            },
        };
        proof {
            self.lemma_view();
        }
        let name_str = name.as_str();
        let nlen = name_str.unicode_len();
        assert(name_str@.subrange(0, nlen as int) =~= name@);
        let idx = match self.inodes.get(&parent_id) {
            None => {
                return Err(FsError::NotFound);
            },
            Some(p) => match &p.kind {
                InodeKind::Directory(es) => match find_entry(es, name_str, 0, nlen) {
                    Some(_) => {
                        return Err(FsError::AlreadyExists);
                    },
                    None => {
                        let i = insertion_index(es, &name);
                        proof {
                            let ev = entries_view(es@);
                            assert(self@[parent_id].kind == NodeKind::Dir(ev));
                            assert forall|j: int| 0 <= j < i implies name_lt((#[trigger] ev[j]).0, name@) by {
                                assert(ev[j].0 == es@[j].0@);
                            }
                            if i < ev.len() {
                                assert(ev[i as int].0 == es@[i as int].0@);
                            }
                            assert forall|j: int| 0 <= j < ev.len() implies (#[trigger] ev[j]).0 != name@ by {
                                assert(ev[j].0 == es@[j].0@);
                            }
                        }
                        i
                    },
                },
                InodeKind::File(_) => {
                    return Err(FsError::NotADirectory);
                },
            },
        };
        let ghost t = self@;
        let ghost old_parent = self.inodes@[parent_id];
        let id = self.alloc_inode();
        let new_kind = if is_dir { InodeKind::Directory(Vec::new()) } else { InodeKind::File(Vec::new()) };
        self.inodes.insert(id, Inode { kind: new_kind, parent: parent_id });
        let removed = self.inodes.remove(&parent_id);
        match removed {
            Some(p) => {
                let parent = p.parent;
                match p.kind {
                    InodeKind::Directory(es) => {
                        let mut es = es;
                        let ghost old_es = es@;
                        es.insert(idx, (name, id));
                        proof {
                            lemma_entries_insert(old_es, idx as int, (name, id));
                            lemma_insert_sorted_at(entries_view(old_es), name@, id, idx as int);
                        }
                        self.inodes.insert(parent_id, Inode { kind: InodeKind::Directory(es), parent });
                    },
                    InodeKind::File(d) => {
                        self.inodes.insert(parent_id, Inode { kind: InodeKind::File(d), parent });
                    },
                }
            },
            None => {},
        }
        proof {
            let e0: Seq<(String, InodeId)> = Seq::empty();
            assert(entries_view(e0) =~= Seq::empty());
            let nk = if is_dir { NodeKind::Dir(Seq::empty()) } else { NodeKind::File(Seq::empty()) };
            match t[parent_id].kind {
                NodeKind::Dir(pes) => {
                    assert(self@ =~= t.insert(id, Node { kind: nk, parent: parent_id }).insert(
                        parent_id, Node { kind: NodeKind::Dir(insert_sorted(pes, name@, id)), parent: t[parent_id].parent }));
                    assert(t.contains_key(parent_id));
                    assert(sorted_names(pes));
                    lemma_sorted_insert(pes, name@, id, idx as int);
                    assert forall|k: InodeId| #[trigger] self@.contains_key(k)
                        implies (self@[k].kind matches NodeKind::Dir(es) ==> sorted_names(es)) by {
                        if k != parent_id && k != id {
                            assert(t.contains_key(k));
                        }
                    }
                },
                NodeKind::File(_) => {},
            }
        }
        Ok(id)
    }

    /// Creates an empty file at `path`, relative to `cwd`.
    pub fn create_file(&mut self, path: &str, cwd: InodeId) -> (r: Result<InodeId, FsError>)
        requires
            old(self).wf(),
            old(self).next_id() < u64::MAX,
        ensures
            final(self).wf(),
            (r, final(self)@) == spec_create(old(self)@, old(self).next_id(), path@, cwd, NodeKind::File(Seq::empty())),
            final(self).next_id() == (if r is Ok { old(self).next_id() + 1 } else { old(self).next_id() as int }),
    {
        self.create_node(path, cwd, false)
    }

    /// Creates an empty directory at `path`, relative to `cwd`.
    pub fn create_dir(&mut self, path: &str, cwd: InodeId) -> (r: Result<InodeId, FsError>)
        requires
            old(self).wf(),
            old(self).next_id() < u64::MAX,
        ensures
            final(self).wf(),
            (r, final(self)@) == spec_create(old(self)@, old(self).next_id(), path@, cwd, NodeKind::Dir(Seq::empty())),
            final(self).next_id() == (if r is Ok { old(self).next_id() + 1 } else { old(self).next_id() as int }),
    {
        self.create_node(path, cwd, true)
    }
}


/// Index of the first entry of `es` for inode `id`.
fn find_child(es: &Vec<(String, InodeId)>, id: InodeId) -> (r: Option<usize>)
    ensures
        match r {
            Some(k) => k < es@.len() && es@[k as int].1 == id && forall|j: int| 0 <= j < k ==> (#[trigger] es@[j]).1 != id,
            None => forall|j: int| 0 <= j < es@.len() ==> (#[trigger] es@[j]).1 != id,
        },
{
    let mut k: usize = 0;
    while k < es.len()
        invariant
            0 <= k <= es@.len(),
            forall|j: int| 0 <= j < k ==> (#[trigger] es@[j]).1 != id,
        decreases es@.len() - k,
    {
        if es[k].1 == id {
            return Some(k);
        }
        k = k + 1;
    }
    None
}

impl FileSystem {
    /// Removes the file or empty directory at `path`, relative to `cwd`.
    pub fn remove(&mut self, path: &str, cwd: InodeId) -> (r: Result<(), FsError>)
        requires
            old(self).wf(),
        ensures
            final(self).wf(),
            final(self).next_id() == old(self).next_id(),
            (r, final(self)@) == spec_remove(old(self)@, path@, cwd),
            r is Ok ==> (spec_resolve_parent(old(self)@, path@, cwd) matches Ok((pid, name))
                && (final(self)@.contains_key(pid) ==> (final(self)@[pid].kind matches NodeKind::Dir(es) && lookup(es, name) is None))),
    {
        let (parent_id, name) = match self.resolve_parent(path, cwd) {
            Ok(x) => x,
            Err(e) => {
                return Err(e);
            },
        };
        proof {
            self.lemma_view();
        }
        let name_str = name.as_str();
        let nlen = name_str.unicode_len();
        assert(name_str@.subrange(0, nlen as int) =~= name@);
        let (k, child_id) = match self.inodes.get(&parent_id) {
            None => {
                return Err(FsError::NotFound);
            },
            Some(p) => match &p.kind {
                InodeKind::Directory(es) => match find_entry(es, name_str, 0, nlen) {
                    Some(k) => (k, es[k].1),
                    None => {
                        return Err(FsError::NotFound);
                    },
                },
                InodeKind::File(_) => {
                    return Err(FsError::NotADirectory);
                },
            },
        };
        match self.inodes.get(&child_id) {
            None => {
                return Err(FsError::NotFound);
            },
            Some(c) => match &c.kind {
                InodeKind::Directory(ces) => {
                    if ces.len() > 0 {
                        return Err(FsError::DirectoryNotEmpty);
                    }
                    assert(entries_view(ces@) =~= Seq::empty());
                },
                InodeKind::File(_) => {},
            },
        }
        let ghost t = self@;
        let removed = self.inodes.remove(&parent_id);
        match removed {
            Some(p) => {
                let parent = p.parent;
                match p.kind {
                    InodeKind::Directory(es) => {
                        let mut es = es;
                        let ghost old_es = es@;
                        es.remove(k);
                        proof {
                            lemma_entries_remove(old_es, k as int);
                            let ev = entries_view(old_es);
                            assert forall|j: int| 0 <= j < k implies (#[trigger] ev[j]).0 != name@ by {
                                assert(ev[j].0 == old_es[j].0@);
                            }
                            lemma_remove_first_at(ev, name@, k as int);
                        }
                        self.inodes.insert(parent_id, Inode { kind: InodeKind::Directory(es), parent });
                    },
                    InodeKind::File(d) => {
                        self.inodes.insert(parent_id, Inode { kind: InodeKind::File(d), parent });
                    },
                }
            },
            None => {},
        }
        self.inodes.remove(&child_id);
        proof {
            match t[parent_id].kind {
                NodeKind::Dir(pes) => {
                    assert(self@ =~= t.insert(parent_id, Node { kind: NodeKind::Dir(remove_first(pes, name@)), parent: t[parent_id].parent }).remove(child_id));
                    assert(t.contains_key(parent_id));
                    assert(sorted_names(pes));
                    lemma_sorted_remove(pes, k as int);
                    assert(pes[k as int].0 == name@);
                    let rest = pes.remove(k as int);
                    lemma_lookup_first(rest, name@, rest.len() as int);
                    assert forall|x: InodeId| #[trigger] self@.contains_key(x)
                        implies (self@[x].kind matches NodeKind::Dir(es) ==> sorted_names(es)) by {
                        if x != parent_id {
                            assert(t.contains_key(x));
                        }
                    }
                },
                NodeKind::File(_) => {},
            }
        }
        Ok(())
    }

    /// Replaces the content of inode `id`, a file, with `content`.
    fn set_content(&mut self, id: InodeId, content: &[u8])
        requires
            old(self).wf(),
            old(self)@.contains_key(id),
            old(self)@[id].kind is File,
        ensures
            final(self).wf(),
            final(self).next_id() == old(self).next_id(),
            final(self)@ == old(self)@.insert(id, Node { kind: NodeKind::File(content@), parent: old(self)@[id].parent }),
    {
        proof {
            self.lemma_view();
        }
        let removed = self.inodes.remove(&id);
        match removed {
            Some(node) => {
                let data = copy_bytes(content);
                self.inodes.insert(id, Inode { kind: InodeKind::File(data), parent: node.parent });
            },
            None => {},
        }
        assert(self@ =~= old(self)@.insert(id, Node { kind: NodeKind::File(content@), parent: old(self)@[id].parent }));
        assert forall|x: InodeId| #[trigger] self@.contains_key(x)
            implies (self@[x].kind matches NodeKind::Dir(es) ==> sorted_names(es)) by {
            if x != id {
                assert(old(self)@.contains_key(x));
            }
        }
    }

    /// Writes `content` to the file at `path`, creating it when the path
    /// names nothing yet.
    pub fn write_file(&mut self, path: &str, content: &[u8], cwd: InodeId) -> (r: Result<(), FsError>)
        requires
            old(self).wf(),
            old(self).next_id() < u64::MAX,
        ensures
            final(self).wf(),
            (r, final(self)@) == spec_write(old(self)@, old(self).next_id(), path@, content@, cwd),
    {
        proof {
            self.lemma_view();
        }
        match self.resolve_path(path, cwd) {
            Ok(id) => {
                match self.inodes.get(&id) {
                    None => Err(FsError::NotFound),
                    Some(node) => match &node.kind {
                        InodeKind::File(_) => {
                            self.set_content(id, content);
                            Ok(())
                        },
                        InodeKind::Directory(_) => Err(FsError::NotAFile),
                    },
                }
            },
            Err(FsError::NotFound) => {
                let id = match self.create_file(path, cwd) {
                    Ok(id) => id,
                    Err(e) => {
                        return Err(e);
                    },
                };
                proof {
                    self.lemma_view();
                    assert(self@.contains_key(id));
                }
                self.set_content(id, content);
                Ok(())
            },
            Err(e) => Err(e),
        }
    }

    /// The absolute path of `inode`, found by walking up its parents (at
    /// most once per inode).
    pub fn get_path(&self, inode: InodeId) -> (r: Result<String, FsError>)
        ensures
            match (r, spec_get_path(self@, inode, self.inode_count())) {
                (Ok(s), Ok(p)) => s@ == p,
                (Err(e), Err(pe)) => e == pe,
                _ => false,
            },
    {
        proof {
            self.lemma_view();
            reveal_strlit("/");
        }
        if inode == ROOT {
            return Ok(String::from_str("/"));
        }
        let t = Ghost(self@);
        let fuel = self.inodes.len();
        assert(fuel == self.inode_count());
        let mut parts: Vec<String> = Vec::new();
        let mut current = inode;
        let mut steps: usize = 0;
        proof {
            assert(parts@.map_values(|x: String| x@) =~= Seq::<Seq<char>>::empty());
        }
        loop
            invariant
                t@ == self@,
                inode != ROOT,
                fuel == self.inode_count(),
                0 <= steps <= fuel,
                forall|k: InodeId| #[trigger] self@.contains_key(k) <==> self.inodes@.contains_key(k),
                up_names(self@, inode, fuel as nat) == match up_names(self@, current, (fuel - steps) as nat) {
                    Ok(rest) => Ok(parts@.map_values(|x: String| x@) + rest),
                    Err(e) => Err::<Seq<Seq<char>>, FsError>(e),
                },
            ensures
                inode != ROOT,
                fuel == self.inode_count(),
                up_names(self@, inode, fuel as nat) == Ok::<Seq<Seq<char>>, FsError>(parts@.map_values(|x: String| x@)),
            decreases fuel - steps,
        {
            let node = match self.inodes.get(&current) {
                Some(n) => n,
                None => {
                    return Err(FsError::NotFound);
                },
            };
            let parent = node.parent;
            if parent == current {
                proof {
                    assert(up_names(self@, current, (fuel - steps) as nat) == Ok::<Seq<Seq<char>>, FsError>(Seq::empty()));
                    assert(parts@.map_values(|x: String| x@) + Seq::<Seq<char>>::empty() =~= parts@.map_values(|x: String| x@));
                }
                break;
            }
            if steps == fuel {
                return Err(FsError::NotFound);
            }
            let pnode = match self.inodes.get(&parent) {
                Some(n) => n,
                None => {
                    return Err(FsError::NotFound);
                },
            };
            let ghost before = parts@.map_values(|x: String| x@);
            match &pnode.kind {
                InodeKind::Directory(entries) => {
                    let ghost ev = entries_view(entries@);
                    match find_child(entries, current) {
                        Some(k) => {
                            parts.push(entries[k].0.clone());
                            proof {
                                assert(ev[k as int].1 == current);
                                assert forall|j: int| 0 <= j < k implies (#[trigger] ev[j]).1 != current by {
                                    assert(ev[j].1 == entries@[j].1);
                                }
                                lemma_first_entry_for(ev, current, k as int);
                                assert(self@[parent] == node_view(*pnode));
                                assert(names_for(self@[parent], current) == seq![ev[k as int].0]);
                                assert(parts@.map_values(|x: String| x@) =~= before + seq![ev[k as int].0]);
                            }
                        },
                        None => {
                            proof {
                                assert forall|c: int| 0 <= c < ev.len() implies (#[trigger] ev[c]).1 != current by {
                                    assert(ev[c].1 == entries@[c].1);
                                }
                                lemma_first_entry_for(ev, current, ev.len() as int);
                                assert(self@[parent] == node_view(*pnode));
                                assert(names_for(self@[parent], current) == Seq::<Seq<char>>::empty());
                                assert(before + names_for(self@[parent], current) =~= before);
                            }
                        },
                    }
                },
                InodeKind::File(_) => {
                    assert(before + names_for(self@[parent], current) =~= before);
                },
            }
            proof {
                let f = (fuel - steps) as nat;
                let nm = names_for(self@[parent], current);
                assert(parts@.map_values(|x: String| x@) == before + nm);
                assert(self@[current].parent == parent);
                match up_names(self@, parent, (f - 1) as nat) {
                    Ok(rest) => {
                        assert(up_names(self@, current, f) == Ok::<Seq<Seq<char>>, FsError>(nm + rest));
                        assert(before + (nm + rest) =~= (before + nm) + rest);
                    },
                    Err(e) => {
                        assert(up_names(self@, current, f) == Err::<Seq<Seq<char>>, FsError>(e));
                    },
                }
            }
            current = parent;
            steps = steps + 1;
        }
        let ghost ns = parts@.map_values(|x: String| x@);
        let mut path = String::from_str("/");
        let n = parts.len();
        let mut i: usize = 0;
        assert(ns.reverse().subrange(0, 0) =~= Seq::<Seq<char>>::empty());
        while i < n
            invariant
                n == parts@.len(),
                ns == parts@.map_values(|x: String| x@),
                0 <= i <= n,
                path@ == seq!['/'] + join_slash(ns.reverse().subrange(0, i as int)),
            decreases n - i,
        {
            let ghost prev = path@;
            if i > 0 {
                path.append("/");
            }
            path.append(parts[n - 1 - i].as_str());
            proof {
                reveal_strlit("/");
                assert(ns[n - 1 - i] == parts@[n - 1 - i]@);
                let rv = ns.reverse();
                let pre1 = rv.subrange(0, i + 1);
                assert(pre1.drop_last() =~= rv.subrange(0, i as int));
                assert(pre1.last() == parts@[n - 1 - i]@);
                if i == 0 {
                    assert(pre1.len() == 1);
                }
                assert(path@ =~= seq!['/'] + join_slash(pre1));
            }
            i = i + 1;
        }
        assert(ns.reverse().subrange(0, n as int) =~= ns.reverse());
        Ok(path)
    }
}

} // verus!
