//! The namespace engine: the inode table and its allocation invariants.
//!
//! Every virtual path that is ever resolved gets exactly one entry with a
//! stable inode id. Ids grow monotonically from just above the reserved root
//! id, are never reused, and the committed path-to-entry mapping is a
//! bijection. Resolution is driven by the outcome the wire client reports for
//! the path's object: a document yields an ordinary directory, an
//! access-denied outcome a restricted placeholder directory, and any other
//! failure yields no entry at all.

use vstd::prelude::*;

use crate::doc::spec_find_interface;
use crate::doc::NodeInfo;
use crate::doc::NodeInfoView;

verus! {

/// The fixed inode id of the mount root.
pub const ROOT_INO: u64 = 1;

/// Validity window, in seconds, of every attribute answer.
pub const TTL_SEC: u64 = 10;

/// Sentinel creation time (seconds) stamped on every entry: the filesystem
/// does not track bus-side mutation times.
pub const CREATE_TIME_SEC: u64 = 1381237736;

/// What an entry is: the closed classification of virtual paths.
#[derive(Debug, PartialEq, Eq, Clone, Copy, Structural)]
pub enum PathKind {
    Root,
    BusNameDir,
    ObjectDir,
    InterfaceDir,
    MemberFile,
}

/// POSIX kind of an entry as the host protocol sees it.
#[derive(Debug, PartialEq, Eq, Clone, Copy, Structural)]
pub enum FileKind {
    Directory,
    Regular,
}

/// POSIX-style attribute snapshot of an entry.
#[derive(Debug, PartialEq, Eq, Clone, Copy, Structural)]
pub struct Attrs {
    pub ino: u64,
    pub size: u64,
    pub kind: FileKind,
    pub perm: u16,
    pub nlink: u32,
    pub uid: u32,
    pub gid: u32,
    pub crtime_sec: u64,
}

/// Outcome of introspecting one object over the wire. Any transport failure,
/// timeout or malformed document collapses to `Unreachable`; access denial is
/// kept distinct because it still materializes an entry.
pub enum IntrospectOutcome {
    Document(NodeInfo),
    AccessDenied,
    Unreachable,
}

pub ghost enum OutcomeView {
    Document(NodeInfoView),
    AccessDenied,
    Unreachable,
}

impl View for IntrospectOutcome {
    type V = OutcomeView;

    open spec fn view(&self) -> OutcomeView {
        match self {
            IntrospectOutcome::Document(d) => OutcomeView::Document(d@),
            IntrospectOutcome::AccessDenied => OutcomeView::AccessDenied,
            IntrospectOutcome::Unreachable => OutcomeView::Unreachable,
        }
    }
}

impl DeepView for IntrospectOutcome {
    type V = OutcomeView;

    open spec fn deep_view(&self) -> OutcomeView {
        self.view()
    }
}

/// One committed entry: a stable id, the classification, the virtual path
/// (segments from the root; never empty, the root itself is not stored), and
/// the attribute snapshot taken when the entry was first resolved.
pub struct InodeEntry {
    pub id: u64,
    pub kind: PathKind,
    pub path: Vec<String>,
    pub attrs: Attrs,
}

pub ghost struct InodeEntryView {
    pub id: u64,
    pub kind: PathKind,
    pub path: Seq<Seq<char>>,
    pub attrs: Attrs,
}

impl View for InodeEntry {
    type V = InodeEntryView;

    open spec fn view(&self) -> InodeEntryView {
        InodeEntryView {
            id: self.id,
            kind: self.kind,
            path: self.path.deep_view(),
            attrs: self.attrs,
        }
    }
}

impl DeepView for InodeEntry {
    type V = InodeEntryView;

    open spec fn deep_view(&self) -> InodeEntryView {
        self.view()
    }
}

pub ghost struct TableView {
    pub entries: Seq<InodeEntryView>,
}

/// The inode table: all committed non-root entries, in allocation order.
/// The entry at index `i` carries id `i + 2`; the root's fixed id 1 is never
/// stored.
pub struct InodeTable {
    entries: Vec<InodeEntry>,
}

impl View for InodeTable {
    type V = TableView;

    closed spec fn view(&self) -> TableView {
        TableView { entries: self.entries.deep_view() }
    }
}

/// Well-formedness of the table: sequential never-reused ids, non-empty
/// paths, no path committed twice, and each snapshot's inode field agreeing
/// with its entry's id.
pub open spec fn table_wf(t: TableView) -> bool {
    &&& forall|i: int|
        0 <= i < t.entries.len() ==> (#[trigger] t.entries[i]).id == i + 2
    &&& forall|i: int| 0 <= i < t.entries.len() ==> (#[trigger] t.entries[i]).path.len() > 0
    &&& forall|i: int, j: int|
        0 <= i < j < t.entries.len() ==> t.entries[i].path != t.entries[j].path
    &&& forall|i: int|
        0 <= i < t.entries.len() ==> (#[trigger] t.entries[i]).attrs.ino == t.entries[i].id
    &&& forall|i: int|
        0 <= i < t.entries.len() ==> (#[trigger] t.entries[i]).kind != PathKind::Root
}

/// Index of the first entry at or after `i` whose path is `path`.
pub open spec fn spec_find_path(s: Seq<InodeEntryView>, i: int, path: Seq<Seq<char>>) -> Option<
    int,
>
    decreases s.len() - i,
{
    if i < 0 || i >= s.len() {
        None
    } else if s[i].path == path {
        Some(i)
    } else {
        spec_find_path(s, i + 1, path)
    }
}

/// Index of the first entry at or after `i` whose id is `id`.
pub open spec fn spec_find_id(s: Seq<InodeEntryView>, i: int, id: u64) -> Option<int>
    decreases s.len() - i,
{
    if i < 0 || i >= s.len() {
        None
    } else if s[i].id == id {
        Some(i)
    } else {
        spec_find_id(s, i + 1, id)
    }
}

/// Link count of a directory with `count` children, saturated at the
/// protocol's field width: 2 for the directory itself and its self link,
/// plus one per child.
pub open spec fn spec_nlink(count: nat) -> u32 {
    if count + 2 <= u32::MAX {
        (count + 2) as u32
    } else {
        u32::MAX
    }
}

/// How many children a resolved directory of this kind shows, given the
/// document its own object reported: a bus-name directory lists only child
/// object-path segments; an object directory lists child segments and one
/// directory per interface.
pub open spec fn spec_child_count(kind: PathKind, doc: NodeInfoView) -> nat {
    match kind {
        PathKind::ObjectDir => doc.nodes.len() + doc.interfaces.len(),
        _ => doc.nodes.len(),
    }
}

/// Attributes of an ordinary resolved directory.
pub open spec fn spec_dir_attrs(id: u64, nlink: u32, uid: u32, gid: u32) -> Attrs {
    Attrs {
        ino: id,
        size: 0,
        kind: FileKind::Directory,
        perm: 0o755,
        nlink,
        uid,
        gid,
        crtime_sec: CREATE_TIME_SEC,
    }
}

/// Attributes of a restricted placeholder directory: introspection was
/// denied, so the entry signals restricted access without concealing that
/// the object exists.
pub open spec fn spec_denied_attrs(id: u64, uid: u32, gid: u32) -> Attrs {
    Attrs {
        ino: id,
        size: 0,
        kind: FileKind::Directory,
        perm: 0o750,
        nlink: 0,
        uid,
        gid,
        crtime_sec: CREATE_TIME_SEC,
    }
}

/// Attributes of a member leaf file.
pub open spec fn spec_member_attrs(id: u64) -> Attrs {
    Attrs {
        ino: id,
        size: 0,
        kind: FileKind::Regular,
        perm: 0o644,
        nlink: 1,
        uid: 0,
        gid: 0,
        crtime_sec: CREATE_TIME_SEC,
    }
}

/// The fixed attribute snapshot of the mount root: a directory with link
/// count 2, owned by uid 0 / gid 0.
pub open spec fn spec_root_attrs() -> Attrs {
    Attrs {
        ino: ROOT_INO,
        size: 0,
        kind: FileKind::Directory,
        perm: 0o755,
        nlink: 2,
        uid: 0,
        gid: 0,
        crtime_sec: CREATE_TIME_SEC,
    }
}

/// The attribute snapshot a fresh entry of kind `kind` at `path` gets, given
/// the introspection outcome for the object that determines its children:
/// the path's own object for bus-name and object directories, the parent
/// object for an interface directory (whose interface is the path's last
/// segment). `None` means the path is unresolvable and no entry is made.
pub open spec fn spec_build_attrs(
    id: u64,
    kind: PathKind,
    path: Seq<Seq<char>>,
    outcome: OutcomeView,
    uid: u32,
    gid: u32,
) -> Option<Attrs> {
    match kind {
        PathKind::Root => None,
        PathKind::BusNameDir | PathKind::ObjectDir => match outcome {
            OutcomeView::Document(doc) => Some(
                spec_dir_attrs(id, spec_nlink(spec_child_count(kind, doc)), uid, gid),
            ),
            OutcomeView::AccessDenied => Some(spec_denied_attrs(id, uid, gid)),
            OutcomeView::Unreachable => None,
        },
        PathKind::InterfaceDir => match outcome {
            OutcomeView::Document(doc) => match spec_find_interface(
                doc.interfaces,
                0,
                path.last(),
            ) {
                Some(iv) => Some(spec_dir_attrs(id, spec_nlink(iv.member_count()), uid, gid)),
                None => None,
            },
            OutcomeView::AccessDenied => Some(spec_denied_attrs(id, uid, gid)),
            OutcomeView::Unreachable => None,
        },
        PathKind::MemberFile => Some(spec_member_attrs(id)),
    }
}

/// What resolving `path` does to the table: a committed path answers from
/// the table untouched, ignoring the fresh outcome; otherwise the next
/// sequential id is allocated and an entry committed exactly when
/// `spec_build_attrs` yields a snapshot.
pub open spec fn spec_resolve(
    t: TableView,
    path: Seq<Seq<char>>,
    kind: PathKind,
    outcome: OutcomeView,
    uid: u32,
    gid: u32,
) -> (TableView, Option<Attrs>) {
    match spec_find_path(t.entries, 0, path) {
        Some(j) => (t, Some(t.entries[j].attrs)),
        None => if t.entries.len() + 2 > u64::MAX {
            (t, None)
        } else {
            let id = (t.entries.len() + 2) as u64;
            match spec_build_attrs(id, kind, path, outcome, uid, gid) {
                Some(a) => (
                    TableView {
                        entries: t.entries.push(
                            InodeEntryView { id, kind, path, attrs: a },
                        ),
                    },
                    Some(a),
                ),
                None => (t, None),
            }
        },
    }
}

/// The attribute snapshot the table answers for an id: the synthesized root
/// snapshot for the root id, else the committed snapshot, else nothing.
pub open spec fn spec_get_attributes(t: TableView, id: u64) -> Option<Attrs> {
    if id == ROOT_INO {
        Some(spec_root_attrs())
    } else {
        match spec_find_id(t.entries, 0, id) {
            Some(j) => Some(t.entries[j].attrs),
            None => None,
        }
    }
}

/// A found match is a real first match.
proof fn lemma_find_path_some(s: Seq<InodeEntryView>, i: int, path: Seq<Seq<char>>, j: int)
    requires
        spec_find_path(s, i, path) == Some(j),
        0 <= i,
    ensures
        i <= j < s.len(),
        s[j].path == path,
    decreases s.len() - i,
{
    if i >= s.len() {
    } else if s[i].path == path {
    } else {
        lemma_find_path_some(s, i + 1, path, j);
    }
}

/// A failed search means no entry from `i` on has the path.
proof fn lemma_find_path_none(s: Seq<InodeEntryView>, i: int, path: Seq<Seq<char>>)
    requires
        spec_find_path(s, i, path) is None,
        0 <= i,
    ensures
        forall|j: int| i <= j < s.len() ==> (#[trigger] s[j]).path != path,
    decreases s.len() - i,
{
    if i >= s.len() {
    } else {
        lemma_find_path_none(s, i + 1, path);
    }
}

proof fn lemma_find_id_some(s: Seq<InodeEntryView>, i: int, id: u64, j: int)
    requires
        spec_find_id(s, i, id) == Some(j),
        0 <= i,
    ensures
        i <= j < s.len(),
        s[j].id == id,
    decreases s.len() - i,
{
    if i >= s.len() {
    } else if s[i].id == id {
    } else {
        lemma_find_id_some(s, i + 1, id, j);
    }
}

proof fn lemma_find_id_none(s: Seq<InodeEntryView>, i: int, id: u64)
    requires
        spec_find_id(s, i, id) is None,
        0 <= i,
    ensures
        forall|j: int| i <= j < s.len() ==> (#[trigger] s[j]).id != id,
    decreases s.len() - i,
{
    if i >= s.len() {
    } else {
        lemma_find_id_none(s, i + 1, id);
    }
}

/// Compares two paths segment by segment.
fn path_eq(a: &Vec<String>, b: &Vec<String>) -> (r: bool)
    ensures
        r == (a.deep_view() == b.deep_view()),
{
    let ghost av = a.deep_view();
    let ghost bv = b.deep_view();
    if a.len() != b.len() {
        assert(av.len() != bv.len());
        return false;
    }
    let mut i: usize = 0;
    while i < a.len()
        invariant
            0 <= i <= a.len(),
            a.len() == b.len(),
            av == a.deep_view(),
            bv == b.deep_view(),
            av.len() == a.len(),
            bv.len() == b.len(),
            forall|k: int| 0 <= k < av.len() ==> av[k] == #[trigger] a@[k]@,
            forall|k: int| 0 <= k < bv.len() ==> bv[k] == #[trigger] b@[k]@,
            forall|k: int| 0 <= k < i ==> #[trigger] av[k] == bv[k],
        decreases a.len() - i,
    {
        if a[i] != b[i] {
            assert(av[i as int] != bv[i as int]);
            return false;
        }
        i = i + 1;
    }
    proof {
        assert(av =~= bv);
    }
    true
}

/// Builds the attribute snapshot for a fresh entry, per `spec_build_attrs`.
fn build_attrs(
    id: u64,
    kind: PathKind,
    path: &Vec<String>,
    outcome: &IntrospectOutcome,
    uid: u32,
    gid: u32,
) -> (r: Option<Attrs>)
    requires
        path.deep_view().len() > 0,
        kind != PathKind::Root,
    ensures
        r == spec_build_attrs(id, kind, path.deep_view(), outcome@, uid, gid),
{
    match kind {
        PathKind::Root => None,
        PathKind::BusNameDir | PathKind::ObjectDir => match outcome {
            IntrospectOutcome::Document(d) => {
                let nlink = if matches!(kind, PathKind::ObjectDir) {
                    nlink_for(d.nodes.len(), d.interfaces.len(), 0, 0)
                } else {
                    nlink_for(d.nodes.len(), 0, 0, 0)
                };
                Some(dir_attrs(id, nlink, uid, gid))
            },
            IntrospectOutcome::AccessDenied => Some(denied_attrs(id, uid, gid)),
            IntrospectOutcome::Unreachable => None,
        },
        PathKind::InterfaceDir => match outcome {
            IntrospectOutcome::Document(d) => {
                let last = &path[path.len() - 1];
                assert(last@ == path.deep_view().last());
                match crate::doc::find_interface(&d.interfaces, last) {
                    Some(it) => {
                        let nlink = nlink_for(
                            it.methods.len(),
                            it.properties.len(),
                            it.signals.len(),
                            it.annotations.len(),
                        );
                        Some(dir_attrs(id, nlink, uid, gid))
                    },
                    None => None,
                }
            },
            IntrospectOutcome::AccessDenied => Some(denied_attrs(id, uid, gid)),
            IntrospectOutcome::Unreachable => None,
        },
        PathKind::MemberFile => Some(member_attrs(id)),
    }
}

/// Saturated link count for a directory whose children come in up to four
/// groups.
fn nlink_for(a: usize, b: usize, c: usize, d: usize) -> (r: u32)
    ensures
        r == spec_nlink(a as nat + b as nat + c as nat + d as nat),
{
    let cap: usize = (u32::MAX - 2) as usize;
    if a > cap {
        return u32::MAX;
    }
    let s = a;
    if b > cap - s {
        return u32::MAX;
    }
    let s = s + b;
    if c > cap - s {
        return u32::MAX;
    }
    let s = s + c;
    if d > cap - s {
        return u32::MAX;
    }
    let s = s + d;
    (s as u32) + 2
}

fn dir_attrs(id: u64, nlink: u32, uid: u32, gid: u32) -> (r: Attrs)
    ensures
        r == spec_dir_attrs(id, nlink, uid, gid),
{
    Attrs {
        ino: id,
        size: 0,
        kind: FileKind::Directory,
        perm: 0o755,
        nlink,
        uid,
        gid,
        crtime_sec: CREATE_TIME_SEC,
    }
}

fn denied_attrs(id: u64, uid: u32, gid: u32) -> (r: Attrs)
    ensures
        r == spec_denied_attrs(id, uid, gid),
{
    Attrs {
        ino: id,
        size: 0,
        kind: FileKind::Directory,
        perm: 0o750,
        nlink: 0,
        uid,
        gid,
        crtime_sec: CREATE_TIME_SEC,
    }
}

fn member_attrs(id: u64) -> (r: Attrs)
    ensures
        r == spec_member_attrs(id),
{
    Attrs {
        ino: id,
        size: 0,
        kind: FileKind::Regular,
        perm: 0o644,
        nlink: 1,
        uid: 0,
        gid: 0,
        crtime_sec: CREATE_TIME_SEC,
    }
}

/// The fixed root snapshot.
pub fn root_attrs() -> (r: Attrs)
    ensures
        r == spec_root_attrs(),
{
    Attrs {
        ino: ROOT_INO,
        size: 0,
        kind: FileKind::Directory,
        perm: 0o755,
        nlink: 2,
        uid: 0,
        gid: 0,
        crtime_sec: CREATE_TIME_SEC,
    }
}

impl InodeTable {
    /// A fresh table: no entry committed yet, next id just above the root's.
    pub fn new() -> (r: InodeTable)
        ensures
            r@.entries.len() == 0,
            table_wf(r@),
    {
        let t = InodeTable { entries: Vec::new() };
        proof {
            assert(t@.entries =~= Seq::<InodeEntryView>::empty());
        }
        t
    }

    /// Index of the committed entry for `path`, if any.
    fn find_path_index(&self, path: &Vec<String>) -> (r: Option<usize>)
        ensures
            match r {
                Some(j) => j < self.entries.len() && spec_find_path(
                    self@.entries,
                    0,
                    path.deep_view(),
                ) == Some(j as int),
                None => spec_find_path(self@.entries, 0, path.deep_view()) is None,
            },
    {
        let ghost sv = self@.entries;
        let ghost pv = path.deep_view();
        let mut i: usize = 0;
        while i < self.entries.len()
            invariant
                0 <= i <= self.entries.len(),
                sv == self@.entries,
                pv == path.deep_view(),
                sv.len() == self.entries.len(),
                forall|k: int| 0 <= k < sv.len() ==> sv[k] == #[trigger] self.entries@[k]@,
                spec_find_path(sv, 0, pv) == spec_find_path(sv, i as int, pv),
            decreases self.entries.len() - i,
        {
            if path_eq(&self.entries[i].path, path) {
                assert(sv[i as int].path == pv);
                assert(spec_find_path(sv, i as int, pv) == Some(i as int));
                return Some(i);
            }
            assert(sv[i as int].path != pv);
            i = i + 1;
        }
        None
    }

    /// The committed entry for `id`, if any.
    fn find_id_index(&self, id: u64) -> (r: Option<usize>)
        ensures
            match r {
                Some(j) => j < self.entries.len() && spec_find_id(self@.entries, 0, id) == Some(
                    j as int,
                ),
                None => spec_find_id(self@.entries, 0, id) is None,
            },
    {
        let ghost sv = self@.entries;
        let mut i: usize = 0;
        while i < self.entries.len()
            invariant
                0 <= i <= self.entries.len(),
                sv == self@.entries,
                sv.len() == self.entries.len(),
                forall|k: int| 0 <= k < sv.len() ==> sv[k] == #[trigger] self.entries@[k]@,
                spec_find_id(sv, 0, id) == spec_find_id(sv, i as int, id),
            decreases self.entries.len() - i,
        {
            if self.entries[i].id == id {
                assert(spec_find_id(sv, i as int, id) == Some(i as int));
                return Some(i);
            }
            i = i + 1;
        }
        None
    }

    /// The committed virtual path of `id`, if any: the inverse direction of
    /// the bijection.
    pub fn path_by_id(&self, id: u64) -> (r: Option<&Vec<String>>)
        ensures
            match r {
                Some(p) => match spec_find_id(self@.entries, 0, id) {
                    Some(j) => self@.entries[j].path == p.deep_view(),
                    None => false,
                },
                None => spec_find_id(self@.entries, 0, id) is None,
            },
    {
        match self.find_id_index(id) {
            Some(j) => Some(&self.entries[j].path),
            None => None,
        }
    }

    /// The committed entry kind of `id`, if any.
    pub fn kind_by_id(&self, id: u64) -> (r: Option<PathKind>)
        ensures
            match r {
                Some(k) => match spec_find_id(self@.entries, 0, id) {
                    Some(j) => self@.entries[j].kind == k,
                    None => false,
                },
                None => spec_find_id(self@.entries, 0, id) is None,
            },
    {
        match self.find_id_index(id) {
            Some(j) => Some(self.entries[j].kind),
            None => None,
        }
    }

    /// The committed virtual path and kind of `id`, if any, for joining a
    /// child name onto.
    pub fn entry_meta(&self, id: u64) -> (r: Option<(Vec<String>, PathKind)>)
        ensures
            match r {
                Some(m) => match spec_find_id(self@.entries, 0, id) {
                    Some(j) => 0 <= j < self@.entries.len() && m.0.deep_view() == self@.entries[j].path
                        && m.1 == self@.entries[j].kind,
                    None => false,
                },
                None => spec_find_id(self@.entries, 0, id) is None,
            },
    {
        match self.find_id_index(id) {
            Some(j) => {
                proof {
                    lemma_find_id_some(self@.entries, 0, id, j as int);
                }
                Some((clone_path(&self.entries[j].path), self.entries[j].kind))
            },
            None => None,
        }
    }

    /// The committed snapshot of `path`, if the path ever resolved: a cache
    /// probe that consults no wire data.
    pub fn cached_attrs(&self, path: &Vec<String>) -> (r: Option<Attrs>)
        ensures
            match r {
                Some(a) => match spec_find_path(self@.entries, 0, path.deep_view()) {
                    Some(j) => self@.entries[j].attrs == a,
                    None => false,
                },
                None => spec_find_path(self@.entries, 0, path.deep_view()) is None,
            },
    {
        match self.find_path_index(path) {
            Some(j) => {
                proof {
                    lemma_find_path_some(self@.entries, 0, path.deep_view(), j as int);
                }
                Some(self.entries[j].attrs)
            },
            None => None,
        }
    }

    /// Resolves `path`: answers the committed snapshot if the path was ever
    /// resolved before (the fresh outcome is ignored; allocation is
    /// idempotent), else classifies the outcome into a snapshot, commits the
    /// entry under the next sequential id, and answers it. `None` means the
    /// path is unresolvable now and nothing was committed.
    pub fn resolve(
        &mut self,
        path: &Vec<String>,
        kind: PathKind,
        outcome: &IntrospectOutcome,
        uid: u32,
        gid: u32,
    ) -> (r: Option<Attrs>)
        requires
            table_wf(old(self)@),
            path.deep_view().len() > 0,
            kind != PathKind::Root,
        ensures
            table_wf(final(self)@),
            (final(self)@, r) == spec_resolve(
                old(self)@,
                path.deep_view(),
                kind,
                outcome@,
                uid,
                gid,
            ),
    {
        let ghost t0 = self@;
        let ghost pv = path.deep_view();
        match self.find_path_index(path) {
            Some(j) => {
                proof {
                    lemma_find_path_some(t0.entries, 0, pv, j as int);
                }
                Some(self.entries[j].attrs)
            },
            None => {
                proof {
                    lemma_find_path_none(t0.entries, 0, pv);
                }
                if self.entries.len() as u64 > u64::MAX - 2 {
                    return None;
                }
                let id: u64 = self.entries.len() as u64 + 2;
                match build_attrs(id, kind, path, outcome, uid, gid) {
                    Some(a) => {
                        let e = InodeEntry { id, kind, path: clone_path(path), attrs: a };
                        proof {
                            assert(e@ == InodeEntryView { id, kind, path: pv, attrs: a });
                        }
                        self.entries.push(e);
                        proof {
                            assert(self@.entries =~= t0.entries.push(e@));
                            assert(table_wf(self@)) by {
                                assert(forall|i: int|
                                    0 <= i < t0.entries.len() ==> self@.entries[i]
                                        == t0.entries[i]);
                            }
                        }
                        Some(a)
                    },
                    None => None,
                }
            },
        }
    }

    /// Answers the snapshot for an id: the synthesized root snapshot for the
    /// root id, else the committed one.
    pub fn get_attributes(&self, id: u64) -> (r: Option<Attrs>)
        ensures
            r == spec_get_attributes(self@, id),
    {
        if id == ROOT_INO {
            Some(root_attrs())
        } else {
            match self.find_id_index(id) {
                Some(j) => Some(self.entries[j].attrs),
                None => None,
            }
        }
    }
}

/// Appending an entry bearing the sought path to a table without it makes
/// the search find exactly that appended entry.
proof fn lemma_find_path_push(s: Seq<InodeEntryView>, i: int, e: InodeEntryView, path: Seq<Seq<char>>)
    requires
        0 <= i <= s.len(),
        spec_find_path(s, i, path) is None,
        e.path == path,
    ensures
        spec_find_path(s.push(e), i, path) == Some(s.len() as int),
    decreases s.len() - i,
{
    if i == s.len() {
        assert(s.push(e)[i] == e);
    } else {
        assert(s.push(e)[i] == s[i]);
        lemma_find_path_push(s, i + 1, e, path);
    }
}

/// What any one resolution does to the table: well-formedness is preserved,
/// committed entries are never removed or rewritten, and a successful answer
/// is the snapshot of an entry committed under the resolved path, whose
/// inode field is that entry's never-reused id.
pub proof fn lemma_resolve_commits(
    t: TableView,
    path: Seq<Seq<char>>,
    kind: PathKind,
    outcome: OutcomeView,
    uid: u32,
    gid: u32,
)
    requires
        table_wf(t),
        path.len() > 0,
        kind != PathKind::Root,
    ensures
        ({
            let (t1, r) = spec_resolve(t, path, kind, outcome, uid, gid);
            &&& table_wf(t1)
            &&& t.entries.len() <= t1.entries.len()
            &&& forall|i: int| 0 <= i < t.entries.len() ==> t1.entries[i] == t.entries[i]
            &&& (r is Some ==> spec_find_path(t1.entries, 0, path) is Some
                && t1.entries[spec_find_path(t1.entries, 0, path)->Some_0].attrs == r->Some_0
                && r->Some_0.ino == t1.entries[spec_find_path(t1.entries, 0, path)->Some_0].id)
        }),
{
    let (t1, r) = spec_resolve(t, path, kind, outcome, uid, gid);
    match spec_find_path(t.entries, 0, path) {
        Some(j) => {
            lemma_find_path_some(t.entries, 0, path, j);
        },
        None => {
            lemma_find_path_none(t.entries, 0, path);
            if t.entries.len() + 2 <= u64::MAX {
                let id = (t.entries.len() + 2) as u64;
                match spec_build_attrs(id, kind, path, outcome, uid, gid) {
                    Some(a) => {
                        let e = InodeEntryView { id, kind, path, attrs: a };
                        assert(t1.entries =~= t.entries.push(e));
                        lemma_find_path_push(t.entries, 0, e, path);
                        assert(forall|i: int|
                            0 <= i < t.entries.len() ==> t1.entries[i] == t.entries[i]);
                    },
                    None => {},
                }
            }
        },
    }
}

/// Idempotent allocation: once a path has resolved, resolving it again
/// answers the identical snapshot (in particular the identical inode id) and
/// leaves the table untouched, whatever the later outcome or owner the wire
/// reports.
pub proof fn lemma_resolve_idempotent(
    t: TableView,
    path: Seq<Seq<char>>,
    k1: PathKind,
    o1: OutcomeView,
    u1: u32,
    g1: u32,
    k2: PathKind,
    o2: OutcomeView,
    u2: u32,
    g2: u32,
)
    requires
        table_wf(t),
        path.len() > 0,
        k1 != PathKind::Root,
    ensures
        ({
            let (t1, r1) = spec_resolve(t, path, k1, o1, u1, g1);
            let (t2, r2) = spec_resolve(t1, path, k2, o2, u2, g2);
            r1 is Some ==> (t2 == t1 && r2 == r1)
        }),
{
    let (t1, r1) = spec_resolve(t, path, k1, o1, u1, g1);
    match spec_find_path(t.entries, 0, path) {
        Some(j) => {
            lemma_find_path_some(t.entries, 0, path, j);
        },
        None => {
            lemma_find_path_none(t.entries, 0, path);
            if t.entries.len() + 2 <= u64::MAX {
                let id = (t.entries.len() + 2) as u64;
                match spec_build_attrs(id, k1, path, o1, u1, g1) {
                    Some(a) => {
                        let e = InodeEntryView { id, kind: k1, path, attrs: a };
                        lemma_find_path_push(t.entries, 0, e, path);
                        assert(t1.entries[t.entries.len() as int].attrs == a);
                    },
                    None => {},
                }
            }
        },
    }
}

/// Unique allocation: distinct paths, each resolved once in either order,
/// never share an inode id; committed ids are pairwise distinct, so no id is
/// ever issued twice, however the resolutions interleave.
pub proof fn lemma_resolve_unique(
    t: TableView,
    p1: Seq<Seq<char>>,
    p2: Seq<Seq<char>>,
    k1: PathKind,
    o1: OutcomeView,
    u1: u32,
    g1: u32,
    k2: PathKind,
    o2: OutcomeView,
    u2: u32,
    g2: u32,
)
    requires
        table_wf(t),
        p1 != p2,
        p1.len() > 0,
        p2.len() > 0,
        k1 != PathKind::Root,
        k2 != PathKind::Root,
    ensures
        ({
            let (t1, r1) = spec_resolve(t, p1, k1, o1, u1, g1);
            let (t2, r2) = spec_resolve(t1, p2, k2, o2, u2, g2);
            (r1 is Some && r2 is Some) ==> r1->Some_0.ino != r2->Some_0.ino
        }),
{
    let (t1, r1) = spec_resolve(t, p1, k1, o1, u1, g1);
    let (t2, r2) = spec_resolve(t1, p2, k2, o2, u2, g2);
    if r1 is Some && r2 is Some {
        lemma_resolve_commits(t, p1, k1, o1, u1, g1);
        let j1 = spec_find_path(t1.entries, 0, p1)->Some_0;
        lemma_find_path_some(t1.entries, 0, p1, j1);
        lemma_resolve_commits(t1, p2, k2, o2, u2, g2);
        let j2 = spec_find_path(t2.entries, 0, p2)->Some_0;
        lemma_find_path_some(t2.entries, 0, p2, j2);
        assert(t2.entries[j1].path == p1);
        assert(j1 != j2);
    }
}

/// A committed entry keeps its place when the table only grows at the end.
pub proof fn lemma_find_path_extend(
    s1: Seq<InodeEntryView>,
    s2: Seq<InodeEntryView>,
    i: int,
    path: Seq<Seq<char>>,
    j: int,
)
    requires
        0 <= i,
        s1.len() <= s2.len(),
        forall|k: int| 0 <= k < s1.len() ==> s2[k] == s1[k],
        spec_find_path(s1, i, path) == Some(j),
    ensures
        spec_find_path(s2, i, path) == Some(j),
    decreases s1.len() - i,
{
    lemma_find_path_some(s1, i, path, j);
    if s1[i].path == path {
    } else {
        lemma_find_path_extend(s1, s2, i + 1, path, j);
    }
}

/// A committed id keeps its place when the table only grows at the end.
pub proof fn lemma_find_id_extend(
    s1: Seq<InodeEntryView>,
    s2: Seq<InodeEntryView>,
    i: int,
    id: u64,
    j: int,
)
    requires
        0 <= i,
        s1.len() <= s2.len(),
        forall|k: int| 0 <= k < s1.len() ==> s2[k] == s1[k],
        spec_find_id(s1, i, id) == Some(j),
    ensures
        spec_find_id(s2, i, id) == Some(j),
    decreases s1.len() - i,
{
    lemma_find_id_some(s1, i, id, j);
    if s1[i].id == id {
    } else {
        lemma_find_id_extend(s1, s2, i + 1, id, j);
    }
}

/// A found path match is a real match at a real index.
pub proof fn lemma_find_path_found(s: Seq<InodeEntryView>, path: Seq<Seq<char>>, j: int)
    requires
        spec_find_path(s, 0, path) == Some(j),
    ensures
        0 <= j < s.len(),
        s[j].path == path,
{
    lemma_find_path_some(s, 0, path, j);
}

/// A found id match is a real match at a real index.
pub proof fn lemma_find_id_found(s: Seq<InodeEntryView>, id: u64, j: int)
    requires
        spec_find_id(s, 0, id) == Some(j),
    ensures
        0 <= j < s.len(),
        s[j].id == id,
{
    lemma_find_id_some(s, 0, id, j);
}

/// The root id always answers the synthesized root snapshot: a directory
/// with link count 2, whatever the table holds.
pub proof fn lemma_root_attributes(t: TableView)
    ensures
        spec_get_attributes(t, ROOT_INO) == Some(spec_root_attrs()),
        spec_root_attrs().kind == FileKind::Directory,
        spec_root_attrs().nlink == 2,
{
}

/// Committed inode ids are pairwise distinct.
pub proof fn lemma_ids_unique(t: TableView)
    requires
        table_wf(t),
    ensures
        forall|i: int, j: int|
            0 <= i < j < t.entries.len() ==> (#[trigger] t.entries[i]).id != (
            #[trigger] t.entries[j]).id,
{
}

/// Clones a path, segment by segment.
pub fn clone_path(p: &Vec<String>) -> (r: Vec<String>)
    ensures
        r.deep_view() == p.deep_view(),
{
    let mut out: Vec<String> = Vec::new();
    let mut i: usize = 0;
    while i < p.len()
        invariant
            0 <= i <= p.len(),
            out@.len() == i,
            forall|k: int| 0 <= k < i ==> (#[trigger] out@[k])@ == p@[k]@,
        decreases p.len() - i,
    {
        out.push(p[i].clone());
        i = i + 1;
    }
    proof {
        assert(out.deep_view() =~= p.deep_view());
    }
    out
}

} // verus!
