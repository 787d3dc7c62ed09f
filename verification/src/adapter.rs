//! The filesystem protocol adapter: answers the host protocol's four call
//! types purely in terms of the namespace engine.
//!
//! The wire client itself lives outside the crate; each operation here takes
//! the wire outcomes it depends on as plain arguments, classifies the path,
//! and drives the inode table. A committed path answers from the table with
//! no wire data consulted at all.

use vstd::prelude::*;

use crate::doc::spec_find_interface;
use crate::doc::spec_has_node;
use crate::doc::NodeInfo;
use crate::doc::NodeInfoView;
use crate::inode::clone_path;
use crate::inode::spec_find_id;
use crate::inode::spec_find_path;
use crate::inode::spec_resolve;
use crate::inode::table_wf;
use crate::inode::Attrs;
use crate::inode::FileKind;
use crate::inode::InodeTable;
use crate::inode::IntrospectOutcome;
use crate::inode::OutcomeView;
use crate::inode::PathKind;
use crate::inode::TableView;
use crate::inode::ROOT_INO;

verus! {

/// One row of a directory listing.
#[derive(Debug, PartialEq, Eq, Clone)]
pub struct DirEntry {
    pub ino: u64,
    pub kind: FileKind,
    pub name: String,
}

pub ghost struct DirEntryView {
    pub ino: u64,
    pub kind: FileKind,
    pub name: Seq<char>,
}

impl View for DirEntry {
    type V = DirEntryView;

    open spec fn view(&self) -> DirEntryView {
        DirEntryView { ino: self.ino, kind: self.kind, name: self.name@ }
    }
}

impl DeepView for DirEntry {
    type V = DirEntryView;

    open spec fn deep_view(&self) -> DirEntryView {
        self.view()
    }
}

/// What a child of a classified parent is: the closed transition relation of
/// the classification machine. A bus-name directory's children are object
/// directories; an object directory's children are object directories or
/// interface directories; an interface directory's children are member
/// files; a member file has none. `None` means no such child exists in the
/// parent's document.
pub open spec fn spec_classify_child(
    parent_kind: PathKind,
    parent_path: Seq<Seq<char>>,
    doc: NodeInfoView,
    child: Seq<char>,
) -> Option<PathKind> {
    match parent_kind {
        PathKind::Root => Some(PathKind::BusNameDir),
        PathKind::BusNameDir => if spec_has_node(doc.nodes, child) {
            Some(PathKind::ObjectDir)
        } else {
            None
        },
        PathKind::ObjectDir => if spec_has_node(doc.nodes, child) {
            Some(PathKind::ObjectDir)
        } else if spec_find_interface(doc.interfaces, 0, child) is Some {
            Some(PathKind::InterfaceDir)
        } else {
            None
        },
        PathKind::InterfaceDir => match spec_find_interface(doc.interfaces, 0, parent_path.last()) {
            Some(iv) => if iv.has_member(child) {
                Some(PathKind::MemberFile)
            } else {
                None
            },
            None => None,
        },
        PathKind::MemberFile => None,
    }
}

/// Classifies one child name against its parent's kind and document.
pub fn classify_child(
    parent_kind: PathKind,
    parent_path: &Vec<String>,
    doc: &NodeInfo,
    child: &String,
) -> (r: Option<PathKind>)
    requires
        parent_kind == PathKind::InterfaceDir ==> parent_path.deep_view().len() > 0,
    ensures
        r == spec_classify_child(parent_kind, parent_path.deep_view(), doc@, child@),
{
    match parent_kind {
        PathKind::Root => Some(PathKind::BusNameDir),
        PathKind::BusNameDir => {
            if crate::doc::has_node(&doc.nodes, child) {
                Some(PathKind::ObjectDir)
            } else {
                None
            }
        },
        PathKind::ObjectDir => {
            if crate::doc::has_node(&doc.nodes, child) {
                Some(PathKind::ObjectDir)
            } else if crate::doc::find_interface(&doc.interfaces, child).is_some() {
                Some(PathKind::InterfaceDir)
            } else {
                None
            }
        },
        PathKind::InterfaceDir => {
            let last = &parent_path[parent_path.len() - 1];
            assert(last@ == parent_path.deep_view().last());
            match crate::doc::find_interface(&doc.interfaces, last) {
                Some(it) => {
                    if it.has_member(child) {
                        Some(PathKind::MemberFile)
                    } else {
                        None
                    }
                },
                None => None,
            }
        },
        PathKind::MemberFile => None,
    }
}

/// What a lookup call does: joins the parent's virtual path with the child
/// name and resolves it. A committed child path answers from the table; a
/// fresh one is classified against the parent's document, then resolved
/// against the outcome that determines its own children (its own object's
/// outcome for bus-name and object directories, the parent's for an
/// interface directory). Owner ids apply only to directories backed by a
/// bus destination; interface directories and member files are owned by
/// uid 0 / gid 0.
pub open spec fn spec_lookup(
    t: TableView,
    parent_id: u64,
    child: Seq<char>,
    parent_outcome: OutcomeView,
    child_outcome: OutcomeView,
    uid: u32,
    gid: u32,
) -> (TableView, Option<Attrs>) {
    if parent_id == ROOT_INO {
        spec_resolve(t, seq![child], PathKind::BusNameDir, child_outcome, uid, gid)
    } else {
        match spec_find_id(t.entries, 0, parent_id) {
            None => (t, None),
            Some(j) => {
                let parent = t.entries[j];
                let path = parent.path.push(child);
                match spec_find_path(t.entries, 0, path) {
                    Some(c) => (t, Some(t.entries[c].attrs)),
                    None => match parent_outcome {
                        OutcomeView::Document(doc) => match spec_classify_child(
                            parent.kind,
                            parent.path,
                            doc,
                            child,
                        ) {
                            Some(kind) => if kind == PathKind::BusNameDir || kind
                                == PathKind::ObjectDir {
                                spec_resolve(t, path, kind, child_outcome, uid, gid)
                            } else {
                                spec_resolve(t, path, kind, parent_outcome, 0, 0)
                            },
                            None => (t, None),
                        },
                        _ => (t, None),
                    },
                }
            },
        }
    }
}

/// Resolves one child of a parent directory, per `spec_lookup`. `None`
/// means the host is answered NotFound.
pub fn lookup(
    table: &mut InodeTable,
    parent_id: u64,
    child: &String,
    parent_outcome: &IntrospectOutcome,
    child_outcome: &IntrospectOutcome,
    uid: u32,
    gid: u32,
) -> (r: Option<Attrs>)
    requires
        table_wf(old(table)@),
    ensures
        table_wf(final(table)@),
        (final(table)@, r) == spec_lookup(
            old(table)@,
            parent_id,
            child@,
            parent_outcome@,
            child_outcome@,
            uid,
            gid,
        ),
{
    let ghost t0 = table@;
    if parent_id == ROOT_INO {
        let mut path: Vec<String> = Vec::new();
        path.push(child.clone());
        proof {
            assert(path.deep_view() =~= seq![child@]);
        }
        table.resolve(&path, PathKind::BusNameDir, child_outcome, uid, gid)
    } else {
        match table.entry_meta(parent_id) {
            None => None,
            Some((parent_path, parent_kind)) => {
                let ghost j = spec_find_id(t0.entries, 0, parent_id)->Some_0;
                let mut path = clone_path(&parent_path);
                path.push(child.clone());
                proof {
                    assert(path.deep_view() =~= t0.entries[j].path.push(child@));
                }
                match table.cached_attrs(&path) {
                    Some(a) => Some(a),
                    None => match parent_outcome {
                        IntrospectOutcome::Document(d) => {
                            proof {
                                assert(t0.entries[j].path.len() > 0);
                                assert(t0.entries[j].kind != PathKind::Root);
                            }
                            match classify_child(parent_kind, &parent_path, d, child) {
                                Some(kind) => {
                                    if matches!(kind, PathKind::BusNameDir | PathKind::ObjectDir) {
                                        table.resolve(&path, kind, child_outcome, uid, gid)
                                    } else {
                                        table.resolve(&path, kind, parent_outcome, 0, 0)
                                    }
                                },
                                None => None,
                            }
                        },
                        _ => None,
                    },
                }
            },
        }
    }
}

/// One bus name offered for the root listing, with the wire results that
/// resolving it depends on: the outcome of introspecting its root object
/// and its resolved owner.
pub struct BusChild {
    pub name: String,
    pub outcome: IntrospectOutcome,
    pub uid: u32,
    pub gid: u32,
}

pub ghost struct BusChildView {
    pub name: Seq<char>,
    pub outcome: OutcomeView,
    pub uid: u32,
    pub gid: u32,
}

impl View for BusChild {
    type V = BusChildView;

    open spec fn view(&self) -> BusChildView {
        BusChildView { name: self.name@, outcome: self.outcome@, uid: self.uid, gid: self.gid }
    }
}

impl DeepView for BusChild {
    type V = BusChildView;

    open spec fn deep_view(&self) -> BusChildView {
        self.view()
    }
}

/// The two rows every directory listing starts with, both naming the listed
/// directory's own inode.
pub open spec fn spec_dot_entries(ino: u64) -> Seq<DirEntryView> {
    seq![
        DirEntryView { ino, kind: FileKind::Directory, name: "."@ },
        DirEntryView { ino, kind: FileKind::Directory, name: ".."@ },
    ]
}

/// A listing resumed at `n`: the rows from index `n` on.
pub open spec fn spec_skip_listing(s: Seq<DirEntryView>, n: int) -> Seq<DirEntryView> {
    if n <= 0 {
        s
    } else if n >= s.len() {
        Seq::empty()
    } else {
        s.skip(n)
    }
}

/// Rows for the first `n` offered bus names, resolving (and thereby
/// committing) each in order; a name whose resolution fails is skipped.
pub open spec fn spec_root_children(t: TableView, inputs: Seq<BusChildView>, n: int) -> (
    TableView,
    Seq<DirEntryView>,
)
    decreases n,
{
    if n <= 0 {
        (t, Seq::empty())
    } else {
        let (t1, es) = spec_root_children(t, inputs, n - 1);
        let inp = inputs[n - 1];
        let (t2, ro) = spec_resolve(
            t1,
            seq![inp.name],
            PathKind::BusNameDir,
            inp.outcome,
            inp.uid,
            inp.gid,
        );
        match ro {
            Some(a) => (t2, es.push(DirEntryView { ino: a.ino, kind: a.kind, name: inp.name })),
            None => (t2, es),
        }
    }
}

/// What listing the root does: the dot rows, then one row per live bus name
/// in the order the wire reported them, resumed at `start_offset`.
pub open spec fn spec_list_root(t: TableView, inputs: Seq<BusChildView>, start_offset: u64) -> (
    TableView,
    Seq<DirEntryView>,
)
{
    let (t1, kids) = spec_root_children(t, inputs, inputs.len() as int);
    (t1, spec_skip_listing(spec_dot_entries(ROOT_INO) + kids, start_offset as int))
}

/// Appends the two dot rows.
fn push_dots(out: &mut Vec<DirEntry>, ino: u64)
    ensures
        final(out).deep_view() == old(out).deep_view() + spec_dot_entries(ino),
{
    out.push(DirEntry { ino, kind: FileKind::Directory, name: ".".to_owned() });
    out.push(DirEntry { ino, kind: FileKind::Directory, name: "..".to_owned() });
    proof {
        assert(out.deep_view() =~= old(out).deep_view() + spec_dot_entries(ino));
    }
}

/// Copies the rows from `start_offset` on.
fn suffix_from(src: &Vec<DirEntry>, start_offset: u64) -> (r: Vec<DirEntry>)
    ensures
        r.deep_view() == spec_skip_listing(src.deep_view(), start_offset as int),
{
    let mut out: Vec<DirEntry> = Vec::new();
    let start: usize = if start_offset >= src.len() as u64 {
        src.len()
    } else {
        start_offset as usize
    };
    let mut i: usize = start;
    while i < src.len()
        invariant
            start <= i <= src.len(),
            out@.len() == i - start,
            forall|k: int|
                0 <= k < i - start ==> (#[trigger] out@[k])@ == src.deep_view()[start + k],
        decreases src.len() - i,
    {
        let e = &src[i];
        out.push(DirEntry { ino: e.ino, kind: e.kind, name: e.name.clone() });
        i = i + 1;
    }
    proof {
        assert(out.deep_view() =~= spec_skip_listing(src.deep_view(), start_offset as int));
    }
    out
}

/// Lists the root directory: the dot rows, then one row per offered bus
/// name, each resolved (and committed) in wire order; names whose
/// resolution fails are skipped. Resumed at `start_offset` by re-deriving
/// the whole listing and slicing, so resumption is deterministic.
pub fn list_children_root(table: &mut InodeTable, inputs: &Vec<BusChild>, start_offset: u64) -> (r:
    Vec<DirEntry>)
    requires
        table_wf(old(table)@),
    ensures
        table_wf(final(table)@),
        (final(table)@, r.deep_view()) == spec_list_root(
            old(table)@,
            inputs.deep_view(),
            start_offset,
        ),
{
    let ghost t0 = table@;
    let ghost iv = inputs.deep_view();
    let mut kids: Vec<DirEntry> = Vec::new();
    let mut i: usize = 0;
    while i < inputs.len()
        invariant
            table_wf(table@),
            0 <= i <= inputs.len(),
            iv == inputs.deep_view(),
            iv.len() == inputs.len(),
            forall|k: int| 0 <= k < iv.len() ==> iv[k] == #[trigger] inputs@[k]@,
            (table@, kids.deep_view()) == spec_root_children(t0, iv, i as int),
        decreases inputs.len() - i,
    {
        let ghost pre = (table@, kids.deep_view());
        let inp = &inputs[i];
        let mut path: Vec<String> = Vec::new();
        path.push(inp.name.clone());
        proof {
            assert(path.deep_view() =~= seq![iv[i as int].name]);
        }
        match table.resolve(&path, PathKind::BusNameDir, &inp.outcome, inp.uid, inp.gid) {
            Some(a) => {
                kids.push(DirEntry { ino: a.ino, kind: a.kind, name: inp.name.clone() });
                proof {
                    assert(kids.deep_view() =~= pre.1.push(
                        DirEntryView { ino: a.ino, kind: a.kind, name: iv[i as int].name },
                    ));
                }
            },
            None => {},
        }
        i = i + 1;
        proof {
            assert((table@, kids.deep_view()) == spec_root_children(t0, iv, i as int));
        }
    }
    let mut full: Vec<DirEntry> = Vec::new();
    push_dots(&mut full, ROOT_INO);
    let ghost dots = full.deep_view();
    let mut j: usize = 0;
    while j < kids.len()
        invariant
            0 <= j <= kids.len(),
            full@.len() == 2 + j,
            full.deep_view().take(2) == dots,
            dots =~= spec_dot_entries(ROOT_INO),
            forall|k: int| 0 <= k < 2 ==> full.deep_view()[k] == spec_dot_entries(ROOT_INO)[k],
            forall|k: int| 0 <= k < j ==> full.deep_view()[2 + k] == kids.deep_view()[k],
        decreases kids.len() - j,
    {
        let e = &kids[j];
        full.push(DirEntry { ino: e.ino, kind: e.kind, name: e.name.clone() });
        j = j + 1;
        proof {
            assert(full.deep_view().take(2) =~= dots);
        }
    }
    proof {
        assert(full.deep_view() =~= spec_dot_entries(ROOT_INO) + kids.deep_view());
    }
    suffix_from(&full, start_offset)
}

/// Rows for the first `n` child object-path segments of a directory at
/// `ppath`, each resolved as an object directory against its own outcome.
pub open spec fn spec_nodes_listing(
    t: TableView,
    ppath: Seq<Seq<char>>,
    nodes: Seq<crate::doc::NodeView>,
    outs: Seq<OutcomeView>,
    uid: u32,
    gid: u32,
    n: int,
) -> (TableView, Seq<DirEntryView>)
    decreases n,
{
    if n <= 0 {
        (t, Seq::empty())
    } else {
        let (t1, es) = spec_nodes_listing(t, ppath, nodes, outs, uid, gid, n - 1);
        let (t2, ro) = spec_resolve(
            t1,
            ppath.push(nodes[n - 1].name),
            PathKind::ObjectDir,
            outs[n - 1],
            uid,
            gid,
        );
        match ro {
            Some(a) => (
                t2,
                es.push(DirEntryView { ino: a.ino, kind: a.kind, name: nodes[n - 1].name }),
            ),
            None => (t2, es),
        }
    }
}

/// Rows for the first `n` interfaces of an object directory at `ppath`,
/// each resolved as an interface directory against the object's own
/// document.
pub open spec fn spec_ifaces_listing(
    t: TableView,
    ppath: Seq<Seq<char>>,
    ifaces: Seq<crate::doc::InterfaceView>,
    doc: NodeInfoView,
    n: int,
) -> (TableView, Seq<DirEntryView>)
    decreases n,
{
    if n <= 0 {
        (t, Seq::empty())
    } else {
        let (t1, es) = spec_ifaces_listing(t, ppath, ifaces, doc, n - 1);
        let (t2, ro) = spec_resolve(
            t1,
            ppath.push(ifaces[n - 1].name),
            PathKind::InterfaceDir,
            OutcomeView::Document(doc),
            0,
            0,
        );
        match ro {
            Some(a) => (
                t2,
                es.push(DirEntryView { ino: a.ino, kind: a.kind, name: ifaces[n - 1].name }),
            ),
            None => (t2, es),
        }
    }
}

/// Rows for the first `n` member names of an interface directory at
/// `ppath`, each resolved as a member file.
pub open spec fn spec_members_listing(
    t: TableView,
    ppath: Seq<Seq<char>>,
    names: Seq<Seq<char>>,
    outcome: OutcomeView,
    n: int,
) -> (TableView, Seq<DirEntryView>)
    decreases n,
{
    if n <= 0 {
        (t, Seq::empty())
    } else {
        let (t1, es) = spec_members_listing(t, ppath, names, outcome, n - 1);
        let (t2, ro) = spec_resolve(
            t1,
            ppath.push(names[n - 1]),
            PathKind::MemberFile,
            outcome,
            0,
            0,
        );
        match ro {
            Some(a) => (t2, es.push(DirEntryView { ino: a.ino, kind: a.kind, name: names[n - 1] })),
            None => (t2, es),
        }
    }
}

/// What listing a non-root directory does. A document outcome lists the
/// children the classification machine derives for the directory's kind:
/// child object-path segments (resolved against the per-child outcomes in
/// `outs`), then, for an object directory, its interfaces; for an interface
/// directory, the interface's members. An access-denied outcome lists just
/// the dot rows — an empty child set without concealing the directory. Any
/// other failure answers NotFound, as does an unknown id, a member file, or
/// a document that no longer carries the interface.
pub open spec fn spec_list_children(
    t: TableView,
    id: u64,
    outcome: OutcomeView,
    outs: Seq<OutcomeView>,
    uid: u32,
    gid: u32,
    start_offset: u64,
) -> (TableView, Option<Seq<DirEntryView>>) {
    if id == ROOT_INO {
        (t, None)
    } else {
        match spec_find_id(t.entries, 0, id) {
            None => (t, None),
            Some(j) => {
                let parent = t.entries[j];
                match parent.kind {
                    PathKind::Root => (t, None),
                    PathKind::MemberFile => (t, None),
                    PathKind::BusNameDir | PathKind::ObjectDir => match outcome {
                        OutcomeView::Document(doc) => {
                            let (t1, nkids) = spec_nodes_listing(
                                t,
                                parent.path,
                                doc.nodes,
                                outs,
                                uid,
                                gid,
                                doc.nodes.len() as int,
                            );
                            let (t2, ikids) = if parent.kind == PathKind::ObjectDir {
                                spec_ifaces_listing(
                                    t1,
                                    parent.path,
                                    doc.interfaces,
                                    doc,
                                    doc.interfaces.len() as int,
                                )
                            } else {
                                (t1, Seq::empty())
                            };
                            (
                                t2,
                                Some(
                                    spec_skip_listing(
                                        spec_dot_entries(id) + nkids + ikids,
                                        start_offset as int,
                                    ),
                                ),
                            )
                        },
                        OutcomeView::AccessDenied => (
                            t,
                            Some(spec_skip_listing(spec_dot_entries(id), start_offset as int)),
                        ),
                        OutcomeView::Unreachable => (t, None),
                    },
                    PathKind::InterfaceDir => match outcome {
                        OutcomeView::Document(doc) => match spec_find_interface(
                            doc.interfaces,
                            0,
                            parent.path.last(),
                        ) {
                            Some(iv) => {
                                let (t1, kids) = spec_members_listing(
                                    t,
                                    parent.path,
                                    iv.member_names(),
                                    outcome,
                                    iv.member_names().len() as int,
                                );
                                (
                                    t1,
                                    Some(
                                        spec_skip_listing(
                                            spec_dot_entries(id) + kids,
                                            start_offset as int,
                                        ),
                                    ),
                                )
                            },
                            None => (t, None),
                        },
                        OutcomeView::AccessDenied => (
                            t,
                            Some(spec_skip_listing(spec_dot_entries(id), start_offset as int)),
                        ),
                        OutcomeView::Unreachable => (t, None),
                    },
                }
            },
        }
    }
}

/// Lists a non-root directory, per `spec_list_children`. The caller hands
/// in the outcome of introspecting the directory's own object and, when
/// that outcome is a document and the directory is backed by a bus
/// destination, one outcome per child object-path segment the document
/// declares. The root is listed by `list_children_root`.
pub fn list_children(
    table: &mut InodeTable,
    id: u64,
    outcome: &IntrospectOutcome,
    child_outcomes: &Vec<IntrospectOutcome>,
    uid: u32,
    gid: u32,
    start_offset: u64,
) -> (r: Option<Vec<DirEntry>>)
    requires
        table_wf(old(table)@),
        (match spec_find_id(old(table)@.entries, 0, id) {
            Some(j) => {
                let parent = old(table)@.entries[j];
                (parent.kind == PathKind::BusNameDir || parent.kind == PathKind::ObjectDir)
                    ==> match outcome@ {
                    OutcomeView::Document(doc) => child_outcomes@.len() == doc.nodes.len(),
                    _ => true,
                }
            },
            None => true,
        }),
    ensures
        table_wf(final(table)@),
        (final(table)@, r.deep_view()) == spec_list_children(
            old(table)@,
            id,
            outcome@,
            child_outcomes.deep_view(),
            uid,
            gid,
            start_offset,
        ),
{
    let ghost t0 = table@;
    let ghost ov = child_outcomes.deep_view();
    if id == ROOT_INO {
        return None;
    }
    match table.entry_meta(id) {
        None => None,
        Some((ppath, pkind)) => {
            let ghost j = spec_find_id(t0.entries, 0, id)->Some_0;
            let ghost pv = t0.entries[j].path;
            proof {
                assert(pv.len() > 0);
                assert(t0.entries[j].kind != PathKind::Root);
            }
            match pkind {
                PathKind::Root => None,
                PathKind::MemberFile => None,
                PathKind::BusNameDir | PathKind::ObjectDir => match outcome {
                    IntrospectOutcome::Document(d) => {
                        let ghost dv = d@;
                        let mut kids: Vec<DirEntry> = Vec::new();
                        let mut i: usize = 0;
                        while i < d.nodes.len()
                            invariant
                                table_wf(table@),
                                0 <= i <= d.nodes.len(),
                                dv == d@,
                                ov == child_outcomes.deep_view(),
                                dv.nodes.len() == d.nodes.len(),
                                ov.len() == child_outcomes.len(),
                                ov.len() == dv.nodes.len(),
                                pv == ppath.deep_view(),
                                pv.len() > 0,
                                forall|k: int|
                                    0 <= k < dv.nodes.len() ==> dv.nodes[k] == #[trigger] d
                                        .nodes@[k]@,
                                forall|k: int|
                                    0 <= k < ov.len() ==> ov[k] == #[trigger] child_outcomes@[k]@,
                                (table@, kids.deep_view()) == spec_nodes_listing(
                                    t0,
                                    pv,
                                    dv.nodes,
                                    ov,
                                    uid,
                                    gid,
                                    i as int,
                                ),
                            decreases d.nodes.len() - i,
                        {
                            let ghost pre = (table@, kids.deep_view());
                            let mut path = clone_path(&ppath);
                            path.push(d.nodes[i].name.clone());
                            proof {
                                assert(path.deep_view() =~= pv.push(dv.nodes[i as int].name));
                            }
                            match table.resolve(
                                &path,
                                PathKind::ObjectDir,
                                &child_outcomes[i],
                                uid,
                                gid,
                            ) {
                                Some(a) => {
                                    kids.push(
                                        DirEntry {
                                            ino: a.ino,
                                            kind: a.kind,
                                            name: d.nodes[i].name.clone(),
                                        },
                                    );
                                    proof {
                                        assert(kids.deep_view() =~= pre.1.push(
                                            DirEntryView {
                                                ino: a.ino,
                                                kind: a.kind,
                                                name: dv.nodes[i as int].name,
                                            },
                                        ));
                                    }
                                },
                                None => {},
                            }
                            i = i + 1;
                        }
                        let ghost tn = table@;
                        let ghost nks = spec_nodes_listing(
                            t0,
                            pv,
                            dv.nodes,
                            ov,
                            uid,
                            gid,
                            dv.nodes.len() as int,
                        );
                        let mut ikids: Vec<DirEntry> = Vec::new();
                        if matches!(pkind, PathKind::ObjectDir) {
                            let mut i: usize = 0;
                            while i < d.interfaces.len()
                                invariant
                                    table_wf(table@),
                                    0 <= i <= d.interfaces.len(),
                                    dv == d@,
                                    dv.interfaces.len() == d.interfaces.len(),
                                    pv == ppath.deep_view(),
                                    pv.len() > 0,
                                    outcome@ == OutcomeView::Document(dv),
                                    forall|k: int|
                                        0 <= k < dv.interfaces.len() ==> dv.interfaces[k]
                                            == #[trigger] d.interfaces@[k]@,
                                    (table@, ikids.deep_view()) == spec_ifaces_listing(
                                        tn,
                                        pv,
                                        dv.interfaces,
                                        dv,
                                        i as int,
                                    ),
                                decreases d.interfaces.len() - i,
                            {
                                let ghost pre = (table@, ikids.deep_view());
                                let mut path = clone_path(&ppath);
                                path.push(d.interfaces[i].name.clone());
                                proof {
                                    assert(path.deep_view() =~= pv.push(
                                        dv.interfaces[i as int].name,
                                    ));
                                }
                                match table.resolve(&path, PathKind::InterfaceDir, outcome, 0, 0) {
                                    Some(a) => {
                                        ikids.push(
                                            DirEntry {
                                                ino: a.ino,
                                                kind: a.kind,
                                                name: d.interfaces[i].name.clone(),
                                            },
                                        );
                                        proof {
                                            assert(ikids.deep_view() =~= pre.1.push(
                                                DirEntryView {
                                                    ino: a.ino,
                                                    kind: a.kind,
                                                    name: dv.interfaces[i as int].name,
                                                },
                                            ));
                                        }
                                    },
                                    None => {},
                                }
                                i = i + 1;
                            }
                        }
                        let mut full: Vec<DirEntry> = Vec::new();
                        push_dots(&mut full, id);
                        let full = append_rows(full, &kids);
                        let out = append_rows(full, &ikids);
                        proof {
                            if pkind == PathKind::ObjectDir {
                                let iks = spec_ifaces_listing(
                                    nks.0,
                                    pv,
                                    dv.interfaces,
                                    dv,
                                    dv.interfaces.len() as int,
                                );
                                assert(out.deep_view() =~= spec_dot_entries(id) + nks.1 + iks.1);
                            } else {
                                assert(ikids.deep_view() =~= Seq::<DirEntryView>::empty());
                                assert(out.deep_view() =~= spec_dot_entries(id) + nks.1);
                                assert(spec_dot_entries(id) + nks.1 + Seq::<DirEntryView>::empty()
                                    =~= spec_dot_entries(id) + nks.1);
                            }
                        }
                        Some(suffix_from(&out, start_offset))
                    },
                    IntrospectOutcome::AccessDenied => {
                        let mut full: Vec<DirEntry> = Vec::new();
                        push_dots(&mut full, id);
                        proof {
                            assert(full.deep_view() =~= spec_dot_entries(id));
                        }
                        Some(suffix_from(&full, start_offset))
                    },
                    IntrospectOutcome::Unreachable => None,
                },
                PathKind::InterfaceDir => match outcome {
                    IntrospectOutcome::Document(d) => {
                        let ghost dv = d@;
                        let last = &ppath[ppath.len() - 1];
                        proof {
                            assert(last@ == pv.last());
                        }
                        match crate::doc::find_interface(&d.interfaces, last) {
                            None => None,
                            Some(it) => {
                                let names = it.member_names();
                                let ghost nv = it@.member_names();
                                let mut kids: Vec<DirEntry> = Vec::new();
                                let mut i: usize = 0;
                                while i < names.len()
                                    invariant
                                        table_wf(table@),
                                        0 <= i <= names.len(),
                                        nv == names.deep_view(),
                                        nv.len() == names.len(),
                                        pv == ppath.deep_view(),
                                        pv.len() > 0,
                                        outcome@ == OutcomeView::Document(dv),
                                        forall|k: int|
                                            0 <= k < nv.len() ==> nv[k] == (
                                            #[trigger] names@[k])@,
                                        (table@, kids.deep_view()) == spec_members_listing(
                                            t0,
                                            pv,
                                            nv,
                                            outcome@,
                                            i as int,
                                        ),
                                    decreases names.len() - i,
                                {
                                    let ghost pre = (table@, kids.deep_view());
                                    let mut path = clone_path(&ppath);
                                    path.push(names[i].clone());
                                    proof {
                                        assert(path.deep_view() =~= pv.push(nv[i as int]));
                                    }
                                    match table.resolve(&path, PathKind::MemberFile, outcome, 0, 0)
                                        {
                                        Some(a) => {
                                            kids.push(
                                                DirEntry {
                                                    ino: a.ino,
                                                    kind: a.kind,
                                                    name: names[i].clone(),
                                                },
                                            );
                                            proof {
                                                assert(kids.deep_view() =~= pre.1.push(
                                                    DirEntryView {
                                                        ino: a.ino,
                                                        kind: a.kind,
                                                        name: nv[i as int],
                                                    },
                                                ));
                                            }
                                        },
                                        None => {},
                                    }
                                    i = i + 1;
                                }
                                let mut full: Vec<DirEntry> = Vec::new();
                                push_dots(&mut full, id);
                                let out = append_rows(full, &kids);
                                proof {
                                    assert(out.deep_view() =~= spec_dot_entries(id)
                                        + kids.deep_view());
                                }
                                Some(suffix_from(&out, start_offset))
                            },
                        }
                    },
                    IntrospectOutcome::AccessDenied => {
                        let mut full: Vec<DirEntry> = Vec::new();
                        push_dots(&mut full, id);
                        proof {
                            assert(full.deep_view() =~= spec_dot_entries(id));
                        }
                        Some(suffix_from(&full, start_offset))
                    },
                    IntrospectOutcome::Unreachable => None,
                },
            }
        },
    }
}

/// Appends copies of `rows` to `base`.
fn append_rows(base: Vec<DirEntry>, rows: &Vec<DirEntry>) -> (r: Vec<DirEntry>)
    ensures
        r.deep_view() == base.deep_view() + rows.deep_view(),
{
    let ghost bv = base.deep_view();
    let mut out = base;
    let mut i: usize = 0;
    while i < rows.len()
        invariant
            0 <= i <= rows.len(),
            out@.len() == bv.len() + i,
            bv.len() == out@.len() - i,
            forall|k: int| 0 <= k < bv.len() ==> (#[trigger] out@[k])@ == bv[k],
            forall|k: int|
                0 <= k < i ==> (#[trigger] out@[bv.len() + k])@ == rows.deep_view()[k],
        decreases rows.len() - i,
    {
        let e = &rows[i];
        out.push(DirEntry { ino: e.ino, kind: e.kind, name: e.name.clone() });
        i = i + 1;
    }
    proof {
        assert forall|k: int| 0 <= k < out@.len() implies out.deep_view()[k] == (bv
            + rows.deep_view())[k] by {
            if k < bv.len() {
            } else {
                assert(out@[bv.len() + (k - bv.len())]@ == rows.deep_view()[k - bv.len()]);
            }
        }
        assert(out.deep_view() =~= bv + rows.deep_view());
    }
    out
}

/// The object-path text for a sequence of segments, built front to back:
/// one `/` before each segment.
pub open spec fn spec_path_parts(rest: Seq<Seq<char>>, n: int) -> Seq<char>
    decreases n,
{
    if n <= 0 {
        Seq::empty()
    } else {
        spec_path_parts(rest, n - 1) + "/"@ + rest[n - 1]
    }
}

/// The object-path text an entry's non-bus-name segments address: the root
/// object `/` when there are none, else `/seg` per segment.
pub open spec fn spec_object_path(rest: Seq<Seq<char>>) -> Seq<char> {
    if rest.len() == 0 {
        "/"@
    } else {
        spec_path_parts(rest, rest.len() as int)
    }
}

/// Builds the object-path text for `path[1 .. upto]`.
fn object_path_string(path: &Vec<String>, upto: usize) -> (r: String)
    requires
        1 <= upto <= path@.len(),
    ensures
        r@ == spec_object_path(path.deep_view().subrange(1, upto as int)),
{
    let ghost rest = path.deep_view().subrange(1, upto as int);
    if upto == 1 {
        let r = "/".to_owned();
        proof {
            assert(rest.len() == 0);
        }
        return r;
    }
    let mut s = String::new();
    let mut i: usize = 1;
    while i < upto
        invariant
            1 <= i <= upto <= path@.len(),
            rest == path.deep_view().subrange(1, upto as int),
            rest.len() == upto - 1,
            forall|k: int| 0 <= k < rest.len() ==> rest[k] == #[trigger] path@[k + 1]@,
            s@ == spec_path_parts(rest, i - 1),
        decreases upto - i,
    {
        s.append("/");
        s.append(path[i].as_str());
        i = i + 1;
        proof {
            assert(s@ == spec_path_parts(rest, i - 1));
        }
    }
    s
}

/// The wire target for introspecting the object that backs entry `id`: the
/// bus destination (the path's first segment) and the object-path text —
/// the entry's own object for bus-name and object directories, the parent
/// object for an interface directory. The root, member files and unknown
/// ids have no target.
pub fn introspect_target(table: &InodeTable, id: u64) -> (r: Option<(String, String)>)
    requires
        table_wf(table@),
    ensures
        match r {
            Some(t) => match spec_find_id(table@.entries, 0, id) {
                Some(j) => {
                    let e = table@.entries[j];
                    &&& e.path.len() > 0
                    &&& t.0@ == e.path[0]
                    &&& (e.kind == PathKind::BusNameDir || e.kind == PathKind::ObjectDir)
                        ==> t.1@ == spec_object_path(e.path.subrange(1, e.path.len() as int))
                    &&& e.kind == PathKind::InterfaceDir ==> t.1@ == spec_object_path(
                        e.path.subrange(1, e.path.len() - 1),
                    )
                    &&& (e.kind == PathKind::BusNameDir || e.kind == PathKind::ObjectDir || e.kind
                        == PathKind::InterfaceDir)
                },
                None => false,
            },
            None => match spec_find_id(table@.entries, 0, id) {
                Some(j) => {
                    let e = table@.entries[j];
                    e.kind == PathKind::Root || e.kind == PathKind::MemberFile || (e.kind
                        == PathKind::InterfaceDir && e.path.len() < 2)
                },
                None => true,
            },
        },
{
    match table.entry_meta(id) {
        None => None,
        Some((path, kind)) => {
            proof {
                let j = spec_find_id(table@.entries, 0, id)->Some_0;
                assert(table@.entries[j].path.len() > 0);
            }
            match kind {
                PathKind::Root => None,
                PathKind::MemberFile => None,
                PathKind::BusNameDir | PathKind::ObjectDir => {
                    let dest = path[0].clone();
                    let object = object_path_string(&path, path.len());
                    proof {
                        assert(path.deep_view()[0] == path@[0]@);
                    }
                    Some((dest, object))
                },
                PathKind::InterfaceDir => {
                    if path.len() < 2 {
                        return None;
                    }
                    let dest = path[0].clone();
                    let object = object_path_string(&path, path.len() - 1);
                    proof {
                        assert(path.deep_view()[0] == path@[0]@);
                    }
                    Some((dest, object))
                },
            }
        },
    }
}

/// The situations in which a lookup consults the child object's own
/// introspection for a fresh entry: the parent is the root (the child is a
/// bus-name directory), or the parent's document classifies the child as an
/// object directory; and no entry is committed for the joined path yet.
pub open spec fn spec_lookup_fresh_dir(
    t: TableView,
    parent_id: u64,
    child: Seq<char>,
    parent_outcome: OutcomeView,
) -> bool {
    if parent_id == ROOT_INO {
        spec_find_path(t.entries, 0, seq![child]) is None
    } else {
        match spec_find_id(t.entries, 0, parent_id) {
            Some(j) => {
                let parent = t.entries[j];
                &&& spec_find_path(t.entries, 0, parent.path.push(child)) is None
                &&& match parent_outcome {
                    OutcomeView::Document(doc) => spec_classify_child(
                        parent.kind,
                        parent.path,
                        doc,
                        child,
                    ) == Some(PathKind::ObjectDir),
                    _ => false,
                }
            },
            None => false,
        }
    }
}

/// Access denial never conceals: when introspecting the child's own object
/// is denied, looking the child up still yields an entry — a directory with
/// mode 0750 and link count 0 — rather than NotFound.
pub proof fn lemma_lookup_access_denied(
    t: TableView,
    parent_id: u64,
    child: Seq<char>,
    parent_outcome: OutcomeView,
    uid: u32,
    gid: u32,
)
    requires
        table_wf(t),
        t.entries.len() + 2 <= u64::MAX,
        spec_lookup_fresh_dir(t, parent_id, child, parent_outcome),
    ensures
        ({
            let (t1, r) = spec_lookup(
                t,
                parent_id,
                child,
                parent_outcome,
                OutcomeView::AccessDenied,
                uid,
                gid,
            );
            &&& r is Some
            &&& r->Some_0.kind == FileKind::Directory
            &&& r->Some_0.perm == 0o750
            &&& r->Some_0.nlink == 0
        }),
{
}

/// Every row of `rows` is committed under the parent path: joining the
/// row's name onto `ppath` finds an entry bearing the row's inode id.
pub open spec fn rows_committed(
    t: TableView,
    ppath: Seq<Seq<char>>,
    rows: Seq<DirEntryView>,
) -> bool {
    forall|k: int|
        0 <= k < rows.len() ==> match spec_find_path(
            t.entries,
            0,
            ppath.push((#[trigger] rows[k]).name),
        ) {
            Some(j) => t.entries[j].attrs.ino == rows[k].ino,
            None => false,
        }
}

/// One resolution step keeps previously committed rows committed and, if a
/// row came out of it, commits that row too.
proof fn lemma_rows_step(
    t1: TableView,
    ppath: Seq<Seq<char>>,
    rows: Seq<DirEntryView>,
    path: Seq<Seq<char>>,
    kind: PathKind,
    outcome: OutcomeView,
    uid: u32,
    gid: u32,
    name: Seq<char>,
)
    requires
        table_wf(t1),
        rows_committed(t1, ppath, rows),
        path == ppath.push(name),
        kind != PathKind::Root,
    ensures
        ({
            let (t2, ro) = spec_resolve(t1, path, kind, outcome, uid, gid);
            &&& table_wf(t2)
            &&& t1.entries.len() <= t2.entries.len()
            &&& forall|i: int| 0 <= i < t1.entries.len() ==> t2.entries[i] == t1.entries[i]
            &&& match ro {
                Some(a) => rows_committed(
                    t2,
                    ppath,
                    rows.push(DirEntryView { ino: a.ino, kind: a.kind, name }),
                ),
                None => rows_committed(t2, ppath, rows),
            }
        }),
{
    assert(path.len() > 0);
    crate::inode::lemma_resolve_commits(t1, path, kind, outcome, uid, gid);
    let (t2, ro) = spec_resolve(t1, path, kind, outcome, uid, gid);
    assert forall|k: int| 0 <= k < rows.len() implies match spec_find_path(
        t2.entries,
        0,
        ppath.push((#[trigger] rows[k]).name),
    ) {
        Some(j) => t2.entries[j].attrs.ino == rows[k].ino,
        None => false,
    } by {
        let p = ppath.push(rows[k].name);
        match spec_find_path(t1.entries, 0, p) {
            Some(j) => {
                crate::inode::lemma_find_path_found(t1.entries, p, j);
                crate::inode::lemma_find_path_extend(t1.entries, t2.entries, 0, p, j);
            },
            None => {},
        }
    }
    match ro {
        Some(a) => {
            let j = spec_find_path(t2.entries, 0, path)->Some_0;
            crate::inode::lemma_find_path_found(t2.entries, path, j);
            let pushed = rows.push(DirEntryView { ino: a.ino, kind: a.kind, name });
            assert(ppath.push(pushed[rows.len() as int].name) == path);
        },
        None => {},
    }
}

/// The root-listing fold commits every row it yields.
proof fn lemma_root_children_committed(t: TableView, inputs: Seq<BusChildView>, n: int)
    requires
        table_wf(t),
        0 <= n <= inputs.len(),
    ensures
        ({
            let (tn, es) = spec_root_children(t, inputs, n);
            &&& table_wf(tn)
            &&& t.entries.len() <= tn.entries.len()
            &&& forall|i: int| 0 <= i < t.entries.len() ==> tn.entries[i] == t.entries[i]
            &&& rows_committed(tn, Seq::empty(), es)
        }),
    decreases n,
{
    if n > 0 {
        lemma_root_children_committed(t, inputs, n - 1);
        let (t1, es) = spec_root_children(t, inputs, n - 1);
        let inp = inputs[n - 1];
        assert(seq![inp.name] =~= Seq::<Seq<char>>::empty().push(inp.name));
        lemma_rows_step(
            t1,
            Seq::empty(),
            es,
            seq![inp.name],
            PathKind::BusNameDir,
            inp.outcome,
            inp.uid,
            inp.gid,
            inp.name,
        );
    }
}

/// The node-children fold commits every row it yields.
proof fn lemma_nodes_listing_committed(
    t: TableView,
    ppath: Seq<Seq<char>>,
    nodes: Seq<crate::doc::NodeView>,
    outs: Seq<OutcomeView>,
    uid: u32,
    gid: u32,
    n: int,
)
    requires
        table_wf(t),
        0 <= n,
        ppath.len() > 0,
    ensures
        ({
            let (tn, es) = spec_nodes_listing(t, ppath, nodes, outs, uid, gid, n);
            &&& table_wf(tn)
            &&& t.entries.len() <= tn.entries.len()
            &&& forall|i: int| 0 <= i < t.entries.len() ==> tn.entries[i] == t.entries[i]
            &&& rows_committed(tn, ppath, es)
        }),
    decreases n,
{
    if n > 0 {
        lemma_nodes_listing_committed(t, ppath, nodes, outs, uid, gid, n - 1);
        let (t1, es) = spec_nodes_listing(t, ppath, nodes, outs, uid, gid, n - 1);
        lemma_rows_step(
            t1,
            ppath,
            es,
            ppath.push(nodes[n - 1].name),
            PathKind::ObjectDir,
            outs[n - 1],
            uid,
            gid,
            nodes[n - 1].name,
        );
    }
}

/// The interface-children fold commits every row it yields.
proof fn lemma_ifaces_listing_committed(
    t: TableView,
    ppath: Seq<Seq<char>>,
    ifaces: Seq<crate::doc::InterfaceView>,
    doc: NodeInfoView,
    n: int,
)
    requires
        table_wf(t),
        0 <= n,
        ppath.len() > 0,
    ensures
        ({
            let (tn, es) = spec_ifaces_listing(t, ppath, ifaces, doc, n);
            &&& table_wf(tn)
            &&& t.entries.len() <= tn.entries.len()
            &&& forall|i: int| 0 <= i < t.entries.len() ==> tn.entries[i] == t.entries[i]
            &&& rows_committed(tn, ppath, es)
        }),
    decreases n,
{
    if n > 0 {
        lemma_ifaces_listing_committed(t, ppath, ifaces, doc, n - 1);
        let (t1, es) = spec_ifaces_listing(t, ppath, ifaces, doc, n - 1);
        lemma_rows_step(
            t1,
            ppath,
            es,
            ppath.push(ifaces[n - 1].name),
            PathKind::InterfaceDir,
            OutcomeView::Document(doc),
            0,
            0,
            ifaces[n - 1].name,
        );
    }
}

/// The member-children fold commits every row it yields.
proof fn lemma_members_listing_committed(
    t: TableView,
    ppath: Seq<Seq<char>>,
    names: Seq<Seq<char>>,
    outcome: OutcomeView,
    n: int,
)
    requires
        table_wf(t),
        0 <= n,
        ppath.len() > 0,
    ensures
        ({
            let (tn, es) = spec_members_listing(t, ppath, names, outcome, n);
            &&& table_wf(tn)
            &&& t.entries.len() <= tn.entries.len()
            &&& forall|i: int| 0 <= i < t.entries.len() ==> tn.entries[i] == t.entries[i]
            &&& rows_committed(tn, ppath, es)
        }),
    decreases n,
{
    if n > 0 {
        lemma_members_listing_committed(t, ppath, names, outcome, n - 1);
        let (t1, es) = spec_members_listing(t, ppath, names, outcome, n - 1);
        lemma_rows_step(
            t1,
            ppath,
            es,
            ppath.push(names[n - 1]),
            PathKind::MemberFile,
            outcome,
            0,
            0,
            names[n - 1],
        );
    }
}

/// A row committed under the parent path makes a later lookup of its name
/// answer from the table: the same inode id the listing reported, with the
/// table untouched, whatever wire outcomes that lookup is handed.
proof fn lemma_committed_row_lookup(
    t: TableView,
    parent_id: u64,
    pj: int,
    ppath: Seq<Seq<char>>,
    row: DirEntryView,
    po: OutcomeView,
    co: OutcomeView,
    uid: u32,
    gid: u32,
)
    requires
        table_wf(t),
        if parent_id == ROOT_INO {
            ppath == Seq::<Seq<char>>::empty()
        } else {
            spec_find_id(t.entries, 0, parent_id) == Some(pj) && t.entries[pj].path == ppath
        },
        rows_committed(t, ppath, seq![row]),
    ensures
        ({
            let (t2, r) = spec_lookup(t, parent_id, row.name, po, co, uid, gid);
            &&& t2 == t
            &&& r is Some
            &&& r->Some_0.ino == row.ino
        }),
{
    assert(seq![row][0] == row);
    let p = ppath.push(row.name);
    let j = spec_find_path(t.entries, 0, p)->Some_0;
    crate::inode::lemma_find_path_found(t.entries, p, j);
    if parent_id == ROOT_INO {
        assert(seq![row.name] =~= Seq::<Seq<char>>::empty().push(row.name));
    } else {
        crate::inode::lemma_find_id_found(t.entries, parent_id, pj);
    }
}

/// Listing/lookup consistency at the root: every row a fresh full root
/// listing yields beyond the two dot rows looks up, by its name, to the
/// very inode id the listing reported, and that lookup leaves the table
/// untouched, whatever wire outcomes it is handed.
pub proof fn lemma_root_listing_lookup_consistent(
    t: TableView,
    inputs: Seq<BusChildView>,
    k: int,
    po: OutcomeView,
    co: OutcomeView,
    uid: u32,
    gid: u32,
)
    requires
        table_wf(t),
        ({
            let (t1, rows) = spec_list_root(t, inputs, 0);
            2 <= k < rows.len()
        }),
    ensures
        ({
            let (t1, rows) = spec_list_root(t, inputs, 0);
            let (t2, r) = spec_lookup(t1, ROOT_INO, rows[k].name, po, co, uid, gid);
            &&& t2 == t1
            &&& r is Some
            &&& r->Some_0.ino == rows[k].ino
        }),
{
    lemma_root_children_committed(t, inputs, inputs.len() as int);
    let (t1, kids) = spec_root_children(t, inputs, inputs.len() as int);
    let (_, rows) = spec_list_root(t, inputs, 0);
    assert(rows == spec_dot_entries(ROOT_INO) + kids);
    assert(rows[k] == kids[k - 2]);
    assert(seq![kids[k - 2]][0] == kids[k - 2]);
    lemma_committed_row_lookup(
        t1,
        ROOT_INO,
        0,
        Seq::empty(),
        kids[k - 2],
        po,
        co,
        uid,
        gid,
    );
}

/// Listing/lookup consistency below the root: every row a fresh full
/// listing of a directory yields beyond the two dot rows looks up, by its
/// name against the same directory, to the very inode id the listing
/// reported, and that lookup leaves the table untouched, whatever wire
/// outcomes it is handed.
pub proof fn lemma_listing_lookup_consistent(
    t: TableView,
    id: u64,
    outcome: OutcomeView,
    outs: Seq<OutcomeView>,
    uid: u32,
    gid: u32,
    k: int,
    po: OutcomeView,
    co: OutcomeView,
    u2: u32,
    g2: u32,
)
    requires
        table_wf(t),
        ({
            let (t1, ro) = spec_list_children(t, id, outcome, outs, uid, gid, 0);
            ro is Some && 2 <= k < ro->Some_0.len()
        }),
    ensures
        ({
            let (t1, ro) = spec_list_children(t, id, outcome, outs, uid, gid, 0);
            let rows = ro->Some_0;
            let (t2, r) = spec_lookup(t1, id, rows[k].name, po, co, u2, g2);
            &&& t2 == t1
            &&& r is Some
            &&& r->Some_0.ino == rows[k].ino
        }),
{
    let (t1, ro) = spec_list_children(t, id, outcome, outs, uid, gid, 0);
    let rows = ro->Some_0;
    let pj = spec_find_id(t.entries, 0, id)->Some_0;
    crate::inode::lemma_find_id_found(t.entries, id, pj);
    let parent = t.entries[pj];
    match parent.kind {
        PathKind::BusNameDir | PathKind::ObjectDir => match outcome {
            OutcomeView::Document(doc) => {
                lemma_nodes_listing_committed(
                    t,
                    parent.path,
                    doc.nodes,
                    outs,
                    uid,
                    gid,
                    doc.nodes.len() as int,
                );
                let (tn, nkids) = spec_nodes_listing(
                    t,
                    parent.path,
                    doc.nodes,
                    outs,
                    uid,
                    gid,
                    doc.nodes.len() as int,
                );
                if parent.kind == PathKind::ObjectDir {
                    lemma_ifaces_listing_committed(
                        tn,
                        parent.path,
                        doc.interfaces,
                        doc,
                        doc.interfaces.len() as int,
                    );
                    let (ti, ikids) = spec_ifaces_listing(
                        tn,
                        parent.path,
                        doc.interfaces,
                        doc,
                        doc.interfaces.len() as int,
                    );
                    assert(rows == spec_dot_entries(id) + nkids + ikids);
                    assert(rows_committed(ti, parent.path, nkids)) by {
                        assert forall|m: int| 0 <= m < nkids.len() implies match spec_find_path(
                            ti.entries,
                            0,
                            parent.path.push((#[trigger] nkids[m]).name),
                        ) {
                            Some(j) => ti.entries[j].attrs.ino == nkids[m].ino,
                            None => false,
                        } by {
                            let p = parent.path.push(nkids[m].name);
                            match spec_find_path(tn.entries, 0, p) {
                                Some(j) => {
                                    crate::inode::lemma_find_path_found(tn.entries, p, j);
                                    crate::inode::lemma_find_path_extend(
                                        tn.entries,
                                        ti.entries,
                                        0,
                                        p,
                                        j,
                                    );
                                },
                                None => {},
                            }
                        }
                    }
                    let row = rows[k];
                    assert(row == if k - 2 < nkids.len() {
                        nkids[k - 2]
                    } else {
                        ikids[k - 2 - nkids.len()]
                    });
                    assert(rows_committed(ti, parent.path, seq![row])) by {
                        assert(seq![row][0] == row);
                    }
                    crate::inode::lemma_find_id_extend(t.entries, ti.entries, 0, id, pj);
                    lemma_committed_row_lookup(ti, id, pj, parent.path, row, po, co, u2, g2);
                } else {
                    assert(rows == spec_dot_entries(id) + nkids + Seq::<DirEntryView>::empty());
                    let row = rows[k];
                    assert(row == nkids[k - 2]);
                    assert(rows_committed(tn, parent.path, seq![row])) by {
                        assert(seq![row][0] == row);
                    }
                    crate::inode::lemma_find_id_extend(t.entries, tn.entries, 0, id, pj);
                    lemma_committed_row_lookup(tn, id, pj, parent.path, row, po, co, u2, g2);
                }
            },
            OutcomeView::AccessDenied => {
                assert(rows.len() == 2);
            },
            OutcomeView::Unreachable => {},
        },
        PathKind::InterfaceDir => match outcome {
            OutcomeView::Document(doc) => {
                let iv = spec_find_interface(doc.interfaces, 0, parent.path.last())->Some_0;
                lemma_members_listing_committed(
                    t,
                    parent.path,
                    iv.member_names(),
                    outcome,
                    iv.member_names().len() as int,
                );
                let (tm, kids) = spec_members_listing(
                    t,
                    parent.path,
                    iv.member_names(),
                    outcome,
                    iv.member_names().len() as int,
                );
                assert(rows == spec_dot_entries(id) + kids);
                let row = rows[k];
                assert(row == kids[k - 2]);
                assert(rows_committed(tm, parent.path, seq![row])) by {
                    assert(seq![row][0] == row);
                }
                crate::inode::lemma_find_id_extend(t.entries, tm.entries, 0, id, pj);
                lemma_committed_row_lookup(tm, id, pj, parent.path, row, po, co, u2, g2);
            },
            OutcomeView::AccessDenied => {
                assert(rows.len() == 2);
            },
            OutcomeView::Unreachable => {},
        },
        _ => {},
    }
}

/// Reading member content is out of the protocol's scope: every read
/// answers NotFound, whatever the id, offset and length.
pub fn read_bytes(_table: &InodeTable, _id: u64, _offset: u64, _length: u32) -> (r: Option<
    Vec<u8>,
>)
    ensures
        r is None,
{
    None
}

} // verus!
