use dbusfs::adapter::list_children;
use dbusfs::adapter::list_children_root;
use dbusfs::adapter::lookup;
use dbusfs::adapter::read_bytes;
use dbusfs::adapter::BusChild;
use dbusfs::doc::NodeInfo;
use dbusfs::inode::FileKind;
use dbusfs::inode::InodeTable;
use dbusfs::inode::IntrospectOutcome;
use dbusfs::inode::PathKind;
use dbusfs::inode::CREATE_TIME_SEC;
use dbusfs::inode::ROOT_INO;

fn doc_with_children(names: &[&str]) -> NodeInfo {
    let mut text = String::from("<node>");
    for n in names {
        text.push_str("<node name=\"");
        text.push_str(n);
        text.push_str("\"/>");
    }
    text.push_str("</node>");
    NodeInfo::from_xml(&text).unwrap()
}

fn path(segments: &[&str]) -> Vec<String> {
    segments.iter().map(|s| (*s).to_owned()).collect()
}

#[test]
fn resolve_is_idempotent() {
    let mut table = InodeTable::new();
    let p = path(&["org.example.A"]);
    let outcome = IntrospectOutcome::Document(doc_with_children(&["x"]));
    let first = table
        .resolve(&p, PathKind::BusNameDir, &outcome, 7, 8)
        .unwrap();
    // The second resolution, with a different outcome and owner, answers
    // the committed snapshot unchanged.
    let second = table
        .resolve(&p, PathKind::BusNameDir, &IntrospectOutcome::Unreachable, 0, 0)
        .unwrap();
    assert_eq!(first, second);
    assert_eq!(first.ino, second.ino);
}

#[test]
fn distinct_paths_get_distinct_ids() {
    let mut table = InodeTable::new();
    let outcome = IntrospectOutcome::Document(doc_with_children(&[]));
    let a = table
        .resolve(&path(&["a"]), PathKind::BusNameDir, &outcome, 0, 0)
        .unwrap();
    let b = table
        .resolve(&path(&["b"]), PathKind::BusNameDir, &outcome, 0, 0)
        .unwrap();
    let c = table
        .resolve(&path(&["a", "c"]), PathKind::ObjectDir, &outcome, 0, 0)
        .unwrap();
    assert_ne!(a.ino, b.ino);
    assert_ne!(a.ino, c.ino);
    assert_ne!(b.ino, c.ino);
    // Ids are sequential from just above the root's and are never the root's.
    assert_eq!(a.ino, 2);
    assert_eq!(b.ino, 3);
    assert_eq!(c.ino, 4);
}

#[test]
fn root_attributes_are_a_directory_with_two_links() {
    let table = InodeTable::new();
    let attrs = table.get_attributes(ROOT_INO).unwrap();
    assert_eq!(attrs.ino, ROOT_INO);
    assert_eq!(attrs.kind, FileKind::Directory);
    assert_eq!(attrs.nlink, 2);
    assert_eq!(attrs.perm, 0o755);
    assert_eq!(attrs.uid, 0);
    assert_eq!(attrs.gid, 0);
    assert_eq!(attrs.crtime_sec, CREATE_TIME_SEC);
}

#[test]
fn unknown_id_has_no_attributes() {
    let table = InodeTable::new();
    assert!(table.get_attributes(42).is_none());
}

#[test]
fn resolved_directory_link_count_is_two_plus_children() {
    let mut table = InodeTable::new();
    let outcome = IntrospectOutcome::Document(doc_with_children(&["a", "b", "c"]));
    let attrs = table
        .resolve(&path(&["org.example.A"]), PathKind::BusNameDir, &outcome, 5, 6)
        .unwrap();
    assert_eq!(attrs.kind, FileKind::Directory);
    assert_eq!(attrs.perm, 0o755);
    assert_eq!(attrs.nlink, 5);
    assert_eq!(attrs.uid, 5);
    assert_eq!(attrs.gid, 6);
}

#[test]
fn access_denied_lookup_yields_restricted_directory() {
    let mut table = InodeTable::new();
    let name = "org.example.Locked".to_owned();
    let attrs = lookup(
        &mut table,
        ROOT_INO,
        &name,
        &IntrospectOutcome::Unreachable,
        &IntrospectOutcome::AccessDenied,
        11,
        12,
    )
    .expect("access denial must still produce an entry");
    assert_eq!(attrs.kind, FileKind::Directory);
    assert_eq!(attrs.perm, 0o750);
    assert_eq!(attrs.nlink, 0);
    assert_eq!(attrs.uid, 11);
    assert_eq!(attrs.gid, 12);
}

#[test]
fn unreachable_lookup_is_not_found() {
    let mut table = InodeTable::new();
    let name = "org.example.Gone".to_owned();
    let r = lookup(
        &mut table,
        ROOT_INO,
        &name,
        &IntrospectOutcome::Unreachable,
        &IntrospectOutcome::Unreachable,
        0,
        0,
    );
    assert!(r.is_none());
    // Nothing negative is cached: a later attempt with a document succeeds.
    let r2 = lookup(
        &mut table,
        ROOT_INO,
        &name,
        &IntrospectOutcome::Unreachable,
        &IntrospectOutcome::Document(doc_with_children(&[])),
        0,
        0,
    );
    assert!(r2.is_some());
}

#[test]
fn lookup_of_unknown_parent_is_not_found() {
    let mut table = InodeTable::new();
    let name = "x".to_owned();
    let outcome = IntrospectOutcome::Document(doc_with_children(&[]));
    assert!(lookup(&mut table, 99, &name, &outcome, &outcome, 0, 0).is_none());
}

#[test]
fn listing_names_resolve_to_listed_ids() {
    let mut table = InodeTable::new();
    let inputs = vec![
        BusChild {
            name: "org.example.A".to_owned(),
            outcome: IntrospectOutcome::Document(doc_with_children(&["obj"])),
            uid: 1,
            gid: 1,
        },
        BusChild {
            name: "org.example.B".to_owned(),
            outcome: IntrospectOutcome::AccessDenied,
            uid: 2,
            gid: 2,
        },
    ];
    let rows = list_children_root(&mut table, &inputs, 0);
    assert_eq!(rows.len(), 4);
    for row in rows.iter().skip(2) {
        let attrs = lookup(
            &mut table,
            ROOT_INO,
            &row.name,
            &IntrospectOutcome::Unreachable,
            &IntrospectOutcome::Unreachable,
            0,
            0,
        )
        .expect("every listed name must look up");
        assert_eq!(attrs.ino, row.ino);
    }
}

#[test]
fn listing_resumes_deterministically_from_an_offset() {
    let mut table = InodeTable::new();
    let inputs: Vec<BusChild> = ["a", "b", "c"]
        .iter()
        .map(|n| BusChild {
            name: (*n).to_owned(),
            outcome: IntrospectOutcome::Document(doc_with_children(&[])),
            uid: 0,
            gid: 0,
        })
        .collect();
    let full = list_children_root(&mut table, &inputs, 0);
    assert_eq!(full.len(), 5);
    let resumed = list_children_root(&mut table, &inputs, 3);
    assert_eq!(resumed.len(), 2);
    assert_eq!(resumed[0], full[3]);
    assert_eq!(resumed[1], full[4]);
    let past_end = list_children_root(&mut table, &inputs, 99);
    assert_eq!(past_end.len(), 0);
}

#[test]
fn object_listing_shows_nodes_then_interfaces() {
    let mut table = InodeTable::new();
    let bus_doc = IntrospectOutcome::Document(doc_with_children(&["obj"]));
    let name = "org.example.A".to_owned();
    let bus = lookup(
        &mut table,
        ROOT_INO,
        &name,
        &IntrospectOutcome::Unreachable,
        &bus_doc,
        0,
        0,
    )
    .unwrap();
    let obj_doc = NodeInfo::from_xml(
        "<node><node name=\"sub\"/><interface name=\"org.example.Iface\">\
         <method name=\"m\"/></interface></node>",
    )
    .unwrap();
    let obj_name = "obj".to_owned();
    let obj = lookup(
        &mut table,
        bus.ino,
        &obj_name,
        &bus_doc,
        &IntrospectOutcome::Document(obj_doc.clone()),
        0,
        0,
    )
    .unwrap();
    assert_eq!(obj.kind, FileKind::Directory);
    // Listing the object: children from its own document need one outcome
    // per child node segment.
    let rows = list_children(
        &mut table,
        obj.ino,
        &IntrospectOutcome::Document(obj_doc),
        &vec![IntrospectOutcome::Document(doc_with_children(&[]))],
        0,
        0,
        0,
    )
    .unwrap();
    let names: Vec<&str> = rows.iter().map(|r| r.name.as_str()).collect();
    assert_eq!(names, vec![".", "..", "sub", "org.example.Iface"]);
    assert_eq!(rows[0].ino, obj.ino);
    assert_eq!(rows[1].ino, obj.ino);
}

#[test]
fn interface_listing_shows_members_as_files() {
    let mut table = InodeTable::new();
    let obj_doc = NodeInfo::from_xml(
        "<node><interface name=\"i\"><method name=\"m\"/>\
         <property name=\"p\" type=\"s\"/><signal name=\"sig\"/>\
         <annotation name=\"ann\" value=\"v\"/></interface></node>",
    )
    .unwrap();
    let outcome = IntrospectOutcome::Document(obj_doc);
    let name = "bus".to_owned();
    let bus_outcome = IntrospectOutcome::Document(doc_with_children(&["o"]));
    let bus = lookup(
        &mut table,
        ROOT_INO,
        &name,
        &IntrospectOutcome::Unreachable,
        &bus_outcome,
        0,
        0,
    )
    .unwrap();
    let obj_name = "o".to_owned();
    let obj = lookup(&mut table, bus.ino, &obj_name, &bus_outcome, &outcome, 0, 0).unwrap();
    let iface_name = "i".to_owned();
    let iface = lookup(&mut table, obj.ino, &iface_name, &outcome, &outcome, 0, 0).unwrap();
    assert_eq!(iface.kind, FileKind::Directory);
    // Four members: link count 2 + 4.
    assert_eq!(iface.nlink, 6);
    let rows = list_children(&mut table, iface.ino, &outcome, &Vec::new(), 0, 0, 0).unwrap();
    let names: Vec<&str> = rows.iter().map(|r| r.name.as_str()).collect();
    assert_eq!(names, vec![".", "..", "m", "p", "sig", "ann"]);
    for row in rows.iter().skip(2) {
        assert_eq!(row.kind, FileKind::Regular);
        let attrs = lookup(&mut table, iface.ino, &row.name, &outcome, &outcome, 0, 0).unwrap();
        assert_eq!(attrs.ino, row.ino);
        assert_eq!(attrs.kind, FileKind::Regular);
        assert_eq!(attrs.perm, 0o644);
        assert_eq!(attrs.nlink, 1);
    }
}

#[test]
fn end_to_end_access_denied_scenario() {
    let mut table = InodeTable::new();
    // A bus exposing the single name org.example.A.
    let inputs = vec![BusChild {
        name: "org.example.A".to_owned(),
        outcome: IntrospectOutcome::AccessDenied,
        uid: 0,
        gid: 0,
    }];
    let rows = list_children_root(&mut table, &inputs, 0);
    let names: Vec<&str> = rows.iter().map(|r| r.name.as_str()).collect();
    assert_eq!(names, vec![".", "..", "org.example.A"]);
    let name = "org.example.A".to_owned();
    let attrs = lookup(
        &mut table,
        ROOT_INO,
        &name,
        &IntrospectOutcome::Unreachable,
        &IntrospectOutcome::AccessDenied,
        0,
        0,
    )
    .unwrap();
    assert_eq!(attrs.kind, FileKind::Directory);
    assert_eq!(attrs.ino, rows[2].ino);
    // Listing the denied directory yields an empty child set, while its
    // attributes still report the restricted placeholder.
    let listed = list_children(
        &mut table,
        attrs.ino,
        &IntrospectOutcome::AccessDenied,
        &vec![],
        0,
        0,
        0,
    )
    .unwrap();
    let listed_names: Vec<&str> = listed.iter().map(|r| r.name.as_str()).collect();
    assert_eq!(listed_names, vec![".", ".."]);
    let snap = table.get_attributes(attrs.ino).unwrap();
    assert_eq!(snap.kind, FileKind::Directory);
    assert_eq!(snap.perm, 0o750);
    assert_eq!(snap.nlink, 0);
}

#[test]
fn listing_unreachable_directory_is_not_found() {
    let mut table = InodeTable::new();
    let name = "bus".to_owned();
    let bus = lookup(
        &mut table,
        ROOT_INO,
        &name,
        &IntrospectOutcome::Unreachable,
        &IntrospectOutcome::Document(doc_with_children(&[])),
        0,
        0,
    )
    .unwrap();
    let r = list_children(
        &mut table,
        bus.ino,
        &IntrospectOutcome::Unreachable,
        &vec![],
        0,
        0,
        0,
    );
    assert!(r.is_none());
    let unknown = list_children(
        &mut table,
        777,
        &IntrospectOutcome::AccessDenied,
        &vec![],
        0,
        0,
        0,
    );
    assert!(unknown.is_none());
}

#[test]
fn read_always_answers_not_found() {
    let mut table = InodeTable::new();
    let name = "bus".to_owned();
    let bus = lookup(
        &mut table,
        ROOT_INO,
        &name,
        &IntrospectOutcome::Unreachable,
        &IntrospectOutcome::Document(doc_with_children(&[])),
        0,
        0,
    )
    .unwrap();
    assert!(read_bytes(&table, ROOT_INO, 0, 4096).is_none());
    assert!(read_bytes(&table, bus.ino, 0, 1).is_none());
    assert!(read_bytes(&table, 555, 7, 0).is_none());
}

#[test]
fn paths_and_kinds_are_kept_per_id() {
    let mut table = InodeTable::new();
    let outcome = IntrospectOutcome::Document(doc_with_children(&[]));
    let a = table
        .resolve(&path(&["a", "b"]), PathKind::ObjectDir, &outcome, 0, 0)
        .unwrap();
    assert_eq!(table.path_by_id(a.ino).unwrap(), &path(&["a", "b"]));
    assert_eq!(table.kind_by_id(a.ino).unwrap(), PathKind::ObjectDir);
    assert!(table.path_by_id(999).is_none());
    assert_eq!(table.cached_attrs(&path(&["a", "b"])).unwrap(), a);
    assert!(table.cached_attrs(&path(&["a"])).is_none());
}
