use dbusfs::doc::Access;
use dbusfs::doc::Direction;
use dbusfs::doc::NodeInfo;

#[test]
fn parses_interface_method_arg_and_child_node() {
    let doc = NodeInfo::from_xml(
        "<node><interface name=\"org.example.Foo\"><method name=\"Bar\">\
         <arg name=\"x\" type=\"s\" direction=\"in\"/></method></interface>\
         <node name=\"child\"/></node>",
    )
    .expect("well-formed document must parse");

    assert_eq!(doc.nodes.len(), 1);
    assert_eq!(doc.nodes[0].name, "child");
    assert_eq!(doc.interfaces.len(), 1);
    let iface = &doc.interfaces[0];
    assert_eq!(iface.name, "org.example.Foo");
    assert_eq!(iface.methods.len(), 1);
    let method = &iface.methods[0];
    assert_eq!(method.name, "Bar");
    assert_eq!(method.args.len(), 1);
    assert_eq!(method.args[0].0.name, "x");
    assert_eq!(method.args[0].0.typesig, "s");
    assert_eq!(method.args[0].1, Direction::In);
    assert_eq!(iface.properties.len(), 0);
    assert_eq!(iface.signals.len(), 0);
    assert_eq!(iface.annotations.len(), 0);
}

#[test]
fn arg_without_direction_defaults_to_in() {
    let doc = NodeInfo::from_xml(
        "<node><interface name=\"i\"><method name=\"m\">\
         <arg name=\"a\" type=\"u\"/></method></interface></node>",
    )
    .unwrap();
    assert_eq!(doc.interfaces[0].methods[0].args[0].1, Direction::In);
}

#[test]
fn arg_direction_out_is_kept() {
    let doc = NodeInfo::from_xml(
        "<node><interface name=\"i\"><method name=\"m\">\
         <arg name=\"a\" type=\"u\" direction=\"out\"/></method></interface></node>",
    )
    .unwrap();
    assert_eq!(doc.interfaces[0].methods[0].args[0].1, Direction::Out);
}

#[test]
fn property_without_access_defaults_to_readwrite() {
    let doc = NodeInfo::from_xml(
        "<node><interface name=\"i\">\
         <property name=\"p\" type=\"s\"/></interface></node>",
    )
    .unwrap();
    let prop = &doc.interfaces[0].properties[0];
    assert_eq!(prop.name, "p");
    assert_eq!(prop.typesig, "s");
    assert_eq!(prop.access, Access::ReadWrite);
}

#[test]
fn property_access_read_and_write_are_kept() {
    let doc = NodeInfo::from_xml(
        "<node><interface name=\"i\">\
         <property name=\"r\" type=\"s\" access=\"read\"/>\
         <property name=\"w\" type=\"s\" access=\"write\"/>\
         <property name=\"o\" type=\"s\" access=\"other\"/></interface></node>",
    )
    .unwrap();
    let iface = &doc.interfaces[0];
    assert_eq!(iface.properties[0].access, Access::Read);
    assert_eq!(iface.properties[1].access, Access::Write);
    assert_eq!(iface.properties[2].access, Access::ReadWrite);
}

#[test]
fn signals_and_annotations_are_collected() {
    let doc = NodeInfo::from_xml(
        "<node><interface name=\"i\">\
         <signal name=\"s\"><arg name=\"a\" type=\"b\"/></signal>\
         <annotation name=\"k\" value=\"v1\"/>\
         <annotation name=\"k\" value=\"v2\"/>\
         <annotation name=\"k2\" value=\"w\"/></interface></node>",
    )
    .unwrap();
    let iface = &doc.interfaces[0];
    assert_eq!(iface.signals.len(), 1);
    assert_eq!(iface.signals[0].name, "s");
    assert_eq!(iface.signals[0].args.len(), 1);
    assert_eq!(iface.signals[0].args[0].name, "a");
    // A duplicate annotation key replaces the value in place.
    assert_eq!(iface.annotations.len(), 2);
    assert_eq!(iface.annotations[0], ("k".to_owned(), "v2".to_owned()));
    assert_eq!(iface.annotations[1], ("k2".to_owned(), "w".to_owned()));
}

#[test]
fn element_missing_required_attribute_is_dropped() {
    let doc = NodeInfo::from_xml(
        "<node><node/><interface name=\"i\"><method/>\
         <method name=\"m\"><arg type=\"s\"/></method></interface></node>",
    )
    .unwrap();
    // The anonymous child node and the anonymous method are dropped; the
    // arg without a name is dropped too.
    assert_eq!(doc.nodes.len(), 0);
    assert_eq!(doc.interfaces[0].methods.len(), 1);
    assert_eq!(doc.interfaces[0].methods[0].args.len(), 0);
}

#[test]
fn unknown_elements_are_ignored() {
    let doc = NodeInfo::from_xml(
        "<node><mystery/><interface name=\"i\"><whatever x=\"1\"/>\
         <method name=\"m\"/></interface></node>",
    )
    .unwrap();
    assert_eq!(doc.interfaces.len(), 1);
    assert_eq!(doc.interfaces[0].methods.len(), 1);
}

#[test]
fn malformed_document_fails_the_parse() {
    // An unclosed tag is reported by the tokenizer as malformed.
    assert!(NodeInfo::from_xml("<node><interface name=\"i\">").is_none());
    assert!(NodeInfo::from_xml("not xml at all").is_none());
    assert!(NodeInfo::from_xml("<a><b></a></b>").is_none());
}

#[test]
fn empty_document_has_no_children() {
    let doc = NodeInfo::from_xml("<node/>").unwrap();
    assert_eq!(doc.nodes.len(), 0);
    assert_eq!(doc.interfaces.len(), 0);
}

#[test]
fn nested_nodes_all_become_children() {
    let doc = NodeInfo::from_xml(
        "<node><node name=\"a\"/><node name=\"b\"><node name=\"c\"/></node></node>",
    )
    .unwrap();
    let names: Vec<&str> = doc.nodes.iter().map(|n| n.name.as_str()).collect();
    assert_eq!(names, vec!["a", "b", "c"]);
}

#[test]
fn member_names_come_in_listing_order() {
    let doc = NodeInfo::from_xml(
        "<node><interface name=\"i\">\
         <signal name=\"sig\"/>\
         <method name=\"m1\"/>\
         <property name=\"p\" type=\"s\"/>\
         <method name=\"m2\"/>\
         <annotation name=\"ann\" value=\"v\"/></interface></node>",
    )
    .unwrap();
    let names = doc.interfaces[0].member_names();
    assert_eq!(names, vec!["m1", "m2", "p", "sig", "ann"]);
}
