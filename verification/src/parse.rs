//! The introspection-document parser: a single forward pass over the
//! document's start/end element tokens.
//!
//! The XML tokenizer is the outside crate's; everything structural — which
//! elements form the tree, which attributes are required, which defaults
//! apply — is parsed here, by a state machine folded over the token
//! sequence, and verified against the spec functions below. A document whose
//! token stream carries a malformedness token fails the parse; a merely
//! incomplete element is dropped and parsing continues.

use vstd::prelude::*;

use crate::doc::spec_annot_get;
use crate::doc::Access;
use crate::doc::Argument;
use crate::doc::ArgumentView;
use crate::doc::Direction;

verus! {

/// One structural token: an element opening with its attributes, an element
/// closing, anything else (text, comments, declarations), or the point at
/// which the document proved not well-formed.
pub enum XmlToken {
    Start { name: String, attrs: Vec<(String, String)> },
    End { name: String },
    Other,
    Malformed,
}

pub ghost enum TokenView {
    Start { name: Seq<char>, attrs: Seq<(Seq<char>, Seq<char>)> },
    End { name: Seq<char> },
    Other,
    Malformed,
}

impl View for XmlToken {
    type V = TokenView;

    open spec fn view(&self) -> TokenView {
        match self {
            XmlToken::Start { name, attrs } => TokenView::Start {
                name: name@,
                attrs: attrs.deep_view(),
            },
            XmlToken::End { name } => TokenView::End { name: name@ },
            XmlToken::Other => TokenView::Other,
            XmlToken::Malformed => TokenView::Malformed,
        }
    }
}

impl DeepView for XmlToken {
    type V = TokenView;

    open spec fn deep_view(&self) -> TokenView {
        self.view()
    }
}

/// The token sequence the XML tokenizer derives from a document: a function
/// of the document text alone.
pub uninterp spec fn xml_tokens_of(doc: Seq<char>) -> Seq<TokenView>;

/// Relies on the xml crate's `EventReader` to tokenize the document text;
/// each event is carried over one-for-one, start and end elements with
/// their names and attributes, every other event kind as `Other`, and a
/// well-formedness error as `Malformed`.
#[verifier::external_body]
fn tokenize(doc: &str) -> (r: Vec<XmlToken>)
    ensures
        r.deep_view() == xml_tokens_of(doc@),
{
    xml::reader::EventReader::from_str(doc).into_iter().map(|ev| match ev {
        Ok(xml::reader::XmlEvent::StartElement { name, attributes, .. }) => XmlToken::Start {
            name: name.local_name,
            attrs: attributes.into_iter().map(|a| (a.name.local_name, a.value)).collect(),
        },
        Ok(xml::reader::XmlEvent::EndElement { name }) => XmlToken::End { name: name.local_name },
        Ok(_) => XmlToken::Other,
        Err(_) => XmlToken::Malformed,
    }).collect()
}

/// Value of the last attribute bearing `key`, folding left from `i` with
/// `cur` holding what was seen so far: the last occurrence wins.
pub open spec fn spec_last_attr_from(
    attrs: Seq<(Seq<char>, Seq<char>)>,
    i: int,
    cur: Option<Seq<char>>,
    key: Seq<char>,
) -> Option<Seq<char>>
    decreases attrs.len() - i,
{
    if i < 0 || i >= attrs.len() {
        cur
    } else {
        spec_last_attr_from(
            attrs,
            i + 1,
            if attrs[i].0 == key {
                Some(attrs[i].1)
            } else {
                cur
            },
            key,
        )
    }
}

/// Value of the last attribute bearing `key`, if any.
pub open spec fn spec_last_attr(attrs: Seq<(Seq<char>, Seq<char>)>, key: Seq<char>) -> Option<
    Seq<char>,
> {
    spec_last_attr_from(attrs, 0, None, key)
}

/// Direction an argument's attributes select, folding left: each
/// `direction` attribute saying `in` or `out` updates the running choice,
/// anything else leaves it; the fold starts from the default, In.
pub open spec fn spec_arg_dir_from(
    attrs: Seq<(Seq<char>, Seq<char>)>,
    i: int,
    cur: Direction,
) -> Direction
    decreases attrs.len() - i,
{
    if i < 0 || i >= attrs.len() {
        cur
    } else {
        spec_arg_dir_from(
            attrs,
            i + 1,
            if attrs[i].0 == "direction"@ {
                if attrs[i].1 == "in"@ {
                    Direction::In
                } else if attrs[i].1 == "out"@ {
                    Direction::Out
                } else {
                    cur
                }
            } else {
                cur
            },
        )
    }
}

/// Access mode a property's attributes select, folding left: each `access`
/// (or `direction`) attribute maps `read` to Read, `write` to Write and
/// anything else to ReadWrite; the fold starts from the default, ReadWrite.
pub open spec fn spec_prop_access_from(
    attrs: Seq<(Seq<char>, Seq<char>)>,
    i: int,
    cur: Access,
) -> Access
    decreases attrs.len() - i,
{
    if i < 0 || i >= attrs.len() {
        cur
    } else {
        spec_prop_access_from(
            attrs,
            i + 1,
            if attrs[i].0 == "access"@ || attrs[i].0 == "direction"@ {
                if attrs[i].1 == "read"@ {
                    Access::Read
                } else if attrs[i].1 == "write"@ {
                    Access::Write
                } else {
                    Access::ReadWrite
                }
            } else {
                cur
            },
        )
    }
}

/// What an `arg` element's attributes yield: nothing unless both a name and
/// a type are present; the direction defaults to In.
pub open spec fn spec_parse_argument(attrs: Seq<(Seq<char>, Seq<char>)>) -> Option<
    (ArgumentView, Direction),
> {
    match (spec_last_attr(attrs, "name"@), spec_last_attr(attrs, "type"@)) {
        (Some(n), Some(t)) => Some(
            (ArgumentView { name: n, typesig: t }, spec_arg_dir_from(attrs, 0, Direction::In)),
        ),
        _ => None,
    }
}

/// What a `property` element's attributes yield: nothing unless both a name
/// and a type are present; the access mode defaults to ReadWrite; property
/// annotations are not collected.
pub open spec fn spec_parse_property(attrs: Seq<(Seq<char>, Seq<char>)>) -> Option<
    crate::doc::PropertyView,
> {
    match (spec_last_attr(attrs, "name"@), spec_last_attr(attrs, "type"@)) {
        (Some(n), Some(t)) => Some(
            crate::doc::PropertyView {
                name: n,
                typesig: t,
                access: spec_prop_access_from(attrs, 0, Access::ReadWrite),
                annotations: Seq::empty(),
            },
        ),
        _ => None,
    }
}

/// The last `name` and `value` attributes of an `annotation` element, if
/// both are present.
pub open spec fn spec_name_value(attrs: Seq<(Seq<char>, Seq<char>)>) -> Option<
    (Seq<char>, Seq<char>),
> {
    match (spec_last_attr(attrs, "name"@), spec_last_attr(attrs, "value"@)) {
        (Some(n), Some(v)) => Some((n, v)),
        _ => None,
    }
}

/// The first attribute bearing `name`, as element-naming attributes are
/// read.
pub open spec fn spec_first_name_attr(attrs: Seq<(Seq<char>, Seq<char>)>) -> Option<Seq<char>> {
    spec_annot_get(attrs, "name"@)
}

/// Compares a string against a literal.
fn string_is(s: &String, lit: &str) -> (r: bool)
    ensures
        r == (s@ == lit@),
{
    *s == lit.to_owned()
}

/// The last value bound to `key` among `attrs`, cloned out.
fn last_attr(attrs: &Vec<(String, String)>, key: &str) -> (r: Option<String>)
    ensures
        r.deep_view() == spec_last_attr(attrs.deep_view(), key@),
{
    let ghost av = attrs.deep_view();
    let mut cur: Option<String> = None;
    let mut i: usize = 0;
    while i < attrs.len()
        invariant
            0 <= i <= attrs.len(),
            av == attrs.deep_view(),
            av.len() == attrs.len(),
            forall|k: int| 0 <= k < av.len() ==> av[k] == (#[trigger] attrs@[k].0@, attrs@[k].1@),
            spec_last_attr_from(av, i as int, cur.deep_view(), key@) == spec_last_attr(av, key@),
        decreases attrs.len() - i,
    {
        if string_is(&attrs[i].0, key) {
            cur = Some(attrs[i].1.clone());
        }
        i = i + 1;
    }
    cur
}

/// The first `name` attribute, cloned out.
fn first_name_attr(attrs: &Vec<(String, String)>) -> (r: Option<String>)
    ensures
        r.deep_view() == spec_first_name_attr(attrs.deep_view()),
{
    let ghost av = attrs.deep_view();
    let mut i: usize = 0;
    while i < attrs.len()
        invariant
            0 <= i <= attrs.len(),
            av == attrs.deep_view(),
            av.len() == attrs.len(),
            forall|k: int| 0 <= k < av.len() ==> av[k] == (#[trigger] attrs@[k].0@, attrs@[k].1@),
            crate::doc::annot_get_from(av, 0, "name"@) == crate::doc::annot_get_from(
                av,
                i as int,
                "name"@,
            ),
        decreases attrs.len() - i,
    {
        if string_is(&attrs[i].0, "name") {
            assert(crate::doc::annot_get_from(av, i as int, "name"@) == Some(av[i as int].1));
            return Some(attrs[i].1.clone());
        }
        i = i + 1;
    }
    None
}

/// Parses an `arg` element from its attributes.
fn parse_argument(attrs: &Vec<(String, String)>) -> (r: Option<(Argument, Direction)>)
    ensures
        r.deep_view() == spec_parse_argument(attrs.deep_view()),
{
    let ghost av = attrs.deep_view();
    let name = last_attr(attrs, "name");
    let typesig = last_attr(attrs, "type");
    let mut dir = Direction::In;
    let mut i: usize = 0;
    while i < attrs.len()
        invariant
            0 <= i <= attrs.len(),
            av == attrs.deep_view(),
            av.len() == attrs.len(),
            forall|k: int| 0 <= k < av.len() ==> av[k] == (#[trigger] attrs@[k].0@, attrs@[k].1@),
            spec_arg_dir_from(av, i as int, dir) == spec_arg_dir_from(av, 0, Direction::In),
        decreases attrs.len() - i,
    {
        if string_is(&attrs[i].0, "direction") {
            if string_is(&attrs[i].1, "in") {
                dir = Direction::In;
            } else if string_is(&attrs[i].1, "out") {
                dir = Direction::Out;
            }
        }
        i = i + 1;
    }
    match (name, typesig) {
        (Some(n), Some(t)) => Some((Argument { name: n, typesig: t }, dir)),
        _ => None,
    }
}

/// Parses a `property` element from its attributes.
fn parse_property(attrs: &Vec<(String, String)>) -> (r: Option<crate::doc::Property>)
    ensures
        r.deep_view() == spec_parse_property(attrs.deep_view()),
{
    let ghost av = attrs.deep_view();
    let name = last_attr(attrs, "name");
    let typesig = last_attr(attrs, "type");
    let mut access = Access::ReadWrite;
    let mut i: usize = 0;
    while i < attrs.len()
        invariant
            0 <= i <= attrs.len(),
            av == attrs.deep_view(),
            av.len() == attrs.len(),
            forall|k: int| 0 <= k < av.len() ==> av[k] == (#[trigger] attrs@[k].0@, attrs@[k].1@),
            spec_prop_access_from(av, i as int, access) == spec_prop_access_from(
                av,
                0,
                Access::ReadWrite,
            ),
        decreases attrs.len() - i,
    {
        if string_is(&attrs[i].0, "access") || string_is(&attrs[i].0, "direction") {
            if string_is(&attrs[i].1, "read") {
                access = Access::Read;
            } else if string_is(&attrs[i].1, "write") {
                access = Access::Write;
            } else {
                access = Access::ReadWrite;
            }
        }
        i = i + 1;
    }
    match (name, typesig) {
        (Some(n), Some(t)) => {
            let r = crate::doc::Property { name: n, typesig: t, access, annotations: Vec::new() };
            proof {
                assert(r.annotations.deep_view() =~= Seq::<(Seq<char>, Seq<char>)>::empty());
            }
            Some(r)
        },
        _ => None,
    }
}

/// Parses an `annotation` element from its attributes.
fn parse_name_value(attrs: &Vec<(String, String)>) -> (r: Option<(String, String)>)
    ensures
        r.deep_view() == spec_name_value(attrs.deep_view()),
{
    let name = last_attr(attrs, "name");
    let value = last_attr(attrs, "value");
    match (name, value) {
        (Some(n), Some(v)) => Some((n, v)),
        _ => None,
    }
}

/// Where the single forward pass stands in the document tree: at top level,
/// inside an interface, or inside a method or signal of that interface,
/// carrying what has been built of the enclosing elements so far.
pub enum Scope {
    Top,
    InIface(crate::doc::Interface),
    InMethod(crate::doc::Interface, crate::doc::Method),
    InSignal(crate::doc::Interface, crate::doc::Signal),
}

pub ghost enum ScopeView {
    Top,
    InIface(crate::doc::InterfaceView),
    InMethod(crate::doc::InterfaceView, crate::doc::MethodView),
    InSignal(crate::doc::InterfaceView, crate::doc::SignalView),
}

impl View for Scope {
    type V = ScopeView;

    open spec fn view(&self) -> ScopeView {
        match self {
            Scope::Top => ScopeView::Top,
            Scope::InIface(i) => ScopeView::InIface(i@),
            Scope::InMethod(i, m) => ScopeView::InMethod(i@, m@),
            Scope::InSignal(i, s) => ScopeView::InSignal(i@, s@),
        }
    }
}

/// One transition of the parsing machine on one token. Unknown elements are
/// ignored; an element whose required naming attributes are missing is
/// dropped and the scope stays where it was; a closing tag pushes the built
/// element into its parent.
pub open spec fn spec_step(
    doc: crate::doc::NodeInfoView,
    st: ScopeView,
    t: TokenView,
) -> (crate::doc::NodeInfoView, ScopeView) {
    match st {
        ScopeView::Top => match t {
            TokenView::Start { name, attrs } => if name == "node"@ {
                match spec_first_name_attr(attrs) {
                    Some(n) => (
                        crate::doc::NodeInfoView {
                            nodes: doc.nodes.push(crate::doc::NodeView { name: n }),
                            ..doc
                        },
                        st,
                    ),
                    None => (doc, st),
                }
            } else if name == "interface"@ {
                match spec_first_name_attr(attrs) {
                    Some(n) => (
                        doc,
                        ScopeView::InIface(
                            crate::doc::InterfaceView {
                                name: n,
                                methods: Seq::empty(),
                                properties: Seq::empty(),
                                signals: Seq::empty(),
                                annotations: Seq::empty(),
                            },
                        ),
                    ),
                    None => (doc, st),
                }
            } else {
                (doc, st)
            },
            _ => (doc, st),
        },
        ScopeView::InIface(ifc) => match t {
            TokenView::Start { name, attrs } => if name == "method"@ {
                match spec_first_name_attr(attrs) {
                    Some(n) => (
                        doc,
                        ScopeView::InMethod(
                            ifc,
                            crate::doc::MethodView {
                                name: n,
                                args: Seq::empty(),
                                annotations: Seq::empty(),
                            },
                        ),
                    ),
                    None => (doc, st),
                }
            } else if name == "signal"@ {
                match spec_first_name_attr(attrs) {
                    Some(n) => (
                        doc,
                        ScopeView::InSignal(
                            ifc,
                            crate::doc::SignalView {
                                name: n,
                                args: Seq::empty(),
                                annotations: Seq::empty(),
                            },
                        ),
                    ),
                    None => (doc, st),
                }
            } else if name == "property"@ {
                match spec_parse_property(attrs) {
                    Some(p) => (
                        doc,
                        ScopeView::InIface(
                            crate::doc::InterfaceView { properties: ifc.properties.push(p), ..ifc },
                        ),
                    ),
                    None => (doc, st),
                }
            } else if name == "annotation"@ {
                match spec_name_value(attrs) {
                    Some(nv) => (
                        doc,
                        ScopeView::InIface(
                            crate::doc::InterfaceView {
                                annotations: crate::doc::spec_annot_put(
                                    ifc.annotations,
                                    nv.0,
                                    nv.1,
                                ),
                                ..ifc
                            },
                        ),
                    ),
                    None => (doc, st),
                }
            } else {
                (doc, st)
            },
            TokenView::End { name } => if name == "interface"@ {
                (
                    crate::doc::NodeInfoView { interfaces: doc.interfaces.push(ifc), ..doc },
                    ScopeView::Top,
                )
            } else {
                (doc, st)
            },
            _ => (doc, st),
        },
        ScopeView::InMethod(ifc, m) => match t {
            TokenView::Start { name, attrs } => if name == "arg"@ {
                match spec_parse_argument(attrs) {
                    Some(ad) => (
                        doc,
                        ScopeView::InMethod(
                            ifc,
                            crate::doc::MethodView { args: m.args.push(ad), ..m },
                        ),
                    ),
                    None => (doc, st),
                }
            } else if name == "annotation"@ {
                match spec_name_value(attrs) {
                    Some(nv) => (
                        doc,
                        ScopeView::InMethod(
                            ifc,
                            crate::doc::MethodView {
                                annotations: crate::doc::spec_annot_put(m.annotations, nv.0, nv.1),
                                ..m
                            },
                        ),
                    ),
                    None => (doc, st),
                }
            } else {
                (doc, st)
            },
            TokenView::End { name } => if name == "method"@ {
                (
                    doc,
                    ScopeView::InIface(
                        crate::doc::InterfaceView { methods: ifc.methods.push(m), ..ifc },
                    ),
                )
            } else {
                (doc, st)
            },
            _ => (doc, st),
        },
        ScopeView::InSignal(ifc, s) => match t {
            TokenView::Start { name, attrs } => if name == "arg"@ {
                match spec_parse_argument(attrs) {
                    Some(ad) => (
                        doc,
                        ScopeView::InSignal(
                            ifc,
                            crate::doc::SignalView { args: s.args.push(ad.0), ..s },
                        ),
                    ),
                    None => (doc, st),
                }
            } else if name == "annotation"@ {
                match spec_name_value(attrs) {
                    Some(nv) => (
                        doc,
                        ScopeView::InSignal(
                            ifc,
                            crate::doc::SignalView {
                                annotations: crate::doc::spec_annot_put(s.annotations, nv.0, nv.1),
                                ..s
                            },
                        ),
                    ),
                    None => (doc, st),
                }
            } else {
                (doc, st)
            },
            TokenView::End { name } => if name == "signal"@ {
                (
                    doc,
                    ScopeView::InIface(
                        crate::doc::InterfaceView { signals: ifc.signals.push(s), ..ifc },
                    ),
                )
            } else {
                (doc, st)
            },
            _ => (doc, st),
        },
    }
}

/// Closes whatever scope the stream ended inside of: a partially built
/// method, signal or interface still contributes what it gathered.
pub open spec fn spec_finish(doc: crate::doc::NodeInfoView, st: ScopeView) -> crate::doc::NodeInfoView {
    match st {
        ScopeView::Top => doc,
        ScopeView::InIface(ifc) => crate::doc::NodeInfoView {
            interfaces: doc.interfaces.push(ifc),
            ..doc
        },
        ScopeView::InMethod(ifc, m) => crate::doc::NodeInfoView {
            interfaces: doc.interfaces.push(
                crate::doc::InterfaceView { methods: ifc.methods.push(m), ..ifc },
            ),
            ..doc
        },
        ScopeView::InSignal(ifc, s) => crate::doc::NodeInfoView {
            interfaces: doc.interfaces.push(
                crate::doc::InterfaceView { signals: ifc.signals.push(s), ..ifc },
            ),
            ..doc
        },
    }
}

/// The machine folded over the tokens from `i` on, then closed.
pub open spec fn spec_fold(
    ts: Seq<TokenView>,
    i: int,
    doc: crate::doc::NodeInfoView,
    st: ScopeView,
) -> crate::doc::NodeInfoView
    decreases ts.len() - i,
{
    if i < 0 || i >= ts.len() {
        spec_finish(doc, st)
    } else {
        let (doc2, st2) = spec_step(doc, st, ts[i]);
        spec_fold(ts, i + 1, doc2, st2)
    }
}

/// The empty document the fold starts from.
pub open spec fn spec_empty_doc() -> crate::doc::NodeInfoView {
    crate::doc::NodeInfoView { nodes: Seq::empty(), interfaces: Seq::empty() }
}

/// What parsing a token sequence yields: nothing if the tokenizer flagged
/// the document malformed anywhere, else the machine's fold over the whole
/// sequence.
pub open spec fn spec_parse_tokens(ts: Seq<TokenView>) -> Option<crate::doc::NodeInfoView> {
    if exists|i: int| 0 <= i < ts.len() && ts[i] is Malformed {
        None
    } else {
        Some(spec_fold(ts, 0, spec_empty_doc(), ScopeView::Top))
    }
}

/// Applies one machine transition, per `spec_step`.
fn parse_step(doc: crate::doc::NodeInfo, st: Scope, t: &XmlToken) -> (r: (
    crate::doc::NodeInfo,
    Scope,
))
    ensures
        (r.0@, r.1@) == spec_step(doc@, st@, t@),
{
    let ghost doc0 = doc@;
    let ghost st0 = st@;
    let mut doc = doc;
    match st {
        Scope::Top => match t {
            XmlToken::Start { name, attrs } => {
                if string_is(name, "node") {
                    match first_name_attr(attrs) {
                        Some(n) => {
                            let ghost nv = n@;
                            doc.nodes.push(crate::doc::Node { name: n });
                            proof {
                                assert(doc@.nodes =~= doc0.nodes.push(
                                    crate::doc::NodeView { name: nv },
                                ));
                            }
                            (doc, Scope::Top)
                        },
                        None => (doc, Scope::Top),
                    }
                } else if string_is(name, "interface") {
                    match first_name_attr(attrs) {
                        Some(n) => {
                            let ifc = crate::doc::Interface {
                                name: n,
                                methods: Vec::new(),
                                properties: Vec::new(),
                                signals: Vec::new(),
                                annotations: Vec::new(),
                            };
                            proof {
                                assert(ifc@.methods =~= Seq::<crate::doc::MethodView>::empty());
                                assert(ifc@.properties =~= Seq::<
                                    crate::doc::PropertyView,
                                >::empty());
                                assert(ifc@.signals =~= Seq::<crate::doc::SignalView>::empty());
                                assert(ifc@.annotations =~= Seq::<
                                    (Seq<char>, Seq<char>),
                                >::empty());
                            }
                            (doc, Scope::InIface(ifc))
                        },
                        None => (doc, Scope::Top),
                    }
                } else {
                    (doc, Scope::Top)
                }
            },
            _ => (doc, Scope::Top),
        },
        Scope::InIface(mut ifc) => match t {
            XmlToken::Start { name, attrs } => {
                if string_is(name, "method") {
                    match first_name_attr(attrs) {
                        Some(n) => {
                            let m = crate::doc::Method {
                                name: n,
                                args: Vec::new(),
                                annotations: Vec::new(),
                            };
                            proof {
                                assert(m@.args =~= Seq::<
                                    (ArgumentView, Direction),
                                >::empty());
                                assert(m@.annotations =~= Seq::<(Seq<char>, Seq<char>)>::empty());
                            }
                            (doc, Scope::InMethod(ifc, m))
                        },
                        None => (doc, Scope::InIface(ifc)),
                    }
                } else if string_is(name, "signal") {
                    match first_name_attr(attrs) {
                        Some(n) => {
                            let s = crate::doc::Signal {
                                name: n,
                                args: Vec::new(),
                                annotations: Vec::new(),
                            };
                            proof {
                                assert(s@.args =~= Seq::<ArgumentView>::empty());
                                assert(s@.annotations =~= Seq::<(Seq<char>, Seq<char>)>::empty());
                            }
                            (doc, Scope::InSignal(ifc, s))
                        },
                        None => (doc, Scope::InIface(ifc)),
                    }
                } else if string_is(name, "property") {
                    match parse_property(attrs) {
                        Some(p) => {
                            let ghost pre = ifc@;
                            let ghost pv = p@;
                            ifc.properties.push(p);
                            proof {
                                assert(ifc@.properties =~= pre.properties.push(pv));
                            }
                            (doc, Scope::InIface(ifc))
                        },
                        None => (doc, Scope::InIface(ifc)),
                    }
                } else if string_is(name, "annotation") {
                    match parse_name_value(attrs) {
                        Some((n, v)) => {
                            crate::doc::annot_put(&mut ifc.annotations, n, v);
                            (doc, Scope::InIface(ifc))
                        },
                        None => (doc, Scope::InIface(ifc)),
                    }
                } else {
                    (doc, Scope::InIface(ifc))
                }
            },
            XmlToken::End { name } => {
                if string_is(name, "interface") {
                    let ghost iv = ifc@;
                    doc.interfaces.push(ifc);
                    proof {
                        assert(doc@.interfaces =~= doc0.interfaces.push(iv));
                    }
                    (doc, Scope::Top)
                } else {
                    (doc, Scope::InIface(ifc))
                }
            },
            _ => (doc, Scope::InIface(ifc)),
        },
        Scope::InMethod(ifc, mut m) => match t {
            XmlToken::Start { name, attrs } => {
                if string_is(name, "arg") {
                    match parse_argument(attrs) {
                        Some(ad) => {
                            let ghost pre = m@;
                            let ghost av2 = (ad.0@, ad.1);
                            m.args.push(ad);
                            proof {
                                assert(m@.args =~= pre.args.push(av2));
                            }
                            (doc, Scope::InMethod(ifc, m))
                        },
                        None => (doc, Scope::InMethod(ifc, m)),
                    }
                } else if string_is(name, "annotation") {
                    match parse_name_value(attrs) {
                        Some((n, v)) => {
                            crate::doc::annot_put(&mut m.annotations, n, v);
                            (doc, Scope::InMethod(ifc, m))
                        },
                        None => (doc, Scope::InMethod(ifc, m)),
                    }
                } else {
                    (doc, Scope::InMethod(ifc, m))
                }
            },
            XmlToken::End { name } => {
                if string_is(name, "method") {
                    let mut ifc = ifc;
                    let ghost pre = ifc@;
                    let ghost mv = m@;
                    ifc.methods.push(m);
                    proof {
                        assert(ifc@.methods =~= pre.methods.push(mv));
                    }
                    (doc, Scope::InIface(ifc))
                } else {
                    (doc, Scope::InMethod(ifc, m))
                }
            },
            _ => (doc, Scope::InMethod(ifc, m)),
        },
        Scope::InSignal(ifc, mut s) => match t {
            XmlToken::Start { name, attrs } => {
                if string_is(name, "arg") {
                    match parse_argument(attrs) {
                        Some(ad) => {
                            let ghost pre = s@;
                            let ghost av2 = ad.0@;
                            s.args.push(ad.0);
                            proof {
                                assert(s@.args =~= pre.args.push(av2));
                            }
                            (doc, Scope::InSignal(ifc, s))
                        },
                        None => (doc, Scope::InSignal(ifc, s)),
                    }
                } else if string_is(name, "annotation") {
                    match parse_name_value(attrs) {
                        Some((n, v)) => {
                            crate::doc::annot_put(&mut s.annotations, n, v);
                            (doc, Scope::InSignal(ifc, s))
                        },
                        None => (doc, Scope::InSignal(ifc, s)),
                    }
                } else {
                    (doc, Scope::InSignal(ifc, s))
                }
            },
            XmlToken::End { name } => {
                if string_is(name, "signal") {
                    let mut ifc = ifc;
                    let ghost pre = ifc@;
                    let ghost sv = s@;
                    ifc.signals.push(s);
                    proof {
                        assert(ifc@.signals =~= pre.signals.push(sv));
                    }
                    (doc, Scope::InIface(ifc))
                } else {
                    (doc, Scope::InSignal(ifc, s))
                }
            },
            _ => (doc, Scope::InSignal(ifc, s)),
        },
    }
}

/// Closes the scope the stream ended in, per `spec_finish`.
fn parse_finish(doc: crate::doc::NodeInfo, st: Scope) -> (r: crate::doc::NodeInfo)
    ensures
        r@ == spec_finish(doc@, st@),
{
    let ghost doc0 = doc@;
    let mut doc = doc;
    match st {
        Scope::Top => doc,
        Scope::InIface(ifc) => {
            let ghost iv = ifc@;
            doc.interfaces.push(ifc);
            proof {
                assert(doc@.interfaces =~= doc0.interfaces.push(iv));
            }
            doc
        },
        Scope::InMethod(mut ifc, m) => {
            let ghost pre = ifc@;
            let ghost mv = m@;
            ifc.methods.push(m);
            proof {
                assert(ifc@.methods =~= pre.methods.push(mv));
            }
            let ghost iv = ifc@;
            doc.interfaces.push(ifc);
            proof {
                assert(doc@.interfaces =~= doc0.interfaces.push(iv));
            }
            doc
        },
        Scope::InSignal(mut ifc, s) => {
            let ghost pre = ifc@;
            let ghost sv = s@;
            ifc.signals.push(s);
            proof {
                assert(ifc@.signals =~= pre.signals.push(sv));
            }
            let ghost iv = ifc@;
            doc.interfaces.push(ifc);
            proof {
                assert(doc@.interfaces =~= doc0.interfaces.push(iv));
            }
            doc
        },
    }
}

/// Parses a token sequence into a document description: `None` exactly when
/// the tokenizer flagged the document malformed.
pub fn parse_tokens(tokens: &Vec<XmlToken>) -> (r: Option<crate::doc::NodeInfo>)
    ensures
        r.deep_view() == spec_parse_tokens(tokens.deep_view()),
{
    let ghost ts = tokens.deep_view();
    let mut doc = crate::doc::NodeInfo::empty();
    let mut st = Scope::Top;
    proof {
        assert(doc@.nodes =~= Seq::<crate::doc::NodeView>::empty());
        assert(doc@.interfaces =~= Seq::<crate::doc::InterfaceView>::empty());
        assert(doc@ == spec_empty_doc());
    }
    let mut i: usize = 0;
    while i < tokens.len()
        invariant
            0 <= i <= tokens.len(),
            ts == tokens.deep_view(),
            ts.len() == tokens.len(),
            forall|k: int| 0 <= k < ts.len() ==> ts[k] == #[trigger] tokens@[k]@,
            forall|k: int| 0 <= k < i ==> !((#[trigger] ts[k]) is Malformed),
            spec_fold(ts, 0, spec_empty_doc(), ScopeView::Top) == spec_fold(
                ts,
                i as int,
                doc@,
                st@,
            ),
        decreases tokens.len() - i,
    {
        if matches!(&tokens[i], XmlToken::Malformed) {
            proof {
                assert(ts[i as int] is Malformed);
            }
            return None;
        }
        let stepped = parse_step(doc, st, &tokens[i]);
        doc = stepped.0;
        st = stepped.1;
        i = i + 1;
    }
    proof {
        assert(!(exists|k: int| 0 <= k < ts.len() && ts[k] is Malformed));
    }
    Some(parse_finish(doc, st))
}

impl crate::doc::NodeInfo {
    /// Parses an introspection document from its text: a single forward
    /// pass over the tokenizer's start/end element tokens. `None` exactly
    /// when the document is not well-formed; semantic omissions never fail
    /// the parse.
    pub fn from_xml(doc: &str) -> (r: Option<crate::doc::NodeInfo>)
        ensures
            r.deep_view() == spec_parse_tokens(xml_tokens_of(doc@)),
    {
        let tokens = tokenize(doc);
        parse_tokens(&tokens)
    }
}

/// An `arg` element lacking a `direction` attribute is treated as an In
/// argument.
pub proof fn lemma_arg_direction_defaults_in(attrs: Seq<(Seq<char>, Seq<char>)>)
    requires
        forall|k: int| 0 <= k < attrs.len() ==> (#[trigger] attrs[k]).0 != "direction"@,
        spec_parse_argument(attrs) is Some,
    ensures
        spec_parse_argument(attrs)->Some_0.1 == Direction::In,
{
    lemma_arg_dir_untouched(attrs, 0, Direction::In);
}

proof fn lemma_arg_dir_untouched(attrs: Seq<(Seq<char>, Seq<char>)>, i: int, cur: Direction)
    requires
        forall|k: int| 0 <= k < attrs.len() ==> (#[trigger] attrs[k]).0 != "direction"@,
        0 <= i,
    ensures
        spec_arg_dir_from(attrs, i, cur) == cur,
    decreases attrs.len() - i,
{
    if i < attrs.len() {
        lemma_arg_dir_untouched(attrs, i + 1, cur);
    }
}

/// A `property` element lacking an access-selecting attribute is treated as
/// ReadWrite.
pub proof fn lemma_property_access_defaults_readwrite(attrs: Seq<(Seq<char>, Seq<char>)>)
    requires
        forall|k: int|
            0 <= k < attrs.len() ==> (#[trigger] attrs[k]).0 != "access"@ && attrs[k].0
                != "direction"@,
        spec_parse_property(attrs) is Some,
    ensures
        spec_parse_property(attrs)->Some_0.access == Access::ReadWrite,
{
    lemma_prop_access_untouched(attrs, 0, Access::ReadWrite);
}

proof fn lemma_prop_access_untouched(attrs: Seq<(Seq<char>, Seq<char>)>, i: int, cur: Access)
    requires
        forall|k: int|
            0 <= k < attrs.len() ==> (#[trigger] attrs[k]).0 != "access"@ && attrs[k].0
                != "direction"@,
        0 <= i,
    ensures
        spec_prop_access_from(attrs, i, cur) == cur,
    decreases attrs.len() - i,
{
    if i < attrs.len() {
        lemma_prop_access_untouched(attrs, i + 1, cur);
    }
}

} // verus!
