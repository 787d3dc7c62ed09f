//! Typed model of a bus introspection document: child object-path segments
//! and interfaces, each interface carrying its methods, properties, signals
//! and annotations.
//!
//! Every executable type has a ghost mirror (its deep view) over `Seq` and
//! `Seq<char>`, which the contracts of the parser and of the namespace
//! engine speak of. Annotation maps are kept as association lists in
//! insertion order, with a replace-on-duplicate insert.

use vstd::prelude::*;

verus! {

/// Direction of a method argument: whether it is passed in or returned.
#[derive(Debug, PartialEq, Eq, Clone, Copy, Structural)]
pub enum Direction {
    In,
    Out,
}

/// Access mode of a property.
#[derive(Debug, PartialEq, Eq, Clone, Copy, Structural)]
pub enum Access {
    Read,
    Write,
    ReadWrite,
}

/// A named, typed argument of a method or signal.
#[derive(Debug, PartialEq, Eq, Clone)]
pub struct Argument {
    pub name: String,
    pub typesig: String,
}

/// A method of an interface: each argument carries its direction.
#[derive(Debug, PartialEq, Eq, Clone)]
pub struct Method {
    pub name: String,
    pub args: Vec<(Argument, Direction)>,
    pub annotations: Vec<(String, String)>,
}

/// A signal of an interface: arguments have no direction.
#[derive(Debug, PartialEq, Eq, Clone)]
pub struct Signal {
    pub name: String,
    pub args: Vec<Argument>,
    pub annotations: Vec<(String, String)>,
}

/// A property of an interface.
#[derive(Debug, PartialEq, Eq, Clone)]
pub struct Property {
    pub name: String,
    pub typesig: String,
    pub access: Access,
    pub annotations: Vec<(String, String)>,
}

/// A named capability set attached to an object.
#[derive(Debug, PartialEq, Eq, Clone)]
pub struct Interface {
    pub name: String,
    pub methods: Vec<Method>,
    pub properties: Vec<Property>,
    pub signals: Vec<Signal>,
    pub annotations: Vec<(String, String)>,
}

/// A child object-path segment declared by a document.
#[derive(Debug, PartialEq, Eq, Clone)]
pub struct Node {
    pub name: String,
}

/// The whole description an object returns on introspection.
#[derive(Debug, PartialEq, Eq, Clone)]
pub struct NodeInfo {
    pub nodes: Vec<Node>,
    pub interfaces: Vec<Interface>,
}

pub ghost struct ArgumentView {
    pub name: Seq<char>,
    pub typesig: Seq<char>,
}

pub ghost struct MethodView {
    pub name: Seq<char>,
    pub args: Seq<(ArgumentView, Direction)>,
    pub annotations: Seq<(Seq<char>, Seq<char>)>,
}

pub ghost struct SignalView {
    pub name: Seq<char>,
    pub args: Seq<ArgumentView>,
    pub annotations: Seq<(Seq<char>, Seq<char>)>,
}

pub ghost struct PropertyView {
    pub name: Seq<char>,
    pub typesig: Seq<char>,
    pub access: Access,
    pub annotations: Seq<(Seq<char>, Seq<char>)>,
}

pub ghost struct InterfaceView {
    pub name: Seq<char>,
    pub methods: Seq<MethodView>,
    pub properties: Seq<PropertyView>,
    pub signals: Seq<SignalView>,
    pub annotations: Seq<(Seq<char>, Seq<char>)>,
}

pub ghost struct NodeView {
    pub name: Seq<char>,
}

pub ghost struct NodeInfoView {
    pub nodes: Seq<NodeView>,
    pub interfaces: Seq<InterfaceView>,
}

impl View for Direction {
    type V = Direction;

    open spec fn view(&self) -> Direction {
        *self
    }
}

impl DeepView for Direction {
    type V = Direction;

    open spec fn deep_view(&self) -> Direction {
        *self
    }
}

impl View for Access {
    type V = Access;

    open spec fn view(&self) -> Access {
        *self
    }
}

impl DeepView for Access {
    type V = Access;

    open spec fn deep_view(&self) -> Access {
        *self
    }
}

impl View for Argument {
    type V = ArgumentView;

    open spec fn view(&self) -> ArgumentView {
        ArgumentView { name: self.name@, typesig: self.typesig@ }
    }
}

impl DeepView for Argument {
    type V = ArgumentView;

    open spec fn deep_view(&self) -> ArgumentView {
        self.view()
    }
}

impl View for Method {
    type V = MethodView;

    open spec fn view(&self) -> MethodView {
        MethodView {
            name: self.name@,
            args: self.args.deep_view(),
            annotations: self.annotations.deep_view(),
        }
    }
}

impl DeepView for Method {
    type V = MethodView;

    open spec fn deep_view(&self) -> MethodView {
        self.view()
    }
}

impl View for Signal {
    type V = SignalView;

    open spec fn view(&self) -> SignalView {
        SignalView {
            name: self.name@,
            args: self.args.deep_view(),
            annotations: self.annotations.deep_view(),
        }
    }
}

impl DeepView for Signal {
    type V = SignalView;

    open spec fn deep_view(&self) -> SignalView {
        self.view()
    }
}

impl View for Property {
    type V = PropertyView;

    open spec fn view(&self) -> PropertyView {
        PropertyView {
            name: self.name@,
            typesig: self.typesig@,
            access: self.access,
            annotations: self.annotations.deep_view(),
        }
    }
}

impl DeepView for Property {
    type V = PropertyView;

    open spec fn deep_view(&self) -> PropertyView {
        self.view()
    }
}

impl View for Interface {
    type V = InterfaceView;

    open spec fn view(&self) -> InterfaceView {
        InterfaceView {
            name: self.name@,
            methods: self.methods.deep_view(),
            properties: self.properties.deep_view(),
            signals: self.signals.deep_view(),
            annotations: self.annotations.deep_view(),
        }
    }
}

impl DeepView for Interface {
    type V = InterfaceView;

    open spec fn deep_view(&self) -> InterfaceView {
        self.view()
    }
}

impl View for Node {
    type V = NodeView;

    open spec fn view(&self) -> NodeView {
        NodeView { name: self.name@ }
    }
}

impl DeepView for Node {
    type V = NodeView;

    open spec fn deep_view(&self) -> NodeView {
        self.view()
    }
}

impl View for NodeInfo {
    type V = NodeInfoView;

    open spec fn view(&self) -> NodeInfoView {
        NodeInfoView { nodes: self.nodes.deep_view(), interfaces: self.interfaces.deep_view() }
    }
}

impl DeepView for NodeInfo {
    type V = NodeInfoView;

    open spec fn deep_view(&self) -> NodeInfoView {
        self.view()
    }
}

impl NodeInfo {
    /// The empty document: no children, no interfaces.
    pub fn empty() -> (r: NodeInfo)
        ensures
            r@.nodes.len() == 0,
            r@.interfaces.len() == 0,
    {
        NodeInfo { nodes: Vec::new(), interfaces: Vec::new() }
    }
}

impl InterfaceView {
    /// How many leaf entries this interface contributes: one per method,
    /// property, signal and annotation.
    pub open spec fn member_count(self) -> nat {
        self.methods.len() + self.properties.len() + self.signals.len() + self.annotations.len()
    }

    /// The names of this interface's leaf entries, in listing order:
    /// methods, then properties, then signals, then annotations, each group
    /// in document order.
    pub open spec fn member_names(self) -> Seq<Seq<char>> {
        self.methods.map_values(|m: MethodView| m.name) + self.properties.map_values(
            |p: PropertyView| p.name,
        ) + self.signals.map_values(|s: SignalView| s.name) + self.annotations.map_values(
            |a: (Seq<char>, Seq<char>)| a.0,
        )
    }

    /// Whether some method, property, signal or annotation bears this name.
    pub open spec fn has_member(self, name: Seq<char>) -> bool {
        ||| exists|i: int| 0 <= i < self.methods.len() && self.methods[i].name == name
        ||| exists|i: int| 0 <= i < self.properties.len() && self.properties[i].name == name
        ||| exists|i: int| 0 <= i < self.signals.len() && self.signals[i].name == name
        ||| spec_annot_get(self.annotations, name) is Some
    }
}

/// The first interface in `s` at or after index `i` whose name is `name`.
pub open spec fn spec_find_interface(s: Seq<InterfaceView>, i: int, name: Seq<char>) -> Option<
    InterfaceView,
>
    decreases s.len() - i,
{
    if i < 0 || i >= s.len() {
        None
    } else if s[i].name == name {
        Some(s[i])
    } else {
        spec_find_interface(s, i + 1, name)
    }
}

/// Whether some child node declaration bears this name.
pub open spec fn spec_has_node(nodes: Seq<NodeView>, name: Seq<char>) -> bool {
    exists|i: int| 0 <= i < nodes.len() && nodes[i].name == name
}

/// Finds the first interface with the given name.
pub fn find_interface<'a>(ifaces: &'a Vec<Interface>, name: &String) -> (r: Option<&'a Interface>)
    ensures
        match r {
            Some(it) => spec_find_interface(ifaces.deep_view(), 0, name@) == Some(it@),
            None => spec_find_interface(ifaces.deep_view(), 0, name@) is None,
        },
{
    let ghost sv = ifaces.deep_view();
    let mut i: usize = 0;
    while i < ifaces.len()
        invariant
            0 <= i <= ifaces.len(),
            sv == ifaces.deep_view(),
            sv.len() == ifaces.len(),
            forall|k: int| 0 <= k < sv.len() ==> sv[k] == #[trigger] ifaces@[k]@,
            spec_find_interface(sv, 0, name@) == spec_find_interface(sv, i as int, name@),
        decreases ifaces.len() - i,
    {
        if ifaces[i].name == *name {
            assert(spec_find_interface(sv, i as int, name@) == Some(sv[i as int]));
            return Some(&ifaces[i]);
        }
        i = i + 1;
    }
    None
}

/// Whether `nodes` declares a child with the given name.
pub fn has_node(nodes: &Vec<Node>, name: &String) -> (r: bool)
    ensures
        r == spec_has_node(nodes.deep_view(), name@),
{
    let ghost sv = nodes.deep_view();
    let mut i: usize = 0;
    while i < nodes.len()
        invariant
            0 <= i <= nodes.len(),
            sv == nodes.deep_view(),
            sv.len() == nodes.len(),
            forall|k: int| 0 <= k < sv.len() ==> sv[k] == #[trigger] nodes@[k]@,
            forall|k: int| 0 <= k < i ==> sv[k].name != name@,
        decreases nodes.len() - i,
    {
        if nodes[i].name == *name {
            assert(sv[i as int].name == name@);
            return true;
        }
        i = i + 1;
    }
    false
}

impl Interface {
    /// The names of this interface's leaf entries, in listing order:
    /// methods, then properties, then signals, then annotations.
    pub fn member_names(&self) -> (r: Vec<String>)
        ensures
            r.deep_view() == self@.member_names(),
    {
        let ghost iv = self@;
        let ghost ml = self.methods@.len() as int;
        let ghost pl = self.properties@.len() as int;
        let ghost sl = self.signals@.len() as int;
        let ghost al = self.annotations@.len() as int;
        let mut r: Vec<String> = Vec::new();
        let mut i: usize = 0;
        while i < self.methods.len()
            invariant
                0 <= i <= ml,
                iv == self@,
                ml == self.methods@.len(),
                forall|k: int| 0 <= k < ml ==> iv.methods[k] == #[trigger] self.methods@[k]@,
                r@.len() == i,
                forall|k: int| 0 <= k < i ==> (#[trigger] r@[k])@ == iv.methods[k].name,
            decreases self.methods.len() - i,
        {
            r.push(self.methods[i].name.clone());
            i = i + 1;
        }
        let mut i: usize = 0;
        while i < self.properties.len()
            invariant
                0 <= i <= pl,
                iv == self@,
                ml == self.methods@.len(),
                pl == self.properties@.len(),
                forall|k: int| 0 <= k < pl ==> iv.properties[k] == #[trigger] self.properties@[k]@,
                r@.len() == ml + i,
                forall|k: int| 0 <= k < ml ==> (#[trigger] r@[k])@ == iv.methods[k].name,
                forall|k: int| 0 <= k < i ==> (#[trigger] r@[ml + k])@ == iv.properties[k].name,
            decreases self.properties.len() - i,
        {
            r.push(self.properties[i].name.clone());
            i = i + 1;
        }
        let mut i: usize = 0;
        while i < self.signals.len()
            invariant
                0 <= i <= sl,
                iv == self@,
                ml == self.methods@.len(),
                pl == self.properties@.len(),
                sl == self.signals@.len(),
                forall|k: int| 0 <= k < sl ==> iv.signals[k] == #[trigger] self.signals@[k]@,
                r@.len() == ml + pl + i,
                forall|k: int| 0 <= k < ml ==> (#[trigger] r@[k])@ == iv.methods[k].name,
                forall|k: int| 0 <= k < pl ==> (#[trigger] r@[ml + k])@ == iv.properties[k].name,
                forall|k: int| 0 <= k < i ==> (#[trigger] r@[ml + pl + k])@ == iv.signals[k].name,
            decreases self.signals.len() - i,
        {
            r.push(self.signals[i].name.clone());
            i = i + 1;
        }
        let mut i: usize = 0;
        while i < self.annotations.len()
            invariant
                0 <= i <= al,
                iv == self@,
                ml == self.methods@.len(),
                pl == self.properties@.len(),
                sl == self.signals@.len(),
                al == self.annotations@.len(),
                forall|k: int| 0 <= k < al ==> iv.annotations[k] == (
                #[trigger] self.annotations@[k].0@, self.annotations@[k].1@),
                r@.len() == ml + pl + sl + i,
                forall|k: int| 0 <= k < ml ==> (#[trigger] r@[k])@ == iv.methods[k].name,
                forall|k: int| 0 <= k < pl ==> (#[trigger] r@[ml + k])@ == iv.properties[k].name,
                forall|k: int| 0 <= k < sl ==> (#[trigger] r@[ml + pl + k])@ == iv.signals[k].name,
                forall|k: int|
                    0 <= k < i ==> (#[trigger] r@[ml + pl + sl + k])@ == iv.annotations[k].0,
            decreases self.annotations.len() - i,
        {
            r.push(self.annotations[i].0.clone());
            i = i + 1;
        }
        proof {
            assert(iv.methods.len() == ml && iv.properties.len() == pl && iv.signals.len() == sl
                && iv.annotations.len() == al);
            let names = iv.member_names();
            assert(names.len() == ml + pl + sl + al);
            assert forall|k: int| 0 <= k < names.len() implies r.deep_view()[k] == names[k] by {
                assert(r.deep_view()[k] == r@[k]@);
                if k < ml {
                    assert(names[k] == iv.methods[k].name);
                } else if k < ml + pl {
                    assert(names[k] == iv.properties[k - ml].name);
                    assert(r@[ml + (k - ml)]@ == iv.properties[k - ml].name);
                } else if k < ml + pl + sl {
                    assert(names[k] == iv.signals[k - ml - pl].name);
                    assert(r@[ml + pl + (k - ml - pl)]@ == iv.signals[k - ml - pl].name);
                } else {
                    assert(names[k] == iv.annotations[k - ml - pl - sl].0);
                    assert(r@[ml + pl + sl + (k - ml - pl - sl)]@ == iv.annotations[k - ml - pl
                        - sl].0);
                }
            }
            assert(r.deep_view() =~= iv.member_names());
        }
        r
    }

    /// Whether some method, property, signal or annotation of this interface
    /// bears the given name.
    pub fn has_member(&self, name: &String) -> (r: bool)
        ensures
            r == self@.has_member(name@),
    {
        let ghost iv = self@;
        let mut i: usize = 0;
        while i < self.methods.len()
            invariant
                0 <= i <= self.methods.len(),
                iv == self@,
                iv.methods.len() == self.methods.len(),
                forall|k: int| 0 <= k < iv.methods.len() ==> iv.methods[k] == #[trigger] self
                    .methods@[k]@,
                forall|k: int| 0 <= k < i ==> iv.methods[k].name != name@,
            decreases self.methods.len() - i,
        {
            if self.methods[i].name == *name {
                assert(iv.methods[i as int].name == name@);
                return true;
            }
            i = i + 1;
        }
        let mut i: usize = 0;
        while i < self.properties.len()
            invariant
                0 <= i <= self.properties.len(),
                iv == self@,
                iv.properties.len() == self.properties.len(),
                forall|k: int| 0 <= k < iv.properties.len() ==> iv.properties[k] == #[trigger] self
                    .properties@[k]@,
                forall|k: int| 0 <= k < iv.methods.len() ==> iv.methods[k].name != name@,
                forall|k: int| 0 <= k < i ==> iv.properties[k].name != name@,
            decreases self.properties.len() - i,
        {
            if self.properties[i].name == *name {
                assert(iv.properties[i as int].name == name@);
                return true;
            }
            i = i + 1;
        }
        let mut i: usize = 0;
        while i < self.signals.len()
            invariant
                0 <= i <= self.signals.len(),
                iv == self@,
                iv.signals.len() == self.signals.len(),
                forall|k: int| 0 <= k < iv.signals.len() ==> iv.signals[k] == #[trigger] self
                    .signals@[k]@,
                forall|k: int| 0 <= k < iv.methods.len() ==> iv.methods[k].name != name@,
                forall|k: int| 0 <= k < iv.properties.len() ==> iv.properties[k].name != name@,
                forall|k: int| 0 <= k < i ==> iv.signals[k].name != name@,
            decreases self.signals.len() - i,
        {
            if self.signals[i].name == *name {
                assert(iv.signals[i as int].name == name@);
                return true;
            }
            i = i + 1;
        }
        let r = annot_get(&self.annotations, name);
        r.is_some()
    }
}

/// Value bound to `key` in the association list `m`, scanning from index `i`:
/// the first binding wins.
pub open spec fn annot_get_from(m: Seq<(Seq<char>, Seq<char>)>, i: int, key: Seq<char>) -> Option<
    Seq<char>,
>
    decreases m.len() - i,
{
    if i < 0 || i >= m.len() {
        None
    } else if m[i].0 == key {
        Some(m[i].1)
    } else {
        annot_get_from(m, i + 1, key)
    }
}

/// Value bound to `key` in the association list `m`.
pub open spec fn spec_annot_get(m: Seq<(Seq<char>, Seq<char>)>, key: Seq<char>) -> Option<
    Seq<char>,
> {
    annot_get_from(m, 0, key)
}

/// `m` with `key` bound to `val`: an existing binding is replaced in place,
/// a new one is appended, so insertion order is kept.
pub open spec fn spec_annot_put(
    m: Seq<(Seq<char>, Seq<char>)>,
    key: Seq<char>,
    val: Seq<char>,
) -> Seq<(Seq<char>, Seq<char>)> {
    match annot_index_of(m, 0, key) {
        Some(i) => m.update(i, (key, val)),
        None => m.push((key, val)),
    }
}

/// Index of the first binding of `key` in `m` at or after `i`.
pub open spec fn annot_index_of(m: Seq<(Seq<char>, Seq<char>)>, i: int, key: Seq<char>) -> Option<
    int,
>
    decreases m.len() - i,
{
    if i < 0 || i >= m.len() {
        None
    } else if m[i].0 == key {
        Some(i)
    } else {
        annot_index_of(m, i + 1, key)
    }
}

/// Looks `key` up in an annotation list, first binding first.
pub fn annot_get<'a>(m: &'a Vec<(String, String)>, key: &String) -> (r: Option<&'a String>)
    ensures
        match r {
            Some(v) => spec_annot_get(m.deep_view(), key@) == Some(v@),
            None => spec_annot_get(m.deep_view(), key@) is None,
        },
{
    let ghost mv = m.deep_view();
    let mut i: usize = 0;
    while i < m.len()
        invariant
            0 <= i <= m.len(),
            mv == m.deep_view(),
            mv.len() == m.len(),
            forall|k: int| 0 <= k < mv.len() ==> mv[k] == (#[trigger] m@[k].0@, m@[k].1@),
            annot_get_from(mv, 0, key@) == annot_get_from(mv, i as int, key@),
        decreases m.len() - i,
    {
        if m[i].0 == *key {
            assert(annot_get_from(mv, i as int, key@) == Some(mv[i as int].1));
            return Some(&m[i].1);
        }
        i = i + 1;
    }
    None
}

/// Binds `key` to `val` in an annotation list: replaces the first existing
/// binding, else appends.
pub fn annot_put(m: &mut Vec<(String, String)>, key: String, val: String)
    ensures
        final(m).deep_view() == spec_annot_put(old(m).deep_view(), key@, val@),
{
    let ghost mv = old(m).deep_view();
    let mut i: usize = 0;
    while i < m.len()
        invariant
            0 <= i <= m.len(),
            *m == *old(m),
            mv == m.deep_view(),
            mv.len() == m.len(),
            forall|k: int| 0 <= k < mv.len() ==> mv[k] == (#[trigger] m@[k].0@, m@[k].1@),
            annot_index_of(mv, 0, key@) == annot_index_of(mv, i as int, key@),
        decreases m.len() - i,
    {
        if m[i].0 == key {
            assert(annot_index_of(mv, i as int, key@) == Some(i as int));
            m.set(i, (key, val));
            assert(m.deep_view() =~= mv.update(i as int, (key@, val@)));
            return ;
        }
        i = i + 1;
    }
    m.push((key, val));
    assert(m.deep_view() =~= mv.push((key@, val@)));
}

} // verus!
