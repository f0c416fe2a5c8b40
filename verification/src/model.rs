//! The specification tree as this engine reads it: top-level registry nodes,
//! enum groups with their enumerants, and extensions with their require
//! blocks, all carried as plain owned values.

use vstd::prelude::*;

verus! {

/// The payload of an enumerant definition. An offset always names the enum
/// group it extends; a value, bit position or alias names one only when the
/// document declares it.
pub enum EnumPayload {
    Value { extends: Option<String> },
    Bitpos { extends: Option<String> },
    Offset { extends: String },
    Alias { extends: Option<String> },
    Unspecified,
}

/// Abstract value of an [`EnumPayload`].
#[verifier::ext_equal]
pub enum EnumPayloadView {
    Value { extends: Option<Seq<char>> },
    Bitpos { extends: Option<Seq<char>> },
    Offset { extends: Seq<char> },
    Alias { extends: Option<Seq<char>> },
    Unspecified,
}

/// One enumerant definition.
pub struct Enumerant {
    pub name: String,
    pub payload: EnumPayload,
}

/// Abstract value of an [`Enumerant`].
#[verifier::ext_equal]
pub struct EnumerantView {
    pub name: Seq<char>,
    pub payload: EnumPayloadView,
}

/// One item referenced inside an extension's require block.
pub enum InterfaceItem {
    Enum(Enumerant),
    Other,
}

/// Abstract value of an [`InterfaceItem`].
#[verifier::ext_equal]
pub enum InterfaceItemView {
    Enum(EnumerantView),
    Other,
}

/// One child of an extension: a require block, or some other node this
/// engine does not read.
pub enum ExtensionChild {
    Require { items: Vec<InterfaceItem> },
    Other,
}

/// Abstract value of an [`ExtensionChild`].
#[verifier::ext_equal]
pub enum ExtensionChildView {
    Require { items: Seq<InterfaceItemView> },
    Other,
}

/// A named extension with its require blocks, in declaration order.
pub struct Extension {
    pub name: String,
    pub children: Vec<ExtensionChild>,
}

/// Abstract value of an [`Extension`].
#[verifier::ext_equal]
pub struct ExtensionView {
    pub name: Seq<char>,
    pub children: Seq<ExtensionChildView>,
}

/// A named collection of enumerants, with its optional kind marker.
pub struct EnumGroup {
    pub name: Option<String>,
    pub kind: Option<String>,
    pub enumerants: Vec<Enumerant>,
}

/// Abstract value of an [`EnumGroup`].
#[verifier::ext_equal]
pub struct EnumGroupView {
    pub name: Option<Seq<char>>,
    pub kind: Option<Seq<char>>,
    pub enumerants: Seq<EnumerantView>,
}

/// A type definition node; only its declared name matters to the indices.
pub struct TypeNode {
    pub name: Option<String>,
}

/// Abstract value of a [`TypeNode`].
#[verifier::ext_equal]
pub struct TypeNodeView {
    pub name: Option<Seq<char>>,
}

/// One top-level child of the registry.
pub enum RegistryChild {
    Tags(Vec<String>),
    Types(Vec<TypeNode>),
    Enums(EnumGroup),
    Extensions(Vec<Extension>),
    Other,
}

/// Abstract value of a [`RegistryChild`].
#[verifier::ext_equal]
pub enum RegistryChildView {
    Tags(Seq<Seq<char>>),
    Types(Seq<TypeNodeView>),
    Enums(EnumGroupView),
    Extensions(Seq<ExtensionView>),
    Other,
}

/// The root of the parsed specification tree.
pub struct Registry {
    pub children: Vec<RegistryChild>,
}

/// The view of an optional string.
pub open spec fn opt_view(o: Option<String>) -> Option<Seq<char>> {
    match o {
        Option::None => Option::None,
        Option::Some(s) => Option::Some(s@),
    }
}

impl View for EnumPayload {
    type V = EnumPayloadView;

    open spec fn view(&self) -> EnumPayloadView {
        match self {
            EnumPayload::Value { extends } => EnumPayloadView::Value {
                extends: opt_view(*extends),
            },
            EnumPayload::Bitpos { extends } => EnumPayloadView::Bitpos {
                extends: opt_view(*extends),
            },
            EnumPayload::Offset { extends } => EnumPayloadView::Offset { extends: extends@ },
            EnumPayload::Alias { extends } => EnumPayloadView::Alias {
                extends: opt_view(*extends),
            },
            EnumPayload::Unspecified => EnumPayloadView::Unspecified,
        }
    }
}

impl View for Enumerant {
    type V = EnumerantView;

    open spec fn view(&self) -> EnumerantView {
        EnumerantView { name: self.name@, payload: self.payload@ }
    }
}

impl View for InterfaceItem {
    type V = InterfaceItemView;

    open spec fn view(&self) -> InterfaceItemView {
        match self {
            InterfaceItem::Enum(e) => InterfaceItemView::Enum(e@),
            InterfaceItem::Other => InterfaceItemView::Other,
        }
    }
}

impl View for ExtensionChild {
    type V = ExtensionChildView;

    open spec fn view(&self) -> ExtensionChildView {
        match self {
            ExtensionChild::Require { items } => ExtensionChildView::Require {
                items: items@.map_values(|it: InterfaceItem| it@),
            },
            ExtensionChild::Other => ExtensionChildView::Other,
        }
    }
}

impl View for Extension {
    type V = ExtensionView;

    open spec fn view(&self) -> ExtensionView {
        ExtensionView {
            name: self.name@,
            children: self.children@.map_values(|c: ExtensionChild| c@),
        }
    }
}

impl View for EnumGroup {
    type V = EnumGroupView;

    open spec fn view(&self) -> EnumGroupView {
        EnumGroupView {
            name: opt_view(self.name),
            kind: opt_view(self.kind),
            enumerants: self.enumerants@.map_values(|e: Enumerant| e@),
        }
    }
}

impl View for TypeNode {
    type V = TypeNodeView;

    open spec fn view(&self) -> TypeNodeView {
        TypeNodeView { name: opt_view(self.name) }
    }
}

impl View for RegistryChild {
    type V = RegistryChildView;

    open spec fn view(&self) -> RegistryChildView {
        match self {
            RegistryChild::Tags(ts) => RegistryChildView::Tags(
                ts@.map_values(|t: String| t@),
            ),
            RegistryChild::Types(ts) => RegistryChildView::Types(
                ts@.map_values(|t: TypeNode| t@),
            ),
            RegistryChild::Enums(g) => RegistryChildView::Enums(g@),
            RegistryChild::Extensions(xs) => RegistryChildView::Extensions(
                xs@.map_values(|x: Extension| x@),
            ),
            RegistryChild::Other => RegistryChildView::Other,
        }
    }
}

impl View for Registry {
    type V = Seq<RegistryChildView>;

    open spec fn view(&self) -> Seq<RegistryChildView> {
        self.children@.map_values(|c: RegistryChild| c@)
    }
}

/// The enum group an enumerant extends, if it is an extension enumerant:
/// an offset payload always carries its target, the other payloads only when
/// one was declared.
pub open spec fn extends_of(e: EnumerantView) -> Option<Seq<char>> {
    match e.payload {
        EnumPayloadView::Value { extends } => extends,
        EnumPayloadView::Bitpos { extends } => extends,
        EnumPayloadView::Offset { extends } => Option::Some(extends),
        EnumPayloadView::Alias { extends } => extends,
        EnumPayloadView::Unspecified => Option::None,
    }
}

/// The enum group an enumerant extends, if any.
pub fn get_extends_from_enum(e: &Enumerant) -> (r: Option<&str>)
    ensures
        match r {
            Some(s) => extends_of(e@) == Option::Some(s@),
            None => extends_of(e@) is None,
        },
{
    match &e.payload {
        EnumPayload::Value { extends: Some(s) } => Some(s.as_str()),
        EnumPayload::Bitpos { extends: Some(s) } => Some(s.as_str()),
        EnumPayload::Offset { extends } => Some(extends.as_str()),
        EnumPayload::Alias { extends: Some(s) } => Some(s.as_str()),
        _ => None,
    }
}

/// A copy of an enumerant with the same abstract value.
pub fn dup_enumerant(e: &Enumerant) -> (r: Enumerant)
    ensures
        r@ == e@,
{
    let payload = match &e.payload {
        EnumPayload::Value { extends } => EnumPayload::Value { extends: dup_opt(extends) },
        EnumPayload::Bitpos { extends } => EnumPayload::Bitpos { extends: dup_opt(extends) },
        EnumPayload::Offset { extends } => EnumPayload::Offset { extends: extends.clone() },
        EnumPayload::Alias { extends } => EnumPayload::Alias { extends: dup_opt(extends) },
        EnumPayload::Unspecified => EnumPayload::Unspecified,
    };
    Enumerant { name: e.name.clone(), payload }
}

/// A copy of an optional string with the same abstract value.
pub fn dup_opt(o: &Option<String>) -> (r: Option<String>)
    ensures
        opt_view(r) == opt_view(*o),
{
    match o {
        Some(s) => Some(s.clone()),
        None => None,
    }
}

/// A copy of an enumerant vector with the same abstract value.
pub fn dup_enumerants(v: &Vec<Enumerant>) -> (r: Vec<Enumerant>)
    ensures
        r@.map_values(|e: Enumerant| e@) == v@.map_values(|e: Enumerant| e@),
{
    let n = v.len();
    let mut out: Vec<Enumerant> = Vec::new();
    let mut i: usize = 0;
    while i < n
        invariant
            n == v@.len(),
            i <= n,
            out@.len() == i,
            out@.map_values(|e: Enumerant| e@) == v@.map_values(|e: Enumerant| e@).take(i as int),
        decreases n - i,
    {
        out.push(dup_enumerant(&v[i]));
        proof {
            let m = v@.map_values(|e: Enumerant| e@);
            assert(out@.map_values(|e: Enumerant| e@) =~~= m.take(i as int + 1));
        }
        i += 1;
    }
    proof {
        let m = v@.map_values(|e: Enumerant| e@);
        assert(m.take(n as int) =~= m);
    }
    out
}

/// A copy of an interface item with the same abstract value.
pub fn dup_interface_item(it: &InterfaceItem) -> (r: InterfaceItem)
    ensures
        r@ == it@,
{
    match it {
        InterfaceItem::Enum(e) => InterfaceItem::Enum(dup_enumerant(e)),
        InterfaceItem::Other => InterfaceItem::Other,
    }
}

/// A copy of an extension child with the same abstract value.
pub fn dup_extension_child(c: &ExtensionChild) -> (r: ExtensionChild)
    ensures
        r@ == c@,
{
    match c {
        ExtensionChild::Require { items } => {
            let n = items.len();
            let mut out: Vec<InterfaceItem> = Vec::new();
            let mut i: usize = 0;
            while i < n
                invariant
                    n == items@.len(),
                    i <= n,
                    out@.len() == i,
                    out@.map_values(|x: InterfaceItem| x@) == items@.map_values(
                        |x: InterfaceItem| x@,
                    ).take(i as int),
                decreases n - i,
            {
                out.push(dup_interface_item(&items[i]));
                proof {
                    let m = items@.map_values(|x: InterfaceItem| x@);
                    assert(out@.map_values(|x: InterfaceItem| x@) =~~= m.take(i as int + 1));
                }
                i += 1;
            }
            proof {
                let m = items@.map_values(|x: InterfaceItem| x@);
                assert(m.take(n as int) =~= m);
            }
            ExtensionChild::Require { items: out }
        }
        ExtensionChild::Other => ExtensionChild::Other,
    }
}

/// A copy of an extension with the same abstract value.
pub fn dup_extension(x: &Extension) -> (r: Extension)
    ensures
        r@ == x@,
{
    let n = x.children.len();
    let mut out: Vec<ExtensionChild> = Vec::new();
    let mut i: usize = 0;
    while i < n
        invariant
            n == x.children@.len(),
            i <= n,
            out@.len() == i,
            out@.map_values(|c: ExtensionChild| c@) == x.children@.map_values(
                |c: ExtensionChild| c@,
            ).take(i as int),
        decreases n - i,
    {
        out.push(dup_extension_child(&x.children[i]));
        proof {
            let m = x.children@.map_values(|c: ExtensionChild| c@);
            assert(out@.map_values(|c: ExtensionChild| c@) =~~= m.take(i as int + 1));
        }
        i += 1;
    }
    proof {
        let m = x.children@.map_values(|c: ExtensionChild| c@);
        assert(m.take(n as int) =~= m);
    }
    Extension { name: x.name.clone(), children: out }
}

/// A copy of an enum group with the same abstract value.
pub fn dup_group(g: &EnumGroup) -> (r: EnumGroup)
    ensures
        r@ == g@,
{
    EnumGroup {
        name: dup_opt(&g.name),
        kind: dup_opt(&g.kind),
        enumerants: dup_enumerants(&g.enumerants),
    }
}

/// A copy of a type node with the same abstract value.
pub fn dup_type_node(t: &TypeNode) -> (r: TypeNode)
    ensures
        r@ == t@,
{
    TypeNode { name: dup_opt(&t.name) }
}

} // verus!
