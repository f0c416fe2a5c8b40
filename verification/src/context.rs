//! The registry context: the four indices built from the tree's top-level
//! children, the aggregation of extension-contributed enumerants by the enum
//! group they extend, and the naming queries the emitter calls.

use vstd::prelude::*;

use crate::model::{
    extends_of, get_extends_from_enum, dup_enumerant, dup_enumerants, dup_extension, dup_group,
    dup_type_node, Enumerant, EnumerantView, EnumGroup, EnumGroupView, Extension,
    ExtensionChild, ExtensionChildView, ExtensionView, InterfaceItem, InterfaceItemView,
    Registry, RegistryChild, RegistryChildView, TypeNode, TypeNodeView,
};
use crate::names::{
    derive_flag_set_type_name, derive_type_name, derive_variant_name, flag_bits_replaced,
    shouty_snake_of, stripped_type_name, variant_ident,
};
use crate::ordmap::{lemma_iteration_deterministic, StrMap};
use crate::tags::TagSet;

verus! {

/// The contributions one enum group received from extensions: the first
/// extension seen contributing (the representative) and the contributed
/// enumerants in aggregation order.
pub struct ExtensionEnum {
    pub extension: String,
    pub enums: Vec<Enumerant>,
}

/// Abstract value of an [`ExtensionEnum`].
#[verifier::ext_equal]
pub struct ExtensionEnumView {
    pub extension: Seq<char>,
    pub enums: Seq<EnumerantView>,
}

impl View for ExtensionEnum {
    type V = ExtensionEnumView;

    open spec fn view(&self) -> ExtensionEnumView {
        ExtensionEnumView {
            extension: self.extension@,
            enums: self.enums@.map_values(|e: Enumerant| e@),
        }
    }
}

/// A structural fault that stops the build of a context.
pub enum BuildError {
    MissingGroupName,
}

impl BuildError {
    /// A descriptive message for the fault.
    pub fn message(&self) -> (r: String)
        ensures
            r@ == "enum group without a name in the registry"@,
    {
        String::from_str("enum group without a name in the registry")
    }
}

/// The vendor tags declared by the tree's tag sections, as a set.
pub open spec fn tags_of(children: Seq<RegistryChildView>) -> Set<Seq<char>>
    decreases children.len(),
{
    if children.len() == 0 {
        Set::<Seq<char>>::empty()
    } else {
        let rest = tags_of(children.drop_last());
        match children.last() {
            RegistryChildView::Tags(ts) => rest.union(ts.to_set()),
            _ => rest,
        }
    }
}

/// Extensions inserted into an index in declaration order, the last
/// declaration under a name winning.
pub open spec fn insert_exts(
    m: Map<Seq<char>, ExtensionView>,
    xs: Seq<ExtensionView>,
) -> Map<Seq<char>, ExtensionView>
    decreases xs.len(),
{
    if xs.len() == 0 {
        m
    } else {
        insert_exts(m, xs.drop_last()).insert(xs.last().name, xs.last())
    }
}

/// The extension index described by the tree's top-level children.
pub open spec fn exts_of(children: Seq<RegistryChildView>) -> Map<Seq<char>, ExtensionView>
    decreases children.len(),
{
    if children.len() == 0 {
        Map::<Seq<char>, ExtensionView>::empty()
    } else {
        let rest = exts_of(children.drop_last());
        match children.last() {
            RegistryChildView::Extensions(xs) => insert_exts(rest, xs),
            _ => rest,
        }
    }
}

/// Whether a top-level child is structurally sound: an enum group must carry
/// a name.
pub open spec fn child_ok(c: RegistryChildView) -> bool {
    match c {
        RegistryChildView::Enums(g) => g.name is Some,
        _ => true,
    }
}

/// Whether every enum group of the tree carries a name.
pub open spec fn groups_ok(children: Seq<RegistryChildView>) -> bool {
    forall|i: int| 0 <= i < children.len() ==> child_ok(#[trigger] children[i])
}

/// The enum group index described by the tree's top-level children.
pub open spec fn groups_of(children: Seq<RegistryChildView>) -> Map<Seq<char>, EnumGroupView>
    decreases children.len(),
{
    if children.len() == 0 {
        Map::<Seq<char>, EnumGroupView>::empty()
    } else {
        let rest = groups_of(children.drop_last());
        match children.last() {
            RegistryChildView::Enums(g) => match g.name {
                Option::Some(n) => rest.insert(n, g),
                Option::None => rest,
            },
            _ => rest,
        }
    }
}

/// Named type nodes inserted into an index in declaration order.
pub open spec fn insert_types(
    m: Map<Seq<char>, TypeNodeView>,
    ts: Seq<TypeNodeView>,
) -> Map<Seq<char>, TypeNodeView>
    decreases ts.len(),
{
    if ts.len() == 0 {
        m
    } else {
        let rest = insert_types(m, ts.drop_last());
        match ts.last().name {
            Option::Some(n) => rest.insert(n, ts.last()),
            Option::None => rest,
        }
    }
}

/// The type index described by the tree's top-level children.
pub open spec fn types_of(children: Seq<RegistryChildView>) -> Map<Seq<char>, TypeNodeView>
    decreases children.len(),
{
    if children.len() == 0 {
        Map::<Seq<char>, TypeNodeView>::empty()
    } else {
        let rest = types_of(children.drop_last());
        match children.last() {
            RegistryChildView::Types(ts) => insert_types(rest, ts),
            _ => rest,
        }
    }
}

/// The (target, enumerant) contribution of one require item, if any.
pub open spec fn item_contrib(it: InterfaceItemView) -> Seq<(Seq<char>, EnumerantView)> {
    match it {
        InterfaceItemView::Enum(e) => match extends_of(e) {
            Option::Some(t) => seq![(t, e)],
            Option::None => Seq::<(Seq<char>, EnumerantView)>::empty(),
        },
        InterfaceItemView::Other => Seq::<(Seq<char>, EnumerantView)>::empty(),
    }
}

/// The contributions of a require block's items, in declaration order.
pub open spec fn items_contribs(items: Seq<InterfaceItemView>) -> Seq<(Seq<char>, EnumerantView)>
    decreases items.len(),
{
    if items.len() == 0 {
        Seq::<(Seq<char>, EnumerantView)>::empty()
    } else {
        items_contribs(items.drop_last()) + item_contrib(items.last())
    }
}

/// The contributions of one extension child.
pub open spec fn child_contribs(c: ExtensionChildView) -> Seq<(Seq<char>, EnumerantView)> {
    match c {
        ExtensionChildView::Require { items } => items_contribs(items),
        ExtensionChildView::Other => Seq::<(Seq<char>, EnumerantView)>::empty(),
    }
}

/// The contributions of an extension's children, in declaration order.
pub open spec fn children_contribs(cs: Seq<ExtensionChildView>) -> Seq<
    (Seq<char>, EnumerantView),
>
    decreases cs.len(),
{
    if cs.len() == 0 {
        Seq::<(Seq<char>, EnumerantView)>::empty()
    } else {
        children_contribs(cs.drop_last()) + child_contribs(cs.last())
    }
}

/// All contributions of one extension.
pub open spec fn ext_contribs(x: ExtensionView) -> Seq<(Seq<char>, EnumerantView)> {
    children_contribs(x.children)
}

/// Contributions stamped with the name of the extension they came from.
pub open spec fn tagged(
    name: Seq<char>,
    cs: Seq<(Seq<char>, EnumerantView)>,
) -> Seq<(Seq<char>, Seq<char>, EnumerantView)> {
    cs.map_values(|p: (Seq<char>, EnumerantView)| (name, p.0, p.1))
}

/// All contributions of an extension index, walked in its iteration order.
pub open spec fn all_contribs(
    keys: Seq<Seq<char>>,
    exts: Seq<ExtensionView>,
) -> Seq<(Seq<char>, Seq<char>, EnumerantView)>
    decreases exts.len(),
{
    if exts.len() == 0 || keys.len() == 0 {
        Seq::<(Seq<char>, Seq<char>, EnumerantView)>::empty()
    } else {
        all_contribs(keys.drop_last(), exts.drop_last()) + tagged(
            keys.last(),
            ext_contribs(exts.last()),
        )
    }
}

/// One aggregation step: the contribution is appended to its target's
/// aggregate; a first contribution creates the aggregate and records its
/// extension as the representative.
pub open spec fn agg_step(
    m: Map<Seq<char>, ExtensionEnumView>,
    x: Seq<char>,
    t: Seq<char>,
    e: EnumerantView,
) -> Map<Seq<char>, ExtensionEnumView> {
    if m.contains_key(t) {
        m.insert(t, ExtensionEnumView { extension: m[t].extension, enums: m[t].enums.push(e) })
    } else {
        m.insert(t, ExtensionEnumView { extension: x, enums: seq![e] })
    }
}

/// The aggregates described by a list of contributions, processed in order.
pub open spec fn aggregate(
    entries: Seq<(Seq<char>, Seq<char>, EnumerantView)>,
) -> Map<Seq<char>, ExtensionEnumView>
    decreases entries.len(),
{
    if entries.len() == 0 {
        Map::<Seq<char>, ExtensionEnumView>::empty()
    } else {
        let last = entries.last();
        agg_step(aggregate(entries.drop_last()), last.0, last.1, last.2)
    }
}

/// Appending one contribution performs one aggregation step.
proof fn lemma_aggregate_push(
    es: Seq<(Seq<char>, Seq<char>, EnumerantView)>,
    x: Seq<char>,
    t: Seq<char>,
    e: EnumerantView,
)
    ensures
        aggregate(es.push((x, t, e))) == agg_step(aggregate(es), x, t, e),
{
    assert(es.push((x, t, e)).drop_last() =~= es);
}

/// Stamping distributes over concatenation of contribution lists.
proof fn lemma_tagged_concat(
    name: Seq<char>,
    a: Seq<(Seq<char>, EnumerantView)>,
    b: Seq<(Seq<char>, EnumerantView)>,
)
    ensures
        tagged(name, a + b) == tagged(name, a) + tagged(name, b),
{
    assert(tagged(name, a + b) =~= tagged(name, a) + tagged(name, b));
}

/// Membership of a sequence prefix grows one element at a time.
proof fn lemma_take_to_set_step(s: Seq<Seq<char>>, j: int)
    requires
        0 <= j < s.len(),
    ensures
        s.take(j + 1).to_set() == s.take(j).to_set().insert(s[j]),
{
    assert forall|e: Seq<char>|
        s.take(j + 1).to_set().contains(e) <==> s.take(j).to_set().insert(s[j]).contains(
            e,
        ) by {
        if s.take(j + 1).contains(e) {
            let q = choose|q: int| 0 <= q < j + 1 && #[trigger] s.take(j + 1)[q] == e;
            if q < j {
                assert(s.take(j)[q] == e);
                assert(s.take(j).contains(e));
            } else {
                assert(e == s[j]);
            }
        }
        if s.take(j).contains(e) {
            let q = choose|q: int| 0 <= q < j && #[trigger] s.take(j)[q] == e;
            assert(s.take(j + 1)[q] == e);
            assert(s.take(j + 1).contains(e));
        }
        if e == s[j] {
            assert(s.take(j + 1)[j] == e);
            assert(s.take(j + 1).contains(e));
        }
    }
    assert(s.take(j + 1).to_set() =~= s.take(j).to_set().insert(s[j]));
}

/// Record one contribution in the aggregates index.
fn push_contribution(
    agg: &mut StrMap<ExtensionEnum>,
    ext_name: &String,
    target: &str,
    e: &Enumerant,
)
    requires
        old(agg).wf(),
    ensures
        final(agg).wf(),
        final(agg)@ == agg_step(old(agg)@, ext_name@, target@, e@),
{
    match agg.find(target) {
        Some(i) => {
            let ghost m = agg@;
            let cur = agg.val_at(i);
            let mut enums = dup_enumerants(&cur.enums);
            enums.push(dup_enumerant(e));
            let newv = ExtensionEnum { extension: cur.extension.clone(), enums };
            proof {
                assert(newv@ =~~= ExtensionEnumView {
                    extension: m[target@].extension,
                    enums: m[target@].enums.push(e@),
                });
            }
            agg.update_at(i, newv);
        }
        None => {
            let mut enums: Vec<Enumerant> = Vec::new();
            enums.push(dup_enumerant(e));
            let newv = ExtensionEnum { extension: ext_name.clone(), enums };
            proof {
                assert(newv@ =~~= ExtensionEnumView { extension: ext_name@, enums: seq![e@] });
            }
            agg.insert(target.to_owned(), newv);
        }
    }
}

/// Collect the vendor tags by one scan of the top-level children.
fn collect_tags(registry: &Registry) -> (r: TagSet)
    ensures
        r.wf(),
        r@ == tags_of(registry@),
{
    let mut tags = TagSet::new();
    let n = registry.children.len();
    proof {
        assert(registry@.take(0) =~= Seq::<RegistryChildView>::empty());
    }
    let mut i: usize = 0;
    while i < n
        invariant
            n == registry.children@.len(),
            i <= n,
            tags.wf(),
            tags@ == tags_of(registry@.take(i as int)),
        decreases n - i,
    {
        let ghost pre = registry@.take(i as int);
        let ghost cur = registry@.take(i as int + 1);
        proof {
            assert(cur.drop_last() =~= pre);
            assert(cur.last() == registry@[i as int]);
        }
        match &registry.children[i] {
            RegistryChild::Tags(ts) => {
                let ghost tsv = ts@.map_values(|t: String| t@);
                let m = ts.len();
                proof {
                    assert(tsv.take(0) =~= Seq::<Seq<char>>::empty());
                    assert(tags@ =~= tags_of(pre).union(tsv.take(0).to_set()));
                }
                let mut j: usize = 0;
                while j < m
                    invariant
                        m == ts@.len(),
                        j <= m,
                        tsv == ts@.map_values(|t: String| t@),
                        tags.wf(),
                        tags@ == tags_of(registry@.take(i as int)).union(
                            tsv.take(j as int).to_set(),
                        ),
                        i < n,
                        n == registry.children@.len(),
                    decreases m - j,
                {
                    tags.insert(ts[j].clone());
                    proof {
                        lemma_take_to_set_step(tsv, j as int);
                        assert(tags@ =~= tags_of(registry@.take(i as int)).union(
                            tsv.take(j as int + 1).to_set(),
                        ));
                    }
                    j += 1;
                }
                proof {
                    assert(tsv.take(m as int) =~= tsv);
                    assert(cur.last() == RegistryChildView::Tags(tsv));
                    assert(tags@ == tags_of(cur));
                }
            }
            _ => {
                proof {
                    assert(tags_of(cur) == tags_of(pre));
                }
            }
        }
        i += 1;
    }
    proof {
        assert(registry@.take(n as int) =~= registry@);
    }
    tags
}

/// Collect the extension index by one scan of the top-level children.
fn collect_extensions(registry: &Registry) -> (r: StrMap<Extension>)
    ensures
        r.wf(),
        r@ == exts_of(registry@),
{
    let mut m: StrMap<Extension> = StrMap::new();
    let n = registry.children.len();
    proof {
        assert(registry@.take(0) =~= Seq::<RegistryChildView>::empty());
    }
    let mut i: usize = 0;
    while i < n
        invariant
            n == registry.children@.len(),
            i <= n,
            m.wf(),
            m@ == exts_of(registry@.take(i as int)),
        decreases n - i,
    {
        let ghost pre = registry@.take(i as int);
        let ghost cur = registry@.take(i as int + 1);
        proof {
            assert(cur.drop_last() =~= pre);
            assert(cur.last() == registry@[i as int]);
        }
        match &registry.children[i] {
            RegistryChild::Extensions(xs) => {
                let ghost xsv = xs@.map_values(|x: Extension| x@);
                let c = xs.len();
                proof {
                    assert(xsv.take(0) =~= Seq::<ExtensionView>::empty());
                }
                let mut j: usize = 0;
                while j < c
                    invariant
                        c == xs@.len(),
                        j <= c,
                        xsv == xs@.map_values(|x: Extension| x@),
                        m.wf(),
                        m@ == insert_exts(exts_of(registry@.take(i as int)), xsv.take(j as int)),
                        i < n,
                        n == registry.children@.len(),
                    decreases c - j,
                {
                    m.insert(xs[j].name.clone(), dup_extension(&xs[j]));
                    proof {
                        assert(xsv.take(j as int + 1).drop_last() =~= xsv.take(j as int));
                        assert(xsv.take(j as int + 1).last() == xsv[j as int]);
                    }
                    j += 1;
                }
                proof {
                    assert(xsv.take(c as int) =~= xsv);
                    assert(cur.last() == RegistryChildView::Extensions(xsv));
                    assert(m@ == exts_of(cur));
                }
            }
            _ => {
                proof {
                    assert(exts_of(cur) == exts_of(pre));
                }
            }
        }
        i += 1;
    }
    proof {
        assert(registry@.take(n as int) =~= registry@);
    }
    m
}

/// Collect the enum group index by one scan of the top-level children; an
/// enum group without a name is a fatal fault.
fn collect_enums(registry: &Registry) -> (r: Result<StrMap<EnumGroup>, BuildError>)
    ensures
        (r is Ok) <==> groups_ok(registry@),
        r matches Ok(m) ==> m.wf() && m@ == groups_of(registry@),
{
    let mut m: StrMap<EnumGroup> = StrMap::new();
    let n = registry.children.len();
    proof {
        assert(registry@.take(0) =~= Seq::<RegistryChildView>::empty());
    }
    let mut i: usize = 0;
    while i < n
        invariant
            n == registry.children@.len(),
            i <= n,
            m.wf(),
            m@ == groups_of(registry@.take(i as int)),
            forall|j: int| 0 <= j < i ==> child_ok(#[trigger] registry@[j]),
        decreases n - i,
    {
        let ghost pre = registry@.take(i as int);
        let ghost cur = registry@.take(i as int + 1);
        proof {
            assert(cur.drop_last() =~= pre);
            assert(cur.last() == registry@[i as int]);
        }
        match &registry.children[i] {
            RegistryChild::Enums(g) => {
                match &g.name {
                    Some(nm) => {
                        m.insert(nm.clone(), dup_group(g));
                    }
                    None => {
                        return Err(BuildError::MissingGroupName);
                    }
                }
            }
            _ => {
                proof {
                    assert(groups_of(cur) == groups_of(pre));
                }
            }
        }
        i += 1;
    }
    proof {
        assert(registry@.take(n as int) =~= registry@);
    }
    Ok(m)
}

/// Collect the type index by one scan of the top-level children; a type node
/// without a declared name is not indexed.
fn collect_types(registry: &Registry) -> (r: StrMap<TypeNode>)
    ensures
        r.wf(),
        r@ == types_of(registry@),
{
    let mut m: StrMap<TypeNode> = StrMap::new();
    let n = registry.children.len();
    proof {
        assert(registry@.take(0) =~= Seq::<RegistryChildView>::empty());
    }
    let mut i: usize = 0;
    while i < n
        invariant
            n == registry.children@.len(),
            i <= n,
            m.wf(),
            m@ == types_of(registry@.take(i as int)),
        decreases n - i,
    {
        let ghost pre = registry@.take(i as int);
        let ghost cur = registry@.take(i as int + 1);
        proof {
            assert(cur.drop_last() =~= pre);
            assert(cur.last() == registry@[i as int]);
        }
        match &registry.children[i] {
            RegistryChild::Types(ts) => {
                let ghost tsv = ts@.map_values(|t: TypeNode| t@);
                let c = ts.len();
                proof {
                    assert(tsv.take(0) =~= Seq::<TypeNodeView>::empty());
                }
                let mut j: usize = 0;
                while j < c
                    invariant
                        c == ts@.len(),
                        j <= c,
                        tsv == ts@.map_values(|t: TypeNode| t@),
                        m.wf(),
                        m@ == insert_types(
                            types_of(registry@.take(i as int)),
                            tsv.take(j as int),
                        ),
                        i < n,
                        n == registry.children@.len(),
                    decreases c - j,
                {
                    match &ts[j].name {
                        Some(nm) => {
                            m.insert(nm.clone(), dup_type_node(&ts[j]));
                        }
                        None => {}
                    }
                    proof {
                        assert(tsv.take(j as int + 1).drop_last() =~= tsv.take(j as int));
                        assert(tsv.take(j as int + 1).last() == tsv[j as int]);
                    }
                    j += 1;
                }
                proof {
                    assert(tsv.take(c as int) =~= tsv);
                    assert(cur.last() == RegistryChildView::Types(tsv));
                    assert(m@ == types_of(cur));
                }
            }
            _ => {
                proof {
                    assert(types_of(cur) == types_of(pre));
                }
            }
        }
        i += 1;
    }
    proof {
        assert(registry@.take(n as int) =~= registry@);
    }
    m
}

/// Aggregate extension-contributed enumerants by the enum group they extend,
/// walking the extension index in its sorted iteration order.
fn collect_extended_enums(exts: &StrMap<Extension>) -> (r: StrMap<ExtensionEnum>)
    requires
        exts.wf(),
    ensures
        r.wf(),
        r@ == aggregate(all_contribs(exts.key_seq(), exts.val_seq())),
{
    let ghost keys = exts.key_seq();
    let ghost vals = exts.val_seq();
    let mut agg: StrMap<ExtensionEnum> = StrMap::new();
    let n = exts.len();
    proof {
        assert(keys.take(0) =~= Seq::<Seq<char>>::empty());
        assert(vals.take(0) =~= Seq::<ExtensionView>::empty());
        assert(all_contribs(keys.take(0), vals.take(0)) =~= Seq::<
            (Seq<char>, Seq<char>, EnumerantView),
        >::empty());
    }
    let mut i: usize = 0;
    while i < n
        invariant
            exts.wf(),
            keys == exts.key_seq(),
            vals == exts.val_seq(),
            n == keys.len(),
            i <= n,
            agg.wf(),
            agg@ == aggregate(all_contribs(keys.take(i as int), vals.take(i as int))),
        decreases n - i,
    {
        let name = exts.key_at(i);
        let x = exts.val_at(i);
        let ghost base = all_contribs(keys.take(i as int), vals.take(i as int));
        let ghost xv = vals[i as int];
        let c = x.children.len();
        proof {
            assert(x.children@.map_values(|ch: ExtensionChild| ch@).take(0) =~= Seq::<
                ExtensionChildView,
            >::empty());
            assert(children_contribs(Seq::<ExtensionChildView>::empty()) =~= Seq::<
                (Seq<char>, EnumerantView),
            >::empty());
            assert(tagged(name@, Seq::<(Seq<char>, EnumerantView)>::empty()) =~= Seq::<
                (Seq<char>, Seq<char>, EnumerantView),
            >::empty());
            assert(base + tagged(
                name@,
                children_contribs(xv.children.take(0)),
            ) =~= base);
            assert(xv.children.take(0) =~= x.children@.map_values(
                |ch: ExtensionChild| ch@,
            ).take(0));
        }
        let mut j: usize = 0;
        while j < c
            invariant
                exts.wf(),
                keys == exts.key_seq(),
                vals == exts.val_seq(),
                n == keys.len(),
                i < n,
                c == x.children@.len(),
                j <= c,
                name@ == keys[i as int],
                x@ == vals[i as int],
                xv == vals[i as int],
                base == all_contribs(keys.take(i as int), vals.take(i as int)),
                agg.wf(),
                agg@ == aggregate(
                    base + tagged(name@, children_contribs(xv.children.take(j as int))),
                ),
            decreases c - j,
        {
            let ghost ccur = xv.children.take(j as int + 1);
            proof {
                assert(ccur.drop_last() =~= xv.children.take(j as int));
                assert(ccur.last() == xv.children[j as int]);
                assert(xv.children[j as int] == x.children@[j as int]@);
            }
            match &x.children[j] {
                ExtensionChild::Require { items } => {
                    let ghost itemsv = items@.map_values(|it: InterfaceItem| it@);
                    let ghost cc = children_contribs(xv.children.take(j as int));
                    let k_max = items.len();
                    proof {
                        assert(itemsv.take(0) =~= Seq::<InterfaceItemView>::empty());
                        assert(items_contribs(itemsv.take(0)) =~= Seq::<
                            (Seq<char>, EnumerantView),
                        >::empty());
                        assert(cc + items_contribs(itemsv.take(0)) =~= cc);
                    }
                    let mut k: usize = 0;
                    while k < k_max
                        invariant
                            exts.wf(),
                            keys == exts.key_seq(),
                            vals == exts.val_seq(),
                            n == keys.len(),
                            i < n,
                            j < c,
                            c == x.children@.len(),
                            k_max == items@.len(),
                            k <= k_max,
                            name@ == keys[i as int],
                            x@ == vals[i as int],
                            xv == vals[i as int],
                            itemsv == items@.map_values(|it: InterfaceItem| it@),
                            base == all_contribs(keys.take(i as int), vals.take(i as int)),
                            cc == children_contribs(xv.children.take(j as int)),
                            agg.wf(),
                            agg@ == aggregate(
                                base + tagged(name@, cc + items_contribs(itemsv.take(k as int))),
                            ),
                        decreases k_max - k,
                    {
                        let ghost icur = itemsv.take(k as int + 1);
                        proof {
                            assert(icur.drop_last() =~= itemsv.take(k as int));
                            assert(icur.last() == itemsv[k as int]);
                            assert(itemsv[k as int] == items@[k as int]@);
                        }
                        match &items[k] {
                            InterfaceItem::Enum(e) => {
                                match get_extends_from_enum(e) {
                                    Some(target) => {
                                        let ghost before = base + tagged(
                                            name@,
                                            cc + items_contribs(itemsv.take(k as int)),
                                        );
                                        push_contribution(&mut agg, name, target, e);
                                        proof {
                                            assert(item_contrib(itemsv[k as int]) =~= seq![
                                                (target@, e@),
                                            ]);
                                            lemma_aggregate_push(before, name@, target@, e@);
                                            lemma_tagged_concat(
                                                name@,
                                                cc + items_contribs(itemsv.take(k as int)),
                                                seq![(target@, e@)],
                                            );
                                            assert(cc + items_contribs(icur) =~= (cc
                                                + items_contribs(itemsv.take(k as int))) + seq![
                                                (target@, e@),
                                            ]);
                                            assert(base + tagged(
                                                name@,
                                                cc + items_contribs(icur),
                                            ) =~= before.push((name@, target@, e@)));
                                        }
                                    }
                                    None => {
                                        proof {
                                            assert(item_contrib(itemsv[k as int]) =~= Seq::<
                                                (Seq<char>, EnumerantView),
                                            >::empty());
                                            assert(cc + items_contribs(icur) =~= cc
                                                + items_contribs(itemsv.take(k as int)));
                                        }
                                    }
                                }
                            }
                            InterfaceItem::Other => {
                                proof {
                                    assert(item_contrib(itemsv[k as int]) =~= Seq::<
                                        (Seq<char>, EnumerantView),
                                    >::empty());
                                    assert(cc + items_contribs(icur) =~= cc + items_contribs(
                                        itemsv.take(k as int),
                                    ));
                                }
                            }
                        }
                        k += 1;
                    }
                    proof {
                        assert(itemsv.take(k_max as int) =~= itemsv);
                        assert(child_contribs(ccur.last()) == items_contribs(itemsv));
                        assert(children_contribs(ccur) == cc + items_contribs(itemsv));
                    }
                }
                ExtensionChild::Other => {
                    proof {
                        assert(child_contribs(ccur.last()) =~= Seq::<
                            (Seq<char>, EnumerantView),
                        >::empty());
                        assert(children_contribs(ccur) =~= children_contribs(
                            xv.children.take(j as int),
                        ));
                    }
                }
            }
            j += 1;
        }
        proof {
            assert(xv.children.take(c as int) =~= xv.children);
            assert(keys.take(i as int + 1).drop_last() =~= keys.take(i as int));
            assert(vals.take(i as int + 1).drop_last() =~= vals.take(i as int));
            assert(keys.take(i as int + 1).last() == keys[i as int]);
            assert(vals.take(i as int + 1).last() == vals[i as int]);
            assert(all_contribs(keys.take(i as int + 1), vals.take(i as int + 1)) == base
                + tagged(name@, ext_contribs(xv)));
        }
        i += 1;
    }
    proof {
        assert(keys.take(n as int) =~= keys);
        assert(vals.take(n as int) =~= vals);
    }
    agg
}

/// The immutable aggregate root: the four indices and the extension enum
/// aggregates, built once from a registry and then only queried.
pub struct Context {
    pub extension_by_name: StrMap<Extension>,
    pub type_by_name: StrMap<TypeNode>,
    pub enums_by_name: StrMap<EnumGroup>,
    pub tags: TagSet,
    pub extension_enums: StrMap<ExtensionEnum>,
}

impl Context {
    /// Well-formed: every index is.
    pub open spec fn wf(&self) -> bool {
        &&& self.extension_by_name.wf()
        &&& self.type_by_name.wf()
        &&& self.enums_by_name.wf()
        &&& self.tags.wf()
        &&& self.extension_enums.wf()
    }

    /// Build every index from the registry, in one scan each, then aggregate
    /// the extension enums over the sorted extension index. The one fatal
    /// fault is an enum group without a name.
    pub fn from_registry(registry: &Registry) -> (r: Result<Context, BuildError>)
        ensures
            (r is Ok) <==> groups_ok(registry@),
            r matches Ok(ctx) ==> {
                &&& ctx.wf()
                &&& ctx.tags@ == tags_of(registry@)
                &&& ctx.extension_by_name@ == exts_of(registry@)
                &&& ctx.enums_by_name@ == groups_of(registry@)
                &&& ctx.type_by_name@ == types_of(registry@)
                &&& ctx.extension_enums@ == aggregate(
                    all_contribs(
                        ctx.extension_by_name.key_seq(),
                        ctx.extension_by_name.val_seq(),
                    ),
                )
            },
    {
        let tags = collect_tags(registry);
        let extension_by_name = collect_extensions(registry);
        let enums_by_name = match collect_enums(registry) {
            Ok(m) => m,
            Err(e) => {
                return Err(e);
            }
        };
        let type_by_name = collect_types(registry);
        let extension_enums = collect_extended_enums(&extension_by_name);
        Ok(
            Context {
                extension_by_name,
                type_by_name,
                enums_by_name,
                tags,
                extension_enums,
            },
        )
    }

    /// The output type name for a raw type name.
    pub fn rust_type_name<'a>(&self, name: &'a str) -> (r: &'a str)
        ensures
            r@ == stripped_type_name(name@),
    {
        derive_type_name(name)
    }

    /// The output container type name for a raw flag-set type name.
    pub fn rust_bitflag_type_name(&self, name: &str) -> (r: String)
        ensures
            r@ == flag_bits_replaced(stripped_type_name(name@)),
    {
        derive_flag_set_type_name(name)
    }

    /// The output variant name for an enumerant of the named enum.
    pub fn rust_enum_variant_name(&self, enum_name: &str, variant_name: &str) -> (r: String)
        requires
            self.wf(),
        ensures
            r@ == variant_ident(self.tags@, shouty_snake_of(enum_name@), variant_name@),
    {
        derive_variant_name(&self.tags, enum_name, variant_name)
    }
}

/// The contributions that target one enum group, in contribution order.
pub open spec fn contributions_to(
    es: Seq<(Seq<char>, Seq<char>, EnumerantView)>,
    t: Seq<char>,
) -> Seq<EnumerantView>
    decreases es.len(),
{
    if es.len() == 0 {
        Seq::<EnumerantView>::empty()
    } else {
        let init = contributions_to(es.drop_last(), t);
        if es.last().1 == t {
            init.push(es.last().2)
        } else {
            init
        }
    }
}

/// The extension of the first contribution that targets one enum group.
pub open spec fn first_contributor(
    es: Seq<(Seq<char>, Seq<char>, EnumerantView)>,
    t: Seq<char>,
) -> Seq<char>
    decreases es.len(),
{
    if es.len() == 0 {
        Seq::<char>::empty()
    } else if contributions_to(es.drop_last(), t).len() > 0 {
        first_contributor(es.drop_last(), t)
    } else if es.last().1 == t {
        es.last().0
    } else {
        Seq::<char>::empty()
    }
}

/// An enum group has an aggregate exactly when something contributed to it;
/// the aggregate then holds exactly the contributions that targeted the
/// group, in contribution order, and its representative extension is the
/// first contributor encountered.
pub proof fn lemma_aggregate_contents(
    es: Seq<(Seq<char>, Seq<char>, EnumerantView)>,
    t: Seq<char>,
)
    ensures
        aggregate(es).contains_key(t) <==> contributions_to(es, t).len() > 0,
        aggregate(es).contains_key(t) ==> aggregate(es)[t].enums == contributions_to(es, t),
        aggregate(es).contains_key(t) ==> aggregate(es)[t].extension == first_contributor(es, t),
    decreases es.len(),
{
    if es.len() > 0 {
        lemma_aggregate_contents(es.drop_last(), t);
        let m = aggregate(es.drop_last());
        let last = es.last();
        if last.1 == t && !m.contains_key(t) {
            assert(contributions_to(es, t) =~= seq![last.2]);
        }
    }
}

/// Two well-formed contexts that hold the same indexed contents present
/// every index and every aggregate in identical iteration order, however the
/// source tree ordered the nodes that produced them.
pub proof fn lemma_context_iteration_deterministic(a: &Context, b: &Context)
    requires
        a.wf(),
        b.wf(),
        a.tags@ == b.tags@,
        a.extension_by_name@ == b.extension_by_name@,
        a.type_by_name@ == b.type_by_name@,
        a.enums_by_name@ == b.enums_by_name@,
        a.extension_enums@ == b.extension_enums@,
    ensures
        a.tags.names.key_seq() == b.tags.names.key_seq(),
        a.extension_by_name.key_seq() == b.extension_by_name.key_seq(),
        a.extension_by_name.val_seq() == b.extension_by_name.val_seq(),
        a.type_by_name.key_seq() == b.type_by_name.key_seq(),
        a.type_by_name.val_seq() == b.type_by_name.val_seq(),
        a.enums_by_name.key_seq() == b.enums_by_name.key_seq(),
        a.enums_by_name.val_seq() == b.enums_by_name.val_seq(),
        a.extension_enums.key_seq() == b.extension_enums.key_seq(),
        a.extension_enums.val_seq() == b.extension_enums.val_seq(),
{
    assert(a.tags.names@ =~= b.tags.names@);
    lemma_iteration_deterministic(&a.tags.names, &b.tags.names);
    lemma_iteration_deterministic(&a.extension_by_name, &b.extension_by_name);
    lemma_iteration_deterministic(&a.type_by_name, &b.type_by_name);
    lemma_iteration_deterministic(&a.enums_by_name, &b.enums_by_name);
    lemma_iteration_deterministic(&a.extension_enums, &b.extension_enums);
}

/// Aggregation is deterministic: extension indices holding the same
/// extensions yield the same aggregates, entry for entry, whatever order
/// built the indices.
pub proof fn lemma_aggregation_deterministic(a: &StrMap<Extension>, b: &StrMap<Extension>)
    requires
        a.wf(),
        b.wf(),
        a@ == b@,
    ensures
        aggregate(all_contribs(a.key_seq(), a.val_seq())) == aggregate(
            all_contribs(b.key_seq(), b.val_seq()),
        ),
{
    lemma_iteration_deterministic(a, b);
}

/// Two top-level declarations under distinct names may stand in the source
/// tree in either order: indexing them gives the same contents, and the
/// canonical iteration order then hides their physical order entirely.
pub proof fn lemma_distinct_inserts_commute<V>(
    m: Map<Seq<char>, V>,
    k1: Seq<char>,
    v1: V,
    k2: Seq<char>,
    v2: V,
)
    requires
        k1 != k2,
    ensures
        m.insert(k1, v1).insert(k2, v2) == m.insert(k2, v2).insert(k1, v1),
{
    assert(m.insert(k1, v1).insert(k2, v2) =~= m.insert(k2, v2).insert(k1, v1));
}

/// Two enum groups under different names may stand in either physical order
/// among the top-level children: the group index built from the tree is the
/// same, so, by the canonical iteration order, nothing downstream can tell
/// the orders apart.
pub proof fn lemma_group_order_irrelevant(
    pre: Seq<RegistryChildView>,
    g1: EnumGroupView,
    g2: EnumGroupView,
    suf: Seq<RegistryChildView>,
)
    requires
        g1.name is Some,
        g2.name is Some,
        g1.name != g2.name,
    ensures
        groups_of(
            pre.push(RegistryChildView::Enums(g1)).push(RegistryChildView::Enums(g2)) + suf,
        ) == groups_of(
            pre.push(RegistryChildView::Enums(g2)).push(RegistryChildView::Enums(g1)) + suf,
        ),
    decreases suf.len(),
{
    let a = pre.push(RegistryChildView::Enums(g1)).push(RegistryChildView::Enums(g2));
    let b = pre.push(RegistryChildView::Enums(g2)).push(RegistryChildView::Enums(g1));
    if suf.len() == 0 {
        assert(a + suf =~= a);
        assert(b + suf =~= b);
        assert(a.drop_last() =~= pre.push(RegistryChildView::Enums(g1)));
        assert(a.drop_last().drop_last() =~= pre);
        assert(b.drop_last() =~= pre.push(RegistryChildView::Enums(g2)));
        assert(b.drop_last().drop_last() =~= pre);
        let n1 = g1.name.unwrap();
        let n2 = g2.name.unwrap();
        assert(groups_of(a) == groups_of(a.drop_last()).insert(n2, g2));
        assert(groups_of(a.drop_last()) == groups_of(pre).insert(n1, g1));
        assert(groups_of(b) == groups_of(b.drop_last()).insert(n1, g1));
        assert(groups_of(b.drop_last()) == groups_of(pre).insert(n2, g2));
        lemma_distinct_inserts_commute(groups_of(pre), n1, g1, n2, g2);
    } else {
        lemma_group_order_irrelevant(pre, g1, g2, suf.drop_last());
        assert((a + suf).drop_last() =~= a + suf.drop_last());
        assert((b + suf).drop_last() =~= b + suf.drop_last());
        assert((a + suf).last() == suf.last());
        assert((b + suf).last() == suf.last());
    }
}

} // verus!
