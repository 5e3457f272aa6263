//! What holds of the ontology across its operations: which definitions are taken, and what
//! they change.
use crate::error::ControlPlaneError;
use crate::memory::ControlPlaneView;
use crate::ontology::{
    action_defined, action_deleted, derived_over, index_defined, index_list, link_defined,
    link_deleted, link_target, link_targets, property_named, type_defined, OntologyView,
};
use crate::text::starts_with;
use crate::types::{
    ActionDef, DerivedDef, LineageEvent, LinkDef, ObjectType, PropertyDef, VectorIndexDef,
};
use crate::vecs::filtered;
use vstd::prelude::*;

verus! {

/// A selection holds the items that satisfy its condition, in their order.
pub proof fn law_selection_is_a_filter<T>(s: Seq<T>, p: spec_fn(T) -> bool)
    ensures
        filtered(s, p) == s.filter(p),
    decreases s.len(),
{
    reveal(Seq::filter);
    if s.len() > 0 {
        law_selection_is_a_filter(s.drop_last(), p);
    } else {
        assert(s.filter(p) =~= s);
    }
}

/// A type is defined under its name where its constraints and its derived properties are in
/// order and, where its table changes, the triggers that it would bind are; an event is
/// recorded exactly where its table changes. Otherwise nothing changes. A type of the same
/// name with the same table needs no verdict on triggers.
pub proof fn law_type_is_kept_under_its_name(
    pre: ControlPlaneView,
    post: ControlPlaneView,
    ty: ObjectType,
    constraints: Result<(), ControlPlaneError>,
    triggers: Result<(), ControlPlaneError>,
    derived: Result<(), ControlPlaneError>,
    event: LineageEvent,
    r: Result<(), ControlPlaneError>,
    other: Seq<char>,
)
    requires
        type_defined(pre, post, ty, constraints, triggers, derived, event, r),
    ensures
        ({
            let same_table = pre.ontology.types.dom().contains(ty.name@)
                && pre.ontology.types[ty.name@].table@ == ty.table@;
            &&& r is Ok <==> constraints is Ok && derived is Ok && (same_table || triggers is Ok)
            &&& constraints is Err ==> r == constraints
            &&& constraints is Ok && !same_table && triggers is Err ==> r == triggers
            &&& r is Ok && same_table ==> post.events == pre.events
            &&& r is Ok && !same_table ==> post.events == pre.events.push(event)
        }),
        r is Err ==> post == pre,
        r is Ok ==> post.ontology.types.dom().contains(ty.name@) && post.ontology.types[ty.name@] == ty,
        other != ty.name@ ==> post.ontology.types.dom().contains(other)
            == pre.ontology.types.dom().contains(other) && post.ontology.types[other]
            == pre.ontology.types[other],
        post.ontology == (OntologyView { types: post.ontology.types, ..pre.ontology }),
        post == (ControlPlaneView { ontology: post.ontology, events: post.events, ..pre }),
{
}

/// A link is defined between types that are both there. It stands behind the others, and
/// takes the place of the one of its name from the same type, and of no other.
pub proof fn law_link_joins_known_types(
    pre: ControlPlaneView,
    post: ControlPlaneView,
    link: LinkDef,
    r: Result<(), ControlPlaneError>,
)
    requires
        link_defined(pre, post, link, r),
    ensures
        r is Ok <==> pre.ontology.types.dom().contains(link.from@) && pre.ontology.types.dom().contains(
            link.to@,
        ),
        r is Err ==> post == pre && (r->Err_0)@ is NotFound,
        r is Ok ==> post.ontology.links == links_without(
            pre.ontology.links,
            link.from@,
            link.name@,
        ).push(link),
        post.ontology == (OntologyView { links: post.ontology.links, ..pre.ontology }),
        post == (ControlPlaneView { ontology: post.ontology, ..pre }),
{
    lemma_other_links(pre.ontology.links, link.from@, link.name@);
}

/// The links without the one of this name from this type, in their order.
pub open spec fn links_without(links: Seq<LinkDef>, from: Seq<char>, name: Seq<char>) -> Seq<LinkDef> {
    links.filter(|l: LinkDef| l.name@ != name || l.from@ != from)
}

proof fn lemma_other_links(links: Seq<LinkDef>, from: Seq<char>, name: Seq<char>)
    ensures
        crate::ontology::other_links(links, from, name) == links_without(links, from, name),
    decreases links.len(),
{
    reveal(Seq::filter);
    if links.len() > 0 {
        lemma_other_links(links.drop_last(), from, name);
        assert(links_without(links, from, name) == if links.last().name@ != name || links.last().from@
            != from {
            links_without(links.drop_last(), from, name).push(links.last())
        } else {
            links_without(links.drop_last(), from, name)
        });
    } else {
        assert(links_without(links, from, name) =~= links);
    }
}

/// A link is deleted where no derived property of its type is over it, and refused as a
/// conflict where one is; every other link stays.
pub proof fn law_link_in_use_is_not_deleted(
    pre: ControlPlaneView,
    post: ControlPlaneView,
    from: Seq<char>,
    name: Seq<char>,
    r: Result<(), ControlPlaneError>,
)
    requires
        link_deleted(pre, post, from, name, r),
    ensures
        r is Err <==> pre.ontology.types.dom().contains(from) && exists|i: int|
            0 <= i < pre.ontology.types[from].derived@.len() && (
            #[trigger] pre.ontology.types[from].derived@[i]).link@ == name,
        r is Err ==> post == pre && (r->Err_0)@ is Conflict,
        r is Ok ==> post.ontology.links == links_without(pre.ontology.links, from, name),
        post.ontology == (OntologyView { links: post.ontology.links, ..pre.ontology }),
        post == (ControlPlaneView { ontology: post.ontology, ..pre }),
{
    lemma_other_links(pre.ontology.links, from, name);
    if pre.ontology.types.dom().contains(from) {
        let derived = pre.ontology.types[from].derived@;
        lemma_over(derived, name);
        if exists|i: int| 0 <= i < derived.len() && (#[trigger] derived[i]).link@ == name {
            let i = choose|i: int| 0 <= i < derived.len() && (#[trigger] derived[i]).link@ == name;
            crate::ontology::law_referenced_link_stays(pre.ontology, from, name, i);
        }
    }
}

proof fn lemma_over(derived: Seq<DerivedDef>, name: Seq<char>)
    ensures
        derived_over(derived, name).len() > 0 ==> exists|i: int|
            0 <= i < derived.len() && (#[trigger] derived[i]).link@ == name,
    decreases derived.len(),
{
    if derived.len() > 0 {
        if derived.last().link@ == name {
            assert(derived[derived.len() - 1].link@ == name);
        } else if derived_over(derived, name).len() > 0 {
            let before = derived.drop_last();
            lemma_over(before, name);
            let i = choose|i: int| 0 <= i < before.len() && (#[trigger] before[i]).link@ == name;
            assert(derived[i].link@ == name);
        }
    }
}

/// The derived properties over a link are those that name it, in their order.
pub proof fn law_derived_over_a_link(derived: Seq<DerivedDef>, name: Seq<char>)
    ensures
        derived_over(derived, name) == derived.filter(|d: DerivedDef| d.link@ == name).map_values(
            |d: DerivedDef| d.name@,
        ),
    decreases derived.len(),
{
    let over = |d: DerivedDef| d.link@ == name;
    let title = |d: DerivedDef| d.name@;
    reveal(Seq::filter);
    if derived.len() > 0 {
        law_derived_over_a_link(derived.drop_last(), name);
        let before = derived.drop_last().filter(over);
        if over(derived.last()) {
            assert(before.push(derived.last()).map_values(title) =~= before.map_values(title).push(
                derived.last().name@,
            ));
        }
    } else {
        assert(derived.filter(over).map_values(title) =~= Seq::empty());
    }
}

/// An action is defined under its name where it has steps and the first of them has a type
/// that is there; otherwise nothing changes.
pub proof fn law_action_needs_a_known_target(
    pre: ControlPlaneView,
    post: ControlPlaneView,
    action: ActionDef,
    r: Result<(), ControlPlaneError>,
    other: Seq<char>,
)
    requires
        action_defined(pre, post, action, r),
    ensures
        r is Ok <==> action.steps@.len() > 0 && pre.ontology.types.dom().contains(
            action.steps@[0].target@,
        ),
        r is Err ==> post == pre && (r->Err_0)@ is Validation,
        r is Ok ==> post.ontology.actions.dom().contains(action.name@) && post.ontology.actions[action.name@]
            == action,
        other != action.name@ ==> post.ontology.actions.dom().contains(other)
            == pre.ontology.actions.dom().contains(other) && post.ontology.actions[other]
            == pre.ontology.actions[other],
        post.ontology == (OntologyView { actions: post.ontology.actions, ..pre.ontology }),
        post == (ControlPlaneView { ontology: post.ontology, ..pre }),
{
}

/// An action that is deleted is gone, and no other is.
pub proof fn law_deleted_action_is_gone(
    pre: ControlPlaneView,
    post: ControlPlaneView,
    name: Seq<char>,
    other: Seq<char>,
)
    requires
        action_deleted(pre, post, name),
    ensures
        !post.ontology.actions.dom().contains(name),
        other != name ==> post.ontology.actions.dom().contains(other)
            == pre.ontology.actions.dom().contains(other) && post.ontology.actions[other]
            == pre.ontology.actions[other],
        post.ontology == (OntologyView { actions: post.ontology.actions, ..pre.ontology }),
        post == (ControlPlaneView { ontology: post.ontology, ..pre }),
{
}

/// A vector index is defined over a property of a type that is there, the first of its
/// name, where that property is of a vector type; it is kept under the type and its own
/// name.
pub proof fn law_index_needs_a_vector_property(
    pre: ControlPlaneView,
    post: ControlPlaneView,
    def: VectorIndexDef,
    r: Result<(), ControlPlaneError>,
    p: int,
    other: (Seq<char>, Seq<char>),
)
    requires
        index_defined(pre, post, def, r),
    ensures
        !pre.ontology.types.dom().contains(def.on_type@) ==> r is Err && (r->Err_0)@ is NotFound,
        pre.ontology.types.dom().contains(def.on_type@) && first_named(
            pre.ontology.types[def.on_type@].properties@,
            def.property@,
            p,
        ) ==> (r is Ok <==> starts_with(
            pre.ontology.types[def.on_type@].properties@[p].ty@,
            "vector("@,
        )),
        pre.ontology.types.dom().contains(def.on_type@) && (forall|i: int|
            0 <= i < pre.ontology.types[def.on_type@].properties@.len() ==> (
            #[trigger] pre.ontology.types[def.on_type@].properties@[i]).name@ != def.property@)
            ==> r is Err && (r->Err_0)@ is Validation,
        r is Err ==> post == pre,
        r is Ok ==> post.ontology.vector_indexes.dom().contains((def.on_type@, def.name@))
            && post.ontology.vector_indexes[(def.on_type@, def.name@)] == def,
        other != (def.on_type@, def.name@) ==> post.ontology.vector_indexes.dom().contains(other)
            == pre.ontology.vector_indexes.dom().contains(other) && post.ontology.vector_indexes[other]
            == pre.ontology.vector_indexes[other],
        post.ontology == (OntologyView { vector_indexes: post.ontology.vector_indexes, ..pre.ontology }),
        post == (ControlPlaneView { ontology: post.ontology, ..pre }),
{
    if pre.ontology.types.dom().contains(def.on_type@) {
        let properties = pre.ontology.types[def.on_type@].properties@;
        lemma_property_named(properties, def.property@);
        if first_named(properties, def.property@, p) {
            lemma_first_property(properties, def.property@, p);
        }
    }
}

/// The place of the first property of this name.
pub open spec fn first_named(properties: Seq<PropertyDef>, name: Seq<char>, p: int) -> bool {
    &&& 0 <= p < properties.len()
    &&& properties[p].name@ == name
    &&& forall|i: int| 0 <= i < p ==> (#[trigger] properties[i]).name@ != name
}

proof fn lemma_first_property(properties: Seq<PropertyDef>, name: Seq<char>, p: int)
    requires
        first_named(properties, name, p),
    ensures
        property_named(properties, name) == Some(properties[p]),
    decreases p,
{
    if p > 0 {
        let rest = properties.skip(1);
        assert(properties[0].name@ != name);
        assert forall|i: int| 0 <= i < p - 1 implies (#[trigger] rest[i]).name@ != name by {
            assert(properties[i + 1].name@ != name);
        }
        lemma_first_property(rest, name, p - 1);
    }
}

proof fn lemma_property_named(properties: Seq<PropertyDef>, name: Seq<char>)
    ensures
        property_named(properties, name) is Some ==> exists|i: int|
            0 <= i < properties.len() && (#[trigger] properties[i]).name@ == name,
    decreases properties.len(),
{
    if properties.len() > 0 {
        if properties[0].name@ != name {
            lemma_property_named(properties.skip(1), name);
            if property_named(properties, name) is Some {
                let i = choose|i: int|
                    0 <= i < properties.skip(1).len() && (#[trigger] properties.skip(1)[i]).name@ == name;
                assert(properties[i + 1].name@ == name);
            }
        } else {
            assert(properties[0].name@ == name);
        }
    }
}

/// The targets of a type's links are, for each link from the type that leads to a type,
/// its name and that type: the type itself as it would be, where the link leads back to it,
/// and otherwise the type as it is defined.
pub proof fn law_links_lead_to_types(v: OntologyView, ty: ObjectType, links: Seq<LinkDef>, l: LinkDef)
    ensures
        l.from@ != ty.name@ ==> link_targets(v, ty, links.push(l)) == link_targets(v, ty, links),
        l.from@ == ty.name@ && l.to@ == ty.name@ ==> link_targets(v, ty, links.push(l)) == link_targets(
            v,
            ty,
            links,
        ).push((l.name, ty)),
        l.from@ == ty.name@ && l.to@ != ty.name@ && v.types.dom().contains(l.to@) ==> link_targets(
            v,
            ty,
            links.push(l),
        ) == link_targets(v, ty, links).push((l.name, v.types[l.to@])),
        l.from@ == ty.name@ && l.to@ != ty.name@ && !v.types.dom().contains(l.to@) ==> link_targets(
            v,
            ty,
            links.push(l),
        ) == link_targets(v, ty, links),
        link_targets(v, ty, Seq::empty()).len() == 0,
{
    assert(links.push(l).drop_last() =~= links);
    assert(link_target(v, ty, l) == link_target(v, ty, links.push(l).last()));
}

/// The vector indexes of a type are those on it, in their order.
pub proof fn law_indexes_of_a_type(entries: Seq<((String, String), VectorIndexDef)>, on_type: Seq<char>)
    ensures
        index_list(entries, on_type) == entries.filter(
            |e: ((String, String), VectorIndexDef)| e.1.on_type@ == on_type,
        ).map_values(|e: ((String, String), VectorIndexDef)| e.1),
    decreases entries.len(),
{
    let on = |e: ((String, String), VectorIndexDef)| e.1.on_type@ == on_type;
    let def = |e: ((String, String), VectorIndexDef)| e.1;
    reveal(Seq::filter);
    if entries.len() > 0 {
        law_indexes_of_a_type(entries.drop_last(), on_type);
        let before = entries.drop_last().filter(on);
        if on(entries.last()) {
            assert(before.push(entries.last()).map_values(def) =~= before.map_values(def).push(
                entries.last().1,
            ));
        }
    } else {
        assert(entries.filter(on).map_values(def) =~= Seq::empty());
    }
}

} // verus!
