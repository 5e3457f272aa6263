//! The ontology: types over tables, links, actions and vector indexes.
use crate::error::{outcome, ControlPlaneError, Fault};
use crate::key::{str_same, Key};
use crate::memory::{ControlPlaneView, MemoryControlPlane};
use crate::ordered::{entries_map, sorted_entries, OrderedMap};
use crate::text::{begins_with, concat, concat3, concat4, concat5, join, joined, starts_with, texts};
use crate::types::{
    ActionDef, DerivedDef, LinkDef, LineageEvent, ObjectType, PropertyDef, TableRef, VectorIndexDef,
};
use crate::vecs::{filtered, pointed, retain, select};
use vstd::prelude::*;

verus! {

/// What the ontology holds.
#[verifier::ext_equal]
pub struct OntologyView {
    pub types: Map<Seq<char>, ObjectType>,
    pub links: Seq<LinkDef>,
    pub actions: Map<Seq<char>, ActionDef>,
    pub vector_indexes: Map<(Seq<char>, Seq<char>), VectorIndexDef>,
}

/// The state of the ontology.
pub struct OntologyState {
    pub types: OrderedMap<String, ObjectType>,
    pub links: Vec<LinkDef>,
    pub actions: OrderedMap<String, ActionDef>,
    pub vector_indexes: OrderedMap<(String, String), VectorIndexDef>,
}

impl View for OntologyState {
    type V = OntologyView;

    open spec fn view(&self) -> OntologyView {
        OntologyView {
            types: self.types@,
            links: self.links@,
            actions: self.actions@,
            vector_indexes: self.vector_indexes@,
        }
    }
}

impl OntologyState {
    pub open spec fn wf(&self) -> bool {
        self.types.wf() && self.actions.wf() && self.vector_indexes.wf()
    }

    /// An ontology without definitions.
    pub fn new() -> (r: Self)
        ensures
            r.wf(),
            r@ == (OntologyView {
                types: Map::empty(),
                links: Seq::empty(),
                actions: Map::empty(),
                vector_indexes: Map::empty(),
            }),
    {
        OntologyState {
            types: OrderedMap::new(),
            links: Vec::new(),
            actions: OrderedMap::new(),
            vector_indexes: OrderedMap::new(),
        }
    }
}


impl OntologyView {
    /// The type is new, or its table is not the one it had.
    pub open spec fn rebinds(self, ty: ObjectType) -> bool {
        !self.types.dom().contains(ty.name@) || self.types[ty.name@].table@ != ty.table@
    }

    /// The names of the derived properties of the type `from` over the link `name`.
    pub open spec fn referencing(self, from: Seq<char>, name: Seq<char>) -> Seq<Seq<char>> {
        if self.types.dom().contains(from) {
            derived_over(self.types[from].derived@, name)
        } else {
            Seq::empty()
        }
    }

    /// Why the vector index cannot be defined.
    pub open spec fn index_fault(self, def: VectorIndexDef) -> Option<Fault> {
        if !self.types.dom().contains(def.on_type@) {
            Some(Fault::NotFound(def.on_type@))
        } else {
            match property_named(self.types[def.on_type@].properties@, def.property@) {
                None => Some(
                    Fault::Validation(
                        "type `"@ + def.on_type@ + "` has no property `"@ + def.property@ + "`"@,
                    ),
                ),
                Some(p) => if starts_with(p.ty@, "vector("@) {
                    None
                } else {
                    Some(
                        Fault::Validation(
                            "property `"@ + def.property@ + "` on type `"@ + def.on_type@
                                + "` is not a vector type"@,
                        ),
                    )
                },
            }
        }
    }
}

/// The names of the derived properties over the link `name`, in their order.
pub open spec fn derived_over(derived: Seq<DerivedDef>, name: Seq<char>) -> Seq<Seq<char>>
    decreases derived.len(),
{
    if derived.len() == 0 {
        Seq::empty()
    } else if derived.last().link@ == name {
        derived_over(derived.drop_last(), name).push(derived.last().name@)
    } else {
        derived_over(derived.drop_last(), name)
    }
}

/// The first property of this name.
pub open spec fn property_named(properties: Seq<PropertyDef>, name: Seq<char>) -> Option<PropertyDef>
    decreases properties.len(),
{
    if properties.len() == 0 {
        None
    } else if properties[0].name@ == name {
        Some(properties[0])
    } else {
        property_named(properties.skip(1), name)
    }
}

/// The verdict on a type definition: that on its constraints, then, where its
/// table changes, that on the triggers it would bind, then that on its derived
/// properties.
pub open spec fn type_verdict(
    rebinds: bool,
    constraints: Result<(), ControlPlaneError>,
    triggers: Result<(), ControlPlaneError>,
    derived: Result<(), ControlPlaneError>,
) -> Result<(), ControlPlaneError> {
    if constraints is Err {
        constraints
    } else if rebinds && triggers is Err {
        triggers
    } else {
        derived
    }
}

/// The type that a link of `ty` leads to: `ty` as it would be, or a type that is
/// defined.
pub open spec fn link_target(v: OntologyView, ty: ObjectType, l: LinkDef) -> Option<ObjectType> {
    if l.to@ == ty.name@ {
        Some(ty)
    } else if v.types.dom().contains(l.to@) {
        Some(v.types[l.to@])
    } else {
        None
    }
}

/// The links of `ty` that lead to a type, with the type they lead to.
pub open spec fn link_targets(v: OntologyView, ty: ObjectType, links: Seq<LinkDef>) -> Seq<
    (String, ObjectType),
>
    decreases links.len(),
{
    if links.len() == 0 {
        Seq::empty()
    } else {
        let before = link_targets(v, ty, links.drop_last());
        let l = links.last();
        if l.from@ == ty.name@ && link_target(v, ty, l) is Some {
            before.push((l.name, link_target(v, ty, l)->0))
        } else {
            before
        }
    }
}

/// The links other than `name` from `from`.
pub open spec fn other_links(links: Seq<LinkDef>, from: Seq<char>, name: Seq<char>) -> Seq<LinkDef> {
    filtered(links, |l: LinkDef| !(l.name@ == name && l.from@ == from))
}

/// What references to links and types point at.
pub open spec fn pointed_targets(s: Seq<(&String, &ObjectType)>) -> Seq<(String, ObjectType)> {
    Seq::new(s.len(), |i: int| (*s[i].0, *s[i].1))
}

/// What defining a type does and gives, with the verdicts on its parts.
pub open spec fn type_defined(
    pre: ControlPlaneView,
    post: ControlPlaneView,
    ty: ObjectType,
    constraints: Result<(), ControlPlaneError>,
    triggers: Result<(), ControlPlaneError>,
    derived: Result<(), ControlPlaneError>,
    event: LineageEvent,
    r: Result<(), ControlPlaneError>,
) -> bool {
    &&& r == type_verdict(pre.ontology.rebinds(ty), constraints, triggers, derived)
    &&& r is Err ==> post == pre
    &&& r is Ok ==> post == (ControlPlaneView {
        ontology: OntologyView { types: pre.ontology.types.insert(ty.name@, ty), ..pre.ontology },
        events: if pre.ontology.rebinds(ty) {
            pre.events.push(event)
        } else {
            pre.events
        },
        ..pre
    })
}

/// What defining a link does and gives.
pub open spec fn link_defined(
    pre: ControlPlaneView,
    post: ControlPlaneView,
    link: LinkDef,
    r: Result<(), ControlPlaneError>,
) -> bool {
    &&& outcome(r) == (if !pre.ontology.types.dom().contains(link.from@) {
        Err(Fault::NotFound("type "@ + link.from@))
    } else if !pre.ontology.types.dom().contains(link.to@) {
        Err(Fault::NotFound("type "@ + link.to@))
    } else {
        Ok::<(), Fault>(())
    })
    &&& r is Err ==> post == pre
    &&& r is Ok ==> post == (ControlPlaneView {
        ontology: OntologyView {
            links: other_links(pre.ontology.links, link.from@, link.name@).push(link),
            ..pre.ontology
        },
        ..pre
    })
}

/// What deleting a link does and gives.
pub open spec fn link_deleted(
    pre: ControlPlaneView,
    post: ControlPlaneView,
    from: Seq<char>,
    name: Seq<char>,
    r: Result<(), ControlPlaneError>,
) -> bool {
    let refs = pre.ontology.referencing(from, name);
    if refs.len() > 0 {
        post == pre && outcome(r) == Err::<(), Fault>(
            Fault::Conflict(
                "link `"@ + name + "` is referenced by derived properties: "@ + joined(refs, ", "@),
            ),
        )
    } else {
        r is Ok && post == (ControlPlaneView {
            ontology: OntologyView {
                links: other_links(pre.ontology.links, from, name),
                ..pre.ontology
            },
            ..pre
        })
    }
}

/// What defining an action does and gives.
pub open spec fn action_defined(
    pre: ControlPlaneView,
    post: ControlPlaneView,
    action: ActionDef,
    r: Result<(), ControlPlaneError>,
) -> bool {
    &&& outcome(r) == (if action.steps@.len() == 0 {
        Err(Fault::Validation("action `"@ + action.name@ + "` has no steps"@))
    } else if !pre.ontology.types.dom().contains(action.steps@[0].target@) {
        Err(
            Fault::Validation(
                "action `"@ + action.name@ + "` references unknown target type `"@
                    + action.steps@[0].target@ + "`"@,
            ),
        )
    } else {
        Ok::<(), Fault>(())
    })
    &&& r is Err ==> post == pre
    &&& r is Ok ==> post == (ControlPlaneView {
        ontology: OntologyView {
            actions: pre.ontology.actions.insert(action.name@, action),
            ..pre.ontology
        },
        ..pre
    })
}

/// The action is gone.
pub open spec fn action_deleted(pre: ControlPlaneView, post: ControlPlaneView, name: Seq<char>) -> bool {
    post == ControlPlaneView {
        ontology: OntologyView { actions: pre.ontology.actions.remove(name), ..pre.ontology },
        ..pre
    }
}

/// What defining a vector index does and gives.
pub open spec fn index_defined(
    pre: ControlPlaneView,
    post: ControlPlaneView,
    def: VectorIndexDef,
    r: Result<(), ControlPlaneError>,
) -> bool {
    match pre.ontology.index_fault(def) {
        Some(f) => outcome(r) == Err::<(), Fault>(f) && post == pre,
        None => r is Ok && post == (ControlPlaneView {
            ontology: OntologyView {
                vector_indexes: pre.ontology.vector_indexes.insert((def.on_type@, def.name@), def),
                ..pre.ontology
            },
            ..pre
        }),
    }
}

impl MemoryControlPlane {
    /// Whether defining `ty` would bind its name to another table, or to a first.
    pub fn rebinds_type(&self, ty: &ObjectType) -> (r: bool)
        requires
            self.wf(),
        ensures
            r == self@.ontology.rebinds(*ty),
    {
        match self.ontology.types.get(&ty.name) {
            Some(prev) => !prev.table.same(&ty.table),
            None => true,
        }
    }

    /// The table that the type `name` would have once `ty` is defined.
    pub fn would_be_table<'a>(&'a self, ty: &'a ObjectType, name: &String) -> (r: Option<&'a TableRef>)
        requires
            self.wf(),
        ensures
            r is Some <==> name@ == ty.name@ || self@.ontology.types.dom().contains(name@),
            r matches Some(t) ==> *t == (if name@ == ty.name@ {
                ty.table
            } else {
                self@.ontology.types[name@].table
            }),
    {
        if name.same(&ty.name) {
            Some(&ty.table)
        } else {
            match self.ontology.types.get(name) {
                Some(t) => Some(&t.table),
                None => None,
            }
        }
    }

    /// The types that the links of `ty` lead to, `ty` itself as it would be.
    pub fn derived_targets<'a>(&'a self, ty: &'a ObjectType) -> (r: Vec<(&'a String, &'a ObjectType)>)
        requires
            self.wf(),
        ensures
            pointed_targets(r@) == link_targets(self@.ontology, *ty, self@.ontology.links),
    {
        let links: &'a Vec<LinkDef> = &self.ontology.links;
        let mut out: Vec<(&'a String, &'a ObjectType)> = Vec::new();
        assert(pointed_targets(out@) =~= Seq::empty());
        let mut i: usize = 0;
        while i < links.len()
            invariant
                self.wf(),
                *links == self.ontology.links,
                i <= links@.len(),
                pointed_targets(out@) == link_targets(
                    self@.ontology,
                    *ty,
                    links@.take(i as int),
                ),
            decreases links@.len() - i,
        {
            assert(links@.take(i + 1).drop_last() =~= links@.take(i as int));
            let l: &'a LinkDef = &links[i];
            let ghost before = out@;
            if str_same(l.from.as_str(), ty.name.as_str()) {
                let target: Option<&'a ObjectType> = if str_same(l.to.as_str(), ty.name.as_str()) {
                    Some(ty)
                } else {
                    self.ontology.types.get(&l.to)
                };
                match target {
                    Some(t) => {
                        out.push((&l.name, t));
                        assert(pointed_targets(out@) =~= pointed_targets(before).push(
                            (l.name, *t),
                        ));
                    },
                    None => {},
                }
            }
            i = i + 1;
        }
        assert(links@.take(i as int) =~= links@);
        out
    }

    /// Defines a type, in place of one of the same name. `constraints`, `triggers`
    /// and `derived` are the verdicts on its constraints, on the data triggers with
    /// its table, and on its derived properties. Where the type is bound to another
    /// table than before, `event` is recorded.
    pub fn define_type(
        &mut self,
        ty: ObjectType,
        constraints: Result<(), ControlPlaneError>,
        triggers: Result<(), ControlPlaneError>,
        derived: Result<(), ControlPlaneError>,
        event: LineageEvent,
    ) -> (r: Result<(), ControlPlaneError>)
        requires
            old(self).wf(),
        ensures
            final(self).wf(),
            r is Err ==> *final(self) == *old(self),
            type_defined(old(self)@, final(self)@, ty, constraints, triggers, derived, event, r),
    {
        match constraints {
            Err(e) => {
                return Err(e);
            },
            Ok(_) => {},
        }
        let changed: bool = self.rebinds_type(&ty);
        if changed {
            match triggers {
                Err(e) => {
                    return Err(e);
                },
                Ok(_) => {},
            }
        }
        let verdict: () = match derived {
            Err(e) => {
                return Err(e);
            },
            Ok(v) => v,
        };
        self.ontology.types.insert(ty.name.clone(), ty);
        if changed {
            self.events.push(event);
        }
        Ok(verdict)
    }

    /// Defines a link between two types, in place of one of the same name from the
    /// same type.
    pub fn define_link(&mut self, link: LinkDef) -> (r: Result<(), ControlPlaneError>)
        requires
            old(self).wf(),
        ensures
            final(self).wf(),
            r is Err ==> *final(self) == *old(self),
            link_defined(old(self)@, final(self)@, link, r),
    {
        if !self.ontology.types.contains(&link.from) {
            return Err(ControlPlaneError::NotFound(concat("type ", link.from.as_str())));
        }
        if !self.ontology.types.contains(&link.to) {
            return Err(ControlPlaneError::NotFound(concat("type ", link.to.as_str())));
        }
        let from: String = link.from.clone();
        let name: String = link.name.clone();
        retain(
            &mut self.ontology.links,
            (|l: &LinkDef| -> (keep: bool)
                ensures
                    keep == !(l.name@ == name@ && l.from@ == from@),
            {
                !(str_same(l.name.as_str(), name.as_str()) && str_same(
                    l.from.as_str(),
                    from.as_str(),
                ))
            }),
            Ghost(|l: LinkDef| !(l.name@ == link.name@ && l.from@ == link.from@)),
        );
        self.ontology.links.push(link);
        Ok(())
    }

    /// The derived properties of the type `from` over the link `name`.
    pub fn derived_properties_referencing(&self, from: &str, name: &str) -> (r: Vec<String>)
        requires
            self.wf(),
        ensures
            texts(r@) == self@.ontology.referencing(from@, name@),
    {
        let mut out: Vec<String> = Vec::new();
        assert(texts(out@) =~= Seq::empty());
        match self.ontology.types.get(&from.to_owned()) {
            Some(t) => {
                let mut i: usize = 0;
                while i < t.derived.len()
                    invariant
                        i <= t.derived@.len(),
                        texts(out@) == derived_over(t.derived@.take(i as int), name@),
                    decreases t.derived@.len() - i,
                {
                    assert(t.derived@.take(i + 1).drop_last() =~= t.derived@.take(i as int));
                    let ghost before = out@;
                    if str_same(t.derived[i].link.as_str(), name) {
                        out.push(t.derived[i].name.clone());
                        assert(texts(out@) =~= texts(before).push(t.derived@[i as int].name@));
                    }
                    i = i + 1;
                }
                assert(t.derived@.take(i as int) =~= t.derived@);
            },
            None => {},
        }
        out
    }

    /// Deletes a link that no derived property is over.
    pub fn delete_link(&mut self, from: &str, name: &str) -> (r: Result<(), ControlPlaneError>)
        requires
            old(self).wf(),
        ensures
            final(self).wf(),
            r is Err ==> *final(self) == *old(self),
            link_deleted(old(self)@, final(self)@, from@, name@, r),
    {
        let refs: Vec<String> = self.derived_properties_referencing(from, name);
        assert(texts(refs@).len() == refs@.len());
        if refs.len() > 0 {
            return Err(
                ControlPlaneError::Conflict(
                    concat4(
                        "link `",
                        name,
                        "` is referenced by derived properties: ",
                        join(&refs, ", ").as_str(),
                    ),
                ),
            );
        }
        retain(
            &mut self.ontology.links,
            (|l: &LinkDef| -> (keep: bool)
                ensures
                    keep == !(l.name@ == name@ && l.from@ == from@),
            {
                !(str_same(l.name.as_str(), name) && str_same(l.from.as_str(), from))
            }),
            Ghost(|l: LinkDef| !(l.name@ == name@ && l.from@ == from@)),
        );
        Ok(())
    }

    /// A type.
    pub fn get_type(&self, name: &str) -> (r: Result<&ObjectType, ControlPlaneError>)
        requires
            self.wf(),
        ensures
            match r {
                Ok(t) => self@.ontology.types.dom().contains(name@) && *t
                    == self@.ontology.types[name@],
                Err(e) => !self@.ontology.types.dom().contains(name@) && e@ == Fault::NotFound(name@),
            },
    {
        match self.ontology.types.get(&name.to_owned()) {
            Some(t) => Ok(t),
            None => Err(ControlPlaneError::NotFound(name.to_owned())),
        }
    }

    /// The types, in order of their names.
    pub fn list_types(&self) -> (r: Vec<&ObjectType>)
        requires
            self.wf(),
        ensures
            r@.len() == self.ontology.types.entries@.len(),
            forall|i: int| 0 <= i < r@.len() ==> *(#[trigger] r@[i]) == self.ontology.types.entries@[i].1,
            sorted_entries(self.ontology.types.entries@),
            entries_map(self.ontology.types.entries@) == self@.ontology.types,
    {
        crate::ordered::values_of(&self.ontology.types)
    }

    /// The property names of a type, where it is defined.
    pub fn type_properties(&self, name: &str) -> (r: Option<Vec<String>>)
        requires
            self.wf(),
        ensures
            r is Some <==> self@.ontology.types.dom().contains(name@),
            r matches Some(list) ==> texts(list@) == Seq::new(
                self@.ontology.types[name@].properties@.len(),
                |i: int| self@.ontology.types[name@].properties@[i].name@,
            ),
    {
        match self.ontology.types.get(&name.to_owned()) {
            Some(t) => {
                let mut out: Vec<String> = Vec::new();
                let mut i: usize = 0;
                while i < t.properties.len()
                    invariant
                        i <= t.properties@.len(),
                        out@.len() == i,
                        forall|j: int| 0 <= j < i ==> #[trigger] out@[j]@ == t.properties@[j].name@,
                    decreases t.properties@.len() - i,
                {
                    out.push(t.properties[i].name.clone());
                    i = i + 1;
                }
                assert(texts(out@) =~= Seq::new(
                    t.properties@.len(),
                    |i: int| t.properties@[i].name@,
                ));
                Some(out)
            },
            None => None,
        }
    }

    /// The links from a type, in the order they were defined.
    pub fn links(&self, name: &str) -> (r: Result<Vec<&LinkDef>, ControlPlaneError>)
        requires
            self.wf(),
        ensures
            match r {
                Ok(list) => self@.ontology.types.dom().contains(name@) && pointed(list@) == filtered(
                    self@.ontology.links,
                    |l: LinkDef| l.from@ == name@,
                ),
                Err(e) => !self@.ontology.types.dom().contains(name@) && e@ == Fault::NotFound(name@),
            },
    {
        if !self.ontology.types.contains(&name.to_owned()) {
            return Err(ControlPlaneError::NotFound(name.to_owned()));
        }
        Ok(
            select(
                &self.ontology.links,
                (|l: &LinkDef| -> (keep: bool)
                    ensures
                        keep == (l.from@ == name@),
                {
                    str_same(l.from.as_str(), name)
                }),
                Ghost(|l: LinkDef| l.from@ == name@),
            ),
        )
    }

    /// The links to a type, in the order they were defined.
    pub fn links_to(&self, name: &str) -> (r: Result<Vec<&LinkDef>, ControlPlaneError>)
        requires
            self.wf(),
        ensures
            match r {
                Ok(list) => self@.ontology.types.dom().contains(name@) && pointed(list@) == filtered(
                    self@.ontology.links,
                    |l: LinkDef| l.to@ == name@,
                ),
                Err(e) => !self@.ontology.types.dom().contains(name@) && e@ == Fault::NotFound(name@),
            },
    {
        if !self.ontology.types.contains(&name.to_owned()) {
            return Err(ControlPlaneError::NotFound(name.to_owned()));
        }
        Ok(
            select(
                &self.ontology.links,
                (|l: &LinkDef| -> (keep: bool)
                    ensures
                        keep == (l.to@ == name@),
                {
                    str_same(l.to.as_str(), name)
                }),
                Ghost(|l: LinkDef| l.to@ == name@),
            ),
        )
    }

    /// The table of a type.
    pub fn resolve(&self, name: &str) -> (r: Result<&TableRef, ControlPlaneError>)
        requires
            self.wf(),
        ensures
            match r {
                Ok(t) => self@.ontology.types.dom().contains(name@) && *t
                    == self@.ontology.types[name@].table,
                Err(e) => !self@.ontology.types.dom().contains(name@) && e@ == Fault::NotFound(name@),
            },
    {
        match self.get_type(name) {
            Ok(t) => Ok(&t.table),
            Err(e) => Err(e),
        }
    }

    /// Defines an action, in place of one of the same name. Its first step must
    /// have a type for its target.
    pub fn define_action(&mut self, action: ActionDef) -> (r: Result<(), ControlPlaneError>)
        requires
            old(self).wf(),
        ensures
            final(self).wf(),
            r is Err ==> *final(self) == *old(self),
            action_defined(old(self)@, final(self)@, action, r),
    {
        if action.steps.len() == 0 {
            return Err(
                ControlPlaneError::Validation(
                    concat3("action `", action.name.as_str(), "` has no steps"),
                ),
            );
        }
        if !self.ontology.types.contains(&action.steps[0].target) {
            return Err(
                ControlPlaneError::Validation(
                    concat5(
                        "action `",
                        action.name.as_str(),
                        "` references unknown target type `",
                        action.steps[0].target.as_str(),
                        "`",
                    ),
                ),
            );
        }
        self.ontology.actions.insert(action.name.clone(), action);
        Ok(())
    }

    /// Deletes an action.
    pub fn delete_action(&mut self, name: &str)
        requires
            old(self).wf(),
        ensures
            final(self).wf(),
            action_deleted(old(self)@, final(self)@, name@),
    {
        let _gone: Option<ActionDef> = self.ontology.actions.remove(&name.to_owned());
    }

    /// An action.
    pub fn get_action(&self, name: &str) -> (r: Result<&ActionDef, ControlPlaneError>)
        requires
            self.wf(),
        ensures
            match r {
                Ok(a) => self@.ontology.actions.dom().contains(name@) && *a
                    == self@.ontology.actions[name@],
                Err(e) => !self@.ontology.actions.dom().contains(name@) && e@ == Fault::NotFound(
                    name@,
                ),
            },
    {
        match self.ontology.actions.get(&name.to_owned()) {
            Some(a) => Ok(a),
            None => Err(ControlPlaneError::NotFound(name.to_owned())),
        }
    }

    /// The actions, in order of their names.
    pub fn list_actions(&self) -> (r: Vec<&ActionDef>)
        requires
            self.wf(),
        ensures
            r@.len() == self.ontology.actions.entries@.len(),
            forall|i: int|
                0 <= i < r@.len() ==> *(#[trigger] r@[i]) == self.ontology.actions.entries@[i].1,
            sorted_entries(self.ontology.actions.entries@),
            entries_map(self.ontology.actions.entries@) == self@.ontology.actions,
    {
        crate::ordered::values_of(&self.ontology.actions)
    }

    /// Defines a vector index over a vector property of a type, in place of one of
    /// the same name on that type.
    pub fn define_vector_index(&mut self, def: VectorIndexDef) -> (r: Result<(), ControlPlaneError>)
        requires
            old(self).wf(),
        ensures
            final(self).wf(),
            r is Err ==> *final(self) == *old(self),
            index_defined(old(self)@, final(self)@, def, r),
    {
        match self.ontology.types.get(&def.on_type) {
            None => {
                return Err(ControlPlaneError::NotFound(def.on_type.clone()));
            },
            Some(ty) => {
                match find_property(&ty.properties, def.property.as_str()) {
                    None => {
                        return Err(
                            ControlPlaneError::Validation(
                                concat5(
                                    "type `",
                                    def.on_type.as_str(),
                                    "` has no property `",
                                    def.property.as_str(),
                                    "`",
                                ),
                            ),
                        );
                    },
                    Some(p) => {
                        if !begins_with(p.ty.as_str(), "vector(") {
                            return Err(
                                ControlPlaneError::Validation(
                                    concat5(
                                        "property `",
                                        def.property.as_str(),
                                        "` on type `",
                                        def.on_type.as_str(),
                                        "` is not a vector type",
                                    ),
                                ),
                            );
                        }
                    },
                }
            },
        }
        self.ontology.vector_indexes.insert((def.on_type.clone(), def.name.clone()), def);
        Ok(())
    }

    /// A vector index of a type.
    pub fn get_vector_index(&self, on_type: &str, name: &str) -> (r: Option<&VectorIndexDef>)
        requires
            self.wf(),
        ensures
            r is Some <==> self@.ontology.vector_indexes.dom().contains((on_type@, name@)),
            r matches Some(d) ==> *d == self@.ontology.vector_indexes[(on_type@, name@)],
    {
        self.ontology.vector_indexes.get(&(on_type.to_owned(), name.to_owned()))
    }

    /// The vector indexes whose type is `on_type`.
    pub fn vector_indexes_for(&self, on_type: &str) -> (r: Vec<&VectorIndexDef>)
        requires
            self.wf(),
        ensures
            pointed(r@) == index_list(self.ontology.vector_indexes.entries@, on_type@),
    {
        let entries: &Vec<((String, String), VectorIndexDef)> = &self.ontology.vector_indexes.entries;
        let mut out: Vec<&VectorIndexDef> = Vec::new();
        assert(pointed(out@) =~= Seq::empty());
        let mut i: usize = 0;
        while i < entries.len()
            invariant
                i <= entries@.len(),
                pointed(out@) == index_list(entries@.take(i as int), on_type@),
            decreases entries@.len() - i,
        {
            assert(entries@.take(i + 1).drop_last() =~= entries@.take(i as int));
            let ghost before = out@;
            if str_same(entries[i].1.on_type.as_str(), on_type) {
                out.push(&entries[i].1);
                assert(pointed(out@) =~= pointed(before).push(entries@[i as int].1));
            }
            i = i + 1;
        }
        assert(entries@.take(i as int) =~= entries@);
        out
    }
}

/// The first property of this name.
fn find_property<'a>(properties: &'a Vec<PropertyDef>, name: &str) -> (r: Option<&'a PropertyDef>)
    ensures
        match property_named(properties@, name@) {
            Some(p) => r is Some && *(r->0) == p,
            None => r is None,
        },
{
    let mut i: usize = 0;
    assert(properties@.skip(0) =~= properties@);
    while i < properties.len()
        invariant
            i <= properties@.len(),
            property_named(properties@, name@) == property_named(
                properties@.skip(i as int),
                name@,
            ),
        decreases properties@.len() - i,
    {
        assert(properties@.skip(i as int)[0] == properties@[i as int]);
        assert(properties@.skip(i as int).skip(1) =~= properties@.skip(i + 1));
        if str_same(properties[i].name.as_str(), name) {
            return Some(&properties[i]);
        }
        i = i + 1;
    }
    None
}

/// The vector indexes on a type, in order of their names.
pub open spec fn index_list(
    entries: Seq<((String, String), VectorIndexDef)>,
    on_type: Seq<char>,
) -> Seq<VectorIndexDef>
    decreases entries.len(),
{
    if entries.len() == 0 {
        Seq::empty()
    } else if entries.last().1.on_type@ == on_type {
        index_list(entries.drop_last(), on_type).push(entries.last().1)
    } else {
        index_list(entries.drop_last(), on_type)
    }
}

/// A link that a derived property of its type is over stays.
pub proof fn law_referenced_link_stays(v: OntologyView, from: Seq<char>, name: Seq<char>, i: int)
    requires
        v.types.dom().contains(from),
        0 <= i < v.types[from].derived@.len(),
        v.types[from].derived@[i].link@ == name,
    ensures
        v.referencing(from, name).len() > 0,
{
    lemma_derived_over(v.types[from].derived@, name, i);
}

proof fn lemma_derived_over(derived: Seq<DerivedDef>, name: Seq<char>, i: int)
    requires
        0 <= i < derived.len(),
        derived[i].link@ == name,
    ensures
        derived_over(derived, name).len() > 0,
    decreases derived.len(),
{
    if i < derived.len() - 1 {
        lemma_derived_over(derived.drop_last(), name, i);
    }
}

} // verus!
