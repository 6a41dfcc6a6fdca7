//! What the catalog knows about one aggregate: its root, entities, sinks and read surfaces.

use vstd::prelude::*;

use crate::catalog::read_shape::{ReadShape, same_shape};
use crate::seqs::{
    first_match, lemma_first_match_is, lemma_first_match_none, optional_text_equal, text_of,
    text_of_str,
};
use crate::text::{owned, str_equal};

verus! {

/// The root relation of an aggregate. Every aggregate has exactly one.
#[derive(Debug)]
pub struct CodexRoot {
    pub relation: String,
    pub id_column: String,
}

#[derive(Debug)]
pub struct CodexEntity {
    pub name: String,
    pub display_name: String,
    pub relation: String,
    pub reference_column: String,
}

/// Current-state sink relation. `entity == None` means the root sink.
#[derive(Debug)]
pub struct CodexSink {
    pub relation: String,
    pub entity: Option<String>,
}

/// A declared read surface — a view Mason can query.
#[derive(Debug)]
pub struct CodexSurface {
    pub view: String,
    pub entity: Option<String>,
    pub shape: ReadShape,
}

/// Everything Codex knows about one aggregate.
#[derive(Debug)]
pub struct CodexAggregate {
    pub name: String,
    pub root: CodexRoot,
    pub entities: Vec<CodexEntity>,
    pub sinks: Vec<CodexSink>,
    pub surfaces: Vec<CodexSurface>,
}

/// `CodexRoot` with its strings read as characters.
pub struct RootView {
    pub relation: Seq<char>,
    pub id_column: Seq<char>,
}

/// `CodexEntity` with its strings read as characters.
pub struct EntityView {
    pub name: Seq<char>,
    pub display_name: Seq<char>,
    pub relation: Seq<char>,
    pub reference_column: Seq<char>,
}

/// `CodexSink` with its strings read as characters.
pub struct SinkView {
    pub relation: Seq<char>,
    pub entity: Option<Seq<char>>,
}

/// `CodexSurface` with its strings read as characters; the shape is
/// `(is_list, surface_name)`.
pub struct SurfaceView {
    pub view: Seq<char>,
    pub entity: Option<Seq<char>>,
    pub shape: (bool, Seq<char>),
}

/// `CodexAggregate` with its strings read as characters.
pub struct AggregateView {
    pub name: Seq<char>,
    pub root: RootView,
    pub entities: Seq<EntityView>,
    pub sinks: Seq<SinkView>,
    pub surfaces: Seq<SurfaceView>,
}

impl View for CodexRoot {
    type V = RootView;

    open spec fn view(&self) -> RootView {
        RootView { relation: self.relation@, id_column: self.id_column@ }
    }
}

impl View for CodexEntity {
    type V = EntityView;

    open spec fn view(&self) -> EntityView {
        EntityView {
            name: self.name@,
            display_name: self.display_name@,
            relation: self.relation@,
            reference_column: self.reference_column@,
        }
    }
}

impl View for CodexSink {
    type V = SinkView;

    open spec fn view(&self) -> SinkView {
        SinkView { relation: self.relation@, entity: text_of(self.entity) }
    }
}

/// "The entity is named `name`."
pub open spec fn entity_named(name: Seq<char>) -> spec_fn(CodexEntity) -> bool {
    |entity: CodexEntity| entity.name@ == name
}

/// The first entity of `aggregate` named `name`.
pub open spec fn entity_of(aggregate: CodexAggregate, name: Seq<char>) -> Option<CodexEntity> {
    at_position(aggregate.entities@, first_match(aggregate.entities@, entity_named(name)))
}

/// "The sink belongs to `entity` (`None`: the root)."
pub open spec fn sink_for(entity: Option<Seq<char>>) -> spec_fn(CodexSink) -> bool {
    |sink: CodexSink| text_of(sink.entity) == entity
}

/// The first sink of `aggregate` that belongs to `entity`.
pub open spec fn sink_of(aggregate: CodexAggregate, entity: Option<Seq<char>>) -> Option<CodexSink> {
    at_position(aggregate.sinks@, first_match(aggregate.sinks@, sink_for(entity)))
}

/// A read shape as `(is_list, surface_name)`.
pub open spec fn shape_parts(shape: ReadShape) -> (bool, Seq<char>) {
    match shape {
        ReadShape::List(name) => (true, name@),
        ReadShape::Detail(name) => (false, name@),
    }
}

impl View for CodexSurface {
    type V = SurfaceView;

    open spec fn view(&self) -> SurfaceView {
        SurfaceView { view: self.view@, entity: text_of(self.entity), shape: shape_parts(self.shape) }
    }
}

impl View for CodexAggregate {
    type V = AggregateView;

    open spec fn view(&self) -> AggregateView {
        AggregateView {
            name: self.name@,
            root: self.root@,
            entities: self.entities@.map_values(|entity: CodexEntity| entity@),
            sinks: self.sinks@.map_values(|sink: CodexSink| sink@),
            surfaces: self.surfaces@.map_values(|surface: CodexSurface| surface@),
        }
    }
}

/// The surface belongs to `entity` (`None`: the root) and has `shape`.
pub open spec fn surface_is(surface: CodexSurface, entity: Option<Seq<char>>, shape: ReadShape) -> bool {
    text_of(surface.entity) == entity && same_shape(surface.shape, shape)
}

/// Index of the first surface of `entity` with `shape`.
pub open spec fn surface_position(
    surfaces: Seq<CodexSurface>,
    entity: Option<Seq<char>>,
    shape: ReadShape,
) -> Option<int> {
    first_match(surfaces, |surface: CodexSurface| surface_is(surface, entity, shape))
}

/// The shape is the list surface named `name`.
pub open spec fn is_list_named(shape: ReadShape, name: Seq<char>) -> bool {
    match shape {
        ReadShape::List(surface_name) => surface_name@ == name,
        ReadShape::Detail(_) => false,
    }
}

/// The shape is the detail surface named `name`.
pub open spec fn is_detail_named(shape: ReadShape, name: Seq<char>) -> bool {
    match shape {
        ReadShape::Detail(surface_name) => surface_name@ == name,
        ReadShape::List(_) => false,
    }
}

/// The element of `items` at `position`, if there is a position.
pub open spec fn at_position<T>(items: Seq<T>, position: Option<int>) -> Option<T> {
    match position {
        Some(index) => Some(items[index]),
        None => None,
    }
}

/// A borrowed optional element, read as a value.
pub open spec fn deref_option<T>(found: Option<&T>) -> Option<T> {
    match found {
        Some(item) => Some(*item),
        None => None,
    }
}

impl CodexAggregate {
    /// The first surface of `entity` (`None`: the root) with the given shape.
    pub fn surface(&self, entity: Option<&str>, shape: &ReadShape) -> (found: Option<&CodexSurface>)
        ensures
            deref_option(found) == at_position(
                self.surfaces@,
                surface_position(self.surfaces@, text_of_str(entity), *shape),
            ),
    {
        let ghost wanted = |surface: CodexSurface| surface_is(surface, text_of_str(entity), *shape);
        let mut index: usize = 0;
        while index < self.surfaces.len()
            invariant
                0 <= index <= self.surfaces.len(),
                wanted == (|surface: CodexSurface| surface_is(surface, text_of_str(entity), *shape)),
                forall|j: int| 0 <= j < index ==> !wanted(#[trigger] self.surfaces@[j]),
            decreases self.surfaces.len() - index,
        {
            let candidate = &self.surfaces[index];
            if optional_text_equal(&candidate.entity, entity) && candidate.shape == *shape {
                proof {
                    lemma_first_match_is(self.surfaces@, wanted, index as int);
                }
                return Some(candidate);
            }
            index = index + 1;
        }
        proof {
            lemma_first_match_none(self.surfaces@, wanted);
        }
        None
    }

    /// The root's list surface named `surface_name`.
    pub fn list_surface(&self, surface_name: &str) -> (found: Option<&CodexSurface>)
        ensures
            deref_option(found) == at_position(
                self.surfaces@,
                first_match(
                    self.surfaces@,
                    |surface: CodexSurface|
                        surface.entity is None && is_list_named(surface.shape, surface_name@),
                ),
            ),
    {
        let shape = ReadShape::List(owned(surface_name));
        let found = self.surface(None, &shape);
        proof {
            assert((|surface: CodexSurface| surface_is(surface, None, shape)) =~= (|
                surface: CodexSurface,
            |
                surface.entity is None && is_list_named(surface.shape, surface_name@)));
        }
        found
    }

    /// The root's detail surface named `surface_name`, or else its list surface of that name.
    pub fn one_surface(&self, surface_name: &str) -> (found: Option<&CodexSurface>)
        ensures
            ({
                let detail = first_match(
                    self.surfaces@,
                    |surface: CodexSurface|
                        surface.entity is None && is_detail_named(surface.shape, surface_name@),
                );
                let list = first_match(
                    self.surfaces@,
                    |surface: CodexSurface|
                        surface.entity is None && is_list_named(surface.shape, surface_name@),
                );
                deref_option(found) == (if detail is Some {
                    at_position(self.surfaces@, detail)
                } else {
                    at_position(self.surfaces@, list)
                })
            }),
    {
        let detail = ReadShape::Detail(owned(surface_name));
        let by_detail = self.surface(None, &detail);
        proof {
            assert((|surface: CodexSurface| surface_is(surface, None, detail)) =~= (|
                surface: CodexSurface,
            |
                surface.entity is None && is_detail_named(surface.shape, surface_name@)));
        }
        match by_detail {
            Some(surface) => Some(surface),
            None => self.list_surface(surface_name),
        }
    }

    /// The list surface named `surface_name` of the entity `entity_name`.
    pub fn entity_list_surface(&self, entity_name: &str, surface_name: &str) -> (found: Option<
        &CodexSurface,
    >)
        ensures
            deref_option(found) == at_position(
                self.surfaces@,
                first_match(
                    self.surfaces@,
                    |surface: CodexSurface|
                        text_of(surface.entity) == Some(entity_name@) && is_list_named(surface.shape, surface_name@),
                ),
            ),
    {
        let shape = ReadShape::List(owned(surface_name));
        let found = self.surface(Some(entity_name), &shape);
        proof {
            assert((|surface: CodexSurface| surface_is(surface, Some(entity_name@), shape)) =~= (|
                surface: CodexSurface,
            |
                text_of(surface.entity) == Some(entity_name@) && is_list_named(surface.shape, surface_name@)));
        }
        found
    }

    /// The first entity named `name`.
    pub fn entity(&self, name: &str) -> (found: Option<&CodexEntity>)
        ensures
            deref_option(found) == entity_of(*self, name@),
    {
        let ghost wanted = entity_named(name@);
        let mut index: usize = 0;
        while index < self.entities.len()
            invariant
                0 <= index <= self.entities.len(),
                wanted == entity_named(name@),
                forall|j: int| 0 <= j < index ==> !wanted(#[trigger] self.entities@[j]),
            decreases self.entities.len() - index,
        {
            if str_equal(self.entities[index].name.as_str(), name) {
                proof {
                    lemma_first_match_is(self.entities@, wanted, index as int);
                }
                return Some(&self.entities[index]);
            }
            index = index + 1;
        }
        proof {
            lemma_first_match_none(self.entities@, wanted);
        }
        None
    }

    /// The first sink of `entity` (`None`: the root sink).
    pub fn sink(&self, entity: Option<&str>) -> (found: Option<&CodexSink>)
        ensures
            deref_option(found) == sink_of(*self, text_of_str(entity)),
    {
        let ghost wanted = sink_for(text_of_str(entity));
        let mut index: usize = 0;
        while index < self.sinks.len()
            invariant
                0 <= index <= self.sinks.len(),
                wanted == sink_for(text_of_str(entity)),
                forall|j: int| 0 <= j < index ==> !wanted(#[trigger] self.sinks@[j]),
            decreases self.sinks.len() - index,
        {
            if optional_text_equal(&self.sinks[index].entity, entity) {
                proof {
                    lemma_first_match_is(self.sinks@, wanted, index as int);
                }
                return Some(&self.sinks[index]);
            }
            index = index + 1;
        }
        proof {
            lemma_first_match_none(self.sinks@, wanted);
        }
        None
    }
}

} // verus!
