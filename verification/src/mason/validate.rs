//! The key columns an entity effect names must be the entity relation's
//! Reference columns: all of them for an upsert or revise, a non-empty part
//! of them for a delete.

use vstd::prelude::*;

use crate::catalog::aggregate::{CodexAggregate, entity_of, sink_of};
use crate::catalog::column::CodexRole;
use crate::catalog::relation::CodexRelation;
use crate::definition::{Codex, relation_of};
use crate::error::{LaxError, LaxErrorView, MasonError, texts};
use crate::mason::value::{MasonEffect, MasonEffectTarget, MasonRow, ValueView};
use crate::seqs::{first_match, lemma_first_match_is, lemma_first_match_none};
use crate::text::{owned, sorted_distinct, sorted_texts, lemma_sorted_texts, str_equal};

verus! {

/// The names of a relation's Reference columns.
pub open spec fn reference_names(relation: CodexRelation) -> Set<Seq<char>> {
    Set::new(
        |name: Seq<char>|
            exists|i: int|
                0 <= i < relation.columns@.len() && relation.columns@[i].role == CodexRole::Reference
                    && #[trigger] relation.columns@[i].name@ == name,
    )
}

/// The names a key row provides.
pub open spec fn provided_names(keys: Seq<(Seq<char>, ValueView)>) -> Set<Seq<char>> {
    Set::new(|name: Seq<char>| exists|i: int| 0 <= i < keys.len() && #[trigger] keys[i].0 == name)
}

/// "The key column is not one of `references`."
pub open spec fn key_outside(references: Set<Seq<char>>) -> spec_fn((Seq<char>, ValueView)) -> bool {
    |key: (Seq<char>, ValueView)| !references.contains(key.0)
}

/// What the key rules say of one entity effect's keys against the relation it
/// writes to (`None`: the relation is not in the catalog and nothing is checked).
pub open spec fn keys_failure(
    entity: Seq<char>,
    relation: Option<CodexRelation>,
    keys: Seq<(Seq<char>, ValueView)>,
    is_delete: bool,
) -> Option<LaxErrorView> {
    match relation {
        None => None,
        Some(relation) => {
            let references = reference_names(relation);
            match first_match(keys, key_outside(references)) {
                Some(index) => Some(LaxErrorView::InvalidEntityKey { entity, key: keys[index].0 }),
                None => if is_delete {
                    if keys.len() == 0 {
                        Some(LaxErrorView::EmptyEntityKeys { entity })
                    } else {
                        None
                    }
                } else if provided_names(keys) != references {
                    Some(
                        LaxErrorView::IncompleteEntityKeys {
                            entity,
                            missing: sorted_texts(references.difference(provided_names(keys))),
                            extra: Seq::empty(),
                        },
                    )
                } else {
                    None
                },
            }
        },
    }
}

/// Whether the list holds a string with these characters.
fn contains_name(names: &Vec<String>, name: &str) -> (found: bool)
    ensures
        found == exists|i: int| 0 <= i < names@.len() && #[trigger] names@[i]@ == name@,
{
    let mut index: usize = 0;
    while index < names.len()
        invariant
            0 <= index <= names.len(),
            forall|i: int| 0 <= i < index ==> #[trigger] names@[i]@ != name@,
        decreases names.len() - index,
    {
        if str_equal(names[index].as_str(), name) {
            return true;
        }
        index = index + 1;
    }
    false
}

/// The names of the Reference columns, in column order.
fn reference_list(relation: &CodexRelation) -> (names: Vec<String>)
    ensures
        texts(names@).to_set() == reference_names(*relation),
{
    let mut names: Vec<String> = Vec::new();
    let mut index: usize = 0;
    while index < relation.columns.len()
        invariant
            0 <= index <= relation.columns.len(),
            forall|name: Seq<char>|
                texts(names@).to_set().contains(name) <==> exists|i: int|
                    0 <= i < index && relation.columns@[i].role == CodexRole::Reference
                        && #[trigger] relation.columns@[i].name@ == name,
        decreases relation.columns.len() - index,
    {
        let ghost before = names@;
        if relation.columns[index].role == CodexRole::Reference {
            names.push(relation.columns[index].name.clone());
            proof {
                assert(texts(names@) =~= texts(before).push(relation.columns@[index as int].name@));
            }
        }
        proof {
            assert forall|name: Seq<char>|
                texts(names@).to_set().contains(name) <==> exists|i: int|
                    0 <= i < index + 1 && relation.columns@[i].role == CodexRole::Reference
                        && #[trigger] relation.columns@[i].name@ == name by {
                if texts(names@).to_set().contains(name) {
                    let k = choose|k: int| 0 <= k < texts(names@).len() && texts(names@)[k] == name;
                    if k < before.len() {
                        assert(texts(before)[k] == name);
                        assert(texts(before).to_set().contains(name));
                    }
                }
                if exists|i: int|
                    0 <= i < index + 1 && relation.columns@[i].role == CodexRole::Reference
                        && #[trigger] relation.columns@[i].name@ == name {
                    let i = choose|i: int|
                        0 <= i < index + 1 && relation.columns@[i].role == CodexRole::Reference
                            && #[trigger] relation.columns@[i].name@ == name;
                    if i < index {
                        assert(texts(before).to_set().contains(name));
                        let k = choose|k: int| 0 <= k < texts(before).len() && texts(before)[k] == name;
                        assert(texts(names@)[k] == name);
                    } else {
                        assert(texts(names@)[texts(names@).len() - 1] == name);
                    }
                }
            }
        }
        index = index + 1;
    }
    proof {
        assert(texts(names@).to_set() =~= reference_names(*relation));
    }
    names
}

/// Checks one entity effect's keys against the relation it writes to.
pub fn check_keys(
    codex: &Codex,
    entity_name: &str,
    relation_name: &str,
    keys: &MasonRow,
    is_delete: bool,
) -> (outcome: Result<(), LaxError>)
    ensures
        match keys_failure(entity_name@, relation_of(*codex, relation_name@), keys@, is_delete) {
            Some(failure) => outcome matches Err(error) && error@ == failure,
            None => outcome is Ok,
        },
{
    let relation = match codex.relation(relation_name) {
        None => return Ok(()),
        Some(relation) => relation,
    };
    let references = reference_list(relation);
    let ghost reference_set = reference_names(*relation);
    let ghost outside = key_outside(reference_set);
    let mut index: usize = 0;
    while index < keys.columns.len()
        invariant
            0 <= index <= keys.columns.len(),
            keys@.len() == keys.columns@.len(),
            texts(references@).to_set() == reference_set,
            reference_set == reference_names(*relation),
            relation_of(*codex, relation_name@) == Some(*relation),
            outside == key_outside(reference_set),
            forall|j: int| 0 <= j < index ==> !outside(#[trigger] keys@[j]),
        decreases keys.columns.len() - index,
    {
        let name = keys.columns[index].0.as_str();
        let found = contains_name(&references, name);
        proof {
            assert(keys@[index as int].0 == name@);
            if found {
                let i = choose|i: int| 0 <= i < references@.len() && #[trigger] references@[i]@ == name@;
                assert(texts(references@)[i] == name@);
            } else {
                assert forall|k: int| 0 <= k < texts(references@).len() implies texts(references@)[k]
                    != name@ by {
                    assert(texts(references@)[k] == references@[k]@);
                }
                assert(!texts(references@).contains(name@));
                assert(!texts(references@).to_set().contains(name@));
                assert(outside(keys@[index as int]));
            }
        }
        if !found {
            proof {
                lemma_first_match_is(keys@, outside, index as int);
                assert(relation_of(*codex, relation_name@) == Some(*relation));
                assert(keys_failure(entity_name@, relation_of(*codex, relation_name@), keys@, is_delete) == Some(
                    LaxErrorView::InvalidEntityKey { entity: entity_name@, key: name@ },
                ));
            }
            return Err(MasonError::invalid_entity_key(owned(entity_name), owned(name)));
        }
        index = index + 1;
    }
    proof {
        lemma_first_match_none(keys@, outside);
    }
    if is_delete {
        if keys.columns.len() == 0 {
            return Err(MasonError::empty_entity_keys(owned(entity_name)));
        }
        return Ok(());
    }
    let ghost provided = provided_names(keys@);
    let mut missing: Vec<String> = Vec::new();
    let mut position: usize = 0;
    while position < references.len()
        invariant
            0 <= position <= references.len(),
            keys@.len() == keys.columns@.len(),
            provided == provided_names(keys@),
            forall|name: Seq<char>|
                texts(missing@).to_set().contains(name) <==> exists|i: int|
                    0 <= i < position && #[trigger] references@[i]@ == name && !provided.contains(name),
        decreases references.len() - position,
    {
        let ghost before = missing@;
        let reference = references[position].as_str();
        let mut present = false;
        let mut k: usize = 0;
        while k < keys.columns.len()
            invariant
                0 <= k <= keys.columns.len(),
                keys@.len() == keys.columns@.len(),
                present == exists|j: int| 0 <= j < k && #[trigger] keys@[j].0 == reference@,
            decreases keys.columns.len() - k,
        {
            proof {
                assert(keys@[k as int].0 == keys.columns@[k as int].0@);
            }
            if str_equal(keys.columns[k].0.as_str(), reference) {
                present = true;
            }
            k = k + 1;
        }
        proof {
            assert(present == provided.contains(reference@));
        }
        if !present {
            missing.push(references[position].clone());
        }
        proof {
            assert forall|name: Seq<char>|
                texts(missing@).to_set().contains(name) <==> exists|i: int|
                    0 <= i < position + 1 && #[trigger] references@[i]@ == name && !provided.contains(name) by {
                if texts(missing@).to_set().contains(name) {
                    let m = choose|m: int| 0 <= m < texts(missing@).len() && texts(missing@)[m] == name;
                    if m < before.len() {
                        assert(texts(before)[m] == name);
                        assert(texts(before).to_set().contains(name));
                    } else {
                        assert(references@[position as int]@ == name);
                    }
                }
                if exists|i: int|
                    0 <= i < position + 1 && #[trigger] references@[i]@ == name && !provided.contains(name) {
                    let i = choose|i: int|
                        0 <= i < position + 1 && #[trigger] references@[i]@ == name && !provided.contains(
                            name,
                        );
                    if i < position {
                        assert(texts(before).to_set().contains(name));
                        let m = choose|m: int| 0 <= m < texts(before).len() && texts(before)[m] == name;
                        assert(texts(missing@)[m] == name);
                    } else {
                        assert(texts(missing@)[texts(missing@).len() - 1] == name);
                    }
                }
            }
        }
        position = position + 1;
    }
    proof {
        assert forall|name: Seq<char>| provided.contains(name) implies reference_set.contains(name) by {
            let j = choose|j: int| 0 <= j < keys@.len() && #[trigger] keys@[j].0 == name;
            assert(!outside(keys@[j]));
        }
        assert forall|name: Seq<char>|
            texts(missing@).to_set().contains(name) == reference_set.difference(provided).contains(name) by {
            if reference_set.contains(name) {
                let k = choose|k: int| 0 <= k < texts(references@).len() && texts(references@)[k] == name;
                assert(references@[k]@ == name);
            }
            if exists|i: int| 0 <= i < references@.len() && #[trigger] references@[i]@ == name {
                let i = choose|i: int| 0 <= i < references@.len() && #[trigger] references@[i]@ == name;
                assert(texts(references@)[i] == name);
            }
        }
        assert(texts(missing@).to_set() =~= reference_set.difference(provided));
    }
    if missing.len() == 0 {
        proof {
            assert(provided =~= reference_set) by {
                assert forall|name: Seq<char>| reference_set.contains(name) implies provided.contains(name) by {
                    if !provided.contains(name) {
                        assert(reference_set.difference(provided).contains(name));
                        assert(texts(missing@).len() == 0);
                    }
                }
            }
        }
        return Ok(());
    }
    let sorted = sorted_distinct(&missing);
    proof {
        lemma_sorted_texts(texts(sorted@), reference_set.difference(provided));
        assert(texts(missing@)[0] == missing@[0]@);
        assert(reference_set.difference(provided).contains(missing@[0]@));
        assert(provided != reference_set);
    }
    let extra: Vec<String> = Vec::new();
    proof {
        assert(texts(extra@) =~= Seq::<Seq<char>>::empty());
    }
    Err(MasonError::incomplete_entity_keys(owned(entity_name), sorted, extra))
}

// ── effects ────────────────────────────────────────────────────────────────

/// The entity an effect targets, its keys and whether it deletes.
pub open spec fn entity_target(effect: MasonEffect) -> Option<(Seq<char>, Seq<(Seq<char>, ValueView)>, bool)> {
    match effect {
        MasonEffect::Upsert { target: MasonEffectTarget::Entity { name, keys }, .. } => Some(
            (name@, keys@, false),
        ),
        MasonEffect::Revise { target: MasonEffectTarget::Entity { name, keys }, .. } => Some(
            (name@, keys@, false),
        ),
        MasonEffect::Delete { target: MasonEffectTarget::Entity { name, keys } } => Some((name@, keys@, true)),
        _ => None,
    }
}

/// The entity an effect targets, with its keys and whether it is a delete.
pub fn extract_entity_target(effect: &MasonEffect) -> (target: Option<(&str, &MasonRow, bool)>)
    ensures
        match entity_target(*effect) {
            Some((name, keys, is_delete)) => target matches Some((n, k, d)) && n@ == name && k@ == keys && d
                == is_delete,
            None => target is None,
        },
{
    match effect {
        MasonEffect::Upsert { target: MasonEffectTarget::Entity { name, keys }, .. } => Some(
            (name.as_str(), keys, false),
        ),
        MasonEffect::Revise { target: MasonEffectTarget::Entity { name, keys }, .. } => Some(
            (name.as_str(), keys, false),
        ),
        MasonEffect::Delete { target: MasonEffectTarget::Entity { name, keys } } => Some(
            (name.as_str(), keys, true),
        ),
        _ => None,
    }
}

/// What the key rules say of one effect of a projection write: entity effects
/// are checked against the entity's snapshot relation.
pub open spec fn projection_key_failure(codex: Codex, aggregate: CodexAggregate, effect: MasonEffect) -> Option<
    LaxErrorView,
> {
    match entity_target(effect) {
        Some((name, keys, is_delete)) => match entity_of(aggregate, name) {
            Some(entity) => keys_failure(name, relation_of(codex, entity.relation@), keys, is_delete),
            None => None,
        },
        None => None,
    }
}

/// What the key rules say of one effect of a sink write: entity effects are
/// checked against the entity's sink relation.
pub open spec fn sink_key_failure(codex: Codex, aggregate: CodexAggregate, effect: MasonEffect) -> Option<
    LaxErrorView,
> {
    match entity_target(effect) {
        Some((name, keys, is_delete)) => match sink_of(aggregate, Some(name)) {
            Some(sink) => keys_failure(name, relation_of(codex, sink.relation@), keys, is_delete),
            None => None,
        },
        None => None,
    }
}

/// "Checking the effect's keys for a projection fails."
pub open spec fn projection_keys_fail(codex: Codex, aggregate: CodexAggregate) -> spec_fn(MasonEffect) -> bool {
    |effect: MasonEffect| projection_key_failure(codex, aggregate, effect) is Some
}

/// "Checking the effect's keys for a sink fails."
pub open spec fn sink_keys_fail(codex: Codex, aggregate: CodexAggregate) -> spec_fn(MasonEffect) -> bool {
    |effect: MasonEffect| sink_key_failure(codex, aggregate, effect) is Some
}

/// The failure of the first effect whose keys break the rules, for a projection.
pub open spec fn projection_keys_failure(codex: Codex, aggregate: CodexAggregate, effects: Seq<MasonEffect>) -> Option<
    LaxErrorView,
> {
    match first_match(effects, projection_keys_fail(codex, aggregate)) {
        Some(index) => projection_key_failure(codex, aggregate, effects[index]),
        None => None,
    }
}

/// The failure of the first effect whose keys break the rules, for a sink.
pub open spec fn sink_keys_failure(codex: Codex, aggregate: CodexAggregate, effects: Seq<MasonEffect>) -> Option<
    LaxErrorView,
> {
    match first_match(effects, sink_keys_fail(codex, aggregate)) {
        Some(index) => sink_key_failure(codex, aggregate, effects[index]),
        None => None,
    }
}

/// Validates entity-effect keys for projection writes (snapshot tables).
pub fn projection_entity_keys(codex: &Codex, aggregate: &CodexAggregate, effects: &Vec<MasonEffect>) -> (outcome:
    Result<(), LaxError>)
    ensures
        match projection_keys_failure(*codex, *aggregate, effects@) {
            Some(failure) => outcome matches Err(error) && error@ == failure,
            None => outcome is Ok,
        },
{
    let ghost fails = projection_keys_fail(*codex, *aggregate);
    let mut index: usize = 0;
    while index < effects.len()
        invariant
            0 <= index <= effects.len(),
            fails == projection_keys_fail(*codex, *aggregate),
            forall|j: int| 0 <= j < index ==> !fails(#[trigger] effects@[j]),
        decreases effects.len() - index,
    {
        if let Some((entity_name, keys, is_delete)) = extract_entity_target(&effects[index]) {
            if let Some(entity) = aggregate.entity(entity_name) {
                let outcome = check_keys(codex, entity_name, entity.relation.as_str(), keys, is_delete);
                if outcome.is_err() {
                    proof {
                        lemma_first_match_is(effects@, fails, index as int);
                    }
                    return outcome;
                }
            }
        }
        index = index + 1;
    }
    proof {
        lemma_first_match_none(effects@, fails);
    }
    Ok(())
}

/// Validates entity-effect keys for sink writes (current-state tables).
pub fn sink_entity_keys(codex: &Codex, aggregate: &CodexAggregate, effects: &Vec<MasonEffect>) -> (outcome: Result<
    (),
    LaxError,
>)
    ensures
        match sink_keys_failure(*codex, *aggregate, effects@) {
            Some(failure) => outcome matches Err(error) && error@ == failure,
            None => outcome is Ok,
        },
{
    let ghost fails = sink_keys_fail(*codex, *aggregate);
    let mut index: usize = 0;
    while index < effects.len()
        invariant
            0 <= index <= effects.len(),
            fails == sink_keys_fail(*codex, *aggregate),
            forall|j: int| 0 <= j < index ==> !fails(#[trigger] effects@[j]),
        decreases effects.len() - index,
    {
        if let Some((entity_name, keys, is_delete)) = extract_entity_target(&effects[index]) {
            if let Some(sink) = aggregate.sink(Some(entity_name)) {
                let outcome = check_keys(codex, entity_name, sink.relation.as_str(), keys, is_delete);
                if outcome.is_err() {
                    proof {
                        lemma_first_match_is(effects@, fails, index as int);
                    }
                    return outcome;
                }
            }
        }
        index = index + 1;
    }
    proof {
        lemma_first_match_none(effects@, fails);
    }
    Ok(())
}

} // verus!
