use keyframes::entity::{Entity, GraphLabel};
use keyframes::state::State;

#[test]
fn identifiers_are_distinct_and_increasing() {
    let mut state = State::new();
    let a = Entity::new(&mut state);
    let b = Entity::new(&mut state);
    let c = Entity::new(&mut state);
    assert_eq!(a, 0);
    assert_eq!(b, 1);
    assert_eq!(c, 2);
    assert!(a < b && b < c);
    assert_eq!(state.entity_count(), 3);
    assert_eq!(state.next_id(), 3);
    assert_eq!(state.entities[0].id(), 0);
    assert_eq!(state.entities[1].id(), 1);
    assert_eq!(state.entities[2].id(), 2);
}

#[test]
fn fresh_state_is_empty() {
    let state = State::new();
    assert_eq!(state.entity_count(), 0);
    assert_eq!(state.next_id(), 0);
}

#[test]
fn writes_to_unattached_label_are_discarded() {
    let mut state = State::new();
    Entity::new(&mut state);
    let entity = &mut state.entities[0];
    entity.add_key(GraphLabel::PositionX, 10, 5);
    assert!(entity.graph(GraphLabel::PositionX).is_none());
    assert_eq!(entity.get_linear(GraphLabel::PositionX, 10), None);
    assert_eq!(entity.get_step(GraphLabel::PositionX, 10), None);
}

#[test]
fn queries_route_to_the_labeled_graph() {
    let mut state = State::new();
    Entity::new(&mut state);
    let entity = &mut state.entities[0];
    entity.add_graph(GraphLabel::PositionX);
    entity.add_key(GraphLabel::PositionX, 8, 10);
    entity.add_key(GraphLabel::PositionX, 7, 10);
    entity.add_key(GraphLabel::PositionX, 10, 10);
    entity.add_key(GraphLabel::PositionX, 2, 10);
    entity.add_key(GraphLabel::PositionX, 6, 10);
    entity.add_key(GraphLabel::PositionX, 16, 20);
    entity.add_key(GraphLabel::PositionX, 44, 10);
    assert_eq!(entity.get_linear(GraphLabel::PositionX, 13), Some(15));
    assert_eq!(entity.get_step(GraphLabel::PositionX, 15), Some(10));
    assert_eq!(entity.get_linear(GraphLabel::PositionX, 1), None);
    assert_eq!(entity.get_step(GraphLabel::PositionX, 1), None);
    // the other labels are untouched
    assert_eq!(entity.get_linear(GraphLabel::PositionY, 13), None);
    assert_eq!(entity.get_step(GraphLabel::PositionZ, 13), None);
}

#[test]
fn labels_hold_independent_graphs() {
    let mut state = State::new();
    Entity::new(&mut state);
    let entity = &mut state.entities[0];
    entity.add_graph(GraphLabel::PositionX);
    entity.add_graph(GraphLabel::PositionY);
    entity.add_key(GraphLabel::PositionX, 0, 1);
    entity.add_key(GraphLabel::PositionX, 10, 11);
    entity.add_key(GraphLabel::PositionY, 0, -1);
    entity.add_key(GraphLabel::PositionY, 10, -11);
    assert_eq!(entity.get_linear(GraphLabel::PositionX, 10), Some(11));
    assert_eq!(entity.get_linear(GraphLabel::PositionY, 10), Some(-11));
}

#[test]
fn attaching_again_discards_the_keys() {
    let mut state = State::new();
    Entity::new(&mut state);
    let entity = &mut state.entities[0];
    entity.add_graph(GraphLabel::PositionZ);
    entity.add_key(GraphLabel::PositionZ, 0, 3);
    entity.add_key(GraphLabel::PositionZ, 10, 13);
    assert_eq!(entity.get_step(GraphLabel::PositionZ, 5), Some(3));
    // a second attach replaces the graph with an empty one
    entity.add_graph(GraphLabel::PositionZ);
    assert_eq!(entity.get_linear(GraphLabel::PositionZ, 5), None);
    assert_eq!(entity.get_step(GraphLabel::PositionZ, 5), None);
    assert_eq!(entity.graph(GraphLabel::PositionZ).as_ref().map(|g| g.len()), Some(0));
    // new keys are then visible again
    entity.add_key(GraphLabel::PositionZ, 4, 7);
    assert_eq!(entity.get_step(GraphLabel::PositionZ, 5), Some(7));
}
