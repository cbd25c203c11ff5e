use marciemoo::script::FieldWrite;
use marciemoo::store::State;
use marciemoo::value::Value;

fn temp_tree() -> sled::Tree {
    let db = sled::Config::new().temporary(true).open().unwrap();
    db.open_tree("objects").unwrap()
}

fn temp_state() -> State {
    State::new(temp_tree())
}

#[test]
fn ids_are_sequential() {
    let mut state = temp_state();
    assert_eq!(state.create().unwrap(), 0);
    assert_eq!(state.create().unwrap(), 1);
    assert_eq!(state.create().unwrap(), 2);
    assert_eq!(state.destroy(1).unwrap(), true);
    assert_eq!(state.list().unwrap(), vec![0, 2]);
    assert_eq!(state.destroy(1).unwrap(), false);
}

#[test]
fn name_field_round_trip() {
    let mut state = temp_state();
    let id = state.create().unwrap();
    state.set(id, "name", Value::String("Clarabelle".to_string())).unwrap();
    assert_eq!(
        state.get(id, "name").unwrap(),
        Some(Value::String("Clarabelle".to_string()))
    );
    assert_eq!(
        state.show(id).unwrap(),
        vec![("name".to_string(), Value::String("Clarabelle".to_string()))]
    );
}

#[test]
fn every_value_kind_round_trips_through_fields() {
    let mut state = temp_state();
    let id = state.create().unwrap();
    let cases = vec![
        Value::Integer(0),
        Value::Integer(-12),
        Value::String(String::new()),
        Value::String("with \"quotes\"".to_string()),
        Value::Bool(true),
        Value::Bool(false),
    ];
    for (i, v) in cases.into_iter().enumerate() {
        let key = format!("k{}", i);
        state.set(id, key.as_str(), v.clone()).unwrap();
        assert_eq!(state.get(id, key.as_str()).unwrap(), Some(v));
    }
}

#[test]
fn set_on_missing_object_is_dropped() {
    let mut state = temp_state();
    state.set(9, "name", Value::String("ghost".to_string())).unwrap();
    assert_eq!(state.get(9, "name").unwrap(), None);
    assert_eq!(state.object_exists(9).unwrap(), false);
}

#[test]
fn destroy_hides_all_fields() {
    let mut state = temp_state();
    let id = state.create().unwrap();
    state.set(id, "name", Value::String("Bess".to_string())).unwrap();
    state.set(id, "age", Value::Integer(4)).unwrap();
    assert_eq!(state.destroy(id).unwrap(), true);
    assert_eq!(state.object_exists(id).unwrap(), false);
    assert_eq!(state.show(id).unwrap(), vec![]);
    assert_eq!(state.get(id, "name").unwrap(), None);
    assert_eq!(state.get(id, "age").unwrap(), None);
}

#[test]
fn destroyed_ids_are_not_reallocated() {
    let mut state = temp_state();
    assert_eq!(state.create().unwrap(), 0);
    assert_eq!(state.create().unwrap(), 1);
    assert_eq!(state.destroy(0).unwrap(), true);
    assert_eq!(state.destroy(1).unwrap(), true);
    assert_eq!(state.create().unwrap(), 2);
    assert_eq!(state.list().unwrap(), vec![2]);
}

#[test]
fn get_of_absent_field_is_none() {
    let mut state = temp_state();
    let id = state.create().unwrap();
    assert_eq!(state.get(id, "nothing").unwrap(), None);
}

#[test]
fn show_lists_fields_in_name_order() {
    let mut state = temp_state();
    let id = state.create().unwrap();
    state.set(id, "zeta", Value::Integer(1)).unwrap();
    state.set(id, "alpha", Value::Integer(2)).unwrap();
    state.set(id, "mid", Value::Integer(3)).unwrap();
    let names: Vec<String> = state.show(id).unwrap().into_iter().map(|f| f.0).collect();
    assert_eq!(names, vec!["alpha".to_string(), "mid".to_string(), "zeta".to_string()]);
}

#[test]
fn keyspace_matches_the_durable_layout() {
    let tree = temp_tree();
    let mut state = State::new(tree.clone());
    let id = state.create().unwrap();
    state.set(id, "name", Value::String("Zoe".to_string())).unwrap();
    assert_eq!(tree.get("object-index").unwrap().unwrap().as_ref(), b"1");
    assert!(tree.contains_key("object-exists-0").unwrap());
    assert_eq!(
        tree.get("object-field-0-name").unwrap().unwrap().as_ref(),
        b"{\"String\":\"Zoe\"}"
    );
}

#[test]
fn preexisting_keyspace_is_understood() {
    let tree = temp_tree();
    tree.insert("object-index", "8").unwrap();
    tree.insert("object-exists-7", "").unwrap();
    tree.insert("object-field-7-name", "{\"String\":\"Old Zoe\"}").unwrap();
    let mut state = State::new(tree);
    assert!(state.object_exists(7).unwrap());
    assert_eq!(
        state.get(7, "name").unwrap(),
        Some(Value::String("Old Zoe".to_string()))
    );
    assert_eq!(state.create().unwrap(), 8);
}

#[test]
fn field_primitives_bypass_the_marker() {
    let mut state = temp_state();
    state.put_field(3, "ghost", Value::Bool(true)).unwrap();
    assert_eq!(state.get(3, "ghost").unwrap(), Some(Value::Bool(true)));
    assert_eq!(state.object_exists(3).unwrap(), false);
    state.delete_field(3, "ghost").unwrap();
    assert_eq!(state.get(3, "ghost").unwrap(), None);
}

#[test]
fn batched_writes_apply_in_order() {
    let mut state = temp_state();
    state.create().unwrap();
    state.set(0, "b", Value::Bool(false)).unwrap();
    let writes = vec![
        (0usize, "a".to_string(), FieldWrite::Store(Value::Integer(1))),
        (0usize, "a".to_string(), FieldWrite::Store(Value::Integer(2))),
        (0usize, "b".to_string(), FieldWrite::Delete),
    ];
    state.apply_field_writes(&writes).unwrap();
    assert_eq!(state.get(0, "a").unwrap(), Some(Value::Integer(2)));
    assert_eq!(state.get(0, "b").unwrap(), None);
}

#[test]
fn list_order_follows_key_text() {
    let mut state = temp_state();
    for _ in 0..11 {
        state.create().unwrap();
    }
    let ids = state.list().unwrap();
    assert_eq!(ids, vec![0, 1, 10, 2, 3, 4, 5, 6, 7, 8, 9]);
}
