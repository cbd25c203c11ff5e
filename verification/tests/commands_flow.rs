use marciemoo::commands::exec_command;
use marciemoo::commands::lookup;
use marciemoo::commands::on_line;
use marciemoo::commands::Command;
use marciemoo::commands::LineAction;
use marciemoo::script::ScriptOutput;
use marciemoo::store::State;
use marciemoo::value::Value;

fn temp_state() -> State {
    let db = sled::Config::new().temporary(true).open().unwrap();
    State::new(db.open_tree("objects").unwrap())
}

fn done(r: Result<LineAction, marciemoo::store::StorageFault>) -> ScriptOutput {
    match r.unwrap() {
        LineAction::Done(out) => out,
        LineAction::Verb(v) => panic!("unexpected verb {}", v),
    }
}

#[test]
fn lookup_resolves_builtins_only() {
    assert_eq!(lookup("say"), Some(Command::Say));
    assert_eq!(lookup("@create"), Some(Command::Create));
    assert_eq!(lookup("@set"), Some(Command::SetField));
    assert_eq!(lookup("frobnicate"), None);
    assert_eq!(lookup(""), None);
}

#[test]
fn create_command_reports_the_new_id() {
    let mut state = temp_state();
    let out = done(on_line(&mut state, 0, "@create"));
    assert_eq!(out.messages, vec!["created object #0".to_string()]);
    let out = done(on_line(&mut state, 0, "@create"));
    assert_eq!(out.messages, vec!["created object #1".to_string()]);
}

#[test]
fn unknown_command_becomes_a_verb() {
    let mut state = temp_state();
    match on_line(&mut state, 0, "frobnicate 1 2").unwrap() {
        LineAction::Verb(v) => assert_eq!(v, "frobnicate".to_string()),
        LineAction::Done(_) => panic!("should be a verb lookup"),
    }
}

#[test]
fn say_uses_the_name_field() {
    let mut state = temp_state();
    let id = state.create().unwrap();
    let out = done(on_line(&mut state, id, "say \"moo\""));
    assert_eq!(out.announcements, vec!["#0 says: moo".to_string()]);
    state.set(id, "name", Value::String("Clarabelle".to_string())).unwrap();
    let out = done(on_line(&mut state, id, "say \"moo again\""));
    assert_eq!(out.announcements, vec!["Clarabelle says: moo again".to_string()]);
    assert_eq!(out.messages, Vec::<String>::new());
}

#[test]
fn help_lists_commands_sorted() {
    let mut state = temp_state();
    let out = done(on_line(&mut state, 0, "help"));
    assert_eq!(
        out.messages,
        vec![
            "Available commands:".to_string(),
            "    @create".to_string(),
            "    @destroy".to_string(),
            "    @get".to_string(),
            "    @list".to_string(),
            "    @set".to_string(),
            "    @show".to_string(),
            "    help".to_string(),
            "    say".to_string(),
        ]
    );
}

#[test]
fn set_then_get_through_commands() {
    let mut state = temp_state();
    state.create().unwrap();
    let out = done(on_line(&mut state, 0, "@set 0 name \"Clarabelle\""));
    assert_eq!(out.messages, Vec::<String>::new());
    let out = done(on_line(&mut state, 0, "@get 0 name"));
    assert_eq!(out.messages, vec!["value: String(\"Clarabelle\")".to_string()]);
    let out = done(on_line(&mut state, 0, "@get 0 missing"));
    assert_eq!(out.messages, vec!["value: <none>".to_string()]);
}

#[test]
fn get_reports_tagged_values() {
    let mut state = temp_state();
    state.create().unwrap();
    let mut st = state;
    st.set(0, "age", Value::Integer(7)).unwrap();
    st.set(0, "alive", Value::Bool(true)).unwrap();
    let out = done(on_line(&mut st, 0, "@get 0 age"));
    assert_eq!(out.messages, vec!["value: Integer(7)".to_string()]);
    let out = done(on_line(&mut st, 0, "@get 0 alive"));
    assert_eq!(out.messages, vec!["value: Bool(true)".to_string()]);
}

#[test]
fn show_pads_field_names() {
    let mut state = temp_state();
    state.create().unwrap();
    state.set(0, "name", Value::String("Bess".to_string())).unwrap();
    state.set(0, "age", Value::Integer(4)).unwrap();
    let out = done(on_line(&mut state, 0, "@show 0"));
    assert_eq!(
        out.messages,
        vec![
            "Fields on object #0".to_string(),
            "    age                 4".to_string(),
            "    name                \"Bess\"".to_string(),
        ]
    );
}

#[test]
fn show_of_missing_object() {
    let mut state = temp_state();
    let out = done(on_line(&mut state, 0, "@show 5"));
    assert_eq!(out.messages, vec!["no such object".to_string()]);
}

#[test]
fn list_command_shows_names() {
    let mut state = temp_state();
    state.create().unwrap();
    state.create().unwrap();
    state.set(0, "name", Value::String("Bess".to_string())).unwrap();
    let out = done(on_line(&mut state, 0, "@list"));
    assert_eq!(
        out.messages,
        vec![
            "Objects:".to_string(),
            "    #0    (Bess)".to_string(),
            "    #1".to_string(),
        ]
    );
}

#[test]
fn destroy_command_both_ways() {
    let mut state = temp_state();
    state.create().unwrap();
    let out = done(on_line(&mut state, 0, "@destroy 0"));
    assert_eq!(out.messages, vec!["success".to_string()]);
    let out = done(on_line(&mut state, 0, "@destroy 0"));
    assert_eq!(out.messages, vec!["no such object".to_string()]);
}

#[test]
fn argument_faults_become_error_replies() {
    let mut state = temp_state();
    let out = done(on_line(&mut state, 0, "@destroy"));
    assert_eq!(
        out.messages,
        vec!["error: missing argument at index 0".to_string()]
    );
    let out = done(on_line(&mut state, 0, "@destroy pancake"));
    assert_eq!(
        out.messages,
        vec!["error: invalid argument at index 0 (expected integer)".to_string()]
    );
    let out = done(on_line(&mut state, 0, "@set 0 1 2"));
    assert_eq!(
        out.messages,
        vec!["error: invalid argument at index 1 (expected identifier)".to_string()]
    );
    let out = done(on_line(&mut state, 0, "say %"));
    assert_eq!(
        out.messages,
        vec!["error: invalid argument at index 0 (expected argument)".to_string()]
    );
    let out = done(on_line(&mut state, 0, "say 42"));
    assert_eq!(
        out.messages,
        vec!["error: invalid argument at index 0 (expected string)".to_string()]
    );
}

#[test]
fn empty_line_is_an_empty_verb() {
    let mut state = temp_state();
    match on_line(&mut state, 0, "").unwrap() {
        LineAction::Verb(v) => assert_eq!(v, String::new()),
        LineAction::Done(_) => panic!("an empty name is no builtin"),
    }
}

#[test]
fn set_on_missing_object_reports_and_writes_nothing() {
    let mut state = temp_state();
    let out = done(on_line(&mut state, 0, "@set 3 name \"ghost\""));
    assert_eq!(out.messages, vec!["No such object".to_string()]);
    assert_eq!(state.get(3, "name").unwrap(), None);
}

#[test]
fn exec_command_runs_one_builtin() {
    let mut state = temp_state();
    let out = exec_command(&mut state, 0, Command::Create, "").unwrap();
    assert_eq!(out.messages, vec!["created object #0".to_string()]);
}
