//! Runs real scripts against the store, wired the way the server wires them:
//! the engine's field accessors go through the library's verified coercions,
//! writes are staged and committed as one batch through the library's
//! `apply_field_writes`, and the run ends through `complete_run`.

use std::sync::Arc;
use std::sync::Mutex;

use marciemoo::script::complete_run;
use marciemoo::script::script_of_value;
use marciemoo::script::verb_lookup;
use marciemoo::script::FieldWrite;
use marciemoo::script::ScriptOutput;
use marciemoo::script::ScriptValue;
use marciemoo::script::VerbDecision;
use marciemoo::script::write_of_script;
use marciemoo::store::State;
use marciemoo::store::StorageFault;
use marciemoo::value::Value;

fn temp_state() -> State {
    let db = sled::Config::new().temporary(true).open().unwrap();
    State::new(db.open_tree("objects").unwrap())
}

type Staged = Arc<Mutex<Vec<(usize, String, FieldWrite)>>>;

#[derive(Clone)]
struct HostObject {
    id: usize,
    state: Arc<Mutex<State>>,
    staged: Staged,
    fault: Arc<Mutex<Option<StorageFault>>>,
}

fn dynamic_of(v: Value) -> rhai::Dynamic {
    match script_of_value(v) {
        ScriptValue::Str(s) => rhai::Dynamic::from(s),
        ScriptValue::Int(i) => rhai::Dynamic::from_int(i),
        ScriptValue::Bool(b) => rhai::Dynamic::from_bool(b),
        _ => rhai::Dynamic::UNIT,
    }
}

fn staged_lookup(
    staged: &[(usize, String, FieldWrite)],
    id: usize,
    field: &str,
) -> Option<FieldWrite> {
    staged
        .iter()
        .rev()
        .find(|w| w.0 == id && w.1 == field)
        .map(|w| w.2.clone())
}

impl HostObject {
    fn get_field(&mut self, field: &str) -> Result<rhai::Dynamic, Box<rhai::EvalAltResult>> {
        let overlay = staged_lookup(&self.staged.lock().unwrap(), self.id, field);
        if let Some(write) = overlay {
            return Ok(match write {
                FieldWrite::Delete => rhai::Dynamic::UNIT,
                FieldWrite::Store(v) => dynamic_of(v),
            });
        }
        let found = match self.state.lock().unwrap().get(self.id, field) {
            Ok(v) => v,
            Err(f) => {
                *self.fault.lock().unwrap() = Some(f);
                return Err(Box::new("transaction error".into()));
            },
        };
        Ok(match found {
            None => rhai::Dynamic::UNIT,
            Some(v) => dynamic_of(v),
        })
    }

    fn set_field(
        &mut self,
        field: &str,
        val: rhai::Dynamic,
    ) -> Result<(), Box<rhai::EvalAltResult>> {
        let sv = if val.is_unit() {
            ScriptValue::Unit
        } else if val.is_string() {
            ScriptValue::Str(val.into_string().unwrap())
        } else if val.is_int() {
            ScriptValue::Int(val.as_int().unwrap())
        } else if val.is_bool() {
            ScriptValue::Bool(val.as_bool().unwrap())
        } else {
            ScriptValue::Other
        };
        let write = match write_of_script(sv) {
            Ok(w) => w,
            Err(fault) => return Err(Box::new(fault.text().into())),
        };
        self.staged.lock().unwrap().push((self.id, field.to_string(), write));
        Ok(())
    }
}

fn run_verb(
    state: &Arc<Mutex<State>>,
    invoker: usize,
    source: &str,
) -> Result<ScriptOutput, StorageFault> {
    let fault: Arc<Mutex<Option<StorageFault>>> = Arc::new(Mutex::new(None));
    let staged: Staged = Arc::new(Mutex::new(Vec::new()));
    let buffer: Arc<Mutex<ScriptOutput>> = Arc::new(Mutex::new(ScriptOutput::new()));
    let mut engine = rhai::Engine::new_raw();
    engine
        .register_type::<HostObject>()
        .register_indexer_get(HostObject::get_field)
        .register_indexer_set(HostObject::set_field);
    {
        let st = state.clone();
        let sg = staged.clone();
        let fl = fault.clone();
        engine.register_fn("object", move |id: i64| {
            rhai::Dynamic::from(HostObject {
                id: id as usize,
                state: st.clone(),
                staged: sg.clone(),
                fault: fl.clone(),
            })
        });
    }
    {
        let b = buffer.clone();
        engine.register_fn("print", move |message: String| {
            b.lock().unwrap().push_message(message);
        });
    }
    {
        let b = buffer.clone();
        engine.register_fn("announce", move |message: String| {
            b.lock().unwrap().push_announcement(message);
        });
    }
    let mut scope = rhai::Scope::new();
    scope.set_value(
        "self",
        HostObject {
            id: invoker,
            state: state.clone(),
            staged: staged.clone(),
            fault: fault.clone(),
        },
    );
    let result = engine.eval_with_scope::<()>(&mut scope, source);
    let output = buffer.lock().unwrap().clone();
    let storage = fault.lock().unwrap().take();
    let script_error = result.err().map(|e| e.to_string());
    let out = complete_run(output, storage, script_error)?;
    let writes = std::mem::take(&mut *staged.lock().unwrap());
    state.lock().unwrap().apply_field_writes(&writes)?;
    Ok(out)
}

#[test]
fn verb_writes_reads_and_speaks() {
    let state = Arc::new(Mutex::new(temp_state()));
    let id = state.lock().unwrap().create().unwrap();
    let out = run_verb(
        &state,
        id,
        "self[\"count\"] = 5; self[\"copy\"] = self[\"count\"]; print(\"ok\"); announce(\"moo\");",
    )
    .unwrap();
    assert_eq!(out.messages, vec!["ok".to_string()]);
    assert_eq!(out.announcements, vec!["moo".to_string()]);
    let mut st = state.lock().unwrap();
    assert_eq!(st.get(id, "count").unwrap(), Some(Value::Integer(5)));
    assert_eq!(st.get(id, "copy").unwrap(), Some(Value::Integer(5)));
}

#[test]
fn verb_touches_other_objects() {
    let state = Arc::new(Mutex::new(temp_state()));
    let a = state.lock().unwrap().create().unwrap();
    let b = state.lock().unwrap().create().unwrap();
    state
        .lock()
        .unwrap()
        .set(b, "name", Value::String("Bess".to_string()))
        .unwrap();
    let out = run_verb(&state, a, "self[\"peek\"] = object(1)[\"name\"];").unwrap();
    assert_eq!(out.messages, Vec::<String>::new());
    assert_eq!(
        state.lock().unwrap().get(a, "peek").unwrap(),
        Some(Value::String("Bess".to_string()))
    );
}

#[test]
fn last_staged_write_wins() {
    let state = Arc::new(Mutex::new(temp_state()));
    let id = state.lock().unwrap().create().unwrap();
    let out = run_verb(&state, id, "self[\"x\"] = 1; self[\"x\"] = 2;").unwrap();
    assert_eq!(out.messages, Vec::<String>::new());
    assert_eq!(state.lock().unwrap().get(id, "x").unwrap(), Some(Value::Integer(2)));
}

#[test]
fn unit_write_deletes_the_field() {
    let state = Arc::new(Mutex::new(temp_state()));
    let id = state.lock().unwrap().create().unwrap();
    state.lock().unwrap().set(id, "x", Value::Integer(1)).unwrap();
    run_verb(&state, id, "self[\"x\"] = ();").unwrap();
    assert_eq!(state.lock().unwrap().get(id, "x").unwrap(), None);
}

#[test]
fn invalid_value_type_drops_the_write() {
    let state = Arc::new(Mutex::new(temp_state()));
    let id = state.lock().unwrap().create().unwrap();
    state.lock().unwrap().set(id, "x", Value::Integer(1)).unwrap();
    let out = run_verb(&state, id, "self[\"x\"] = 1.5;").unwrap();
    assert_eq!(out.messages.len(), 1);
    assert!(out.messages[0].starts_with("script error: "));
    assert!(out.messages[0].contains("invalid value type"));
    assert_eq!(
        state.lock().unwrap().get(id, "x").unwrap(),
        Some(Value::Integer(1))
    );
}

#[test]
fn partial_commit_on_script_fault() {
    let state = Arc::new(Mutex::new(temp_state()));
    let id = state.lock().unwrap().create().unwrap();
    let r = run_verb(&state, id, "self[\"x\"] = 42; boom();");
    let out = r.unwrap();
    assert_eq!(out.messages.len(), 1);
    assert!(out.messages[0].starts_with("script error: "));
    assert_eq!(
        state.lock().unwrap().get(id, "x").unwrap(),
        Some(Value::Integer(42))
    );
}

#[test]
fn parse_error_is_a_script_fault() {
    let state = Arc::new(Mutex::new(temp_state()));
    let id = state.lock().unwrap().create().unwrap();
    let out = run_verb(&state, id, "this is not a script (").unwrap();
    assert_eq!(out.messages.len(), 1);
    assert!(out.messages[0].starts_with("script error: "));
}

#[test]
fn invoking_a_missing_field_is_no_verb() {
    let mut state = temp_state();
    state.create().unwrap();
    match verb_lookup(state.get(0, "dance").unwrap()) {
        VerbDecision::Reply(out) => {
            assert_eq!(out.messages, vec!["no such verb".to_string()]);
        },
        VerbDecision::Run(_) => panic!("no source to run"),
    }
}

#[test]
fn invoking_a_nonstring_field_is_not_executable() {
    let mut state = temp_state();
    for _ in 0..6 {
        state.create().unwrap();
    }
    state.set(5, "poke", Value::Integer(7)).unwrap();
    match verb_lookup(state.get(5, "poke").unwrap()) {
        VerbDecision::Reply(out) => {
            assert_eq!(out.messages, vec!["field is not executable".to_string()]);
        },
        VerbDecision::Run(_) => panic!("script must not run"),
    }
}

#[test]
fn string_fields_run_as_verbs() {
    let state = Arc::new(Mutex::new(temp_state()));
    let id = state.lock().unwrap().create().unwrap();
    state
        .lock()
        .unwrap()
        .set(id, "dance", Value::String("print(\"twirl\");".to_string()))
        .unwrap();
    let stored = state.lock().unwrap().get(id, "dance").unwrap();
    match verb_lookup(stored) {
        VerbDecision::Run(src) => {
            let out = run_verb(&state, id, src.as_str()).unwrap();
            assert_eq!(out.messages, vec!["twirl".to_string()]);
        },
        VerbDecision::Reply(_) => panic!("a string field is a verb"),
    }
}

#[test]
fn complete_run_aborts_on_storage_fault() {
    let mut out = ScriptOutput::new();
    out.push_message("should vanish".to_string());
    let r = complete_run(out, Some(StorageFault), None);
    assert!(r.is_err());
}

#[test]
fn complete_run_keeps_output_without_faults() {
    let mut out = ScriptOutput::new();
    out.push_message("kept".to_string());
    out.push_announcement("heard".to_string());
    let r = complete_run(out, None, None).unwrap();
    assert_eq!(r.messages, vec!["kept".to_string()]);
    assert_eq!(r.announcements, vec!["heard".to_string()]);
}
