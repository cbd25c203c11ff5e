//! The verb execution engine's decisions: what a stored field means as a
//! verb, how script-native values coerce to stored values, and what one run
//! returns.
//!
//! The script host performs the evaluation and hands every event here: field
//! reads and writes go through the coercions below, writes are staged until
//! the run ends, output is buffered in a [ScriptOutput], and [complete_run]
//! decides how the run ends — a storage fault aborts it, and the host then
//! discards the staged writes, while a script fault merely appends a
//! diagnostic, so the writes still commit, in one batch through
//! [`crate::store::State::apply_field_writes`].

use vstd::prelude::*;
use vstd::string::StringExecFns;
use crate::store::StorageFault;
use crate::value::Value;
use crate::value::ValueModel;

verus! {

/// Everything a script said during one run: private messages to the invoker,
/// and server-wide announcements, each in the order appended.
#[derive(Clone, Debug)]
pub struct ScriptOutput {
    pub messages: Vec<String>,
    pub announcements: Vec<String>,
}

impl ScriptOutput {
    /// An empty buffer.
    pub fn new() -> (r: ScriptOutput)
        ensures
            r.messages@.len() == 0,
            r.announcements@.len() == 0,
    {
        ScriptOutput { messages: Vec::new(), announcements: Vec::new() }
    }

    /// A buffer holding one message and nothing else.
    pub fn message(text: &str) -> (r: ScriptOutput)
        ensures
            r.messages@.len() == 1,
            r.messages@[0]@ == text@,
            r.announcements@.len() == 0,
    {
        let mut messages: Vec<String> = Vec::new();
        messages.push(String::from_str(text));
        ScriptOutput { messages, announcements: Vec::new() }
    }

    /// Appends one message addressed to the invoker.
    pub fn push_message(&mut self, text: String)
        ensures
            final(self).messages@ == old(self).messages@.push(text),
            final(self).announcements@ == old(self).announcements@,
    {
        self.messages.push(text);
    }

    /// Appends one server-wide announcement.
    pub fn push_announcement(&mut self, text: String)
        ensures
            final(self).messages@ == old(self).messages@,
            final(self).announcements@ == old(self).announcements@.push(text),
    {
        self.announcements.push(text);
    }
}

/// A value as the script engine passes it around.
#[derive(Clone, Debug)]
pub enum ScriptValue {
    Unit,
    Str(String),
    Int(i64),
    Bool(bool),
    Other,
}

/// The script attempted to store a value of an unsupported type; the write is
/// dropped and the run goes on.
#[derive(Clone, Copy, Debug, PartialEq, Eq)]
pub struct InvalidValueFault;

impl InvalidValueFault {
    /// The wording reported inside the script run.
    pub fn text(&self) -> (r: String)
        ensures
            r@ == "invalid value type"@,
    {
        String::from_str("invalid value type")
    }
}

/// What a script's field write means for the store.  The host stages these
/// during a run and commits the whole batch only when the run completes
/// without a storage fault.
#[derive(Clone, Debug)]
pub enum FieldWrite {
    Delete,
    Store(Value),
}

/// Coerces a stored value into the script's world: a field read.
pub fn script_of_value(v: Value) -> (r: ScriptValue)
    ensures
        match v@ {
            ValueModel::Str(s) => r matches ScriptValue::Str(t) && t@ == s,
            ValueModel::Int(i) => r matches ScriptValue::Int(j) && j as int == i,
            ValueModel::Bool(b) => r matches ScriptValue::Bool(c) && c == b,
        },
{
    match v {
        Value::String(s) => ScriptValue::Str(s),
        Value::Integer(i) => ScriptValue::Int(i),
        Value::Bool(b) => ScriptValue::Bool(b),
    }
}

/// Coerces a script value into a field write: the unit value deletes the
/// field, a string, integer or boolean stores, and anything else is rejected
/// so that the write does not occur.
pub fn write_of_script(v: ScriptValue) -> (r: Result<FieldWrite, InvalidValueFault>)
    ensures
        match v {
            ScriptValue::Unit => r matches Ok(w) && w is Delete,
            ScriptValue::Str(s) => r matches Ok(w) && (w matches FieldWrite::Store(val) && val@
                == ValueModel::Str(s@)),
            ScriptValue::Int(i) => r matches Ok(w) && (w matches FieldWrite::Store(val) && val@
                == ValueModel::Int(i as int)),
            ScriptValue::Bool(b) => r matches Ok(w) && (w matches FieldWrite::Store(val) && val@
                == ValueModel::Bool(b)),
            ScriptValue::Other => r is Err,
        },
{
    match v {
        ScriptValue::Unit => Ok(FieldWrite::Delete),
        ScriptValue::Str(s) => Ok(FieldWrite::Store(Value::String(s))),
        ScriptValue::Int(i) => Ok(FieldWrite::Store(Value::Integer(i))),
        ScriptValue::Bool(b) => Ok(FieldWrite::Store(Value::Bool(b))),
        ScriptValue::Other => Err(InvalidValueFault),
    }
}

/// What invoking a field comes to.
#[derive(Debug)]
pub enum VerbDecision {
    Reply(ScriptOutput),
    Run(String),
}

/// Decides a verb lookup: an absent field is no verb, a non-string field is
/// not executable, and only a string field opens a script run on its source.
pub fn verb_lookup(stored: Option<Value>) -> (r: VerbDecision)
    ensures
        match stored {
            None => r matches VerbDecision::Reply(o) && o.messages@.len() == 1 && o.messages@[0]@
                == "no such verb"@ && o.announcements@.len() == 0,
            Some(v) => match v@ {
                ValueModel::Str(s) => r matches VerbDecision::Run(src) && src@ == s,
                _ => r matches VerbDecision::Reply(o) && o.messages@.len() == 1 && o.messages@[0]@
                    == "field is not executable"@ && o.announcements@.len() == 0,
            },
        },
{
    match stored {
        None => VerbDecision::Reply(ScriptOutput::message("no such verb")),
        Some(Value::String(src)) => VerbDecision::Run(src),
        Some(_) => VerbDecision::Reply(ScriptOutput::message("field is not executable")),
    }
}

/// Ends one run.  A storage fault aborts it: no output comes back, and the
/// caller must discard the run's staged writes, so nothing commits.  A fault
/// in the script itself does not abort: the buffered output gains one
/// diagnostic line and the run completes normally, so whatever field writes
/// the script already made still commit.
pub fn complete_run(
    output: ScriptOutput,
    storage_fault: Option<StorageFault>,
    script_error: Option<String>,
) -> (r: Result<ScriptOutput, StorageFault>)
    ensures
        match storage_fault {
            Some(f) => r == Err::<ScriptOutput, StorageFault>(f),
            None => r matches Ok(out) && out.announcements@ == output.announcements@ && match
                script_error {
                None => out.messages@ == output.messages@,
                Some(e) => out.messages@.len() == output.messages@.len() + 1 && (forall|i: int|
                    0 <= i < output.messages@.len() ==> out.messages@[i] == output.messages@[i])
                    && out.messages@.last()@ == "script error: "@ + e@,
            },
        },
{
    if let Some(f) = storage_fault {
        return Err(f);
    }
    let mut out = output;
    if let Some(e) = script_error {
        let mut diag = String::from_str("script error: ");
        proof {
            reveal_strlit("script error: ");
        }
        diag.append(e.as_str());
        out.messages.push(diag);
    }
    Ok(out)
}

} // verus!
