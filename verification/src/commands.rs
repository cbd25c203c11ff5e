//! The built-in commands, their exact replies, and the line dispatcher.
//!
//! A line names either one of the closed set of built-ins below, which touch
//! the store directly, or — when the name is unknown — a verb to be looked up
//! on the invoker's own object.  Each command's reply is pinned down by a
//! reply predicate over the store's model, and the dispatcher composes them.

use vstd::prelude::*;
use vstd::string::StrSliceExecFns;
use vstd::string::StringExecFns;
use crate::args::ArgModel;
use crate::args::Arguments;
use crate::args::CommandError;
use crate::args::error_message;
use crate::args::lex;
use crate::codec::format_i64;
use crate::codec::int_chars;
use crate::codec::json_decode;
use crate::codec::value_json;
use crate::numbers::dec_digits;
use crate::numbers::format_dec;
use crate::script::ScriptOutput;
use crate::store::counter_of;
use crate::store::create_partial;
use crate::store::create_post;
use crate::store::destroy_partial;
use crate::store::destroy_post;
use crate::store::field_of;
use crate::store::has_obj;
use crate::store::list_ok;
use crate::store::set_post;
use crate::store::show_ok;
use crate::store::State;
use crate::store::StorageFault;
use crate::store::StoreModel;
use crate::text::push_char;
use crate::text::str_eq;
use crate::text::str_to_chars;
use crate::text::chars_range_to_string;
use crate::value::Value;
use crate::value::ValueModel;

verus! {

/// The closed set of built-in commands.
#[derive(Clone, Copy, Debug, PartialEq, Eq, Structural)]
pub enum Command {
    Say,
    Help,
    Create,
    Destroy,
    List,
    Show,
    SetField,
    Get,
}

/// Why a command could not run: its arguments, or the store.
#[derive(Debug)]
pub enum CommandFault {
    Argument(CommandError),
    Storage(StorageFault),
}

/// The command table.
pub open spec fn lookup_spec(name: Seq<char>) -> Option<Command> {
    if name == "say"@ {
        Some(Command::Say)
    } else if name == "help"@ {
        Some(Command::Help)
    } else if name == "@create"@ {
        Some(Command::Create)
    } else if name == "@destroy"@ {
        Some(Command::Destroy)
    } else if name == "@list"@ {
        Some(Command::List)
    } else if name == "@show"@ {
        Some(Command::Show)
    } else if name == "@set"@ {
        Some(Command::SetField)
    } else if name == "@get"@ {
        Some(Command::Get)
    } else {
        None
    }
}

/// Resolves a command name against the table.
pub fn lookup(name: &str) -> (r: Option<Command>)
    ensures
        r == lookup_spec(name@),
{
    if str_eq(name, "say") {
        Some(Command::Say)
    } else if str_eq(name, "help") {
        Some(Command::Help)
    } else if str_eq(name, "@create") {
        Some(Command::Create)
    } else if str_eq(name, "@destroy") {
        Some(Command::Destroy)
    } else if str_eq(name, "@list") {
        Some(Command::List)
    } else if str_eq(name, "@show") {
        Some(Command::Show)
    } else if str_eq(name, "@set") {
        Some(Command::SetField)
    } else if str_eq(name, "@get") {
        Some(Command::Get)
    } else {
        None
    }
}

/// A field's stored value, decoded.
pub open spec fn decoded_field(m: StoreModel, id: nat, f: Seq<char>) -> Option<ValueModel> {
    match field_of(m, id, f) {
        Some(enc) => json_decode(enc),
        None => None,
    }
}

/// The object's name, where its `name` field holds a string.
pub open spec fn name_of(m: StoreModel, id: nat) -> Option<Seq<char>> {
    match decoded_field(m, id, "name"@) {
        Some(ValueModel::Str(s)) => Some(s),
        _ => None,
    }
}

/// How an anonymous object is referred to.
pub open spec fn hash_id(id: nat) -> Seq<char> {
    seq!['#'] + dec_digits(id)
}

/// Who a `say` is attributed to: the object's name, or its hash-id.
pub open spec fn speaker_name(m: StoreModel, invoker: nat) -> Seq<char> {
    match name_of(m, invoker) {
        Some(s) => s,
        None => hash_id(invoker),
    }
}

/// The announcement a `say` publishes.
pub open spec fn say_line(m: StoreModel, invoker: nat, text: Seq<char>) -> Seq<char> {
    speaker_name(m, invoker) + " says: "@ + text
}

/// A string as the standard Debug formatting renders it: double-quoted,
/// escaped text, a function of the characters alone.
pub uninterp spec fn debug_quoted(s: Seq<char>) -> Seq<char>;

/// Relies on the Debug formatting of str: its double-quoted, escaped
/// rendering depends on the characters alone.
#[verifier::external_body]
fn quote_debug(s: &str) -> (r: String)
    ensures
        r@ == debug_quoted(s@),
{
    format!("{:?}", s)
}

/// How a value reads in a field listing: strings quoted, the rest plain.
pub open spec fn value_display(v: ValueModel) -> Seq<char> {
    match v {
        ValueModel::Str(s) => debug_quoted(s),
        ValueModel::Int(i) => int_chars(i),
        ValueModel::Bool(b) => if b {
            "true"@
        } else {
            "false"@
        },
    }
}

/// How a value reads in a `@get` reply: tagged with its variant.
pub open spec fn value_debug(v: ValueModel) -> Seq<char> {
    match v {
        ValueModel::Str(s) => "String("@ + debug_quoted(s) + ")"@,
        ValueModel::Int(i) => "Integer("@ + int_chars(i) + ")"@,
        ValueModel::Bool(b) => if b {
            "Bool(true)"@
        } else {
            "Bool(false)"@
        },
    }
}

/// Renders a value for a field listing.
pub fn display_value(v: &Value) -> (r: String)
    ensures
        r@ == value_display(v@),
{
    match v {
        Value::String(s) => quote_debug(s.as_str()),
        Value::Integer(i) => format_i64(*i),
        Value::Bool(b) => {
            if *b {
                let r = String::from_str("true");
                r
            } else {
                let r = String::from_str("false");
                r
            }
        },
    }
}

/// Renders a value for a `@get` reply.
pub fn debug_value(v: &Value) -> (r: String)
    ensures
        r@ == value_debug(v@),
{
    match v {
        Value::String(s) => {
            let mut r = String::from_str("String(");
            proof {
                reveal_strlit("String(");
                reveal_strlit(")");
            }
            let q = quote_debug(s.as_str());
            r.append(q.as_str());
            r.append(")");
            r
        },
        Value::Integer(i) => {
            let mut r = String::from_str("Integer(");
            proof {
                reveal_strlit("Integer(");
                reveal_strlit(")");
            }
            let d = format_i64(*i);
            r.append(d.as_str());
            r.append(")");
            r
        },
        Value::Bool(b) => {
            if *b {
                String::from_str("Bool(true)")
            } else {
                String::from_str("Bool(false)")
            }
        },
    }
}

/// A run of spaces.
pub open spec fn spaces(n: nat) -> Seq<char> {
    Seq::new(n, |i: int| ' ')
}

/// Left-justified padding to a minimum width.
pub open spec fn pad_to(s: Seq<char>, w: nat) -> Seq<char> {
    if s.len() >= w {
        s
    } else {
        s + spaces((w - s.len()) as nat)
    }
}

/// Appends text left-justified in a minimum width.
fn append_padded(out: &mut String, s: &str, w: usize)
    ensures
        final(out)@ == old(out)@ + pad_to(s@, w as nat),
{
    out.append(s);
    let mut l = s.unicode_len();
    let ghost dl = s@.len();
    assert(spaces(0) =~= Seq::<char>::empty());
    assert(out@ =~= old(out)@ + s@ + spaces(0));
    while l < w
        invariant
            dl <= l,
            dl == s@.len(),
            l <= w || l == dl,
            out@ == old(out)@ + s@ + spaces((l - dl) as nat),
        decreases w - l,
    {
        push_char(out, ' ');
        proof {
            assert(spaces((l - dl) as nat).push(' ') =~= spaces((l + 1 - dl) as nat));
            assert(out@ =~= old(out)@ + s@ + spaces((l + 1 - dl) as nat));
        }
        l = l + 1;
    }
    proof {
        if dl >= w as nat {
            assert(spaces((l - dl) as nat) =~= Seq::<char>::empty());
            assert(out@ =~= old(out)@ + pad_to(s@, w as nat));
        } else {
            assert(l == w);
            assert(out@ =~= old(out)@ + pad_to(s@, w as nat));
        }
    }
}

/// What a failed id argument looks like.
pub open spec fn id_fault(a: Seq<ArgModel>, index: int, e: CommandError) -> bool {
    match e {
        CommandError::MissingArgument { index: i } => i == index && a.len() <= index,
        CommandError::InvalidArgument { index: i, expected } => i == index && index < a.len() && (
        match a[index] {
            ArgModel::Int(n) => !(0 <= n <= usize::MAX) && expected@ == "object ID"@,
            _ => expected@ == "integer"@,
        }),
    }
}

/// What a failed identifier argument looks like.
pub open spec fn ident_fault(a: Seq<ArgModel>, index: int, e: CommandError) -> bool {
    match e {
        CommandError::MissingArgument { index: i } => i == index && a.len() <= index,
        CommandError::InvalidArgument { index: i, expected } => i == index && index < a.len()
            && !(a[index] is Ident) && expected@ == "identifier"@,
    }
}

/// What a failed string argument looks like.
pub open spec fn string_fault(a: Seq<ArgModel>, index: int, e: CommandError) -> bool {
    match e {
        CommandError::MissingArgument { index: i } => i == index && a.len() <= index,
        CommandError::InvalidArgument { index: i, expected } => i == index && index < a.len()
            && !(a[index] is Str) && expected@ == "string"@,
    }
}

/// What a failed value argument looks like.
pub open spec fn value_fault(a: Seq<ArgModel>, index: int, e: CommandError) -> bool {
    match e {
        CommandError::MissingArgument { index: i } => i == index && a.len() <= index,
        CommandError::InvalidArgument { index: i, expected } => i == index && index < a.len()
            && a[index] is Ident && expected@ == "value"@,
    }
}

/// The storable value an argument stands for, if any.
pub open spec fn value_of_arg(a: ArgModel) -> Option<ValueModel> {
    match a {
        ArgModel::Int(i) => Some(ValueModel::Int(i)),
        ArgModel::Bool(b) => Some(ValueModel::Bool(b)),
        ArgModel::Str(s) => Some(ValueModel::Str(s)),
        ArgModel::Ident(_) => None,
    }
}

/// `say` publishes one announcement attributing the text to the invoker.
pub open spec fn say_reply(
    pre: StoreModel,
    post: StoreModel,
    invoker: nat,
    a: Seq<ArgModel>,
    out: ScriptOutput,
) -> bool {
    &&& post == pre
    &&& out.messages@.len() == 0
    &&& out.announcements@.len() == 1
    &&& 0 < a.len()
    &&& (a[0] matches ArgModel::Str(text) && out.announcements@[0]@ == say_line(
        pre,
        invoker,
        text,
    ))
}

/// `help` lists the command names, sorted.
pub open spec fn help_reply(pre: StoreModel, post: StoreModel, out: ScriptOutput) -> bool {
    &&& post == pre
    &&& out.announcements@.len() == 0
    &&& out.messages@.len() == 9
    &&& out.messages@[0]@ == "Available commands:"@
    &&& out.messages@[1]@ == "    @create"@
    &&& out.messages@[2]@ == "    @destroy"@
    &&& out.messages@[3]@ == "    @get"@
    &&& out.messages@[4]@ == "    @list"@
    &&& out.messages@[5]@ == "    @set"@
    &&& out.messages@[6]@ == "    @show"@
    &&& out.messages@[7]@ == "    help"@
    &&& out.messages@[8]@ == "    say"@
}

/// `@create` allocates one object and reports its id.
pub open spec fn create_reply(pre: StoreModel, post: StoreModel, out: ScriptOutput) -> bool {
    &&& post == create_post(pre)
    &&& out.announcements@.len() == 0
    &&& out.messages@.len() == 1
    &&& out.messages@[0]@ == "created object #"@ + dec_digits(counter_of(pre))
}

/// `@destroy` removes the object if it exists, and says which happened.
pub open spec fn destroy_reply(
    pre: StoreModel,
    post: StoreModel,
    a: Seq<ArgModel>,
    out: ScriptOutput,
) -> bool {
    &&& out.announcements@.len() == 0
    &&& out.messages@.len() == 1
    &&& 0 < a.len()
    &&& (a[0] matches ArgModel::Int(n) && 0 <= n <= usize::MAX && if has_obj(pre, n as nat) {
        post == destroy_post(pre, n as nat) && out.messages@[0]@ == "success"@
    } else {
        post == pre && out.messages@[0]@ == "no such object"@
    })
}

/// One line of a `@list` reply.
pub open spec fn list_line(m: StoreModel, id: nat) -> Seq<char> {
    match name_of(m, id) {
        Some(nm) => "    #"@ + pad_to(dec_digits(id), 4) + " ("@ + nm + ")"@,
        None => "    #"@ + dec_digits(id),
    }
}

/// `@list` reports every existing object, in id-text order.
pub open spec fn list_reply(pre: StoreModel, post: StoreModel, out: ScriptOutput) -> bool {
    &&& post == pre
    &&& out.announcements@.len() == 0
    &&& out.messages@.len() >= 1
    &&& out.messages@[0]@ == "Objects:"@
    &&& exists|ids: Seq<usize>|
        #![trigger list_ok(pre, ids)]
        {
            &&& list_ok(pre, ids)
            &&& out.messages@.len() == ids.len() + 1
            &&& forall|i: int|
                0 <= i < ids.len() ==> out.messages@[i + 1]@ == list_line(pre, ids[i] as nat)
        }
}

/// One line of a `@show` reply.
pub open spec fn show_line(name: Seq<char>, v: ValueModel) -> Seq<char> {
    "    "@ + pad_to(name, 20) + value_display(v)
}

/// `@show` reports every field of one existing object, in name order.
pub open spec fn show_reply(
    pre: StoreModel,
    post: StoreModel,
    a: Seq<ArgModel>,
    out: ScriptOutput,
) -> bool {
    &&& post == pre
    &&& out.announcements@.len() == 0
    &&& 0 < a.len()
    &&& (a[0] matches ArgModel::Int(n) && 0 <= n <= usize::MAX && if !has_obj(pre, n as nat) {
        out.messages@.len() == 1 && out.messages@[0]@ == "no such object"@
    } else {
        &&& out.messages@.len() >= 1
        &&& out.messages@[0]@ == "Fields on object #"@ + dec_digits(n as nat)
        &&& exists|fields: Seq<(String, Value)>|
            #![trigger show_ok(pre, n as nat, fields)]
            {
                &&& show_ok(pre, n as nat, fields)
                &&& out.messages@.len() == fields.len() + 1
                &&& forall|i: int|
                    0 <= i < fields.len() ==> out.messages@[i + 1]@ == show_line(
                        fields[i].0@,
                        fields[i].1@,
                    )
            }
    })
}

/// `@set` writes one field of an existing object, silently; a missing object
/// is reported and nothing is written.
pub open spec fn set_reply(
    pre: StoreModel,
    post: StoreModel,
    a: Seq<ArgModel>,
    out: ScriptOutput,
) -> bool {
    &&& out.announcements@.len() == 0
    &&& 2 < a.len()
    &&& (a[0] matches ArgModel::Int(n) && 0 <= n <= usize::MAX && (a[1] matches ArgModel::Ident(f)
        && (value_of_arg(a[2]) matches Some(vm) && if has_obj(pre, n as nat) {
        post == set_post(pre, n as nat, f, value_json(vm)) && out.messages@.len() == 0
    } else {
        post == pre && out.messages@.len() == 1 && out.messages@[0]@ == "No such object"@
    })))
}

/// The reply line of a `@get`.
pub open spec fn get_line(m: StoreModel, id: nat, f: Seq<char>) -> Seq<char> {
    match decoded_field(m, id, f) {
        Some(vm) => "value: "@ + value_debug(vm),
        None => "value: <none>"@,
    }
}

/// `@get` reads one field and reports its value, or its absence.
pub open spec fn get_reply(
    pre: StoreModel,
    post: StoreModel,
    a: Seq<ArgModel>,
    out: ScriptOutput,
) -> bool {
    &&& post == pre
    &&& out.announcements@.len() == 0
    &&& out.messages@.len() == 1
    &&& 1 < a.len()
    &&& (a[0] matches ArgModel::Int(n) && 0 <= n <= usize::MAX && (a[1] matches ArgModel::Ident(f)
        && out.messages@[0]@ == get_line(pre, n as nat, f)))
}

/// The reply of one command on one parsed argument list.
pub open spec fn dispatch_reply(
    cmd: Command,
    pre: StoreModel,
    post: StoreModel,
    invoker: nat,
    a: Seq<ArgModel>,
    out: ScriptOutput,
) -> bool {
    match cmd {
        Command::Say => say_reply(pre, post, invoker, a, out),
        Command::Help => help_reply(pre, post, out),
        Command::Create => create_reply(pre, post, out),
        Command::Destroy => destroy_reply(pre, post, a, out),
        Command::List => list_reply(pre, post, out),
        Command::Show => show_reply(pre, post, a, out),
        Command::SetField => set_reply(pre, post, a, out),
        Command::Get => get_reply(pre, post, a, out),
    }
}

/// Whether the parsed arguments fit what the command consumes; exactly when
/// they do not, the command reports an argument fault instead of running.
pub open spec fn args_ok(cmd: Command, a: Seq<ArgModel>) -> bool {
    match cmd {
        Command::Say => 0 < a.len() && a[0] is Str,
        Command::Help => true,
        Command::Create => true,
        Command::Destroy => id_arg_ok(a),
        Command::List => true,
        Command::Show => id_arg_ok(a),
        Command::SetField => id_arg_ok(a) && ident_arg_ok(a) && 2 < a.len() && value_of_arg(a[2])
            is Some,
        Command::Get => id_arg_ok(a) && ident_arg_ok(a),
    }
}

/// What a storage fault can have left behind, per command and argument list.
pub open spec fn storage_fault_post(
    cmd: Command,
    pre: StoreModel,
    post: StoreModel,
    a: Seq<ArgModel>,
) -> bool {
    match cmd {
        Command::Create => create_partial(pre, post),
        Command::Destroy => destroy_partial(pre, post, spec_arg_id(a, 0)),
        Command::SetField => post == pre || post == set_post(
            pre,
            spec_arg_id(a, 0),
            spec_arg_ident(a, 1),
            value_json(spec_arg_value(a, 2)),
        ),
        _ => post == pre,
    }
}

/// The `say` command: announce the text, attributed to the invoker.
pub fn say(state: &mut State, invoker: usize, args: &Arguments) -> (r: Result<
    ScriptOutput,
    CommandFault,
>)
    ensures
        match r {
            Ok(out) => say_reply(old(state).model(), final(state).model(), invoker as nat, args@,
                out),
            Err(CommandFault::Argument(e)) => final(state).model() == old(state).model()
                && string_fault(args@, 0, e),
            Err(CommandFault::Storage(_)) => final(state).model() == old(state).model(),
        },
        !(0 < args@.len() && args@[0] is Str) ==> (r matches Err(CommandFault::Argument(e))
            && string_fault(args@, 0, e)),
{
    let text = match args.get_string(0) {
        Ok(t) => t,
        Err(e) => {
            return Err(CommandFault::Argument(e));
        },
    };
    let named = match state.get(invoker, "name") {
        Ok(v) => v,
        Err(f) => {
            return Err(CommandFault::Storage(f));
        },
    };
    let mut who: String;
    match named {
        Some(val) => {
            match val.as_string() {
                Some(s) => {
                    who = s.clone();
                },
                None => {
                    who = hash_of(invoker);
                },
            }
        },
        None => {
            who = hash_of(invoker);
        },
    }
    proof {
        assert(who@ == speaker_name(state.model(), invoker as nat));
    }
    who.append(" says: ");
    proof {
        reveal_strlit(" says: ");
    }
    who.append(text.as_str());
    let mut out = ScriptOutput::new();
    out.push_announcement(who);
    Ok(out)
}

/// Renders `#id`.
fn hash_of(id: usize) -> (r: String)
    ensures
        r@ == hash_id(id as nat),
{
    let mut r = String::from_str("#");
    proof {
        reveal_strlit("#");
        assert("#"@ =~= seq!['#']);
    }
    let digits = format_dec(id as u64);
    r.append(digits.as_str());
    r
}

/// The `help` command: the available command names.
pub fn help(_args: &Arguments) -> (r: ScriptOutput)
    ensures
        forall|pre: StoreModel| help_reply(pre, pre, r),
{
    let mut out = ScriptOutput::new();
    out.push_message(String::from_str("Available commands:"));
    out.push_message(String::from_str("    @create"));
    out.push_message(String::from_str("    @destroy"));
    out.push_message(String::from_str("    @get"));
    out.push_message(String::from_str("    @list"));
    out.push_message(String::from_str("    @set"));
    out.push_message(String::from_str("    @show"));
    out.push_message(String::from_str("    help"));
    out.push_message(String::from_str("    say"));
    out
}

/// The `@create` command: allocate an object and report its id.
pub fn create(state: &mut State, _args: &Arguments) -> (r: Result<ScriptOutput, CommandFault>)
    ensures
        match r {
            Ok(out) => create_reply(old(state).model(), final(state).model(), out),
            Err(f) => f is Storage && create_partial(old(state).model(), final(state).model()),
        },
{
    let id = match state.create() {
        Ok(id) => id,
        Err(f) => {
            return Err(CommandFault::Storage(f));
        },
    };
    let mut msg = String::from_str("created object #");
    proof {
        reveal_strlit("created object #");
    }
    let digits = format_dec(id as u64);
    msg.append(digits.as_str());
    let mut out = ScriptOutput::new();
    out.push_message(msg);
    Ok(out)
}

/// The `@destroy` command: remove an object, and say whether it existed.
pub fn destroy(state: &mut State, args: &Arguments) -> (r: Result<ScriptOutput, CommandFault>)
    ensures
        match r {
            Ok(out) => destroy_reply(old(state).model(), final(state).model(), args@, out),
            Err(CommandFault::Argument(e)) => final(state).model() == old(state).model()
                && id_fault(args@, 0, e),
            Err(CommandFault::Storage(_)) => destroy_partial(
                old(state).model(),
                final(state).model(),
                spec_arg_id(args@, 0),
            ),
        },
        !id_arg_ok(args@) ==> (r matches Err(CommandFault::Argument(e)) && id_fault(
            args@,
            0,
            e,
        )),
{
    let id = match args.get_id(0) {
        Ok(id) => id,
        Err(e) => {
            return Err(CommandFault::Argument(e));
        },
    };
    let won = match state.destroy(id) {
        Ok(b) => b,
        Err(f) => {
            return Err(CommandFault::Storage(f));
        },
    };
    if won {
        Ok(ScriptOutput::message("success"))
    } else {
        Ok(ScriptOutput::message("no such object"))
    }
}

/// The id an argument names, for stating what a fault can have touched.
pub open spec fn spec_arg_id(a: Seq<ArgModel>, i: int) -> nat {
    if 0 <= i < a.len() {
        match a[i] {
            ArgModel::Int(n) => if 0 <= n {
                n as nat
            } else {
                0
            },
            _ => 0,
        }
    } else {
        0
    }
}

/// The field name an argument names, for stating what a fault can have
/// touched.
pub open spec fn spec_arg_ident(a: Seq<ArgModel>, i: int) -> Seq<char> {
    if 0 <= i < a.len() {
        match a[i] {
            ArgModel::Ident(f) => f,
            _ => Seq::empty(),
        }
    } else {
        Seq::empty()
    }
}

/// The storable value an argument names, for stating what a fault can have
/// touched.
pub open spec fn spec_arg_value(a: Seq<ArgModel>, i: int) -> ValueModel {
    if 0 <= i < a.len() {
        match value_of_arg(a[i]) {
            Some(vm) => vm,
            None => ValueModel::Bool(false),
        }
    } else {
        ValueModel::Bool(false)
    }
}

/// The `@list` command: every object, one line each.
pub fn list(state: &mut State, _args: &Arguments) -> (r: Result<ScriptOutput, CommandFault>)
    ensures
        match r {
            Ok(out) => list_reply(old(state).model(), final(state).model(), out),
            Err(f) => f is Storage && final(state).model() == old(state).model(),
        },
{
    let ghost m = state.model();
    let ids = match state.list() {
        Ok(v) => v,
        Err(f) => {
            return Err(CommandFault::Storage(f));
        },
    };
    let mut out = ScriptOutput::new();
    out.push_message(String::from_str("Objects:"));
    proof {
        reveal_strlit("Objects:");
    }
    let n = ids.len();
    let mut i: usize = 0;
    while i < n
        invariant
            i <= n,
            n == ids@.len(),
            m == state.model(),
            m == old(state).model(),
            list_ok(m, ids@),
            out.announcements@.len() == 0,
            out.messages@.len() == i + 1,
            out.messages@[0]@ == "Objects:"@,
            forall|j: int| 0 <= j < i ==> out.messages@[j + 1]@ == list_line(m, ids@[j] as nat),
        decreases n - i,
    {
        let id = ids[i];
        let named = match state.get(id, "name") {
            Ok(v) => v,
            Err(f) => {
                return Err(CommandFault::Storage(f));
            },
        };
        let mut line = String::from_str("    #");
        proof {
            reveal_strlit("    #");
        }
        let digits = format_dec(id as u64);
        let mut with_name: Option<String> = None;
        match named {
            Some(val) => {
                match val.as_string() {
                    Some(s) => {
                        with_name = Some(s.clone());
                    },
                    None => {},
                }
            },
            None => {},
        }
        match with_name {
            Some(nm) => {
                proof {
                    assert(name_of(m, id as nat) == Some(nm@));
                }
                append_padded(&mut line, digits.as_str(), 4);
                line.append(" (");
                proof {
                    reveal_strlit(" (");
                    reveal_strlit(")");
                }
                line.append(nm.as_str());
                line.append(")");
                assert(line@ =~= list_line(m, id as nat));
            },
            None => {
                proof {
                    assert(name_of(m, id as nat) is None);
                }
                line.append(digits.as_str());
                assert(line@ =~= list_line(m, id as nat));
            },
        }
        out.push_message(line);
        i = i + 1;
    }
    proof {
        assert(list_reply(old(state).model(), state.model(), out));
    }
    Ok(out)
}

/// The `@show` command: every field of one object, one line each.
pub fn show(state: &mut State, args: &Arguments) -> (r: Result<ScriptOutput, CommandFault>)
    ensures
        match r {
            Ok(out) => show_reply(old(state).model(), final(state).model(), args@, out),
            Err(CommandFault::Argument(e)) => final(state).model() == old(state).model()
                && id_fault(args@, 0, e),
            Err(CommandFault::Storage(_)) => final(state).model() == old(state).model(),
        },
        !id_arg_ok(args@) ==> (r matches Err(CommandFault::Argument(e)) && id_fault(
            args@,
            0,
            e,
        )),
{
    let ghost m = state.model();
    let id = match args.get_id(0) {
        Ok(id) => id,
        Err(e) => {
            return Err(CommandFault::Argument(e));
        },
    };
    let present = match state.object_exists(id) {
        Ok(b) => b,
        Err(f) => {
            return Err(CommandFault::Storage(f));
        },
    };
    if !present {
        return Ok(ScriptOutput::message("no such object"));
    }
    let fields = match state.show(id) {
        Ok(v) => v,
        Err(f) => {
            return Err(CommandFault::Storage(f));
        },
    };
    let mut out = ScriptOutput::new();
    let mut header = String::from_str("Fields on object #");
    proof {
        reveal_strlit("Fields on object #");
    }
    let digits = format_dec(id as u64);
    header.append(digits.as_str());
    out.push_message(header);
    let n = fields.len();
    let mut i: usize = 0;
    while i < n
        invariant
            i <= n,
            n == fields@.len(),
            m == state.model(),
            m == old(state).model(),
            show_ok(m, id as nat, fields@),
            out.announcements@.len() == 0,
            out.messages@.len() == i + 1,
            out.messages@[0]@ == "Fields on object #"@ + dec_digits(id as nat),
            forall|j: int|
                0 <= j < i ==> out.messages@[j + 1]@ == show_line(
                    (#[trigger] fields@[j]).0@,
                    fields@[j].1@,
                ),
        decreases n - i,
    {
        let entry = &fields[i];
        let mut line = String::from_str("    ");
        proof {
            reveal_strlit("    ");
        }
        append_padded(&mut line, entry.0.as_str(), 20);
        let shown = display_value(&entry.1);
        line.append(shown.as_str());
        assert(line@ =~= show_line(fields@[i as int].0@, fields@[i as int].1@));
        out.push_message(line);
        i = i + 1;
    }
    proof {
        assert(show_reply(old(state).model(), state.model(), args@, out));
    }
    Ok(out)
}

/// The `@set` command: write one field of an existing object.
pub fn set(state: &mut State, args: &Arguments) -> (r: Result<ScriptOutput, CommandFault>)
    ensures
        match r {
            Ok(out) => set_reply(old(state).model(), final(state).model(), args@, out),
            Err(CommandFault::Argument(e)) => final(state).model() == old(state).model() && (if
            !id_arg_ok(args@) {
                id_fault(args@, 0, e)
            } else if !ident_arg_ok(args@) {
                ident_fault(args@, 1, e)
            } else {
                value_fault(args@, 2, e)
            }),
            Err(CommandFault::Storage(_)) => final(state).model() == old(state).model()
                || final(state).model() == set_post(
                old(state).model(),
                spec_arg_id(args@, 0),
                spec_arg_ident(args@, 1),
                value_json(spec_arg_value(args@, 2)),
            ),
        },
        !(id_arg_ok(args@) && ident_arg_ok(args@) && 2 < args@.len() && value_of_arg(args@[2])
            is Some) ==> r matches Err(CommandFault::Argument(_)),
{
    let id = match args.get_id(0) {
        Ok(id) => id,
        Err(e) => {
            return Err(CommandFault::Argument(e));
        },
    };
    let key = match args.get_ident(1) {
        Ok(k) => k,
        Err(e) => {
            return Err(CommandFault::Argument(e));
        },
    };
    let val = match args.get_value(2) {
        Ok(v) => v,
        Err(e) => {
            return Err(CommandFault::Argument(e));
        },
    };
    let present = match state.object_exists(id) {
        Ok(b) => b,
        Err(f) => {
            return Err(CommandFault::Storage(f));
        },
    };
    if !present {
        return Ok(ScriptOutput::message("No such object"));
    }
    match state.set(id, key.as_str(), val) {
        Ok(_) => Ok(ScriptOutput::new()),
        Err(f) => Err(CommandFault::Storage(f)),
    }
}

/// Whether the first argument is a usable id.
pub open spec fn id_arg_ok(a: Seq<ArgModel>) -> bool {
    0 < a.len() && (a[0] matches ArgModel::Int(n) && 0 <= n <= usize::MAX)
}

/// Whether the second argument is an identifier.
pub open spec fn ident_arg_ok(a: Seq<ArgModel>) -> bool {
    1 < a.len() && a[1] is Ident
}

/// The `@get` command: read one field and report it.
pub fn get(state: &mut State, args: &Arguments) -> (r: Result<ScriptOutput, CommandFault>)
    ensures
        match r {
            Ok(out) => get_reply(old(state).model(), final(state).model(), args@, out),
            Err(CommandFault::Argument(e)) => final(state).model() == old(state).model() && (if
            !id_arg_ok(args@) {
                id_fault(args@, 0, e)
            } else {
                ident_fault(args@, 1, e)
            }),
            Err(CommandFault::Storage(_)) => final(state).model() == old(state).model(),
        },
        !(id_arg_ok(args@) && ident_arg_ok(args@)) ==> r matches Err(CommandFault::Argument(_)),
{
    let id = match args.get_id(0) {
        Ok(id) => id,
        Err(e) => {
            return Err(CommandFault::Argument(e));
        },
    };
    let key = match args.get_ident(1) {
        Ok(k) => k,
        Err(e) => {
            return Err(CommandFault::Argument(e));
        },
    };
    let found = match state.get(id, key.as_str()) {
        Ok(v) => v,
        Err(f) => {
            return Err(CommandFault::Storage(f));
        },
    };
    match found {
        Some(val) => {
            let mut msg = String::from_str("value: ");
            proof {
                reveal_strlit("value: ");
            }
            let shown = debug_value(&val);
            msg.append(shown.as_str());
            Ok(ScriptOutput::message(msg.as_str()))
        },
        None => Ok(ScriptOutput::message("value: <none>")),
    }
}

/// The first space at or after `i`, or the length if none remains.
pub open spec fn space_from(s: Seq<char>, i: int) -> int
    decreases s.len() - i,
{
    if i < 0 || i >= s.len() {
        s.len() as int
    } else if s[i] == ' ' {
        i
    } else {
        space_from(s, i + 1)
    }
}

proof fn lemma_space_from_is(s: Seq<char>, i: int, k: int)
    requires
        0 <= i <= k <= s.len(),
        forall|j: int| i <= j < k ==> (#[trigger] s[j]) != ' ',
        k == s.len() || s[k] == ' ',
    ensures
        space_from(s, i) == k,
    decreases k - i,
{
    if i < k {
        lemma_space_from_is(s, i + 1, k);
    }
}

/// Where the command name ends: at the first space, or the line's end.
pub open spec fn first_space(s: Seq<char>) -> int {
    space_from(s, 0)
}

/// The command name of a line.
pub open spec fn cmd_of(s: Seq<char>) -> Seq<char> {
    s.subrange(0, first_space(s))
}

/// The argument tail of a line.
pub open spec fn rest_of(s: Seq<char>) -> Seq<char> {
    if first_space(s) == s.len() {
        Seq::empty()
    } else {
        s.subrange(first_space(s) + 1, s.len() as int)
    }
}

/// What one line of input comes to: a finished reply, or a verb to run.
#[derive(Debug)]
pub enum LineAction {
    Done(ScriptOutput),
    Verb(String),
}

/// A reply reporting a command error.
pub open spec fn error_reply(out: ScriptOutput) -> bool {
    &&& out.announcements@.len() == 0
    &&& out.messages@.len() == 1
    &&& exists|e: CommandError| out.messages@[0]@ == "error: "@ + #[trigger] error_message(e)
}

/// Runs one built-in command: tokenizes the argument tail, then dispatches.
pub fn exec_command(state: &mut State, invoker: usize, cmd: Command, args_text: &str) -> (r:
    Result<ScriptOutput, CommandFault>)
    ensures
        match r {
            Ok(out) => (lex(args_text@) matches Ok(a) && dispatch_reply(
                cmd,
                old(state).model(),
                final(state).model(),
                invoker as nat,
                a,
                out,
            )),
            Err(CommandFault::Argument(_)) => final(state).model() == old(state).model() && (
            match lex(args_text@) {
                Ok(a) => !args_ok(cmd, a),
                Err(_) => true,
            }),
            Err(CommandFault::Storage(_)) => (lex(args_text@) matches Ok(a)
                && storage_fault_post(cmd, old(state).model(), final(state).model(), a)),
        },
        (match lex(args_text@) {
            Ok(a) => !args_ok(cmd, a),
            Err(_) => true,
        }) ==> r matches Err(CommandFault::Argument(_)),
{
    let args = match Arguments::new(args_text) {
        Ok(a) => a,
        Err(e) => {
            return Err(CommandFault::Argument(e));
        },
    };
    match cmd {
        Command::Say => say(state, invoker, &args),
        Command::Help => Ok(help(&args)),
        Command::Create => create(state, &args),
        Command::Destroy => destroy(state, &args),
        Command::List => list(state, &args),
        Command::Show => show(state, &args),
        Command::SetField => set(state, &args),
        Command::Get => get(state, &args),
    }
}

/// Decides one line of input.  A known command name runs as a built-in, with
/// argument faults turned into an error reply; an unknown name is handed back
/// as a verb to be looked up on the invoker's object.  Only a storage fault
/// escapes.
pub fn on_line(state: &mut State, invoker: usize, line: &str) -> (r: Result<
    LineAction,
    StorageFault,
>)
    ensures
        match r {
            Ok(act) => match act {
                LineAction::Verb(v) => lookup_spec(cmd_of(line@)) is None && v@ == cmd_of(line@)
                    && final(state).model() == old(state).model(),
                LineAction::Done(out) => (lookup_spec(cmd_of(line@)) matches Some(c) && (match
                lex(rest_of(line@)) {
                    Ok(a) => (args_ok(c, a) && dispatch_reply(
                        c,
                        old(state).model(),
                        final(state).model(),
                        invoker as nat,
                        a,
                        out,
                    )) || (!args_ok(c, a) && final(state).model() == old(state).model()
                        && error_reply(out)),
                    Err(_) => final(state).model() == old(state).model() && error_reply(out),
                })),
            },
            Err(_) => (lookup_spec(cmd_of(line@)) matches Some(c) && (lex(rest_of(line@))
                matches Ok(a) && storage_fault_post(
                c,
                old(state).model(),
                final(state).model(),
                a,
            ))),
        },
        (lookup_spec(cmd_of(line@)) matches Some(c) && match lex(rest_of(line@)) {
            Ok(a) => !args_ok(c, a),
            Err(_) => true,
        }) ==> (r matches Ok(act) && (act matches LineAction::Done(out) && error_reply(out)
            && final(state).model() == old(state).model())),
{
    let v = str_to_chars(line);
    let n = v.len();
    let mut p: usize = 0;
    while p < n
        invariant_except_break
            p <= n,
            n == v@.len(),
            forall|j: int| 0 <= j < p ==> (#[trigger] v@[j]) != ' ',
        ensures
            p <= n,
            n == v@.len(),
            forall|j: int| 0 <= j < p ==> (#[trigger] v@[j]) != ' ',
            p == n || v@[p as int] == ' ',
        decreases n - p,
    {
        if v[p] == ' ' {
            break;
        }
        p = p + 1;
    }
    proof {
        lemma_space_from_is(v@, 0, p as int);
    }
    let name = chars_range_to_string(&v, 0, p);
    assert(name@ == cmd_of(line@));
    let rest: String;
    if p < n {
        rest = chars_range_to_string(&v, p + 1, n);
    } else {
        rest = String::new();
    }
    assert(rest@ == rest_of(line@));
    match lookup(name.as_str()) {
        None => Ok(LineAction::Verb(name)),
        Some(c) => {
            match exec_command(state, invoker, c, rest.as_str()) {
                Ok(out) => Ok(LineAction::Done(out)),
                Err(CommandFault::Argument(e)) => {
                    let mut msg = String::from_str("error: ");
                    proof {
                        reveal_strlit("error: ");
                    }
                    let em = e.to_message();
                    msg.append(em.as_str());
                    let out = ScriptOutput::message(msg.as_str());
                    proof {
                        assert(out.messages@[0]@ == "error: "@ + error_message(e));
                    }
                    Ok(LineAction::Done(out))
                },
                Err(CommandFault::Storage(f)) => Err(f),
            }
        },
    }
}

} // verus!
