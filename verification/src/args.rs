//! Typed command arguments, tokenized from the argument tail of a line.
//!
//! The tail is scanned left to right with longest match, skipping runs of
//! spaces: a run of digits is an integer, `"..."` without inner quotes is a
//! string, a run of letters and underscores is an identifier — except the two
//! words `true` and `false`, which are booleans.  Anything else fails the
//! whole parse with the index of the offending token.

use vstd::prelude::*;
use vstd::string::StringExecFns;
use crate::numbers::dec_val;
use crate::numbers::is_digit;
use crate::numbers::parse_digits_u64;
use crate::text::chars_range_to_string;
use crate::text::str_to_chars;
use crate::value::Value;
use crate::value::ValueModel;

verus! {

/// A fault in a command's arguments: one is missing, or one has the wrong
/// shape.
#[derive(Clone, Debug, PartialEq)]
pub enum CommandError {
    MissingArgument { index: usize },
    InvalidArgument { index: usize, expected: String },
}

/// How a command error reads when reported to the session.
pub open spec fn error_message(e: CommandError) -> Seq<char> {
    match e {
        CommandError::MissingArgument { index } => "missing argument at index "@
            + crate::numbers::dec_digits(index as nat),
        CommandError::InvalidArgument { index, expected } => "invalid argument at index "@
            + crate::numbers::dec_digits(index as nat) + " (expected "@ + expected@ + ")"@,
    }
}

impl CommandError {
    /// Renders the fault for the invoking session.
    pub fn to_message(&self) -> (r: String)
        ensures
            r@ == error_message(*self),
    {
        match self {
            CommandError::MissingArgument { index } => {
                let mut r = String::from_str("missing argument at index ");
                proof {
                    reveal_strlit("missing argument at index ");
                }
                let digits = crate::numbers::format_dec(*index as u64);
                r.append(digits.as_str());
                r
            },
            CommandError::InvalidArgument { index, expected } => {
                let mut r = String::from_str("invalid argument at index ");
                proof {
                    reveal_strlit("invalid argument at index ");
                    reveal_strlit(" (expected ");
                    reveal_strlit(")");
                }
                let digits = crate::numbers::format_dec(*index as u64);
                r.append(digits.as_str());
                r.append(" (expected ");
                r.append(expected.as_str());
                r.append(")");
                r
            },
        }
    }
}

pub type CommandResult<T> = Result<T, CommandError>;

/// The shapes a token can take.
#[derive(Clone, Copy, Debug, PartialEq, Eq, Structural)]
pub enum ArgumentKind {
    Integer,
    String,
    Ident,
    False,
    True,
}

/// One typed argument.
#[derive(Clone, Debug, PartialEq)]
pub enum Argument {
    Bool(bool),
    Integer(i64),
    String(String),
    Ident(String),
}

/// The mathematical model of an [Argument].
pub enum ArgModel {
    Bool(bool),
    Int(int),
    Str(Seq<char>),
    Ident(Seq<char>),
}

impl View for Argument {
    type V = ArgModel;

    open spec fn view(&self) -> ArgModel {
        match self {
            Argument::Bool(b) => ArgModel::Bool(*b),
            Argument::Integer(i) => ArgModel::Int(*i as int),
            Argument::String(s) => ArgModel::Str(s@),
            Argument::Ident(s) => ArgModel::Ident(s@),
        }
    }
}

impl Argument {
    /// The token's shape.
    pub open spec fn kind(self) -> ArgumentKind {
        match self {
            Argument::Bool(b) => if b {
                ArgumentKind::True
            } else {
                ArgumentKind::False
            },
            Argument::Integer(_) => ArgumentKind::Integer,
            Argument::String(_) => ArgumentKind::String,
            Argument::Ident(_) => ArgumentKind::Ident,
        }
    }

    /// Reports the token's shape.
    pub fn token_kind(&self) -> (r: ArgumentKind)
        ensures
            r == self.kind(),
    {
        match self {
            Argument::Bool(b) => if *b {
                ArgumentKind::True
            } else {
                ArgumentKind::False
            },
            Argument::Integer(_) => ArgumentKind::Integer,
            Argument::String(_) => ArgumentKind::String,
            Argument::Ident(_) => ArgumentKind::Ident,
        }
    }
}

pub open spec fn is_word_char(c: char) -> bool {
    (97 <= (c as u32) && (c as u32) <= 122) || (65 <= (c as u32) && (c as u32) <= 90) || c == '_'
}

/// The end of the digit run starting at `i`.
pub open spec fn digit_run(s: Seq<char>, i: int) -> int
    decreases s.len() - i,
{
    if i < 0 || i >= s.len() {
        i
    } else if is_digit(s[i]) {
        digit_run(s, i + 1)
    } else {
        i
    }
}

/// The end of the word run starting at `i`.
pub open spec fn word_run(s: Seq<char>, i: int) -> int
    decreases s.len() - i,
{
    if i < 0 || i >= s.len() {
        i
    } else if is_word_char(s[i]) {
        word_run(s, i + 1)
    } else {
        i
    }
}

/// The first quote at or after `i`, or the length if none remains.
pub open spec fn quote_end(s: Seq<char>, i: int) -> int
    decreases s.len() - i,
{
    if i < 0 || i >= s.len() {
        s.len() as int
    } else if s[i] == '"' {
        i
    } else {
        quote_end(s, i + 1)
    }
}

proof fn lemma_digit_run_is(s: Seq<char>, i: int, k: int)
    requires
        0 <= i <= k <= s.len(),
        forall|j: int| i <= j < k ==> is_digit(#[trigger] s[j]),
        k == s.len() || !is_digit(s[k]),
    ensures
        digit_run(s, i) == k,
    decreases k - i,
{
    if i < k {
        lemma_digit_run_is(s, i + 1, k);
    }
}

proof fn lemma_word_run_is(s: Seq<char>, i: int, k: int)
    requires
        0 <= i <= k <= s.len(),
        forall|j: int| i <= j < k ==> is_word_char(#[trigger] s[j]),
        k == s.len() || !is_word_char(s[k]),
    ensures
        word_run(s, i) == k,
    decreases k - i,
{
    if i < k {
        lemma_word_run_is(s, i + 1, k);
    }
}

proof fn lemma_quote_end_is(s: Seq<char>, i: int, k: int)
    requires
        0 <= i <= k <= s.len(),
        forall|j: int| i <= j < k ==> (#[trigger] s[j]) != '"',
        k == s.len() || s[k] == '"',
    ensures
        quote_end(s, i) == k,
    decreases k - i,
{
    if i < k {
        lemma_quote_end_is(s, i + 1, k);
    }
}

proof fn lemma_digit_run_bounds(s: Seq<char>, i: int)
    requires
        0 <= i <= s.len(),
    ensures
        i <= digit_run(s, i) <= s.len(),
    decreases s.len() - i,
{
    if i < s.len() && is_digit(s[i]) {
        lemma_digit_run_bounds(s, i + 1);
    }
}

proof fn lemma_word_run_bounds(s: Seq<char>, i: int)
    requires
        0 <= i <= s.len(),
    ensures
        i <= word_run(s, i) <= s.len(),
    decreases s.len() - i,
{
    if i < s.len() && is_word_char(s[i]) {
        lemma_word_run_bounds(s, i + 1);
    }
}

proof fn lemma_quote_end_bounds(s: Seq<char>, i: int)
    requires
        0 <= i <= s.len(),
    ensures
        i <= quote_end(s, i) <= s.len(),
    decreases s.len() - i,
{
    if i < s.len() && s[i] != '"' {
        lemma_quote_end_bounds(s, i + 1);
    }
}

/// Prepends a recognized token, or counts it in front of a later fault.
pub open spec fn lex_cons(t: ArgModel, r: Result<Seq<ArgModel>, int>) -> Result<
    Seq<ArgModel>,
    int,
> {
    match r {
        Ok(v) => Ok(seq![t] + v),
        Err(i) => Err(i + 1),
    }
}

/// The tokenization of an argument tail: the sequence of typed tokens, or the
/// index of the first token that matches no recognized shape (an integer out
/// of the 64-bit signed range counts as such).
pub open spec fn lex(s: Seq<char>) -> Result<Seq<ArgModel>, int>
    decreases s.len(),
    via lex_decreases
{
    if s.len() == 0 {
        Ok(Seq::empty())
    } else if s[0] == ' ' {
        lex(s.drop_first())
    } else if is_digit(s[0]) {
        let k = digit_run(s, 0);
        let tok = s.subrange(0, k);
        if dec_val(tok) <= i64::MAX {
            lex_cons(ArgModel::Int(dec_val(tok) as int), lex(s.skip(k)))
        } else {
            Err(0)
        }
    } else if s[0] == '"' {
        let q = quote_end(s, 1);
        if q == s.len() {
            Err(0)
        } else {
            lex_cons(ArgModel::Str(s.subrange(1, q)), lex(s.skip(q + 1)))
        }
    } else if is_word_char(s[0]) {
        let k = word_run(s, 0);
        let tok = s.subrange(0, k);
        if tok == seq!['t', 'r', 'u', 'e'] {
            lex_cons(ArgModel::Bool(true), lex(s.skip(k)))
        } else if tok == seq!['f', 'a', 'l', 's', 'e'] {
            lex_cons(ArgModel::Bool(false), lex(s.skip(k)))
        } else {
            lex_cons(ArgModel::Ident(tok), lex(s.skip(k)))
        }
    } else {
        Err(0)
    }
}

#[via_fn]
proof fn lex_decreases(s: Seq<char>) {
    if s.len() > 0 && s[0] != ' ' {
        if is_digit(s[0]) {
            lemma_digit_run_bounds(s, 1);
            assert(digit_run(s, 0) == digit_run(s, 1));
            assert(digit_run(s, 0) >= 1);
        } else if s[0] == '"' {
            lemma_quote_end_bounds(s, 1);
        } else if is_word_char(s[0]) {
            lemma_word_run_bounds(s, 1);
            assert(word_run(s, 0) == word_run(s, 1));
            assert(word_run(s, 0) >= 1);
        }
    }
}

/// After one recognized token, the tokens already collected absorb it.
proof fn lemma_lex_compose(
    prefix: Seq<ArgModel>,
    t: ArgModel,
    whole: Seq<char>,
    rem_r: Result<Seq<ArgModel>, int>,
    next_r: Result<Seq<ArgModel>, int>,
)
    requires
        rem_r == lex_cons(t, next_r),
        lex(whole) == match rem_r {
            Ok(v) => Ok::<Seq<ArgModel>, int>(prefix + v),
            Err(i) => Err::<Seq<ArgModel>, int>(prefix.len() + i),
        },
    ensures
        lex(whole) == match next_r {
            Ok(v) => Ok::<Seq<ArgModel>, int>(prefix.push(t) + v),
            Err(i) => Err::<Seq<ArgModel>, int>(prefix.push(t).len() + i),
        },
{
    match next_r {
        Ok(v) => {
            assert(prefix + (seq![t] + v) =~= prefix.push(t) + v);
        },
        Err(_) => {},
    }
}

/// The typed arguments of one command line.
#[derive(Debug)]
pub struct Arguments(Vec<Argument>);

impl View for Arguments {
    type V = Seq<ArgModel>;

    closed spec fn view(&self) -> Seq<ArgModel> {
        Seq::new(self.0@.len(), |i: int| self.0@[i]@)
    }
}

impl Arguments {
    /// Tokenizes an argument tail; an unrecognized token fails the whole
    /// parse with its index.
    pub fn new(words: &str) -> (r: CommandResult<Arguments>)
        ensures
            match r {
                Ok(args) => lex(words@) == Ok::<Seq<ArgModel>, int>(args@),
                Err(e) => {
                    &&& lex(words@) matches Err(i)
                    &&& e matches CommandError::InvalidArgument { index, expected }
                    &&& lex(words@) == Err::<Seq<ArgModel>, int>(index as int)
                    &&& expected@ == "argument"@
                },
            },
    {
        let v = str_to_chars(words);
        let n = v.len();
        let mut args: Vec<Argument> = Vec::new();
        let mut i: usize = 0;
        proof {
            assert(v@.skip(0) =~= words@);
        }
        while i < n
            invariant
                i <= n,
                n == v@.len(),
                v@ == words@,
                lex(words@) == match lex(v@.skip(i as int)) {
                    Ok(t) => Ok::<Seq<ArgModel>, int>(args_view(args@) + t),
                    Err(k) => Err::<Seq<ArgModel>, int>(args_view(args@).len() + k),
                },
            decreases n - i,
        {
            let ghost rem = v@.skip(i as int);
            let ghost pre = args_view(args@);
            assert(rem[0] == v@[i as int]);
            let c = v[i];
            if c == ' ' {
                proof {
                    assert(rem.drop_first() =~= v@.skip(i + 1 as int));
                }
                i = i + 1;
            } else if crate::numbers::char_to_digit(c).is_some() {
                let mut k: usize = i;
                while k < n
                    invariant_except_break
                        i <= k <= n,
                        n == v@.len(),
                        forall|j: int| i <= j < k ==> is_digit(#[trigger] v@[j]),
                    ensures
                        i <= k <= n,
                        n == v@.len(),
                        forall|j: int| i <= j < k ==> is_digit(#[trigger] v@[j]),
                        k == n || !is_digit(v@[k as int]),
                    decreases n - k,
                {
                    if crate::numbers::char_to_digit(v[k]).is_none() {
                        break;
                    }
                    k = k + 1;
                }
                proof {
                    lemma_digit_run_is(rem, 0, k - i);
                    assert(forall|j: int| 0 <= j < k - i ==> rem[j] == v@[i + j]);
                    assert(k < n ==> rem[k - i] == v@[k as int]);
                    assert(rem.subrange(0, k - i) =~= v@.subrange(i as int, k as int));
                }
                let t: Argument;
                let parsed = parse_digits_u64(&v, i, k);
                match parsed {
                    Some(val) => {
                        if val <= i64::MAX as u64 {
                            t = Argument::Integer(val as i64);
                        } else {
                            proof {
                                assert(lex(rem) == Err::<Seq<ArgModel>, int>(0));
                            }
                            return Err(invalid_token(args.len()));
                        }
                    },
                    None => {
                        proof {
                            assert(lex(rem) == Err::<Seq<ArgModel>, int>(0));
                        }
                        return Err(invalid_token(args.len()));
                    },
                }
                proof {
                    assert(lex(rem) == lex_cons(t@, lex(rem.skip(k - i))));
                    assert(rem.skip(k - i) =~= v@.skip(k as int));
                    lemma_lex_compose(pre, t@, words@, lex(rem), lex(v@.skip(k as int)));
                }
                args.push(t);
                proof {
                    assert(args_view(args@) =~= pre.push(t@));
                }
                i = k;
            } else if c == '"' {
                let mut k: usize = i + 1;
                while k < n
                    invariant_except_break
                        i + 1 <= k <= n,
                        n == v@.len(),
                        forall|j: int| i + 1 <= j < k ==> (#[trigger] v@[j]) != '"',
                    ensures
                        i + 1 <= k <= n,
                        n == v@.len(),
                        forall|j: int| i + 1 <= j < k ==> (#[trigger] v@[j]) != '"',
                        k == n || v@[k as int] == '"',
                    decreases n - k,
                {
                    if v[k] == '"' {
                        break;
                    }
                    k = k + 1;
                }
                proof {
                    lemma_quote_end_is(rem, 1, k - i);
                    assert(forall|j: int| 1 <= j < k - i ==> rem[j] == v@[i + j]);
                    assert(k < n ==> rem[k - i] == v@[k as int]);
                }
                if k == n {
                    proof {
                        assert(lex(rem) == Err::<Seq<ArgModel>, int>(0));
                    }
                    return Err(invalid_token(args.len()));
                }
                let text = chars_range_to_string(&v, i + 1, k);
                let t = Argument::String(text);
                proof {
                    assert(rem.subrange(1, k - i) =~= v@.subrange(i + 1 as int, k as int));
                    assert(lex(rem) == lex_cons(t@, lex(rem.skip(k - i + 1))));
                    assert(rem.skip(k - i + 1) =~= v@.skip(k + 1 as int));
                    lemma_lex_compose(pre, t@, words@, lex(rem), lex(v@.skip(k + 1 as int)));
                }
                args.push(t);
                proof {
                    assert(args_view(args@) =~= pre.push(t@));
                }
                i = k + 1;
            } else if is_word_char_exec(c) {
                let mut k: usize = i;
                while k < n
                    invariant_except_break
                        i <= k <= n,
                        n == v@.len(),
                        forall|j: int| i <= j < k ==> is_word_char(#[trigger] v@[j]),
                    ensures
                        i <= k <= n,
                        n == v@.len(),
                        forall|j: int| i <= j < k ==> is_word_char(#[trigger] v@[j]),
                        k == n || !is_word_char(v@[k as int]),
                    decreases n - k,
                {
                    if !is_word_char_exec(v[k]) {
                        break;
                    }
                    k = k + 1;
                }
                proof {
                    lemma_word_run_is(rem, 0, k - i);
                    assert(forall|j: int| 0 <= j < k - i ==> rem[j] == v@[i + j]);
                    assert(k < n ==> rem[k - i] == v@[k as int]);
                    assert(rem.subrange(0, k - i) =~= v@.subrange(i as int, k as int));
                }
                let word = chars_range_to_string(&v, i, k);
                let t: Argument;
                proof {
                    reveal_strlit("true");
                    reveal_strlit("false");
                    assert("true"@ =~= seq!['t', 'r', 'u', 'e']);
                    assert("false"@ =~= seq!['f', 'a', 'l', 's', 'e']);
                }
                if crate::text::str_eq(word.as_str(), "true") {
                    assert(word@ == seq!['t', 'r', 'u', 'e']);
                    t = Argument::Bool(true);
                } else if crate::text::str_eq(word.as_str(), "false") {
                    assert(word@ == seq!['f', 'a', 'l', 's', 'e']);
                    t = Argument::Bool(false);
                } else {
                    assert(word@ != seq!['t', 'r', 'u', 'e']);
                    assert(word@ != seq!['f', 'a', 'l', 's', 'e']);
                    t = Argument::Ident(word);
                }
                proof {
                    assert(lex(rem) == lex_cons(t@, lex(rem.skip(k - i))));
                    assert(rem.skip(k - i) =~= v@.skip(k as int));
                    lemma_lex_compose(pre, t@, words@, lex(rem), lex(v@.skip(k as int)));
                }
                args.push(t);
                proof {
                    assert(args_view(args@) =~= pre.push(t@));
                }
                i = k;
            } else {
                proof {
                    assert(lex(rem) == Err::<Seq<ArgModel>, int>(0));
                }
                return Err(invalid_token(args.len()));
            }
        }
        proof {
            assert(v@.skip(n as int) =~= Seq::<char>::empty());
            assert(lex(words@) == Ok::<Seq<ArgModel>, int>(args_view(args@) + Seq::empty()));
            assert(args_view(args@) + Seq::empty() =~= args_view(args@));
        }
        let ghost av = args_view(args@);
        let result = Arguments(args);
        proof {
            assert(result@ =~= av);
        }
        Ok(result)
    }
}

impl Arguments {
    /// Fetches one argument by position.
    pub fn get(&self, index: usize) -> (r: CommandResult<Argument>)
        ensures
            match r {
                Ok(a) => index < self@.len() && a@ == self@[index as int],
                Err(e) => index >= self@.len() && (e matches CommandError::MissingArgument {
                    index: i,
                } && i == index),
            },
    {
        if index < self.0.len() {
            let a = &self.0[index];
            Ok(
                match a {
                    Argument::Bool(b) => Argument::Bool(*b),
                    Argument::Integer(v) => Argument::Integer(*v),
                    Argument::String(s) => Argument::String(s.clone()),
                    Argument::Ident(s) => Argument::Ident(s.clone()),
                },
            )
        } else {
            Err(CommandError::MissingArgument { index })
        }
    }

    /// Fetches one argument as a storable value: an integer, boolean or
    /// string token; an identifier is no value.
    pub fn get_value(&self, index: usize) -> (r: CommandResult<Value>)
        ensures
            match r {
                Ok(v) => index < self@.len() && match self@[index as int] {
                    ArgModel::Int(i) => v@ == ValueModel::Int(i),
                    ArgModel::Bool(b) => v@ == ValueModel::Bool(b),
                    ArgModel::Str(s) => v@ == ValueModel::Str(s),
                    ArgModel::Ident(_) => false,
                },
                Err(e) => match e {
                    CommandError::MissingArgument { index: i } => i == index && index
                        >= self@.len(),
                    CommandError::InvalidArgument { index: i, expected } => i == index && index
                        < self@.len() && self@[index as int] is Ident && expected@ == "value"@,
                },
            },
    {
        match self.get(index)? {
            Argument::Integer(val) => Ok(Value::Integer(val)),
            Argument::Bool(val) => Ok(Value::Bool(val)),
            Argument::String(val) => Ok(Value::String(val)),
            Argument::Ident(_) => Err(
                CommandError::InvalidArgument { index, expected: String::from_str("value") },
            ),
        }
    }

    /// Fetches one argument as an integer.
    pub fn get_integer(&self, index: usize) -> (r: CommandResult<i64>)
        ensures
            match r {
                Ok(v) => index < self@.len() && self@[index as int] == ArgModel::Int(v as int),
                Err(e) => match e {
                    CommandError::MissingArgument { index: i } => i == index && index
                        >= self@.len(),
                    CommandError::InvalidArgument { index: i, expected } => i == index && index
                        < self@.len() && !(self@[index as int] is Int) && expected@ == "integer"@,
                },
            },
    {
        match self.get(index)? {
            Argument::Integer(val) => Ok(val),
            _ => Err(CommandError::InvalidArgument {
                index,
                expected: String::from_str("integer"),
            }),
        }
    }

    /// Fetches one argument as an object id: a nonnegative integer that fits
    /// the machine's id range.
    pub fn get_id(&self, index: usize) -> (r: CommandResult<usize>)
        ensures
            match r {
                Ok(v) => index < self@.len() && self@[index as int] == ArgModel::Int(v as int),
                Err(e) => match e {
                    CommandError::MissingArgument { index: i } => i == index && index
                        >= self@.len(),
                    CommandError::InvalidArgument { index: i, expected } => i == index && index
                        < self@.len() && (match self@[index as int] {
                        ArgModel::Int(n) => !(0 <= n <= usize::MAX) && expected@ == "object ID"@,
                        _ => expected@ == "integer"@,
                    }),
                },
            },
    {
        let id = self.get_integer(index)?;
        if id >= 0 && id as u64 <= usize::MAX as u64 {
            Ok(id as usize)
        } else {
            Err(CommandError::InvalidArgument { index, expected: String::from_str("object ID") })
        }
    }

    /// Fetches one argument as a quoted string.
    pub fn get_string(&self, index: usize) -> (r: CommandResult<String>)
        ensures
            match r {
                Ok(v) => index < self@.len() && self@[index as int] == ArgModel::Str(v@),
                Err(e) => match e {
                    CommandError::MissingArgument { index: i } => i == index && index
                        >= self@.len(),
                    CommandError::InvalidArgument { index: i, expected } => i == index && index
                        < self@.len() && !(self@[index as int] is Str) && expected@ == "string"@,
                },
            },
    {
        match self.get(index)? {
            Argument::String(val) => Ok(val),
            _ => Err(CommandError::InvalidArgument { index, expected: String::from_str("string") }),
        }
    }

    /// Fetches one argument as a bare identifier.
    pub fn get_ident(&self, index: usize) -> (r: CommandResult<String>)
        ensures
            match r {
                Ok(v) => index < self@.len() && self@[index as int] == ArgModel::Ident(v@),
                Err(e) => match e {
                    CommandError::MissingArgument { index: i } => i == index && index
                        >= self@.len(),
                    CommandError::InvalidArgument { index: i, expected } => i == index && index
                        < self@.len() && !(self@[index as int] is Ident) && expected@
                        == "identifier"@,
                },
            },
    {
        match self.get(index)? {
            Argument::Ident(val) => Ok(val),
            _ => Err(CommandError::InvalidArgument {
                index,
                expected: String::from_str("identifier"),
            }),
        }
    }
}

/// The models of a vector of arguments.
pub open spec fn args_view(v: Seq<Argument>) -> Seq<ArgModel> {
    Seq::new(v.len(), |i: int| v[i]@)
}

fn is_word_char_exec(c: char) -> (r: bool)
    ensures
        r == is_word_char(c),
{
    let u = c as u32;
    (97 <= u && u <= 122) || (65 <= u && u <= 90) || c == '_'
}

fn invalid_token(index: usize) -> (r: CommandError)
    ensures
        r matches CommandError::InvalidArgument { index: i, expected } && i == index && expected@
            == "argument"@,
{
    CommandError::InvalidArgument { index, expected: String::from_str("argument") }
}

} // verus!
