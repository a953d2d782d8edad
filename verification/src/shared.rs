//! The `shared` command: binding shell variables to shared storage.

use vstd::prelude::*;

use crate::effective;
use crate::env;
use crate::env::valid_variable_name;
use crate::error::Error;
use crate::results;
use crate::results::{ExecutionExitCode, ExecutionResult};
use crate::shell;
use crate::shell::{Shell, ShellView};
use crate::text::{chars_of, text_of};
use crate::variables;
use crate::variables::ValueView;

verus! {

/// Manage shared-memory-backed shell variables.
#[derive(Debug)]
pub struct SharedCommand {
    /// Delete a shared variable binding and remove its shared value.
    pub delete: bool,
    /// Bind an indexed array.
    pub indexed: bool,
    /// Bind an associative array.
    pub associative: bool,
    /// Bind an integer.
    pub integer: bool,
    /// Variable name, or NAME=VALUE for bind+set.
    pub arg: Option<String>,
}

/// What a `shared` command does.
#[verifier::ext_equal]
pub enum Action {
    /// Reports a message and ends: the command is not used as it should be.
    Refuse(Seq<char>),
    /// Deletes a variable.
    Delete(Seq<char>),
    /// Binds an indexed array.
    BindArray(Seq<char>),
    /// Binds an associative array.
    BindAssoc(Seq<char>),
    /// Binds an integer, with a value if one is given.
    BindInteger(Seq<char>, Option<Seq<char>>),
    /// Binds a string, with a value if one is given.
    BindScalar(Seq<char>, Option<Seq<char>>),
}

/// Where the first `=` stands.
pub open spec fn first_equals(s: Seq<char>) -> Option<int>
    decreases s.len(),
{
    if s.len() == 0 {
        None
    } else if s[0] == '=' {
        Some(0)
    } else {
        match first_equals(s.drop_first()) {
            Some(i) => Some(i + 1),
            None => None,
        }
    }
}

/// The first `=` is one, and none stands before it.
pub proof fn first_equals_is_first(s: Seq<char>)
    ensures
        match first_equals(s) {
            Some(i) => {
                &&& 0 <= i < s.len()
                &&& s[i] == '='
                &&& forall|j: int| 0 <= j < i ==> s[j] != '='
            },
            None => forall|j: int| 0 <= j < s.len() ==> s[j] != '=',
        },
    decreases s.len(),
{
    if s.len() > 0 && s[0] != '=' {
        let rest = s.drop_first();
        first_equals_is_first(rest);
        assert(forall|j: int| 0 < j < s.len() ==> s[j] == rest[j - 1]);
    }
}

/// The name in `NAME` or `NAME=VALUE`.
pub open spec fn name_part(arg: Seq<char>) -> Seq<char> {
    match first_equals(arg) {
        Some(i) => arg.take(i),
        None => arg,
    }
}

/// The value in `NAME=VALUE`.
pub open spec fn value_part(arg: Seq<char>) -> Option<Seq<char>> {
    match first_equals(arg) {
        Some(i) => Some(arg.skip(i + 1)),
        None => None,
    }
}

/// How many kinds of variable a command asks for.
pub open spec fn kinds(c: SharedCommand) -> int {
    (if c.indexed { 1int } else { 0 }) + (if c.associative { 1int } else { 0 }) + (if c.integer {
        1int
    } else {
        0
    })
}

/// What a `shared` command does.
pub open spec fn action(c: SharedCommand) -> Action {
    match c.arg {
        None => Action::Refuse("shared: expected NAME or NAME=VALUE"@),
        Some(arg) => if c.delete {
            if first_equals(arg@) is Some {
                Action::Refuse("shared: -d expects a variable name"@)
            } else {
                Action::Delete(arg@)
            }
        } else if kinds(c) > 1 {
            Action::Refuse("shared: -a, -A and -i exclude each other"@)
        } else {
            let name = if c.indexed || c.associative {
                arg@
            } else {
                name_part(arg@)
            };
            if !env::is_variable_name(name) {
                Action::Refuse("shared: invalid variable name: "@ + name)
            } else if c.indexed {
                Action::BindArray(name)
            } else if c.associative {
                Action::BindAssoc(name)
            } else if c.integer {
                Action::BindInteger(name, value_part(arg@))
            } else {
                Action::BindScalar(name, value_part(arg@))
            }
        },
    }
}

/// What an action makes of a shell, and the error that it ends in, if it does.
pub open spec fn action_outcome(s: ShellView, a: Action) -> (ShellView, Result<(), Error>) {
    match a {
        Action::Refuse(_) => (s, Ok(())),
        Action::Delete(name) => match shell::delete_outcome(s, name) {
            (s1, Ok(_)) => (s1, Ok(())),
            (s1, Err(e)) => (s1, Err(e)),
        },
        Action::BindArray(name) => {
            let m = shell::bind_array(s, name);
            shell::bind_outcome(
                s,
                name,
                effective::array_writes(name, m),
                variables::plain(ValueView::Array(m)),
            )
        },
        Action::BindAssoc(name) => {
            let m = shell::bind_assoc(s, name);
            shell::bind_outcome(
                s,
                name,
                effective::assoc_writes(name, m),
                variables::plain(ValueView::Assoc(m)),
            )
        },
        Action::BindInteger(name, initial) => {
            let value = shell::bind_value(s, name, initial, "0"@);
            shell::bind_outcome(
                s,
                name,
                shell::integer_writes(name, value),
                variables::integer_variable(value),
            )
        },
        Action::BindScalar(name, initial) => shell::bind_scalar_outcome(s, name, initial),
    }
}

/// What a command reports: the message of a refused one, and otherwise nothing.
pub open spec fn report(a: Action) -> Seq<char> {
    match a {
        Action::Refuse(message) => message,
        _ => seq![],
    }
}

/// What a command ends with.
pub open spec fn ending(a: Action) -> ExecutionResult {
    match a {
        Action::Refuse(_) => results::ended_with(ExecutionExitCode::InvalidUsage),
        _ => results::ended_with(ExecutionExitCode::Success),
    }
}

/// Where the first `=` stands.
fn find_equals(chars: &Vec<char>) -> (r: Option<usize>)
    ensures
        match r {
            Some(i) => first_equals(chars@) == Some(i as int) && i < chars@.len(),
            None => first_equals(chars@) is None,
        },
{
    let mut i: usize = 0;
    assert(chars@.skip(0) =~= chars@);
    while i < chars.len()
        invariant
            i <= chars@.len(),
            first_equals(chars@) == (match first_equals(chars@.skip(i as int)) {
                Some(j) => Some(j + i),
                None => None,
            }),
        decreases chars@.len() - i,
    {
        let ghost rest = chars@.skip(i as int);
        assert(rest[0] == chars@[i as int]);
        if chars[i] == '=' {
            return Some(i);
        }
        assert(rest.drop_first() =~= chars@.skip(i + 1));
        i += 1;
    }
    None
}

/// The result of a command that is not used as it should be.
fn refuse(message: String) -> (r: (String, ExecutionResult))
    ensures
        r.0 == message,
        r.1 == results::ended_with(ExecutionExitCode::InvalidUsage),
{
    (message, ExecutionResult::new(ExecutionExitCode::InvalidUsage))
}

impl SharedCommand {
    /// Executes the command. Returns what it reports, and what it ends with.
    pub fn execute(&self, shell: &mut Shell) -> (r: Result<(String, ExecutionResult), Error>)
        requires
            old(shell).wf(),
        ensures
            final(shell).wf(),
            final(shell)@ == action_outcome(old(shell)@, action(*self)).0,
            match action_outcome(old(shell)@, action(*self)).1 {
                Ok(()) => r matches Ok((message, result)) && message@ == report(action(*self))
                    && result == ending(action(*self)),
                Err(e) => r == Err::<(String, ExecutionResult), Error>(e),
            },
    {
        let arg = match &self.arg {
            Some(arg) => arg.as_str(),
            None => {
                return Ok(refuse("shared: expected NAME or NAME=VALUE".to_owned()));
            },
        };
        let chars = chars_of(arg);
        let equals = find_equals(&chars);
        if self.delete {
            if equals.is_some() {
                return Ok(refuse("shared: -d expects a variable name".to_owned()));
            }
            let _ = shell.shared_delete(arg)?;
            return Ok((String::new(), ExecutionResult::success()));
        }
        if (self.indexed && self.associative) || (self.indexed && self.integer) || (
        self.associative && self.integer) {
            return Ok(refuse("shared: -a, -A and -i exclude each other".to_owned()));
        }
        let (name, value) = match equals {
            Some(i) if !self.indexed && !self.associative => {
                assert(i < chars.len());
                let name = text_of(&chars, 0, i);
                let value = text_of(&chars, i + 1, chars.len());
                assert(name@ =~= arg@.take(i as int));
                assert(value@ =~= arg@.skip(i + 1));
                (name, Some(value))
            },
            _ => (arg.to_owned(), None),
        };
        let name = name.as_str();
        if !valid_variable_name(name) {
            let mut message = "shared: invalid variable name: ".to_owned();
            message.append(name);
            return Ok(refuse(message));
        }
        if self.indexed {
            shell.shared_bind_indexed_array(name)?;
        } else if self.associative {
            shell.shared_bind_assoc_array(name)?;
        } else {
            let initial = match &value {
                Some(value) => Some(value.as_str()),
                None => None,
            };
            if self.integer {
                shell.shared_bind_integer(name, initial)?;
            } else {
                shell.shared_bind_scalar(name, initial)?;
            }
        }
        Ok((String::new(), ExecutionResult::success()))
    }
}

} // verus!
