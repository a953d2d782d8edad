//! What `shared` commands come to, and how shells of one family stand to each other.

use vstd::prelude::*;

use crate::cancel;
use crate::effective;
use crate::env;
use crate::error::{Error, Fault};
use crate::family;
use crate::family::FamilyView;
use crate::results;
use crate::results::{ExecutionControlFlow, ExecutionExitCode, ExecutionResult};
use crate::shared;
use crate::shared::{Action, SharedCommand};
use crate::shell;
use crate::shell::ShellView;
use crate::shell_laws;
use crate::text;
use crate::variables;
use crate::variables::{ValueView, VariableView};

verus! {

/// `NAME=VALUE` is split at its first `=`; the value may hold others. Without one all is the name.
pub proof fn arguments_are_split_at_the_first_equals(name: Seq<char>, value: Seq<char>)
    requires
        forall|i: int| 0 <= i < name.len() ==> name[i] != '=',
    ensures
        shared::first_equals(name + seq!['='] + value) == Some(name.len() as int),
        shared::name_part(name + seq!['='] + value) == name,
        shared::value_part(name + seq!['='] + value) == Some(value),
        shared::first_equals(name) is None,
        shared::name_part(name) == name,
        shared::value_part(name) is None,
{
    let arg = name + seq!['='] + value;
    let n = name.len() as int;
    shared::first_equals_is_first(arg);
    shared::first_equals_is_first(name);
    assert(arg[n] == '=');
    let i = shared::first_equals(arg)->Some_0;
    if i < n {
        assert(arg[i] == name[i]);
    }
    assert(arg.take(n) =~= name);
    assert(arg.skip(n + 1) =~= value);
}

/// The names that a variable can have: ASCII letters, digits and underscores, with no digit in front.
pub proof fn names_are_letters_digits_and_underscores(s: Seq<char>)
    ensures
        env::is_variable_name(s) <==> {
            &&& s.len() > 0
            &&& !(48 <= s[0] as u32 <= 57)
            &&& forall|i: int| #![trigger s[i]]
                0 <= i < s.len() ==> {
                    ||| 48 <= s[i] as u32 <= 57
                    ||| 65 <= s[i] as u32 <= 90
                    ||| 97 <= s[i] as u32 <= 122
                    ||| s[i] as u32 == 95
                }
        },
{
    assert forall|i: int| 0 <= i < s.len() implies (env::starts_name(#[trigger] s[i]) <==> (65
        <= s[i] as u32 <= 90 || 97 <= s[i] as u32 <= 122 || s[i] as u32 == 95)) && (
    text::is_digit(s[i]) <==> 48 <= s[i] as u32 <= 57) by {
        lemma_name_character(s[i]);
    }
    if env::is_variable_name(s) {
        assert(env::starts_name(s[0]));
        assert forall|i: int| #![trigger s[i]] 0 <= i < s.len() implies 48 <= s[i] as u32 <= 57
            || 65 <= s[i] as u32 <= 90 || 97 <= s[i] as u32 <= 122 || s[i] as u32 == 95 by {
            assert(env::starts_name(s[i]) || text::is_digit(s[i]));
        }
    }
}

proof fn lemma_name_character(c: char)
    ensures
        env::starts_name(c) <==> (65 <= c as u32 <= 90 || 97 <= c as u32 <= 122 || c as u32 == 95),
        text::is_digit(c) <==> 48 <= c as u32 <= 57,
{
}

/// What a `shared` command does goes by its options and its argument.
pub proof fn command_does_what_its_options_say(c: SharedCommand)
    ensures
        c.arg is None ==> shared::action(c) == Action::Refuse(
            "shared: expected NAME or NAME=VALUE"@,
        ),
        c.arg matches Some(arg) ==> {
            let a = shared::action(c);
            let two_kinds = (c.indexed && c.associative) || (c.indexed && c.integer) || (
            c.associative && c.integer);
            let has_equals = exists|i: int| 0 <= i < arg@.len() && #[trigger] arg@[i] == '=';
            &&& c.delete && has_equals ==> a == Action::Refuse(
                "shared: -d expects a variable name"@,
            )
            &&& c.delete && !has_equals ==> a == Action::Delete(arg@)
            &&& !c.delete && two_kinds ==> a == Action::Refuse(
                "shared: -a, -A and -i exclude each other"@,
            )
            &&& !c.delete && c.indexed && !two_kinds && env::is_variable_name(arg@) ==> a
                == Action::BindArray(arg@)
            &&& !c.delete && c.associative && !two_kinds && env::is_variable_name(arg@) ==> a
                == Action::BindAssoc(arg@)
            &&& !c.delete && (c.indexed || c.associative) && !two_kinds && !env::is_variable_name(
                arg@,
            ) ==> a == Action::Refuse("shared: invalid variable name: "@ + arg@)
            &&& !c.delete && !c.indexed && !c.associative && !has_equals && env::is_variable_name(
                arg@,
            ) ==> a == if c.integer {
                Action::BindInteger(arg@, None)
            } else {
                Action::BindScalar(arg@, None)
            }
            &&& !c.delete && !c.indexed && !c.associative && !has_equals && !env::is_variable_name(
                arg@,
            ) ==> a == Action::Refuse("shared: invalid variable name: "@ + arg@)
        },
{
    if let Some(arg) = c.arg {
        shared::first_equals_is_first(arg@);
        if let Some(i) = shared::first_equals(arg@) {
            assert(arg@[i] == '=');
        }
    }
}

/// A `shared` command with `NAME=VALUE` binds the name, as an integer where so asked, with the value
/// given.
pub proof fn command_binds_the_value_given(
    c: SharedCommand,
    arg: String,
    name: Seq<char>,
    value: Seq<char>,
)
    requires
        c.arg == Some(arg),
        arg@ == name + seq!['='] + value,
        forall|i: int| 0 <= i < name.len() ==> name[i] != '=',
        !c.delete,
        !c.indexed,
        !c.associative,
    ensures
        !env::is_variable_name(name) ==> shared::action(c) == Action::Refuse(
            "shared: invalid variable name: "@ + name,
        ),
        env::is_variable_name(name) && !c.integer ==> shared::action(c) == Action::BindScalar(
            name,
            Some(value),
        ),
        env::is_variable_name(name) && c.integer ==> shared::action(c) == Action::BindInteger(
            name,
            Some(value),
        ),
{
    arguments_are_split_at_the_first_equals(name, value);
}

/// After `shared NAME=VALUE`, in any shell and whether or not the name was bound before, the name is
/// bound and reads as the value.
pub proof fn shared_variable_reads_as_the_value_given(
    s: ShellView,
    c: SharedCommand,
    arg: String,
    name: Seq<char>,
    value: Seq<char>,
)
    requires
        shell::sound_shell(s),
        c.arg == Some(arg),
        arg@ == name + seq!['='] + value,
        env::is_variable_name(name),
        !c.delete,
        !c.indexed,
        !c.associative,
        shared::action_outcome(s, shared::action(c)).1 is Ok,
    ensures
        ({
            let s2 = shared::action_outcome(s, shared::action(c)).0;
            &&& s2.bound == s.bound.insert(name)
            &&& shell::read_outcome(s2, name) == Ok::<Option<VariableView>, Error>(
                Some(
                    VariableView {
                        value: ValueView::Text(value),
                        integer: c.integer,
                        readonly: false,
                    },
                ),
            )
        }),
{
    assert forall|i: int| 0 <= i < name.len() implies name[i] != '=' by {
        assert(env::starts_name(name[i]) || text::is_digit(name[i]));
    }
    command_binds_the_value_given(c, arg, name, value);
    if c.integer {
        shell_laws::bound_integer_has_the_given_value(s, name, value);
    } else {
        shell_laws::bound_scalar_has_the_given_value(s, name, value);
    }
}

/// What each action makes of a shell: a refused command changes nothing, and every other does what
/// the operation of that name does.
pub proof fn actions_do_what_they_say(
    s: ShellView,
    name: Seq<char>,
    initial: Option<Seq<char>>,
    message: Seq<char>,
)
    ensures
        shared::action_outcome(s, Action::Refuse(message)) == (s, Ok::<(), Error>(())),
        shared::action_outcome(s, Action::Delete(name)).0 == shell::delete_outcome(s, name).0,
        match shell::delete_outcome(s, name).1 {
            Ok(_) => shared::action_outcome(s, Action::Delete(name)).1 == Ok::<(), Error>(()),
            Err(e) => shared::action_outcome(s, Action::Delete(name)).1 == Err::<(), Error>(e),
        },
        shared::action_outcome(s, Action::BindScalar(name, initial)) == shell::bind_scalar_outcome(
            s,
            name,
            initial,
        ),
        shared::action_outcome(s, Action::BindInteger(name, initial))
            == shell_laws::bind_integer_outcome(s, name, initial),
        shared::action_outcome(s, Action::BindArray(name)) == shell::bind_outcome(
            s,
            name,
            effective::array_writes(name, shell::bind_array(s, name)),
            variables::plain(ValueView::Array(shell::bind_array(s, name))),
        ),
        shared::action_outcome(s, Action::BindAssoc(name)) == shell::bind_outcome(
            s,
            name,
            effective::assoc_writes(name, shell::bind_assoc(s, name)),
            variables::plain(ValueView::Assoc(shell::bind_assoc(s, name))),
        ),
{
}

/// A refused command reports its message and ends with exit code 2; every other reports nothing and
/// ends with exit code 0.
pub proof fn only_refused_commands_report(a: Action)
    ensures
        a matches Action::Refuse(message) ==> {
            &&& shared::report(a) == message
            &&& shared::ending(a) == (ExecutionResult {
                next_control_flow: ExecutionControlFlow::Normal,
                exit_code: ExecutionExitCode::InvalidUsage,
            })
        },
        !(a is Refuse) ==> {
            &&& shared::report(a) == Seq::<char>::empty()
            &&& shared::ending(a) == (ExecutionResult {
                next_control_flow: ExecutionControlFlow::Normal,
                exit_code: ExecutionExitCode::Success,
            })
        },
{
}

/// The numbers of the exit codes; a result that ends a command lets execution go on.
pub proof fn exit_codes_have_their_numbers(code: ExecutionExitCode, n: u8)
    ensures
        ExecutionExitCode::Success.number() == 0,
        ExecutionExitCode::GeneralError.number() == 1,
        ExecutionExitCode::InvalidUsage.number() == 2,
        ExecutionExitCode::Interrupted.number() == 130,
        ExecutionExitCode::Custom(n).number() == n,
        results::ended_with(code).exit_code == code,
        results::ended_with(code).next_control_flow == ExecutionControlFlow::Normal,
{
}

/// A check fails exactly where cancellation was asked for.
pub proof fn check_fails_where_cancelled(cancelled: bool)
    ensures
        cancelled ==> cancel::check_outcome(cancelled) == Err::<(), Error>(Error::Interrupted),
        !cancelled ==> cancel::check_outcome(cancelled) == Ok::<(), Error>(()),
{
}

/// The texts that describe errors.
pub proof fn errors_have_their_texts(fault: Fault, size: u64)
    ensures
        Error::InternalError(fault).text() == fault.text(),
        Error::Interrupted.text() == "interrupted"@,
        (Error::GrowthRefused { size }).text() == "shared region cannot grow"@,
        Error::ReadonlyVariable.text() == "cannot mutate readonly variable"@,
        Error::DynamicShared.text() == "shared sync for dynamic values is not supported"@,
        Fault::SizeTooSmall.text() == "shared region size too small"@,
        Fault::RegionTooSmall.text() == "region too small"@,
        Fault::RegionTooLarge.text() == "region too large"@,
        Fault::SharedRegionTooLarge.text() == "shared region too large"@,
        Fault::NameTooLong.text() == "name too long"@,
        Fault::KeyTooLong.text() == "key too long"@,
        Fault::ValueTooLong.text() == "value too long"@,
        Fault::CorruptHeader.text() == "corrupt shared header"@,
        Fault::CorruptEntry.text() == "corrupt shared entry"@,
        Fault::UnknownEntryType.text() == "unknown shared entry type"@,
{
}

/// A shell that has become another is that one afterwards; the shells of its group have its store
/// with their own variables and names, and all others are as they were.
pub proof fn shell_has_become_another(f: FamilyView, i: int, s: ShellView, j: int)
    requires
        family::grouped(f),
        0 <= i < f.members.len(),
        0 <= j < f.members.len(),
    ensures
        ({
            let f2 = family::with_shell(f, i, s);
            &&& f2.members.len() == f.members.len()
            &&& f2.stores.len() == f.stores.len()
            &&& f2.members[j].group == f.members[j].group
            &&& family::shell_of(f2, i) == s
            &&& j != i ==> family::shell_of(f2, j) == (ShellView {
                env: f.members[j].env,
                bound: f.members[j].bound,
                region: if f.members[j].group == f.members[i].group {
                    s.region
                } else {
                    f.stores[f.members[j].group]
                },
            })
        }),
{
    assert(0 <= f.members[i].group < f.stores.len());
    assert(0 <= f.members[j].group < f.stores.len());
}

/// A subshell starts as its parent: with its variables, its names bound and its store. Where the
/// parent has a store, the two are in one group; otherwise the subshell is in a group of its own.
/// All other shells are as they were.
pub proof fn subshell_starts_as_its_parent(f: FamilyView, i: int, j: int)
    requires
        family::grouped(f),
        0 <= i < f.members.len(),
        0 <= j < f.members.len(),
    ensures
        ({
            let f2 = family::with_subshell(f, i);
            let child = f.members.len() as int;
            &&& f2.members.len() == child + 1
            &&& family::grouped(f2)
            &&& family::shell_of(f2, child) == family::shell_of(f, i)
            &&& family::shell_of(f2, j) == family::shell_of(f, j)
            &&& f2.members[j].group == f.members[j].group
            &&& f.stores[f.members[i].group] is Some ==> f2.members[child].group
                == f.members[i].group
            &&& f.stores[f.members[i].group] is None ==> f2.members[child].group
                != f.members[j].group
        }),
{
    let f2 = family::with_subshell(f, i);
    let child = f.members.len() as int;
    assert(0 <= f.members[i].group < f.stores.len());
    assert(0 <= f.members[j].group < f.stores.len());
    assert forall|k: int| 0 <= k < f2.members.len() implies 0 <= (#[trigger] f2.members[k]).group
        < f2.stores.len() by {
        if k < child {
            assert(f2.members[k] == f.members[k]);
            assert(0 <= f.members[k].group < f.stores.len());
        }
    }
}

} // verus!
