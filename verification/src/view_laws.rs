//! What the values that functions take and give are in the models that contracts speak of.

use vstd::prelude::*;

use crate::indexed;
use crate::name_map;
use crate::name_map::NameMap;
use crate::py;
use crate::py::{PyExecOptions, PyStep, StepView};
use crate::results::{ExecutionControlFlow, ExecutionExitCode, ExecutionResult};
use crate::text;
use crate::variables;
use crate::variables::{ShellValue, ShellVariable, ValueView, VariableView};

verus! {

/// A value is what it holds.
pub proof fn value_is_what_it_holds(v: ShellValue)
    ensures
        v matches ShellValue::Unset(t) ==> v@ == ValueView::Unset(t),
        v matches ShellValue::String(s) ==> v@ == ValueView::Text(s@),
        v matches ShellValue::Dynamic { current } ==> v@ == ValueView::Dynamic(current@),
        v matches ShellValue::AssociativeArray(m) ==> v@ matches ValueView::Assoc(texts) && (
        forall|k: Seq<char>| #[trigger]
            texts.contains_key(k) <==> m@.contains_key(k)) && (forall|k: Seq<char>|
            m@.contains_key(k) ==> #[trigger] texts[k] == m@[k]@),
        v matches ShellValue::IndexedArray(m) ==> v@ matches ValueView::Array(texts) && (forall|
            k: u64,
        | #[trigger]
            texts.contains_key(k) <==> m@.contains_key(k)) && (forall|k: u64|
            m@.contains_key(k) ==> #[trigger] texts[k] == m@[k]@),
{
}

/// A variable without attributes, and a string that is treated as an integer.
pub proof fn attributes_are_as_named(value: ValueView, s: Seq<char>)
    ensures
        variables::plain(value) == (VariableView { value, integer: false, readonly: false }),
        variables::integer_variable(s) == (VariableView {
            value: ValueView::Text(s),
            integer: true,
            readonly: false,
        }),
{
}

/// Lists and optional values are taken one by one.
pub proof fn texts_are_taken_one_by_one(
    args: Seq<String>,
    entries: Seq<(u64, String)>,
    m: Map<u64, String>,
    names: NameMap<String>,
    s: String,
    var: ShellVariable,
)
    ensures
        py::arg_texts(args).len() == args.len(),
        forall|i: int| 0 <= i < args.len() ==> #[trigger] py::arg_texts(args)[i] == args[i]@,
        indexed::entry_texts(entries).len() == entries.len(),
        forall|i: int|
            0 <= i < entries.len() ==> #[trigger] indexed::entry_texts(entries)[i] == (
                entries[i].0,
                entries[i].1@,
            ),
        indexed::array_texts(m).dom() == m.dom(),
        forall|k: u64| m.contains_key(k) ==> #[trigger] indexed::array_texts(m)[k] == m[k]@,
        name_map::texts(names).dom() == names@.dom(),
        forall|k: Seq<char>|
            names@.contains_key(k) ==> #[trigger] name_map::texts(names)[k] == names@[k]@,
        text::optional_text(Some(s)) == Some(s@),
        text::optional_text(None) is None,
        variables::optional_view(Some(var)) == Some(var@),
        variables::optional_view(None) is None,
{
    assert(indexed::array_texts(m).dom() =~= m.dom());
    assert(name_map::texts(names).dom() =~= names@.dom());
}

/// A map of names gives a name the value that stands beside it in the list.
pub proof fn names_have_the_values_beside_them<V>(items: Seq<(Seq<char>, V)>, name: Seq<char>)
    requires
        forall|i: int, j: int|
            0 <= i < j < items.len() ==> (#[trigger] items[i]).0 != (#[trigger] items[j]).0,
    ensures
        name_map::map_of(items).contains_key(name) <==> exists|i: int|
            0 <= i < items.len() && (#[trigger] items[i]).0 == name,
        forall|i: int|
            0 <= i < items.len() ==> name_map::map_of(items)[(#[trigger] items[i]).0]
                == items[i].1,
{
    assert forall|i: int| 0 <= i < items.len() implies name_map::map_of(items)[(
    #[trigger] items[i]).0] == items[i].1 by {
        let key = items[i].0;
        assert(name_map::has_name(items, key));
        let k = choose|k: int| 0 <= k < items.len() && (#[trigger] items[k]).0 == key;
        if k < i {
            assert(items[k].0 != items[i].0);
        } else if i < k {
            assert(items[i].0 != items[k].0);
        }
    }
}

/// A step of a `py` command is what it says.
pub proof fn step_is_what_it_says(step: PyStep)
    ensures
        step matches PyStep::Refuse { message, result } ==> step@ == StepView::Refuse(
            message@,
            result,
        ),
        step matches PyStep::RunCode { code, options } ==> step@ == StepView::RunCode(
            code@,
            options,
        ),
        step matches PyStep::ReadScript { fd, close_after, no_dedent, options } ==> step@
            == StepView::ReadScript(fd as int, close_after, no_dedent, options),
        step matches PyStep::Dispatch { options } ==> step@ == StepView::Dispatch(options),
{
}

/// A command that is misused is refused with exit code 2. By default statements are run, with
/// tracebacks printed.
pub proof fn misuse_and_default_run(message: Seq<char>)
    ensures
        py::misused(message) == StepView::Refuse(
            message,
            ExecutionResult {
                next_control_flow: ExecutionControlFlow::Normal,
                exit_code: ExecutionExitCode::InvalidUsage,
            },
        ),
        py::plain_run() == (PyExecOptions { expression_mode: false, structured_exceptions: false }),
{
}

} // verus!
