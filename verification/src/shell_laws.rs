//! What binding, pushing, deleting and reading shared variables comes to, variable by variable.

use vstd::prelude::*;
use vstd::utf8::*;

use crate::effective;
use crate::env;
use crate::env::ScopeView;
use crate::error::Error;
use crate::journal;
use crate::layout;
use crate::layout::EntryType;
use crate::shared_memory;
use crate::shell;
use crate::shell::{RegionView, ShellView};
use crate::store_laws;
use crate::variables;
use crate::variables::{ShellValueUnsetType, ValueView, VariableView};

verus! {

/// A scalar that is bound with a value given is read back with that value, from the store and as
/// the text of the shell's own variable, whatever the name stood for before and whether or not it
/// was bound. Only a computed variable of the shell keeps its own text.
pub proof fn bound_scalar_has_the_given_value(s: ShellView, name: Seq<char>, v: Seq<char>)
    requires
        shell::sound_shell(s),
        shell::bind_scalar_outcome(s, name, Some(v)).1 is Ok,
    ensures
        ({
            let s2 = shell::bind_scalar_outcome(s, name, Some(v)).0;
            &&& s2.bound == s.bound.insert(name)
            &&& shell::read_outcome(s2, name) == Ok::<Option<VariableView>, Error>(
                Some(VariableView { value: ValueView::Text(v), integer: false, readonly: false }),
            )
            &&& env::lookup(s2.env, name) matches Some(own) && (own.value is Dynamic
                || variables::value_text(own.value) == v)
            &&& env::lookup(s2.env, name) matches Some(own) && match env::lookup(s.env, name) {
                None => own == (VariableView {
                    value: ValueView::Text(v),
                    integer: false,
                    readonly: false,
                }),
                Some(before) => {
                    &&& !before.readonly
                    &&& !own.readonly
                    &&& own.integer == before.integer
                    &&& own.value is Dynamic <==> before.value is Dynamic
                },
            }
        }),
{
    shell::bound_scalar_reads_back(s, name, Some(v));
    assigned_text_is_found(s.env, name, v);
}

/// What is assigned to a name is the text that the name then stands for, except where it stands for
/// a computed value.
pub proof fn assigned_text_is_found(env: Seq<ScopeView>, name: Seq<char>, v: Seq<char>)
    requires
        env::nested(env),
        env::update_or_add_outcome(env, name, v) is Ok,
    ensures
        ({
            let env2 = env::update_or_add_outcome(env, name, v)->Ok_0;
            &&& env2.len() == env.len()
            &&& exists|i: int|
                {
                    &&& 0 <= i < env.len()
                    &&& #[trigger] env2[i].vars.contains_key(name)
                    &&& env2 == env.update(
                        i,
                        ScopeView {
                            kind: env[i].kind,
                            vars: env[i].vars.insert(name, env2[i].vars[name]),
                        },
                    )
                    &&& env::lookup(env, name) is None ==> i == 0
                    &&& env::lookup(env, name) is Some ==> env[i].vars.contains_key(name)
                }
            &&& env::lookup(env2, name) matches Some(own) && match env::lookup(env, name) {
                None => own == (VariableView {
                    value: ValueView::Text(v),
                    integer: false,
                    readonly: false,
                }),
                Some(before) => {
                    &&& !before.readonly
                    &&& own == (VariableView { value: own.value, ..before })
                    &&& match before.value {
                        ValueView::Text(_) => own.value == ValueView::Text(v),
                        ValueView::Unset(ShellValueUnsetType::Untyped) => own.value
                            == ValueView::Text(v),
                        ValueView::Unset(ShellValueUnsetType::IndexedArray) => own.value
                            == ValueView::Array(map![0u64 => v]),
                        ValueView::Unset(ShellValueUnsetType::AssociativeArray) => own.value
                            == ValueView::Assoc(map![seq!['0'] => v]),
                        ValueView::Array(m) => own.value == ValueView::Array(m.insert(0u64, v)),
                        ValueView::Assoc(m) => own.value == ValueView::Assoc(
                            m.insert(seq!['0'], v),
                        ),
                        ValueView::Dynamic(_) => own.value == before.value,
                    }
                    &&& own.value is Dynamic || variables::value_text(own.value) == v
                },
            }
        }),
{
    reveal_strlit("0");
    assert("0"@ =~= seq!['0']);
    env::holder_is_innermost(env, name);
    let env2 = env::update_or_add_outcome(env, name, v)->Ok_0;
    let i = match env::holder(env, name) {
        Some(i) => i,
        None => 0,
    };
    assert(forall|j: int| i < j < env2.len() ==> #[trigger] env2[j] == env[j]);
    env::innermost_is_holder(env2, name, i);
    assert(env2[i].vars.contains_key(name));
    assert(env2 =~= env.update(
        i,
        ScopeView { kind: env[i].kind, vars: env[i].vars.insert(name, env2[i].vars[name]) },
    ));
}

/// A variable is set in one scope, and taken from one, and nothing else changes.
pub proof fn variable_is_set_in_one_scope(
    env: Seq<ScopeView>,
    i: int,
    name: Seq<char>,
    var: VariableView,
)
    requires
        0 <= i < env.len(),
    ensures
        env::with_variable(env, i, name, var) == env.update(
            i,
            ScopeView { kind: env[i].kind, vars: env[i].vars.insert(name, var) },
        ),
        env::without_variable(env, i, name) == env.update(
            i,
            ScopeView { kind: env[i].kind, vars: env[i].vars.remove(name) },
        ),
{
}

/// A string is assigned to a name unless the variable that the name stands for is read-only.
pub proof fn only_readonly_variables_refuse(env: Seq<ScopeView>, name: Seq<char>, v: Seq<char>)
    ensures
        env::update_or_add_outcome(env, name, v) is Err <==> (env::lookup(env, name) matches Some(
            before,
        ) && before.readonly),
        env::update_or_add_outcome(env, name, v) matches Err(e) ==> e == Error::ReadonlyVariable,
        env::unset_outcome(env, name) is Err <==> (env::lookup(env, name) matches Some(before)
            && before.readonly),
        env::unset_outcome(env, name) matches Err(e) ==> e == Error::ReadonlyVariable,
{
}

/// A name stands for the variable of the innermost scope that holds it.
pub proof fn innermost_variable_is_found(env: Seq<ScopeView>, name: Seq<char>, i: int)
    requires
        0 <= i < env.len(),
        env[i].vars.contains_key(name),
        forall|j: int| i < j < env.len() ==> !(#[trigger] env[j]).vars.contains_key(name),
    ensures
        env::lookup(env, name) == Some(env[i].vars[name]),
{
    env::innermost_is_holder(env, name, i);
}

/// A name that no scope holds stands for nothing.
pub proof fn unheld_name_stands_for_nothing(env: Seq<ScopeView>, name: Seq<char>)
    requires
        forall|j: int| 0 <= j < env.len() ==> !(#[trigger] env[j]).vars.contains_key(name),
    ensures
        env::lookup(env, name) is None,
{
    env::holder_is_innermost(env, name);
}

/// What a value reads as where one string is asked for: its text, or the element `0` of an array,
/// or nothing.
pub proof fn arrays_read_as_their_element_zero(
    v: Seq<char>,
    m: Map<u64, Seq<char>>,
    a: Map<Seq<char>, Seq<char>>,
    t: ShellValueUnsetType,
)
    ensures
        variables::value_text(ValueView::Text(v)) == v,
        variables::value_text(ValueView::Dynamic(v)) == v,
        variables::value_text(ValueView::Unset(t)) == Seq::<char>::empty(),
        m.contains_key(0u64) ==> variables::value_text(ValueView::Array(m)) == m[0u64],
        !m.contains_key(0u64) ==> variables::value_text(ValueView::Array(m))
            == Seq::<char>::empty(),
        a.contains_key(seq!['0']) ==> variables::value_text(ValueView::Assoc(a)) == a[seq!['0']],
        !a.contains_key(seq!['0']) ==> variables::value_text(ValueView::Assoc(a))
            == Seq::<char>::empty(),
{
    reveal_strlit("0");
    assert("0"@ =~= seq!['0']);
}

/// A scalar that is bound without a value keeps the text that the name had, or starts empty.
pub proof fn bound_scalar_keeps_its_value(s: ShellView, name: Seq<char>)
    requires
        shell::sound_shell(s),
        shell::bind_scalar_outcome(s, name, None).1 is Ok,
    ensures
        ({
            let s2 = shell::bind_scalar_outcome(s, name, None).0;
            &&& s2.bound == s.bound.insert(name)
            &&& shell::read_outcome(s2, name) matches Ok(Some(var)) && {
                &&& !var.integer
                &&& !var.readonly
                &&& match env::lookup(s.env, name) {
                    None => var.value == ValueView::Text(seq![]),
                    Some(before) => match before.value {
                        ValueView::Text(t) => var.value == ValueView::Text(t),
                        ValueView::Dynamic(t) => var.value == ValueView::Text(t),
                        ValueView::Unset(_) => var.value == ValueView::Text(seq![]),
                        ValueView::Array(m) => var.value == ValueView::Text(
                            if m.contains_key(0u64) {
                                m[0u64]
                            } else {
                                seq![]
                            },
                        ),
                        ValueView::Assoc(m) => var.value == ValueView::Text(
                            if m.contains_key(seq!['0']) {
                                m[seq!['0']]
                            } else {
                                seq![]
                            },
                        ),
                    },
                }
            }
        }),
{
    reveal_strlit("0");
    assert("0"@ =~= seq!['0']);
    shell::bound_scalar_reads_back(s, name, None);
}

/// What binding an integer gives.
pub open spec fn bind_integer_outcome(
    s: ShellView,
    name: Seq<char>,
    initial: Option<Seq<char>>,
) -> (ShellView, Result<(), Error>) {
    let value = shell::bind_value(s, name, initial, "0"@);
    shell::bind_outcome(
        s,
        name,
        shell::integer_writes(name, value),
        variables::integer_variable(value),
    )
}

/// An integer that is bound with a value given is read back with that value and as an integer, from
/// the store and from the global scope of the shell, whatever the name stood for before and whether
/// or not it was bound.
pub proof fn bound_integer_has_the_given_value(s: ShellView, name: Seq<char>, v: Seq<char>)
    requires
        shell::sound_shell(s),
        bind_integer_outcome(s, name, Some(v)).1 is Ok,
    ensures
        ({
            let s2 = bind_integer_outcome(s, name, Some(v)).0;
            let var = VariableView { value: ValueView::Text(v), integer: true, readonly: false };
            &&& s2.bound == s.bound.insert(name)
            &&& shell::read_outcome(s2, name) == Ok::<Option<VariableView>, Error>(Some(var))
            &&& s2.env == s.env.update(
                0,
                ScopeView { kind: s.env[0].kind, vars: s.env[0].vars.insert(name, var) },
            )
        }),
{
    shell::bound_integer_reads_back(s, name, v);
}

/// An integer that is bound without a value keeps the text that the name had, or starts with `0`.
pub proof fn bound_integer_keeps_its_value(s: ShellView, name: Seq<char>)
    requires
        shell::sound_shell(s),
        bind_integer_outcome(s, name, None).1 is Ok,
    ensures
        ({
            let s2 = bind_integer_outcome(s, name, None).0;
            &&& s2.bound == s.bound.insert(name)
            &&& shell::read_outcome(s2, name) matches Ok(Some(var)) && {
                &&& var.integer
                &&& !var.readonly
                &&& match env::lookup(s.env, name) {
                    None => var.value == ValueView::Text(seq!['0']),
                    Some(before) => match before.value {
                        ValueView::Text(t) => var.value == ValueView::Text(t),
                        ValueView::Dynamic(t) => var.value == ValueView::Text(t),
                        ValueView::Unset(_) => var.value == ValueView::Text(seq![]),
                        ValueView::Array(m) => var.value == ValueView::Text(
                            if m.contains_key(0u64) {
                                m[0u64]
                            } else {
                                seq![]
                            },
                        ),
                        ValueView::Assoc(m) => var.value == ValueView::Text(
                            if m.contains_key(seq!['0']) {
                                m[seq!['0']]
                            } else {
                                seq![]
                            },
                        ),
                    },
                }
                &&& s2.env == s.env.update(
                    0,
                    ScopeView { kind: s.env[0].kind, vars: s.env[0].vars.insert(name, var) },
                )
            }
        }),
{
    reveal_strlit("0");
    assert("0"@ =~= seq!['0']);
    let value = shell::bind_value(s, name, None, "0"@);
    shell::bound_integer_reads_back(s, name, value);
}

/// An indexed array is bound with the elements that the name had as one, or without any, and read
/// back with them from the store and from the global scope of the shell.
pub proof fn bound_array_keeps_its_elements(s: ShellView, name: Seq<char>)
    requires
        shell::sound_shell(s),
        shell::bind_outcome(
            s,
            name,
            effective::array_writes(name, shell::bind_array(s, name)),
            variables::plain(ValueView::Array(shell::bind_array(s, name))),
        ).1 is Ok,
    ensures
        ({
            let m = match env::lookup(s.env, name) {
                Some(before) => match before.value {
                    ValueView::Array(m) => m,
                    _ => Map::<u64, Seq<char>>::empty(),
                },
                None => Map::<u64, Seq<char>>::empty(),
            };
            let var = VariableView { value: ValueView::Array(m), integer: false, readonly: false };
            let s2 = shell::bind_outcome(
                s,
                name,
                effective::array_writes(name, shell::bind_array(s, name)),
                variables::plain(ValueView::Array(shell::bind_array(s, name))),
            ).0;
            &&& s2.bound == s.bound.insert(name)
            &&& shell::read_outcome(s2, name) == Ok::<Option<VariableView>, Error>(Some(var))
            &&& s2.env == s.env.update(
                0,
                ScopeView { kind: s.env[0].kind, vars: s.env[0].vars.insert(name, var) },
            )
        }),
{
    shell::bound_array_reads_back(s, name);
}

/// An associative array is bound with the elements that the name had as one, or without any, and
/// read back with them from the store and from the global scope of the shell.
pub proof fn bound_assoc_keeps_its_elements(s: ShellView, name: Seq<char>)
    requires
        shell::sound_shell(s),
        shell::finite_value(env::lookup(s.env, name)),
        shell::bind_outcome(
            s,
            name,
            effective::assoc_writes(name, shell::bind_assoc(s, name)),
            variables::plain(ValueView::Assoc(shell::bind_assoc(s, name))),
        ).1 is Ok,
    ensures
        ({
            let m = match env::lookup(s.env, name) {
                Some(before) => match before.value {
                    ValueView::Assoc(m) => m,
                    _ => Map::<Seq<char>, Seq<char>>::empty(),
                },
                None => Map::<Seq<char>, Seq<char>>::empty(),
            };
            let var = VariableView { value: ValueView::Assoc(m), integer: false, readonly: false };
            let s2 = shell::bind_outcome(
                s,
                name,
                effective::assoc_writes(name, shell::bind_assoc(s, name)),
                variables::plain(ValueView::Assoc(shell::bind_assoc(s, name))),
            ).0;
            &&& s2.bound == s.bound.insert(name)
            &&& shell::read_outcome(s2, name) == Ok::<Option<VariableView>, Error>(Some(var))
            &&& s2.env == s.env.update(
                0,
                ScopeView { kind: s.env[0].kind, vars: s.env[0].vars.insert(name, var) },
            )
        }),
{
    shell::bound_assoc_reads_back(s, name);
}

/// Where the store refuses a value, nothing is bound and the variables stay as they are.
pub proof fn refused_binding_changes_no_variable(
    s: ShellView,
    name: Seq<char>,
    initial: Option<Seq<char>>,
    ws: Seq<journal::Write>,
    var: VariableView,
)
    ensures
        ({
            let (s2, r) = shell::bind_outcome(s, name, ws, var);
            r is Err ==> s2.env == s.env && s2.bound == s.bound
        }),
        ({
            let (s2, r) = shell::bind_scalar_outcome(s, name, initial);
            &&& r is Err ==> s2.env == s.env
            &&& r matches Err(e) ==> e == Error::ReadonlyVariable || s2.bound == s.bound
        }),
{
}

/// A name that is not bound is read from the shell's own variables, and so is every name of a shell
/// without a store.
pub proof fn unbound_name_is_read_from_the_shell(s: ShellView, name: Seq<char>)
    requires
        !s.bound.contains(name) || s.region is None,
    ensures
        shell::read_outcome(s, name) == Ok::<Option<VariableView>, Error>(
            env::lookup(s.env, name),
        ),
{
}

/// A bound name of a shell with a store is read from there, whatever the shell's own variable is.
pub proof fn bound_name_is_read_from_the_store(s: ShellView, region: RegionView, name: Seq<char>)
    requires
        s.bound.contains(name),
        s.region == Some(region),
    ensures
        shell::read_outcome(s, name) == shell::stored_variable(region.img, name),
{
}

/// Pushing or deleting a name that is not bound does nothing, and unsetting it leaves the store alone.
pub proof fn unbound_name_is_left_alone(s: ShellView, name: Seq<char>)
    requires
        !s.bound.contains(name),
    ensures
        shell::sync_outcome(s, name) == (s, Ok::<(), Error>(())),
        shell::delete_outcome(s, name) == (s, Ok::<bool, Error>(false)),
        shell::unset_var_outcome(s, name).0.region == s.region,
{
}

/// Pushing changes neither the variables of the shell nor what is bound, whether or not it
/// succeeds.
pub proof fn pushing_changes_only_the_store(s: ShellView, name: Seq<char>)
    ensures
        shell::sync_outcome(s, name).0.env == s.env,
        shell::sync_outcome(s, name).0.bound == s.bound,
{
}

/// A bound variable reads, once it has been pushed, as what the shell's own variable is: its text,
/// with the integer attribute, or its elements. One without a value reads as none.
pub proof fn pushed_variable_reads_as_the_own_one(s: ShellView, name: Seq<char>)
    requires
        shell::sound_shell(s),
        s.bound.contains(name),
        shell::finite_value(env::lookup(s.env, name)),
        shell::sync_outcome(s, name).1 is Ok,
    ensures
        shell::read_outcome(shell::sync_outcome(s, name).0, name) == Ok::<
            Option<VariableView>,
            Error,
        >(
            match env::lookup(s.env, name) {
                None => None,
                Some(own) => match own.value {
                    ValueView::Unset(_) => None,
                    ValueView::Text(t) => Some(
                        VariableView {
                            value: ValueView::Text(t),
                            integer: own.integer,
                            readonly: false,
                        },
                    ),
                    ValueView::Array(m) => Some(
                        VariableView {
                            value: ValueView::Array(m),
                            integer: false,
                            readonly: false,
                        },
                    ),
                    ValueView::Assoc(m) => Some(
                        VariableView {
                            value: ValueView::Assoc(m),
                            integer: false,
                            readonly: false,
                        },
                    ),
                    ValueView::Dynamic(_) => None,
                },
            },
        ),
        env::lookup(s.env, name) matches Some(own) ==> !(own.value is Dynamic),
{
    shell::synced_variable_reads_back(s, name);
}

/// A computed value cannot be pushed.
pub proof fn computed_value_is_not_pushed(s: ShellView, name: Seq<char>, own: VariableView)
    requires
        s.bound.contains(name),
        env::lookup(s.env, name) == Some(own),
        own.value is Dynamic,
    ensures
        shell::sync_outcome(s, name).1 == Err::<(), Error>(Error::DynamicShared),
        s.region is Some ==> shell::sync_outcome(s, name).0 == s,
{
}

/// Unsetting a name that no scope holds does nothing.
pub proof fn unset_of_nothing_does_nothing(env: Seq<ScopeView>, name: Seq<char>)
    requires
        env::lookup(env, name) is None,
    ensures
        env::unset_outcome(env, name) == Ok::<(Seq<ScopeView>, Option<VariableView>), Error>(
            (env, None),
        ),
{
}

/// Unsetting a variable gives it back and drops it from the scope that held it; a local of the
/// innermost function call leaves one without a value in its place.
pub proof fn unset_variable_is_given_back(env: Seq<ScopeView>, name: Seq<char>, i: int)
    requires
        0 <= i < env.len(),
        env[i].vars.contains_key(name),
        forall|j: int| i < j < env.len() ==> !(#[trigger] env[j]).vars.contains_key(name),
        !env[i].vars[name].readonly,
    ensures
        ({
            let innermost_call = env[i].kind == env::EnvironmentScope::Local && forall|j: int|
                i < j < env.len() ==> (#[trigger] env[j]).kind != env::EnvironmentScope::Local;
            let nothing = VariableView {
                value: ValueView::Unset(ShellValueUnsetType::Untyped),
                integer: false,
                readonly: false,
            };
            let scope = ScopeView {
                kind: env[i].kind,
                vars: if innermost_call {
                    env[i].vars.insert(name, nothing)
                } else {
                    env[i].vars.remove(name)
                },
            };
            env::unset_outcome(env, name) == Ok::<(Seq<ScopeView>, Option<VariableView>), Error>(
                (env.update(i, scope), Some(env[i].vars[name])),
            )
        }),
{
    env::innermost_is_holder(env, name, i);
}

/// Unsetting a bound variable leaves it bound; deleting it does not. Both unset the shell's own
/// variable.
pub proof fn unset_keeps_the_binding(s: ShellView, name: Seq<char>)
    requires
        shell::sound_shell(s),
    ensures
        shell::unset_var_outcome(s, name).0.bound == s.bound,
        shell::unset_var_outcome(s, name).1 matches Ok(unset) ==> {
            &&& unset == env::lookup(s.env, name)
            &&& env::unset_outcome(s.env, name) == Ok::<
                (Seq<ScopeView>, Option<VariableView>),
                Error,
            >((shell::unset_var_outcome(s, name).0.env, unset))
        },
        shell::delete_outcome(s, name).1 is Ok && s.bound.contains(name) ==> {
            &&& shell::delete_outcome(s, name).0.bound == s.bound.remove(name)
            &&& env::unset_outcome(s.env, name) matches Ok((env, _)) && env
                == shell::delete_outcome(s, name).0.env
        },
        shell::unset_var_outcome(s, name).1 is Err ==> shell::unset_var_outcome(s, name).0.env
            == s.env,
        shell::delete_outcome(s, name).1 is Err ==> shell::delete_outcome(s, name).0.env == s.env,
{
}

/// A deleted variable is read from the shell afterwards, and nothing of it is left in the store.
pub proof fn deleted_variable_leaves_the_store(
    s: ShellView,
    name: Seq<char>,
    index: u64,
    key: Seq<char>,
)
    requires
        shell::sound_shell(s),
        s.bound.contains(name),
        shell::delete_outcome(s, name).1 is Ok,
    ensures
        shell::delete_outcome(s, name).1 == Ok::<bool, Error>(true),
        ({
            let s2 = shell::delete_outcome(s, name).0;
            &&& s2.bound == s.bound.remove(name)
            &&& shell::read_outcome(s2, name) == Ok::<Option<VariableView>, Error>(
                env::lookup(s2.env, name),
            )
            &&& s2.region matches Some(region) && {
                &&& effective::read_scalar(region.img, name) == Ok::<Option<Seq<char>>, Error>(
                    None,
                )
                &&& effective::read_array(region.img, name) == Ok::<Map<u64, Seq<char>>, Error>(
                    Map::empty(),
                )
                &&& effective::read_assoc(region.img, name) == Ok::<
                    Map<Seq<char>, Seq<char>>,
                    Error,
                >(Map::empty())
                &&& effective::read_meta(region.img, name, key) == Ok::<Option<Seq<char>>, Error>(
                    None,
                )
            }
        }),
{
    shell::deleted_variable_is_gone(s, name);
    let region = shell::delete_outcome(s, name).0.region->Some_0;
    assert(effective::reads_nothing(region.img, name));
    assert(effective::read_meta(region.img, name, key) == Ok::<Option<Seq<char>>, Error>(None));
}

/// What the store holds for a name is what its type says it is: the elements of an indexed or an
/// associative array, an integer, which is `0` without a value, or else the scalar.
pub proof fn stored_type_selects_the_value(img: Seq<u8>, name: Seq<char>, tag: Option<Seq<char>>)
    requires
        effective::read_meta(img, name, seq!['t', 'y', 'p', 'e']) == Ok::<
            Option<Seq<char>>,
            Error,
        >(tag),
    ensures
        tag == Some(seq!['a', 'r', 'r', 'a', 'y']) ==> match effective::read_array(img, name) {
            Ok(m) => shell::stored_variable(img, name) == Ok::<Option<VariableView>, Error>(
                Some(
                    VariableView { value: ValueView::Array(m), integer: false, readonly: false },
                ),
            ),
            Err(e) => shell::stored_variable(img, name) == Err::<Option<VariableView>, Error>(e),
        },
        tag == Some(seq!['a', 's', 's', 'o', 'c']) ==> match effective::read_assoc(img, name) {
            Ok(m) => shell::stored_variable(img, name) == Ok::<Option<VariableView>, Error>(
                Some(
                    VariableView { value: ValueView::Assoc(m), integer: false, readonly: false },
                ),
            ),
            Err(e) => shell::stored_variable(img, name) == Err::<Option<VariableView>, Error>(e),
        },
        tag == Some(seq!['i', 'n', 't', 'e', 'g', 'e', 'r']) ==> match effective::read_scalar(
            img,
            name,
        ) {
            Ok(v) => shell::stored_variable(img, name) == Ok::<Option<VariableView>, Error>(
                Some(
                    VariableView {
                        value: ValueView::Text(
                            match v {
                                Some(v) => v,
                                None => seq!['0'],
                            },
                        ),
                        integer: true,
                        readonly: false,
                    },
                ),
            ),
            Err(e) => shell::stored_variable(img, name) == Err::<Option<VariableView>, Error>(e),
        },
        tag != Some(seq!['a', 'r', 'r', 'a', 'y']) && tag != Some(seq!['a', 's', 's', 'o', 'c'])
            && tag != Some(seq!['i', 'n', 't', 'e', 'g', 'e', 'r'])
            ==> match effective::read_scalar(img, name) {
            Ok(Some(v)) => shell::stored_variable(img, name) == Ok::<Option<VariableView>, Error>(
                Some(
                    VariableView { value: ValueView::Text(v), integer: false, readonly: false },
                ),
            ),
            Ok(None) => shell::stored_variable(img, name) == Ok::<Option<VariableView>, Error>(
                None,
            ),
            Err(e) => shell::stored_variable(img, name) == Err::<Option<VariableView>, Error>(e),
        },
{
    reveal_strlit("type");
    reveal_strlit("array");
    reveal_strlit("assoc");
    reveal_strlit("integer");
    reveal_strlit("0");
    assert("type"@ =~= seq!['t', 'y', 'p', 'e']);
    let array = seq!['a', 'r', 'r', 'a', 'y'];
    let assoc = seq!['a', 's', 's', 'o', 'c'];
    let integer = seq!['i', 'n', 't', 'e', 'g', 'e', 'r'];
    assert("array"@ =~= array);
    assert("assoc"@ =~= assoc);
    assert("integer"@ =~= integer);
    assert("0"@ =~= seq!['0']);
    assert(array[1] != assoc[1]);
    assert(array.len() != integer.len());
    assert(assoc.len() != integer.len());
}

/// The store of a shell that has none yet is a new one of 4096 bytes, which may grow without bound.
pub proof fn first_store_is_new(s: ShellView)
    ensures
        s.region is None ==> shell::ensured(s) == (RegionView {
            img: shared_memory::freshened(Seq::new(4096, |i: int| 0u8)),
            granted: 0xffff_ffff_ffff_ffff,
        }),
        s.region matches Some(region) ==> shell::ensured(s) == region,
{
    assert(shared_memory::zeros(4096) =~= Seq::new(4096, |i: int| 0u8));
}

/// The writes of an operation go to the store of the shell, or to a new one where it has none, and
/// change nothing else; what they end in is what the operation ends in.
pub proof fn writes_go_to_the_store(s: ShellView, ws: Seq<journal::Write>)
    ensures
        ({
            let region = match s.region {
                Some(region) => region,
                None => RegionView {
                    img: shared_memory::freshened(Seq::new(4096, |i: int| 0u8)),
                    granted: 0xffff_ffff_ffff_ffff,
                },
            };
            let (img, r) = journal::run(region.img, region.granted, ws);
            shell::store_outcome(s, ws) == (
                ShellView {
                    env: s.env,
                    bound: s.bound,
                    region: Some(RegionView { img, granted: region.granted }),
                },
                r,
            )
        }),
{
    first_store_is_new(s);
}

/// Where the store refuses a write, every operation ends in the error of that write.
pub proof fn store_errors_are_reported(
    s: ShellView,
    name: Seq<char>,
    initial: Option<Seq<char>>,
    ws: Seq<journal::Write>,
    var: VariableView,
    e: Error,
)
    ensures
        shell::store_outcome(s, ws).1 == Err::<(), Error>(e) ==> shell::bind_outcome(
            s,
            name,
            ws,
            var,
        ) == shell::store_outcome(s, ws),
        s.region is Some && s.bound.contains(name) && shell::store_outcome(
            s,
            effective::unset_writes(name),
        ).1 == Err::<(), Error>(e) ==> {
            &&& shell::delete_outcome(s, name) == (
                shell::store_outcome(s, effective::unset_writes(name)).0,
                Err::<bool, Error>(e),
            )
            &&& shell::unset_var_outcome(s, name) == (
                shell::store_outcome(s, effective::unset_writes(name)).0,
                Err::<Option<VariableView>, Error>(e),
            )
        },
        initial matches Some(v) ==> (shell::store_outcome(s, effective::scalar_writes(name, v)).1
            == Err::<(), Error>(e) ==> shell::bind_scalar_outcome(s, name, initial)
            == shell::store_outcome(s, effective::scalar_writes(name, v))),
{
}

/// What is pushed for a variable: its text, with the integer attribute where it has it, its
/// elements, or that it has no value.
pub proof fn variables_are_pushed_by_their_writes(
    name: Seq<char>,
    t: Seq<char>,
    m: Map<u64, Seq<char>>,
    a: Map<Seq<char>, Seq<char>>,
    unset: ShellValueUnsetType,
    integer: bool,
    readonly: bool,
)
    ensures
        shell::sync_writes(name, None) == Some(effective::unset_writes(name)),
        shell::sync_writes(
            name,
            Some(VariableView { value: ValueView::Unset(unset), integer, readonly }),
        ) == Some(effective::unset_writes(name)),
        shell::sync_writes(
            name,
            Some(VariableView { value: ValueView::Array(m), integer, readonly }),
        ) == Some(effective::array_writes(name, m)),
        shell::sync_writes(
            name,
            Some(VariableView { value: ValueView::Assoc(a), integer, readonly }),
        ) == Some(effective::assoc_writes(name, a)),
        shell::sync_writes(
            name,
            Some(VariableView { value: ValueView::Dynamic(t), integer, readonly }),
        ) is None,
        shell::sync_writes(
            name,
            Some(VariableView { value: ValueView::Text(t), integer, readonly }),
        ) == Some(
            if integer {
                effective::scalar_writes(name, t) + seq![
                    (journal::Write {
                        state: 1,
                        entry_type: EntryType::Meta,
                        name,
                        key: seq!['t', 'y', 'p', 'e'],
                        val: seq!['i', 'n', 't', 'e', 'g', 'e', 'r'],
                    }),
                ]
            } else {
                effective::scalar_writes(name, t)
            },
        ),
{
    reveal_strlit("type");
    reveal_strlit("integer");
    assert("type"@ =~= seq!['t', 'y', 'p', 'e']);
    assert("integer"@ =~= seq!['i', 'n', 't', 'e', 'g', 'e', 'r']);
}

/// A variable is bound wherever its texts can be recorded, the store takes no more than half of what
/// its header can record, and the shell's own variable can be changed.
pub proof fn scalar_is_bound_where_there_is_room(s: ShellView, name: Seq<char>, v: Seq<char>)
    requires
        shell::sound_shell(s),
        encode_utf8(name).len() <= 65535,
        encode_utf8(v).len() <= 0x7fff_0000,
        match s.region {
            Some(region) => region.granted >= 0xffff_ffff && layout::header_of(
                region.img,
            ).used_bytes + 4 * encode_utf8(name).len() + encode_utf8(v).len() + 100
                <= 0x8000_0000,
            None => 4 * encode_utf8(name).len() + encode_utf8(v).len() + 200 <= 0x8000_0000,
        },
    ensures
        (env::lookup(s.env, name) matches Some(var) && var.readonly)
            || shell::bind_scalar_outcome(s, name, Some(v)).1 == Ok::<(), Error>(()),
        bind_integer_outcome(s, name, Some(v)).1 == Ok::<(), Error>(()),
{
    let region = shell::ensured(s);
    first_store_is_new(s);
    let zeros = Seq::new(4096, |i: int| 0u8);
    shared_memory::fresh_store_is_sound(zeros);
    store_laws::new_store_is_a_header_and_zeros(zeros, 0);
    store_laws::scalars_are_set_by_three_writes(name, v);
    variables_are_pushed_by_their_writes(
        name,
        v,
        Map::empty(),
        Map::empty(),
        ShellValueUnsetType::Untyped,
        true,
        false,
    );
    let ws = effective::scalar_writes(name, v);
    let all = shell::integer_writes(name, v);
    lemma_short_texts();
    lemma_four_writes(all);
    lemma_three_writes(ws);
    assert forall|i: int| #![trigger ws[i]] 0 <= i < ws.len() implies encode_utf8(
        ws[i].name,
    ).len() <= 65535 && encode_utf8(ws[i].key).len() <= 65535 && encode_utf8(ws[i].val).len()
        <= 0xffff_ffff by {}
    assert forall|i: int| #![trigger all[i]] 0 <= i < all.len() implies encode_utf8(
        all[i].name,
    ).len() <= 65535 && encode_utf8(all[i].key).len() <= 65535 && encode_utf8(all[i].val).len()
        <= 0xffff_ffff by {}
    store_laws::short_writes_succeed(region.img, region.granted, ws);
    store_laws::short_writes_succeed(region.img, region.granted, all);
    only_readonly_variables_refuse(s.env, name, v);
}

proof fn lemma_short_texts()
    ensures
        encode_utf8(seq![]).len() == 0,
        encode_utf8(seq!['t', 'y', 'p', 'e']).len() == 4,
        encode_utf8(seq!['s', 'c', 'a', 'l', 'a', 'r']).len() == 6,
        encode_utf8(seq!['i', 'n', 't', 'e', 'g', 'e', 'r']).len() == 7,
{
    is_ascii_chars_encode_utf8(seq!['t', 'y', 'p', 'e']);
    is_ascii_chars_encode_utf8(seq!['s', 'c', 'a', 'l', 'a', 'r']);
    is_ascii_chars_encode_utf8(seq!['i', 'n', 't', 'e', 'g', 'e', 'r']);
}

proof fn lemma_three_writes(ws: Seq<journal::Write>)
    requires
        ws.len() == 3,
    ensures
        journal::total_len(ws) == journal::record_len(journal::record_of(ws[0]))
            + journal::record_len(journal::record_of(ws[1])) + journal::record_len(
            journal::record_of(ws[2]),
        ),
{
    reveal_with_fuel(journal::total_len, 4);
    assert(ws.drop_first()[0] == ws[1]);
    assert(ws.drop_first().drop_first()[0] == ws[2]);
}

proof fn lemma_four_writes(ws: Seq<journal::Write>)
    requires
        ws.len() == 4,
    ensures
        journal::total_len(ws) == journal::record_len(journal::record_of(ws[0]))
            + journal::record_len(journal::record_of(ws[1])) + journal::record_len(
            journal::record_of(ws[2]),
        ) + journal::record_len(journal::record_of(ws[3])),
{
    lemma_three_writes(ws.drop_first());
}

/// Pushing a bound name makes the writes that its variable asks for, and no others.
pub proof fn bound_name_is_pushed_by_its_writes(s: ShellView, name: Seq<char>)
    requires
        s.bound.contains(name),
    ensures
        shell::sync_writes(name, env::lookup(s.env, name)) matches Some(ws) ==> shell::sync_outcome(
            s,
            name,
        ) == shell::store_outcome(s, ws),
{
}

/// Without a store nothing is dropped from one, and none is made.
pub proof fn nothing_is_dropped_without_a_store(s: ShellView, name: Seq<char>)
    requires
        s.region is None,
    ensures
        shell::delete_outcome(s, name).0.region is None,
        shell::unset_var_outcome(s, name).0.region is None,
        shell::delete_outcome(s, name).1 is Err <==> s.bound.contains(name) && env::unset_outcome(
            s.env,
            name,
        ) is Err,
        shell::unset_var_outcome(s, name).1 is Err <==> env::unset_outcome(s.env, name) is Err,
{
}

/// A read-only variable of the shell does not keep a name from being bound or dropped in the store:
/// the operation ends in an error only behind that, and the variable stays as it is.
pub proof fn readonly_variable_is_reported_last(
    s: ShellView,
    name: Seq<char>,
    v: Seq<char>,
    own: VariableView,
)
    requires
        env::lookup(s.env, name) == Some(own),
        own.readonly,
    ensures
        ({
            let (s1, stored) = shell::store_outcome(s, effective::scalar_writes(name, v));
            stored is Ok ==> shell::bind_scalar_outcome(s, name, Some(v)) == (
                ShellView { env: s.env, bound: s.bound.insert(name), region: s1.region },
                Err::<(), Error>(Error::ReadonlyVariable),
            )
        }),
        ({
            let (s1, dropped) = shell::store_outcome(s, effective::unset_writes(name));
            s.region is Some && s.bound.contains(name) && dropped is Ok ==> {
                &&& shell::delete_outcome(s, name) == (
                    ShellView { env: s.env, bound: s.bound.remove(name), region: s1.region },
                    Err::<bool, Error>(Error::ReadonlyVariable),
                )
                &&& shell::unset_var_outcome(s, name) == (
                    ShellView { env: s.env, bound: s.bound, region: s1.region },
                    Err::<Option<VariableView>, Error>(Error::ReadonlyVariable),
                )
            }
        }),
        !s.bound.contains(name) ==> shell::unset_var_outcome(s, name) == (
            s,
            Err::<Option<VariableView>, Error>(Error::ReadonlyVariable),
        ),
{
}

} // verus!
