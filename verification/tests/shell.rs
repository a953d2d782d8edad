use std::collections::BTreeMap;

use brush_bridge::env::{valid_variable_name, EnvironmentScope, ShellEnvironment};
use brush_bridge::error::{Error, Fault};
use brush_bridge::family::ShellFamily;
use brush_bridge::name_map::NameMap;
use brush_bridge::results::{ExecutionExitCode, ExecutionResult};
use brush_bridge::shared::SharedCommand;
use brush_bridge::shared_memory::SharedRegion;
use brush_bridge::shell::Shell;
use brush_bridge::variables::{ShellValue, ShellValueUnsetType, ShellVariable};

fn text(s: &str) -> ShellValue {
    ShellValue::String(s.to_string())
}

fn var(value: ShellValue) -> ShellVariable {
    ShellVariable::new(value)
}

fn integer(s: &str) -> ShellVariable {
    let mut v = var(text(s));
    v.treat_as_integer();
    v
}

fn array(list: &[(u64, &str)]) -> ShellValue {
    let mut m = BTreeMap::new();
    for (k, v) in list {
        m.insert(*k, v.to_string());
    }
    ShellValue::IndexedArray(m)
}

fn assoc(list: &[(&str, &str)]) -> ShellValue {
    let mut m = NameMap::new();
    for (k, v) in list {
        m.insert(k, v.to_string());
    }
    ShellValue::AssociativeArray(m)
}

/// What a shell sees: its own copy of a variable, and the value through the store.
fn read(shell: &Shell, name: &str) -> Option<ShellVariable> {
    shell.env_var_cloned(name).unwrap()
}

fn assign(shell: &mut Shell, name: &str, value: ShellVariable) {
    shell.env_mut().set_global(name, value);
    shell.shared_sync_from_env(name).unwrap();
}

fn shared(shell: &mut Shell, flags: &str, arg: Option<&str>) -> Result<(String, u8), Error> {
    let command = SharedCommand {
        delete: flags.contains('d'),
        indexed: flags.contains('a'),
        associative: flags.contains('A'),
        integer: flags.contains('i'),
        arg: arg.map(|a| a.to_string()),
    };
    command.execute(shell).map(|(message, result)| (message, result.exit_code.code()))
}

fn done() -> Result<(String, u8), Error> {
    Ok((String::new(), 0))
}

#[test]
fn scalar_written_in_a_copy_is_seen_once_the_store_is_handed_over() {
    let mut parent = Shell::new();
    assert_eq!(shared(&mut parent, "", Some("x=0")), done());
    let mut child = parent.copied();
    assert_eq!(read(&child, "x"), Some(var(text("0"))));
    assign(&mut child, "x", var(text("42")));
    child.share_store(&mut parent);
    assert_eq!(read(&parent, "x"), Some(var(text("42"))));
}

#[test]
fn subshells_and_their_parent_see_what_each_other_writes() {
    let mut family = ShellFamily::new(Shell::new());
    shared(family.shell(0), "", Some("x=0")).unwrap();
    let sub = family.subshell(0);
    let subsub = family.subshell(sub);
    assert_eq!((sub, subsub, family.len()), (1, 2, 3));
    assign(family.shell(sub), "x", var(text("42")));
    assert_eq!(read(family.shell(0), "x"), Some(var(text("42"))));
    assert_eq!(read(family.shell(subsub), "x"), Some(var(text("42"))));
    assert_eq!(family.shell(0).env().get("x").unwrap().1.value(), &text("0"));
    assign(family.shell(0), "x", var(text("7")));
    assert_eq!(read(family.shell(sub), "x"), Some(var(text("7"))));
    family.shell(subsub).shared_delete("x").unwrap();
    assert_eq!(read(family.shell(0), "x"), None);
    assert!(family.shell(0).shared_is_bound("x"));
}

#[test]
fn subshells_made_before_there_is_a_store_have_their_own() {
    let mut family = ShellFamily::new(Shell::new());
    let sub = family.subshell(0);
    shared(family.shell(sub), "", Some("x=sub")).unwrap();
    assert!(family.shell(0).shared_region().is_none());
    shared(family.shell(0), "", Some("x=parent")).unwrap();
    assert_eq!(read(family.shell(sub), "x"), Some(var(text("sub"))));
    assert_eq!(read(family.shell(0), "x"), Some(var(text("parent"))));
}

#[test]
fn handing_over_no_store_takes_the_store_away() {
    let mut shell = Shell::new();
    shared(&mut shell, "", Some("x=1")).unwrap();
    Shell::new().share_store(&mut shell);
    assert!(shell.shared_region().is_none());
}

#[test]
fn binding_takes_the_current_value() {
    let mut shell = Shell::new();
    shell.env_mut().set_global("y", var(text("abc")));
    assert_eq!(shared(&mut shell, "", Some("y")), done());
    assert_eq!(read(&shell, "y"), Some(var(text("abc"))));
    assert!(shell.shared_is_bound("y"));
    assert!(!shell.shared_is_bound("z"));
    assert_eq!(shared(&mut shell, "", Some("fresh")), done());
    assert_eq!(read(&shell, "fresh"), Some(var(text(""))));
    assert_eq!(shared(&mut shell, "", Some("v=a=b")), done());
    assert_eq!(read(&shell, "v"), Some(var(text("a=b"))));
}

#[test]
fn deleting_unbinds_and_unsets() {
    let mut shell = Shell::new();
    shared(&mut shell, "", Some("z=1")).unwrap();
    assert_eq!(shared(&mut shell, "d", Some("z")), done());
    assert!(!shell.shared_is_bound("z"));
    assert_eq!(read(&shell, "z"), None);
    assert_eq!(shell.shared_region().unwrap().get_scalar("z"), Ok(None));
    assert_eq!(shell.shared_delete("z"), Ok(false));
    assert_eq!(shared(&mut shell, "d", Some("never")), done());
}

#[test]
fn arrays_are_seen_across_shells() {
    let mut parent = Shell::new();
    assert_eq!(shared(&mut parent, "a", Some("arr")), done());
    assert_eq!(shared(&mut parent, "A", Some("cfg")), done());
    assert_eq!(read(&parent, "arr"), Some(var(array(&[]))));
    assert_eq!(read(&parent, "cfg"), Some(var(assoc(&[]))));
    assign(&mut parent, "arr", var(array(&[(0, "a")])));
    assign(&mut parent, "cfg", var(assoc(&[("k", "v")])));
    let mut child = parent.copied();
    assert_eq!(read(&child, "arr"), Some(var(array(&[(0, "a")]))));
    assign(&mut child, "arr", var(array(&[(0, "a"), (1, "b")])));
    assign(&mut child, "cfg", var(assoc(&[("k", "v"), ("p", "q")])));
    child.share_store(&mut parent);
    assert_eq!(read(&parent, "arr"), Some(var(array(&[(0, "a"), (1, "b")]))));
    assert_eq!(read(&parent, "cfg"), Some(var(assoc(&[("k", "v"), ("p", "q")]))));
}

#[test]
fn bound_arrays_start_with_their_elements() {
    let mut shell = Shell::new();
    shell.env_mut().set_global("arr", var(array(&[(5, "x")])));
    shell.env_mut().set_global("cfg", var(assoc(&[("a", "1")])));
    shell.env_mut().set_global("word", var(text("w")));
    shell.shared_bind_indexed_array("arr").unwrap();
    shell.shared_bind_assoc_array("cfg").unwrap();
    shell.shared_bind_indexed_array("word").unwrap();
    assert_eq!(read(&shell, "arr"), Some(var(array(&[(5, "x")]))));
    assert_eq!(read(&shell, "cfg"), Some(var(assoc(&[("a", "1")]))));
    assert_eq!(read(&shell, "word"), Some(var(array(&[]))));
    shell.shared_bind_assoc_array("arr").unwrap();
    assert_eq!(read(&shell, "arr"), Some(var(assoc(&[]))));
}

#[test]
fn integers_stay_integers() {
    let mut parent = Shell::new();
    assert_eq!(shared(&mut parent, "i", Some("n=1")), done());
    assert_eq!(read(&parent, "n"), Some(integer("1")));
    let mut child = parent.copied();
    assign(&mut child, "n", integer("42"));
    child.share_store(&mut parent);
    assert_eq!(read(&parent, "n"), Some(integer("42")));
    assert_eq!(shared(&mut parent, "i", Some("zero")), done());
    assert_eq!(read(&parent, "zero"), Some(integer("0")));
    assert_eq!(parent.env().get("zero").unwrap().1, &integer("0"));
    let mut shell = Shell::new();
    shell.env_mut().set_global("had", var(text("7")));
    shell.shared_bind_integer("had", None).unwrap();
    assert_eq!(read(&shell, "had"), Some(integer("7")));
}

#[test]
fn misuse_is_refused() {
    let refused = |message: &str| Ok((message.to_string(), 2));
    let mut shell = Shell::new();
    assert_eq!(shared(&mut shell, "", None), refused("shared: expected NAME or NAME=VALUE"));
    assert_eq!(shared(&mut shell, "d", None), refused("shared: expected NAME or NAME=VALUE"));
    assert_eq!(shared(&mut shell, "d", Some("a=b")), refused("shared: -d expects a variable name"));
    assert_eq!(shared(&mut shell, "", Some("1a=b")), refused("shared: invalid variable name: 1a"));
    assert_eq!(shared(&mut shell, "", Some("a-b")), refused("shared: invalid variable name: a-b"));
    assert_eq!(shared(&mut shell, "", Some("=b")), refused("shared: invalid variable name: "));
    assert_eq!(shared(&mut shell, "a", Some("a=b")), refused("shared: invalid variable name: a=b"));
    assert_eq!(shared(&mut shell, "A", Some("a=b")), refused("shared: invalid variable name: a=b"));
    assert_eq!(
        shared(&mut shell, "ai", Some("a")),
        refused("shared: -a, -A and -i exclude each other")
    );
    assert!(shell.shared_region().is_none());
    assert_eq!(ExecutionResult::success().exit_code, ExecutionExitCode::Success);
}

#[test]
fn unsetting_clears_the_store_but_keeps_the_binding() {
    let mut shell = Shell::new();
    shell.shared_bind_scalar("x", Some("1")).unwrap();
    assert_eq!(shell.shared_unset_var("x"), Ok(Some(var(text("1")))));
    assert_eq!(read(&shell, "x"), None);
    assert!(shell.shared_is_bound("x"));
    assert_eq!(shell.shared_unset_var("unbound"), Ok(None));
    shell.env_mut().set_global("own", var(text("o")));
    assert_eq!(shell.shared_unset_var("own"), Ok(Some(var(text("o")))));
    assert_eq!(read(&shell, "own"), None);
}

#[test]
fn syncing_pushes_what_the_variable_is() {
    let mut shell = Shell::new();
    shell.shared_bind_scalar("x", Some("1")).unwrap();
    assign(&mut shell, "x", var(array(&[(2, "b")])));
    assert_eq!(read(&shell, "x"), Some(var(array(&[(2, "b")]))));
    assign(&mut shell, "x", var(ShellValue::Unset(ShellValueUnsetType::Untyped)));
    assert_eq!(read(&shell, "x"), None);
    assign(&mut shell, "x", var(text("2")));
    shell.env_mut().unset("x").unwrap();
    shell.shared_sync_from_env("x").unwrap();
    assert_eq!(read(&shell, "x"), None);
    shell.env_mut().set_global(
        "x",
        var(ShellValue::Dynamic { current: "5".to_string() }),
    );
    assert_eq!(shell.shared_sync_from_env("x"), Err(Error::DynamicShared));
    assert_eq!(
        Error::DynamicShared.message(),
        "shared sync for dynamic values is not supported"
    );
    shell.env_mut().set_global("y", var(text("1")));
    assert_eq!(shell.shared_sync_from_env("y"), Ok(()));
    assert_eq!(shell.shared_region().unwrap().get_scalar("y"), Ok(None));
}

#[test]
fn readonly_variables_are_kept() {
    let mut shell = Shell::new();
    let mut fixed = var(text("old"));
    fixed.set_readonly();
    shell.env_mut().set_global("r", fixed);
    assert_eq!(shell.shared_bind_scalar("r", Some("new")), Err(Error::ReadonlyVariable));
    assert_eq!(shell.env().get("r").unwrap().1.value(), &text("old"));
    assert_eq!(read(&shell, "r"), Some(var(text("new"))));
    assert_eq!(shell.shared_delete("r"), Err(Error::ReadonlyVariable));
    assert_eq!(shell.shared_unset_var("r"), Err(Error::ReadonlyVariable));
    assert_eq!(Error::ReadonlyVariable.message(), "cannot mutate readonly variable");
}

#[test]
fn store_failures_leave_the_variables_alone() {
    let mut shell = Shell::new();
    let long = "n".repeat(70_000);
    assert_eq!(
        shell.shared_bind_scalar(&long, Some("1")),
        Err(Error::InternalError(Fault::NameTooLong))
    );
    assert!(!shell.shared_is_bound(&long));
    assert!(shell.env().get(&long).is_none());
    let region = SharedRegion::create(60).unwrap();
    shell.attach_shared_region(SharedRegion::from_bytes(region.bytes().clone(), 60).unwrap());
    assert_eq!(
        shell.shared_bind_integer("n", None),
        Err(Error::GrowthRefused { size: 4096 })
    );
    assert!(!shell.shared_is_bound("n"));
    assert_eq!(Error::GrowthRefused { size: 4096 }.message(), "shared region cannot grow");
}

#[test]
fn first_store_has_the_default_size() {
    let mut shell = Shell::new();
    shell.shared_bind_scalar("x", None).unwrap();
    assert_eq!(shell.shared_region().unwrap().size(), 4096);
}

#[test]
fn other_names_are_left_alone() {
    let mut shell = Shell::new();
    for i in 1..=20 {
        shared(&mut shell, "", Some(&format!("v{i}=0"))).unwrap();
    }
    for i in 1..=20 {
        assign(&mut shell, &format!("v{i}"), var(text(&i.to_string())));
    }
    for i in 1..=20 {
        assert_eq!(read(&shell, &format!("v{i}")), Some(var(text(&i.to_string()))));
    }
}

#[test]
fn values_read_as_strings() {
    assert_eq!(text("s").to_text(), "s");
    assert_eq!(array(&[(0, "zero"), (1, "one")]).to_text(), "zero");
    assert_eq!(array(&[(1, "one")]).to_text(), "");
    assert_eq!(assoc(&[("0", "zero"), ("a", "b")]).to_text(), "zero");
    assert_eq!(assoc(&[("a", "b")]).to_text(), "");
    assert_eq!(ShellValue::Unset(ShellValueUnsetType::IndexedArray).to_text(), "");
    assert_eq!(ShellValue::Dynamic { current: "d".to_string() }.to_text(), "d");
}

#[test]
fn strings_are_assigned_by_kind() {
    let assigned = |value: ShellValue| {
        let mut v = var(value);
        v.assign("n").unwrap();
        v.value().clone()
    };
    assert_eq!(assigned(text("o")), text("n"));
    assert_eq!(assigned(array(&[(0, "a"), (1, "b")])), array(&[(0, "n"), (1, "b")]));
    assert_eq!(assigned(assoc(&[("k", "v")])), assoc(&[("0", "n"), ("k", "v")]));
    assert_eq!(
        assigned(ShellValue::Unset(ShellValueUnsetType::IndexedArray)),
        array(&[(0, "n")])
    );
    assert_eq!(
        assigned(ShellValue::Unset(ShellValueUnsetType::AssociativeArray)),
        assoc(&[("0", "n")])
    );
    assert_eq!(assigned(ShellValue::Unset(ShellValueUnsetType::Untyped)), text("n"));
    let dynamic = ShellValue::Dynamic { current: "d".to_string() };
    assert_eq!(assigned(dynamic.clone()), dynamic);
}

#[test]
fn scopes_shadow_and_unset() {
    let mut env = ShellEnvironment::new();
    env.set_global("x", var(text("global")));
    env.push_scope(EnvironmentScope::Local);
    env.update_or_add("x", "changed").unwrap();
    assert_eq!(env.get("x").unwrap().0, EnvironmentScope::Global);
    assert_eq!(env.get("x").unwrap().1.value(), &text("changed"));
    env.update_or_add("new", "1").unwrap();
    assert_eq!(env.get("new").unwrap().0, EnvironmentScope::Global);
    assert_eq!(env.unset("x"), Ok(Some(var(text("changed")))));
    assert!(env.get("x").is_none());
    assert_eq!(env.unset("x"), Ok(None));
    assert_eq!(env.pop_scope(), Some(EnvironmentScope::Local));
    assert_eq!(env.pop_scope(), None);
}

#[test]
fn variables_do_not_disturb_each_other() {
    let mut env = ShellEnvironment::new();
    env.set_global("a", var(text("1")));
    env.set_global("b", var(text("2")));
    env.update_or_add("a", "3").unwrap();
    env.unset("a").unwrap();
    assert_eq!(env.get("b").unwrap().1.value(), &text("2"));
    let copy = env.copied();
    env.update_or_add("b", "4").unwrap();
    assert_eq!(copy.get("b").unwrap().1.value(), &text("2"));
}

#[test]
fn unset_locals_hide_outer_variables() {
    let mut env = ShellEnvironment::new();
    env.set_global("x", var(text("global")));
    env.push_scope(EnvironmentScope::Local);
    env.set_innermost("x", var(text("outer")));
    env.push_scope(EnvironmentScope::Local);
    env.push_scope(EnvironmentScope::Command);
    assert_eq!(env.unset("x"), Ok(Some(var(text("outer")))));
    assert_eq!(env.get("x").unwrap().1.value(), &text("global"));
    env.pop_scope();
    env.set_innermost("x", var(text("inner")));
    assert_eq!(env.unset("x"), Ok(Some(var(text("inner")))));
    let placeholder = var(ShellValue::Unset(ShellValueUnsetType::Untyped));
    assert_eq!(env.get("x"), Some((EnvironmentScope::Local, &placeholder)));
    env.pop_scope();
    assert_eq!(env.get("x").unwrap().1.value(), &text("global"));
}

#[test]
fn variable_names_are_checked() {
    for name in ["a", "_", "A9_z", "_1"] {
        assert!(valid_variable_name(name));
    }
    for name in ["", "1", "a-b", "é", "a b", "a="] {
        assert!(!valid_variable_name(name));
    }
}
