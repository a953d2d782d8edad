//! The shell environment: variables in nested scopes.

use vstd::prelude::*;

use crate::error::Error;
use crate::name_map;
use crate::name_map::NameMap;
use crate::text;
use crate::text::chars_of;
use crate::variables;
use crate::variables::{ShellValue, ShellValueUnsetType, ShellVariable, ValueView, VariableView};

verus! {

/// What a scope belongs to.
#[derive(Clone, Copy, Debug, PartialEq, Eq, Structural)]
pub enum EnvironmentScope {
    /// The shell as a whole.
    Global,
    /// A function call.
    Local,
    /// One command.
    Command,
}

/// A scope with its variables.
#[derive(Debug)]
struct Scope {
    kind: EnvironmentScope,
    vars: NameMap<ShellVariable>,
}

/// What a scope is.
#[verifier::ext_equal]
pub struct ScopeView {
    /// What it belongs to.
    pub kind: EnvironmentScope,
    /// Its variables.
    pub vars: Map<Seq<char>, VariableView>,
}

/// The variables of a map.
pub open spec fn variable_views(m: Map<Seq<char>, ShellVariable>) -> Map<Seq<char>, VariableView> {
    m.map_values(|v: ShellVariable| v@)
}

impl View for Scope {
    type V = ScopeView;

    closed spec fn view(&self) -> ScopeView {
        ScopeView { kind: self.kind, vars: variable_views(self.vars@) }
    }
}

impl Scope {
    spec fn wf(self) -> bool {
        &&& self.vars.wf()
        &&& forall|name: Seq<char>| #[trigger]
            self.vars@.contains_key(name) ==> self.vars@[name].wf()
    }

    /// Gives `name` a variable.
    fn set(&mut self, name: &str, var: ShellVariable)
        requires
            old(self).wf(),
            var.wf(),
        ensures
            final(self).wf(),
            final(self)@ == (ScopeView {
                vars: old(self)@.vars.insert(name@, var@),
                ..old(self)@
            }),
    {
        self.vars.insert(name, var);
        assert(self@.vars =~= old(self)@.vars.insert(name@, var@));
    }
}

impl Scope {
    /// A copy of the scope.
    fn copied(&self) -> (r: Scope)
        requires
            self.wf(),
        ensures
            r@ == self@,
            r.wf(),
    {
        let mut vars: NameMap<ShellVariable> = NameMap::new();
        let ghost items = self.vars.items();
        let mut i: usize = 0;
        assert(items.take(0) =~= Seq::<(Seq<char>, ShellVariable)>::empty());
        assert(variable_views(vars@) =~= variable_views(name_map::map_of(items.take(0))));
        while i < self.vars.len()
            invariant
                self.wf(),
                items == self.vars.items(),
                i <= items.len(),
                vars.wf(),
                variable_views(vars@) == variable_views(name_map::map_of(items.take(i as int))),
                forall|name: Seq<char>| #[trigger]
                    vars@.contains_key(name) ==> vars@[name].wf(),
            decreases items.len() - i,
        {
            let ghost before = vars@;
            let ghost upto = name_map::map_of(items.take(i as int));
            proof {
                self.vars.wf_is_sorted();
                name_map::taken_entry(items, i as int);
                name_map::sorted_entry(items, i as int);
                assert(self.vars@.contains_key(items[i as int].0));
            }
            let var = self.vars.value_at(i).clone();
            vars.insert(self.vars.name_at(i).as_str(), var);
            proof {
                let (name, value) = items[i as int];
                assert(variable_views(vars@) =~= variable_views(before).insert(name, value@));
                assert(variable_views(upto.insert(name, value)) =~= variable_views(upto).insert(
                    name,
                    value@,
                ));
            }
            i += 1;
        }
        assert(items.take(i as int) =~= items);
        Scope { kind: self.kind, vars }
    }
}

/// The variables of a shell, in nested scopes.
#[derive(Debug)]
pub struct ShellEnvironment {
    scopes: Vec<Scope>,
}

impl View for ShellEnvironment {
    type V = Seq<ScopeView>;

    closed spec fn view(&self) -> Seq<ScopeView> {
        self.scopes@.map_values(|s: Scope| s@)
    }
}

/// The outermost scope is the global one, and no other is.
pub open spec fn nested(env: Seq<ScopeView>) -> bool {
    &&& env.len() > 0
    &&& env[0].kind == EnvironmentScope::Global
    &&& forall|i: int| 0 < i < env.len() ==> (#[trigger] env[i]).kind != EnvironmentScope::Global
}

/// The innermost scope that holds `name`.
pub open spec fn holder(env: Seq<ScopeView>, name: Seq<char>) -> Option<int>
    decreases env.len(),
{
    if env.len() == 0 {
        None
    } else if env.last().vars.contains_key(name) {
        Some(env.len() - 1)
    } else {
        holder(env.drop_last(), name)
    }
}

/// The variable that `name` stands for.
pub open spec fn lookup(env: Seq<ScopeView>, name: Seq<char>) -> Option<VariableView> {
    match holder(env, name) {
        Some(i) => Some(env[i].vars[name]),
        None => None,
    }
}

/// `env` with `var` under `name` in scope `i`.
pub open spec fn with_variable(
    env: Seq<ScopeView>,
    i: int,
    name: Seq<char>,
    var: VariableView,
) -> Seq<ScopeView> {
    env.update(i, ScopeView { vars: env[i].vars.insert(name, var), ..env[i] })
}

/// `env` without `name` in scope `i`.
pub open spec fn without_variable(env: Seq<ScopeView>, i: int, name: Seq<char>) -> Seq<ScopeView> {
    env.update(i, ScopeView { vars: env[i].vars.remove(name), ..env[i] })
}

/// What assigning a string to `name` gives: the variable that the name stands for takes it, or a
/// new global variable where there is none.
pub open spec fn update_or_add_outcome(
    env: Seq<ScopeView>,
    name: Seq<char>,
    s: Seq<char>,
) -> Result<Seq<ScopeView>, Error> {
    match holder(env, name) {
        Some(i) => match variables::assign_outcome(env[i].vars[name], s) {
            Ok(var) => Ok(with_variable(env, i, name, var)),
            Err(e) => Err(e),
        },
        None => Ok(with_variable(env, 0, name, variables::plain(ValueView::Text(s)))),
    }
}

/// Whether scope `i` is that of the innermost function call.
pub open spec fn is_current_local(env: Seq<ScopeView>, i: int) -> bool {
    &&& env[i].kind == EnvironmentScope::Local
    &&& forall|j: int| i < j < env.len() ==> (#[trigger] env[j]).kind != EnvironmentScope::Local
}

/// The variable that stands for an unset local.
pub open spec fn placeholder() -> VariableView {
    variables::plain(ValueView::Unset(ShellValueUnsetType::Untyped))
}

/// What unsetting `name` gives: the environment after it, and the variable that was unset. A local
/// of the innermost function call leaves a placeholder, so that no outer variable shows through.
pub open spec fn unset_outcome(env: Seq<ScopeView>, name: Seq<char>) -> Result<
    (Seq<ScopeView>, Option<VariableView>),
    Error,
> {
    match holder(env, name) {
        None => Ok((env, None)),
        Some(i) => {
            let var = env[i].vars[name];
            if var.readonly {
                Err(Error::ReadonlyVariable)
            } else if is_current_local(env, i) {
                Ok((with_variable(env, i, name, placeholder()), Some(var)))
            } else {
                Ok((without_variable(env, i, name), Some(var)))
            }
        },
    }
}

/// The holder of a name is a scope that holds it, and no scope further in does.
pub proof fn holder_is_innermost(env: Seq<ScopeView>, name: Seq<char>)
    ensures
        match holder(env, name) {
            Some(i) => {
                &&& 0 <= i < env.len()
                &&& env[i].vars.contains_key(name)
                &&& forall|j: int|
                    i < j < env.len() ==> !(#[trigger] env[j]).vars.contains_key(name)
            },
            None => forall|j: int|
                0 <= j < env.len() ==> !(#[trigger] env[j]).vars.contains_key(name),
        },
    decreases env.len(),
{
    if env.len() > 0 && !env.last().vars.contains_key(name) {
        holder_is_innermost(env.drop_last(), name);
        assert(forall|j: int|
            0 <= j < env.len() - 1 ==> env.drop_last()[j] == #[trigger] env[j]);
    }
}

/// A scope that holds a name while none further in does is the holder of the name.
pub proof fn innermost_is_holder(env: Seq<ScopeView>, name: Seq<char>, i: int)
    requires
        0 <= i < env.len(),
        env[i].vars.contains_key(name),
        forall|j: int| i < j < env.len() ==> !(#[trigger] env[j]).vars.contains_key(name),
    ensures
        holder(env, name) == Some(i),
{
    holder_is_innermost(env, name);
    let h = holder(env, name)->Some_0;
    if h < i {
        assert(!env[i].vars.contains_key(name));
    } else if i < h {
        assert(!env[h].vars.contains_key(name));
    }
}

/// What is assigned to a name without a variable is what the name stands for.
pub proof fn added_variable_is_found(env: Seq<ScopeView>, name: Seq<char>, s: Seq<char>)
    requires
        nested(env),
        holder(env, name) is None,
    ensures
        update_or_add_outcome(env, name, s) matches Ok(env2) && lookup(env2, name) == Some(
            variables::plain(ValueView::Text(s)),
        ),
{
    holder_is_innermost(env, name);
    let env2 = with_variable(env, 0, name, variables::plain(ValueView::Text(s)));
    assert(forall|j: int| 0 < j < env2.len() ==> #[trigger] env2[j] == env[j]);
    innermost_is_holder(env2, name, 0);
}

/// Assigning to one name leaves every other name as it was.
pub proof fn assignment_leaves_other_names(
    env: Seq<ScopeView>,
    name: Seq<char>,
    s: Seq<char>,
    other: Seq<char>,
)
    requires
        nested(env),
        name != other,
        update_or_add_outcome(env, name, s) is Ok,
    ensures
        lookup(update_or_add_outcome(env, name, s)->Ok_0, other) == lookup(env, other),
{
    holder_is_innermost(env, name);
    let i = match holder(env, name) {
        Some(i) => i,
        None => 0,
    };
    lemma_other_name(env, update_or_add_outcome(env, name, s)->Ok_0, i, name, other);
}

/// Setting a global variable leaves every other name as it was.
pub proof fn global_leaves_other_names(
    env: Seq<ScopeView>,
    name: Seq<char>,
    var: VariableView,
    other: Seq<char>,
)
    requires
        nested(env),
        name != other,
    ensures
        lookup(with_variable(env, 0, name, var), other) == lookup(env, other),
{
    lemma_other_name(env, with_variable(env, 0, name, var), 0, name, other);
}

/// Unsetting one name leaves every other name as it was.
pub proof fn unset_leaves_other_names(env: Seq<ScopeView>, name: Seq<char>, other: Seq<char>)
    requires
        nested(env),
        name != other,
        unset_outcome(env, name) is Ok,
    ensures
        lookup(unset_outcome(env, name)->Ok_0.0, other) == lookup(env, other),
{
    holder_is_innermost(env, name);
    if let Some(i) = holder(env, name) {
        lemma_other_name(env, unset_outcome(env, name)->Ok_0.0, i, name, other);
    }
}

proof fn lemma_other_name(
    env: Seq<ScopeView>,
    env2: Seq<ScopeView>,
    i: int,
    name: Seq<char>,
    other: Seq<char>,
)
    requires
        0 <= i < env.len(),
        name != other,
        env2.len() == env.len(),
        forall|j: int| 0 <= j < env.len() && j != i ==> #[trigger] env2[j] == env[j],
        env2[i].vars.contains_key(other) == env[i].vars.contains_key(other),
        env[i].vars.contains_key(other) ==> env2[i].vars[other] == env[i].vars[other],
    ensures
        lookup(env2, other) == lookup(env, other),
{
    holder_is_innermost(env, other);
    holder_is_innermost(env2, other);
    if let Some(h) = holder(env, other) {
        assert forall|j: int| h < j < env2.len() implies !(#[trigger] env2[j]).vars.contains_key(
            other,
        ) by {
            assert(!env[j].vars.contains_key(other));
        }
        assert(env2[h].vars.contains_key(other));
        innermost_is_holder(env2, other, h);
    } else if let Some(h) = holder(env2, other) {
        assert(!env[h].vars.contains_key(other));
    }
}

impl ShellEnvironment {
    /// The scopes are nested in a global one, and their variables are well-formed.
    pub closed spec fn wf(self) -> bool {
        &&& nested(self@)
        &&& forall|i: int| 0 <= i < self.scopes@.len() ==> (#[trigger] self.scopes@[i]).wf()
    }

    /// The scopes of a well-formed environment are nested in a global one.
    pub proof fn wf_is_nested(self)
        requires
            self.wf(),
        ensures
            nested(self@),
    {
    }

    /// What a name stands for has a value that can be one.
    pub proof fn lookup_is_finite(self, name: Seq<char>)
        ensures
            lookup(self@, name) matches Some(var) ==> variables::finite_value(var.value),
    {
        holder_is_innermost(self@, name);
        if let Some(i) = holder(self@, name) {
            assert(self@[i] == self.scopes@[i]@);
            self.scopes@[i].vars@[name].value_is_finite();
        }
    }

    /// An environment without variables.
    pub fn new() -> (r: ShellEnvironment)
        ensures
            r.wf(),
            r@ == seq![
                (ScopeView { kind: EnvironmentScope::Global, vars: Map::empty() }),
            ],
    {
        let global = Scope { kind: EnvironmentScope::Global, vars: NameMap::new() };
        assert(global@.vars =~= Map::<Seq<char>, VariableView>::empty());
        let mut scopes: Vec<Scope> = Vec::new();
        scopes.push(global);
        ShellEnvironment { scopes }
    }

    /// A copy of the environment.
    pub fn copied(&self) -> (r: ShellEnvironment)
        requires
            self.wf(),
        ensures
            r.wf(),
            r@ == self@,
    {
        let mut scopes: Vec<Scope> = Vec::new();
        let mut i: usize = 0;
        while i < self.scopes.len()
            invariant
                self.wf(),
                i <= self.scopes@.len(),
                scopes@.len() == i,
                forall|j: int|
                    0 <= j < i ==> (#[trigger] scopes@[j]).wf() && scopes@[j]@ == self.scopes@[j]@,
            decreases self.scopes@.len() - i,
        {
            assert(self.scopes@[i as int].wf());
            scopes.push(self.scopes[i].copied());
            i += 1;
        }
        let r = ShellEnvironment { scopes };
        assert(r@ =~= self@);
        r
    }

    /// Opens a scope inside the others.
    pub fn push_scope(&mut self, kind: EnvironmentScope)
        requires
            old(self).wf(),
            kind != EnvironmentScope::Global,
        ensures
            final(self).wf(),
            final(self)@ == old(self)@.push((ScopeView { kind, vars: Map::empty() })),
    {
        let scope = Scope { kind, vars: NameMap::new() };
        assert(scope@.vars =~= Map::<Seq<char>, VariableView>::empty());
        self.scopes.push(scope);
        assert(self@ =~= old(self)@.push(scope@));
    }

    /// Closes the innermost scope, unless it is the global one.
    pub fn pop_scope(&mut self) -> (r: Option<EnvironmentScope>)
        requires
            old(self).wf(),
        ensures
            final(self).wf(),
            old(self)@.len() == 1 ==> r is None && final(self)@ == old(self)@,
            old(self)@.len() > 1 ==> r == Some(old(self)@.last().kind) && final(self)@
                == old(self)@.drop_last(),
    {
        if self.scopes.len() <= 1 {
            return None;
        }
        match self.scopes.pop() {
            Some(scope) => {
                assert(self@ =~= old(self)@.drop_last());
                Some(scope.kind)
            },
            None => None,
        }
    }

    /// The innermost scope that holds `name`.
    fn find(&self, name: &str) -> (r: Option<usize>)
        requires
            self.wf(),
        ensures
            match r {
                Some(i) => holder(self@, name@) == Some(i as int) && i < self@.len(),
                None => holder(self@, name@) is None,
            },
    {
        let mut i: usize = self.scopes.len();
        assert(self@.take(i as int) =~= self@);
        while i > 0
            invariant
                self.wf(),
                i <= self.scopes@.len(),
                holder(self@, name@) == holder(self@.take(i as int), name@),
            decreases i,
        {
            let ghost upto = self@.take(i as int);
            proof {
                assert(upto.last() == self.scopes@[i - 1]@);
                assert(upto.drop_last() =~= self@.take(i - 1));
                assert(self.scopes@[i - 1].wf());
            }
            if self.scopes[i - 1].vars.contains(name) {
                return Some(i - 1);
            }
            i -= 1;
        }
        None
    }

    /// The variable that `name` stands for, and the scope that holds it.
    pub fn get(&self, name: &str) -> (r: Option<(EnvironmentScope, &ShellVariable)>)
        requires
            self.wf(),
        ensures
            match r {
                Some((kind, var)) => {
                    &&& holder(self@, name@) matches Some(i) && self@[i].kind == kind
                    &&& lookup(self@, name@) == Some(var@)
                    &&& var.wf()
                },
                None => holder(self@, name@) is None && lookup(self@, name@) is None,
            },
    {
        match self.find(name) {
            Some(i) => {
                proof {
                    holder_is_innermost(self@, name@);
                    assert(self@[i as int] == self.scopes@[i as int]@);
                    assert(self.scopes@[i as int].wf());
                }
                match self.scopes[i].vars.get(name) {
                    Some(var) => Some((self.scopes[i].kind, var)),
                    None => None,
                }
            },
            None => None,
        }
    }

    /// Puts `var` under `name` into scope `i`.
    fn put(&mut self, i: usize, name: &str, var: ShellVariable)
        requires
            old(self).wf(),
            var.wf(),
            i < old(self)@.len(),
        ensures
            final(self).wf(),
            final(self)@ == with_variable(old(self)@, i as int, name@, var@),
    {
        assert(self.scopes@[i as int].wf());
        let ghost before = self.scopes@;
        self.scopes[i].set(name, var);
        proof {
            assert(forall|j: int|
                0 <= j < before.len() && j != i ==> #[trigger] self.scopes@[j] == before[j]);
            assert(old(self)@[i as int] == before[i as int]@);
            assert(self@ =~= with_variable(old(self)@, i as int, name@, var@));
        }
    }

    /// Gives `name` a global variable, in place of the one that it had.
    pub fn set_global(&mut self, name: &str, var: ShellVariable)
        requires
            old(self).wf(),
            var.wf(),
        ensures
            final(self).wf(),
            final(self)@ == with_variable(old(self)@, 0, name@, var@),
    {
        self.put(0, name, var);
    }

    /// Gives `name` a variable in the innermost scope, in place of the one that it had there.
    pub fn set_innermost(&mut self, name: &str, var: ShellVariable)
        requires
            old(self).wf(),
            var.wf(),
        ensures
            final(self).wf(),
            final(self)@ == with_variable(old(self)@, old(self)@.len() - 1, name@, var@),
    {
        let innermost = self.scopes.len() - 1;
        self.put(innermost, name, var);
    }

    /// Assigns a string to the variable that `name` stands for, or to a new global variable.
    pub fn update_or_add(&mut self, name: &str, s: &str) -> (r: Result<(), Error>)
        requires
            old(self).wf(),
        ensures
            final(self).wf(),
            match update_or_add_outcome(old(self)@, name@, s@) {
                Ok(env) => final(self)@ == env && r == Ok::<(), Error>(()),
                Err(e) => final(self)@ == old(self)@ && r == Err::<(), Error>(e),
            },
    {
        match self.find(name) {
            Some(i) => {
                let mut var = match self.get(name) {
                    Some((_, var)) => var.clone(),
                    None => {
                        return Ok(());
                    },
                };
                let assigned = var.assign(s);
                if assigned.is_err() {
                    return assigned;
                }
                self.put(i, name, var);
                Ok(())
            },
            None => {
                let var = ShellVariable::new(ShellValue::String(s.to_owned()));
                self.set_global(name, var);
                Ok(())
            },
        }
    }

    /// Whether scope `i` is that of the innermost function call.
    fn current_local(&self, i: usize) -> (r: bool)
        requires
            self.wf(),
            i < self@.len(),
        ensures
            r == is_current_local(self@, i as int),
    {
        assert(self@[i as int] == self.scopes@[i as int]@);
        if self.scopes[i].kind != EnvironmentScope::Local {
            return false;
        }
        assert(i < self.scopes.len());
        let mut j: usize = i + 1;
        while j < self.scopes.len()
            invariant
                i < j <= self.scopes@.len(),
                self@.len() == self.scopes@.len(),
                forall|k: int|
                    i < k < j ==> (#[trigger] self@[k]).kind != EnvironmentScope::Local,
            decreases self.scopes@.len() - j,
        {
            assert(self@[j as int] == self.scopes@[j as int]@);
            if self.scopes[j].kind == EnvironmentScope::Local {
                return false;
            }
            j += 1;
        }
        true
    }

    /// Unsets the variable that `name` stands for.
    pub fn unset(&mut self, name: &str) -> (r: Result<Option<ShellVariable>, Error>)
        requires
            old(self).wf(),
        ensures
            final(self).wf(),
            match unset_outcome(old(self)@, name@) {
                Ok((env, unset)) => {
                    &&& final(self)@ == env
                    &&& r matches Ok(var) && variables::optional_view(var) == unset
                },
                Err(e) => final(self)@ == old(self)@ && r == Err::<Option<ShellVariable>, Error>(
                    e,
                ),
            },
    {
        match self.find(name) {
            None => Ok(None),
            Some(i) => {
                let var = match self.get(name) {
                    Some((_, var)) => var.clone(),
                    None => {
                        return Ok(None);
                    },
                };
                if var.is_readonly() {
                    return Err(Error::ReadonlyVariable);
                }
                if self.current_local(i) {
                    let unset = ShellVariable::new(
                        ShellValue::Unset(ShellValueUnsetType::Untyped),
                    );
                    self.put(i, name, unset);
                } else {
                    assert(self.scopes@[i as int].wf());
                    let ghost before = self.scopes@;
                    let _ = self.scopes[i].vars.remove(name);
                    proof {
                        assert(forall|j: int|
                            0 <= j < before.len() && j != i ==> #[trigger] self.scopes@[j]
                                == before[j]);
                        assert(old(self)@[i as int] == before[i as int]@);
                        assert(self.scopes@[i as int]@.vars =~= before[i as int]@.vars.remove(
                            name@,
                        ));
                        assert(self@ =~= without_variable(old(self)@, i as int, name@));
                    }
                }
                Ok(Some(var))
            },
        }
    }
}

/// A letter or an underscore.
pub open spec fn starts_name(c: char) -> bool {
    'a' <= c <= 'z' || 'A' <= c <= 'Z' || c == '_'
}

/// Whether `s` is a name that a variable can have: a letter or an underscore, then letters, digits
/// and underscores.
pub open spec fn is_variable_name(s: Seq<char>) -> bool {
    &&& s.len() > 0
    &&& starts_name(s[0])
    &&& forall|i: int|
        0 <= i < s.len() ==> starts_name(#[trigger] s[i]) || text::is_digit(s[i])
}

/// Whether `s` is a name that a variable can have.
pub fn valid_variable_name(s: &str) -> (r: bool)
    ensures
        r == is_variable_name(s@),
{
    let chars = chars_of(s);
    if chars.len() == 0 {
        return false;
    }
    let mut i: usize = 0;
    while i < chars.len()
        invariant
            chars@ == s@,
            i <= chars@.len(),
            i > 0 ==> starts_name(s@[0]),
            forall|j: int|
                0 <= j < i ==> starts_name(#[trigger] s@[j]) || text::is_digit(s@[j]),
        decreases chars@.len() - i,
    {
        let c = chars[i];
        let letter = ('a' <= c && c <= 'z') || ('A' <= c && c <= 'Z') || c == '_';
        let digit = '0' <= c && c <= '9';
        if !letter && (i == 0 || !digit) {
            return false;
        }
        i += 1;
    }
    true
}

} // verus!
