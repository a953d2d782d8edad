//! A shell whose variables can be bound to a shared store.
//!
//! A bound variable is read from the store, so that what one shell writes there is seen by every
//! shell that shares the store. The shell keeps its own copy of the variable as well, and pushes it
//! into the store when it changes.

use std::collections::BTreeMap;

use vstd::prelude::*;

use crate::effective;
use crate::env;
use crate::env::{ScopeView, ShellEnvironment};
use crate::error::Error;
use crate::indexed;
use crate::journal;
use crate::journal::Write;
use crate::name_map;
use crate::name_map::NameMap;
use crate::shared_memory;
use crate::shared_memory::SharedRegion;
use crate::text;
use crate::text::same_text;
use crate::variables;
use crate::variables::{ShellValue, ShellVariable, ValueView, VariableView};

verus! {

/// The size of the store that a shell makes when it first needs one.
pub const DEFAULT_SHARED_REGION_SIZE: usize = 4096;

/// The shared store of a shell, and the names bound to it.
#[derive(Debug)]
struct SharedContext {
    region: Option<SharedRegion>,
    bound_names: NameMap<()>,
}

/// A shell.
#[derive(Debug)]
pub struct Shell {
    env: ShellEnvironment,
    shared: SharedContext,
}

/// What a store is: its bytes, and how many it may take.
#[verifier::ext_equal]
pub struct RegionView {
    /// The bytes.
    pub img: Seq<u8>,
    /// How many bytes the memory behind the store may take.
    pub granted: nat,
}

/// What a shell is.
#[verifier::ext_equal]
pub struct ShellView {
    /// Its variables.
    pub env: Seq<ScopeView>,
    /// Its shared store, if it has one yet.
    pub region: Option<RegionView>,
    /// The names bound to the store.
    pub bound: Set<Seq<char>>,
}

/// What an optional store is.
pub open spec fn region_view(region: Option<SharedRegion>) -> Option<RegionView> {
    match region {
        Some(region) => Some(RegionView { img: region@, granted: region.granted() }),
        None => None,
    }
}

impl View for Shell {
    type V = ShellView;

    closed spec fn view(&self) -> ShellView {
        ShellView {
            env: self.env@,
            region: region_view(self.shared.region),
            bound: self.shared.bound_names@.dom(),
        }
    }
}

/// The store of a shell; a new one where it has none yet.
pub open spec fn ensured(s: ShellView) -> RegionView {
    match s.region {
        Some(region) => region,
        None => RegionView {
            img: shared_memory::freshened(
                shared_memory::zeros(DEFAULT_SHARED_REGION_SIZE as nat),
            ),
            granted: u64::MAX as nat,
        },
    }
}

/// What writes to the store of a shell give: the shell after them, and their result.
pub open spec fn store_outcome(s: ShellView, ws: Seq<Write>) -> (ShellView, Result<(), Error>) {
    let region = ensured(s);
    let (img, result) = journal::run(region.img, region.granted, ws);
    (ShellView { region: Some(RegionView { img, ..region }), ..s }, result)
}

/// The string that a bound variable starts with.
pub open spec fn bind_value(
    s: ShellView,
    name: Seq<char>,
    initial: Option<Seq<char>>,
    default: Seq<char>,
) -> Seq<char> {
    match initial {
        Some(v) => v,
        None => match env::lookup(s.env, name) {
            Some(var) => variables::value_text(var.value),
            None => default,
        },
    }
}

/// What binding a scalar gives.
pub open spec fn bind_scalar_outcome(
    s: ShellView,
    name: Seq<char>,
    initial: Option<Seq<char>>,
) -> (ShellView, Result<(), Error>) {
    let value = bind_value(s, name, initial, seq![]);
    match store_outcome(s, effective::scalar_writes(name, value)) {
        (s1, Err(e)) => (s1, Err(e)),
        (s1, Ok(())) => {
            let s2 = ShellView { bound: s1.bound.insert(name), ..s1 };
            match env::update_or_add_outcome(s2.env, name, value) {
                Ok(env) => (ShellView { env, ..s2 }, Ok(())),
                Err(e) => (s2, Err(e)),
            }
        },
    }
}

/// What binding a name gives whose writes to the store are `ws` and whose variable is `var`.
pub open spec fn bind_outcome(
    s: ShellView,
    name: Seq<char>,
    ws: Seq<Write>,
    var: VariableView,
) -> (ShellView, Result<(), Error>) {
    match store_outcome(s, ws) {
        (s1, Err(e)) => (s1, Err(e)),
        (s1, Ok(())) => (
            ShellView {
                bound: s1.bound.insert(name),
                env: env::with_variable(s1.env, 0, name, var),
                ..s1
            },
            Ok(()),
        ),
    }
}

/// The elements that a bound indexed array starts with: those of the variable, if it is one.
pub open spec fn bind_array(s: ShellView, name: Seq<char>) -> Map<u64, Seq<char>> {
    match env::lookup(s.env, name) {
        Some(VariableView { value: ValueView::Array(m), .. }) => m,
        _ => Map::empty(),
    }
}

/// The elements that a bound associative array starts with: those of the variable, if it is one.
pub open spec fn bind_assoc(s: ShellView, name: Seq<char>) -> Map<Seq<char>, Seq<char>> {
    match env::lookup(s.env, name) {
        Some(VariableView { value: ValueView::Assoc(m), .. }) => m,
        _ => Map::empty(),
    }
}

/// The writes that set a string that is treated as an integer.
pub open spec fn integer_writes(name: Seq<char>, value: Seq<char>) -> Seq<Write> {
    effective::scalar_writes(name, value) + effective::meta_writes(
        name,
        effective::type_key(),
        "integer"@,
    )
}

/// The writes that push a variable into the store, where it can be pushed.
pub open spec fn sync_writes(name: Seq<char>, var: Option<VariableView>) -> Option<Seq<Write>> {
    match var {
        None => Some(effective::unset_writes(name)),
        Some(var) => match var.value {
            ValueView::Text(v) => if var.integer {
                Some(integer_writes(name, v))
            } else {
                Some(effective::scalar_writes(name, v))
            },
            ValueView::Array(m) => Some(effective::array_writes(name, m)),
            ValueView::Assoc(m) => Some(effective::assoc_writes(name, m)),
            ValueView::Unset(_) => Some(effective::unset_writes(name)),
            ValueView::Dynamic(_) => None,
        },
    }
}

/// What pushing the variable `name` into the store gives.
pub open spec fn sync_outcome(s: ShellView, name: Seq<char>) -> (ShellView, Result<(), Error>) {
    if !s.bound.contains(name) {
        (s, Ok(()))
    } else {
        match sync_writes(name, env::lookup(s.env, name)) {
            Some(ws) => store_outcome(s, ws),
            None => (ShellView { region: Some(ensured(s)), ..s }, Err(Error::DynamicShared)),
        }
    }
}

/// What dropping `name` from the store of a shell, where it has one, gives.
pub open spec fn drop_outcome(s: ShellView, name: Seq<char>) -> (ShellView, Result<(), Error>) {
    match s.region {
        Some(_) => store_outcome(s, effective::unset_writes(name)),
        None => (s, Ok(())),
    }
}

/// What deleting a shared variable gives.
pub open spec fn delete_outcome(s: ShellView, name: Seq<char>) -> (ShellView, Result<bool, Error>) {
    if !s.bound.contains(name) {
        (s, Ok(false))
    } else {
        match drop_outcome(s, name) {
            (s1, Err(e)) => (s1, Err(e)),
            (s1, Ok(())) => {
                let s2 = ShellView { bound: s1.bound.remove(name), ..s1 };
                match env::unset_outcome(s2.env, name) {
                    Ok((env, _)) => (ShellView { env, ..s2 }, Ok(true)),
                    Err(e) => (s2, Err(e)),
                }
            },
        }
    }
}

/// What unsetting a variable, in the store too where it is bound, gives.
pub open spec fn unset_var_outcome(s: ShellView, name: Seq<char>) -> (
    ShellView,
    Result<Option<VariableView>, Error>,
) {
    let (s1, dropped) = if s.bound.contains(name) {
        drop_outcome(s, name)
    } else {
        (s, Ok(()))
    };
    match dropped {
        Err(e) => (s1, Err(e)),
        Ok(()) => match env::unset_outcome(s1.env, name) {
            Ok((env, var)) => (ShellView { env, ..s1 }, Ok(var)),
            Err(e) => (s1, Err(e)),
        },
    }
}

/// The variable that the store holds for `name`: what its type says it is.
pub open spec fn stored_variable(img: Seq<u8>, name: Seq<char>) -> Result<
    Option<VariableView>,
    Error,
> {
    match effective::read_meta(img, name, effective::type_key()) {
        Err(e) => Err(e),
        Ok(tag) => if tag == Some("array"@) {
            match effective::read_array(img, name) {
                Ok(m) => Ok(Some(variables::plain(ValueView::Array(m)))),
                Err(e) => Err(e),
            }
        } else if tag == Some("assoc"@) {
            match effective::read_assoc(img, name) {
                Ok(m) => Ok(Some(variables::plain(ValueView::Assoc(m)))),
                Err(e) => Err(e),
            }
        } else if tag == Some("integer"@) {
            match effective::read_scalar(img, name) {
                Ok(Some(v)) => Ok(Some(variables::integer_variable(v))),
                Ok(None) => Ok(Some(variables::integer_variable("0"@))),
                Err(e) => Err(e),
            }
        } else {
            match effective::read_scalar(img, name) {
                Ok(Some(v)) => Ok(Some(variables::plain(ValueView::Text(v)))),
                Ok(None) => Ok(None),
                Err(e) => Err(e),
            }
        },
    }
}

/// What reading the variable `name` gives: from the store where it is bound, and otherwise from the
/// shell itself.
pub open spec fn read_outcome(s: ShellView, name: Seq<char>) -> Result<
    Option<VariableView>,
    Error,
> {
    match s.region {
        Some(region) if s.bound.contains(name) => stored_variable(region.img, name),
        _ => Ok(env::lookup(s.env, name)),
    }
}

impl SharedContext {
    spec fn wf(self) -> bool {
        &&& self.bound_names.wf()
        &&& self.region matches Some(region) ==> region.wf()
    }

    /// Takes the store out, to be put back; makes one where there is none yet.
    fn take_region(&mut self) -> (r: Result<SharedRegion, Error>)
        requires
            old(self).wf(),
        ensures
            final(self).wf(),
            final(self).bound_names == old(self).bound_names,
            r matches Ok(region) && region.wf() && match old(self).region {
                Some(before) => region == before,
                None => {
                    &&& region@ == shared_memory::freshened(
                        shared_memory::zeros(DEFAULT_SHARED_REGION_SIZE as nat),
                    )
                    &&& region.granted() == u64::MAX
                },
            },
    {
        match self.region.take() {
            Some(region) => Ok(region),
            None => SharedRegion::create(DEFAULT_SHARED_REGION_SIZE),
        }
    }

    /// Binds `name`.
    fn bind(&mut self, name: &str)
        requires
            old(self).wf(),
        ensures
            final(self).wf(),
            final(self).region == old(self).region,
            final(self).bound_names@.dom() == old(self).bound_names@.dom().insert(name@),
    {
        self.bound_names.insert(name, ());
        assert(self.bound_names@.dom() =~= old(self).bound_names@.dom().insert(name@));
    }

    /// Unbinds `name`.
    fn unbind(&mut self, name: &str)
        requires
            old(self).wf(),
        ensures
            final(self).wf(),
            final(self).region == old(self).region,
            final(self).bound_names@.dom() == old(self).bound_names@.dom().remove(name@),
    {
        let _ = self.bound_names.remove(name);
        assert(self.bound_names@.dom() =~= old(self).bound_names@.dom().remove(name@));
    }

    /// Drops `name` from the store, where there is one.
    fn drop_name(&mut self, name: &str) -> (r: Result<(), Error>)
        requires
            old(self).wf(),
        ensures
            final(self).wf(),
            final(self).bound_names == old(self).bound_names,
            match region_view(old(self).region) {
                Some(region) => {
                    let (img, result) = journal::run(
                        region.img,
                        region.granted,
                        effective::unset_writes(name@),
                    );
                    &&& region_view(final(self).region) == Some(RegionView { img, ..region })
                    &&& r == result
                },
                None => final(self).region is None && r == Ok::<(), Error>(()),
            },
    {
        match self.region.take() {
            Some(mut region) => {
                let result = region.unset_name(name);
                self.region = Some(region);
                result
            },
            None => Ok(()),
        }
    }
}

impl Shell {
    /// The parts of the shell are well-formed.
    pub closed spec fn wf(self) -> bool {
        &&& self.env.wf()
        &&& self.shared.wf()
    }

    /// The scopes of a well-formed shell are nested in a global one.
    pub proof fn wf_is_nested(self)
        requires
            self.wf(),
        ensures
            env::nested(self@.env),
    {
        self.env.wf_is_nested();
    }

    /// What a name stands for in a shell has a value that can be one.
    pub proof fn lookup_is_finite(self, name: Seq<char>)
        ensures
            finite_value(env::lookup(self@.env, name)),
    {
        self.env.lookup_is_finite(name);
    }

    /// A shell without variables and without a store.
    pub fn new() -> (r: Shell)
        ensures
            r.wf(),
            r@ == (ShellView {
                env: seq![
                    (ScopeView { kind: env::EnvironmentScope::Global, vars: Map::empty() }),
                ],
                region: None,
                bound: Set::empty(),
            }),
    {
        let shell = Shell {
            env: ShellEnvironment::new(),
            shared: SharedContext { region: None, bound_names: NameMap::new() },
        };
        assert(shell@.bound =~= Set::<Seq<char>>::empty());
        shell
    }

    /// A copy of the shell, with a copy of the store: what either shell writes into its store from
    /// then on, the other sees only once the store is handed over. A subshell, which shares the
    /// store, is made by `ShellFamily::subshell`.
    pub fn copied(&self) -> (r: Shell)
        requires
            self.wf(),
        ensures
            r.wf(),
            r@ == self@,
    {
        let region = self.store_copy();
        let mut bound_names: NameMap<()> = NameMap::new();
        let ghost items = self.shared.bound_names.items();
        let mut i: usize = 0;
        assert(items.take(0) =~= Seq::<(Seq<char>, ())>::empty());
        assert(bound_names@ =~= name_map::map_of(items.take(0)));
        while i < self.shared.bound_names.len()
            invariant
                self.wf(),
                items == self.shared.bound_names.items(),
                i <= items.len(),
                bound_names.wf(),
                bound_names@ == name_map::map_of(items.take(i as int)),
            decreases items.len() - i,
        {
            proof {
                self.shared.bound_names.wf_is_sorted();
                name_map::taken_entry(items, i as int);
            }
            bound_names.insert(self.shared.bound_names.name_at(i).as_str(), ());
            i += 1;
        }
        assert(items.take(i as int) =~= items);
        Shell { env: self.env.copied(), shared: SharedContext { region, bound_names } }
    }

    /// A copy of the store.
    pub(crate) fn store_copy(&self) -> (r: Option<SharedRegion>)
        requires
            self.wf(),
        ensures
            region_view(r) == self@.region,
            r matches Some(region) ==> region.wf(),
    {
        match &self.shared.region {
            Some(region) => Some(region.copied()),
            None => None,
        }
    }

    /// Hands the store over to another shell, which then reads and writes what is in it.
    pub fn share_store(&self, other: &mut Shell)
        requires
            self.wf(),
            old(other).wf(),
        ensures
            final(other).wf(),
            final(other)@ == (ShellView { region: self@.region, ..old(other)@ }),
    {
        other.set_store(self.store_copy());
    }

    /// Has the shell use `store`, or none.
    pub(crate) fn set_store(&mut self, store: Option<SharedRegion>)
        requires
            old(self).wf(),
            store matches Some(region) ==> region.wf(),
        ensures
            final(self).wf(),
            final(self)@ == (ShellView { region: region_view(store), ..old(self)@ }),
    {
        self.shared.region = store;
    }

    /// The variables of the shell.
    pub fn env(&self) -> (r: &ShellEnvironment)
        requires
            self.wf(),
        ensures
            r.wf(),
            r@ == self@.env,
    {
        &self.env
    }

    /// The variables of the shell, to be changed.
    pub fn env_mut(&mut self) -> (r: &mut ShellEnvironment)
        requires
            old(self).wf(),
        ensures
            r.wf(),
            r@ == old(self)@.env,
            final(self)@ == (ShellView { env: final(r)@, ..old(self)@ }),
            final(r).wf() ==> final(self).wf(),
    {
        &mut self.env
    }

    /// The store of the shell.
    pub fn shared_region(&self) -> (r: Option<&SharedRegion>)
        requires
            self.wf(),
        ensures
            match r {
                Some(region) => {
                    &&& region.wf()
                    &&& self@.region == Some(
                        RegionView { img: region@, granted: region.granted() },
                    )
                },
                None => self@.region is None,
            },
    {
        match &self.shared.region {
            Some(region) => Some(region),
            None => None,
        }
    }

    /// Has the shell use `region` as its store.
    pub fn attach_shared_region(&mut self, region: SharedRegion)
        requires
            old(self).wf(),
            region.wf(),
        ensures
            final(self).wf(),
            final(self)@ == (ShellView {
                region: Some(RegionView { img: region@, granted: region.granted() }),
                ..old(self)@
            }),
    {
        self.shared.region = Some(region);
    }

    /// Returns true if `name` is currently bound to shared storage.
    pub fn shared_is_bound(&self, name: &str) -> (r: bool)
        requires
            self.wf(),
        ensures
            r == self@.bound.contains(name@),
    {
        self.shared.bound_names.contains(name)
    }

    /// The string that a bound variable starts with.
    fn bind_text(&self, name: &str, initial_value: Option<&str>, default: &str) -> (r: String)
        requires
            self.wf(),
        ensures
            r@ == bind_value(
                self@,
                name@,
                (match initial_value {
                    Some(v) => Some(v@),
                    None => None,
                }),
                default@,
            ),
    {
        match initial_value {
            Some(v) => v.to_owned(),
            None => match self.env.get(name) {
                Some((_, var)) => var.value().to_text(),
                None => default.to_owned(),
            },
        }
    }

    /// Binds a scalar shell variable to shared storage, optionally setting an initial value.
    pub fn shared_bind_scalar(&mut self, name: &str, initial_value: Option<&str>) -> (r: Result<
        (),
        Error,
    >)
        requires
            old(self).wf(),
        ensures
            final(self).wf(),
            (final(self)@, r) == bind_scalar_outcome(
                old(self)@,
                name@,
                (match initial_value {
                    Some(v) => Some(v@),
                    None => None,
                }),
            ),
            sound_shell(old(self)@) && r is Ok ==> (initial_value matches Some(v) ==> read_outcome(
                final(self)@,
                name@,
            ) == Ok::<Option<VariableView>, Error>(
                Some(VariableView { value: ValueView::Text(v@), integer: false, readonly: false }),
            )),
    {
        proof {
            if let Some(v) = initial_value {
                if sound_shell(self@) && bind_scalar_outcome(self@, name@, Some(v@)).1 is Ok {
                    bound_scalar_reads_back(self@, name@, Some(v@));
                }
            }
            reveal_strlit("");
            assert(""@ =~= Seq::<char>::empty());
        }
        let initial_value = self.bind_text(name, initial_value, "");
        let mut region = self.shared.take_region()?;
        let stored = region.set_scalar(name, initial_value.as_str());
        self.shared.region = Some(region);
        if stored.is_err() {
            return stored;
        }
        self.shared.bind(name);
        self.env.update_or_add(name, initial_value.as_str())
    }

    /// Binds an indexed array variable to shared storage.
    pub fn shared_bind_indexed_array(&mut self, name: &str) -> (r: Result<(), Error>)
        requires
            old(self).wf(),
        ensures
            final(self).wf(),
            ({
                let m = bind_array(old(self)@, name@);
                (final(self)@, r) == bind_outcome(
                    old(self)@,
                    name@,
                    effective::array_writes(name@, m),
                    variables::plain(ValueView::Array(m)),
                )
            }),
    {
        let mut arr = BTreeMap::new();
        assert(indexed::array_texts(arr@) =~= Map::<u64, Seq<char>>::empty());
        if let Some((_, var)) = self.env.get(name) {
            if let ShellValue::IndexedArray(values) = var.value() {
                arr = values.clone();
            }
        }
        let mut region = self.shared.take_region()?;
        let stored = region.set_indexed_array(name, &arr);
        self.shared.region = Some(region);
        if stored.is_err() {
            return stored;
        }
        self.shared.bind(name);
        self.env.set_global(name, ShellVariable::new(ShellValue::IndexedArray(arr)));
        Ok(())
    }

    /// Binds an associative array variable to shared storage.
    pub fn shared_bind_assoc_array(&mut self, name: &str) -> (r: Result<(), Error>)
        requires
            old(self).wf(),
        ensures
            final(self).wf(),
            ({
                let m = bind_assoc(old(self)@, name@);
                (final(self)@, r) == bind_outcome(
                    old(self)@,
                    name@,
                    effective::assoc_writes(name@, m),
                    variables::plain(ValueView::Assoc(m)),
                )
            }),
    {
        let mut arr: NameMap<String> = NameMap::new();
        assert(name_map::texts(arr) =~= Map::<Seq<char>, Seq<char>>::empty());
        if let Some((_, var)) = self.env.get(name) {
            if let ShellValue::AssociativeArray(values) = var.value() {
                arr = values.clone();
            }
        }
        let mut region = self.shared.take_region()?;
        let stored = region.set_assoc_array(name, &arr);
        self.shared.region = Some(region);
        if stored.is_err() {
            return stored;
        }
        self.shared.bind(name);
        self.env.set_global(name, ShellVariable::new(ShellValue::AssociativeArray(arr)));
        Ok(())
    }

    /// Binds an integer variable to shared storage, optionally setting an initial value.
    pub fn shared_bind_integer(&mut self, name: &str, initial_value: Option<&str>) -> (r: Result<
        (),
        Error,
    >)
        requires
            old(self).wf(),
        ensures
            final(self).wf(),
            ({
                let value = bind_value(
                    old(self)@,
                    name@,
                    (match initial_value {
                        Some(v) => Some(v@),
                        None => None,
                    }),
                    "0"@,
                );
                (final(self)@, r) == bind_outcome(
                    old(self)@,
                    name@,
                    integer_writes(name@, value),
                    variables::integer_variable(value),
                )
            }),
            sound_shell(old(self)@) && r is Ok ==> (initial_value matches Some(v) ==> read_outcome(
                final(self)@,
                name@,
            ) == Ok::<Option<VariableView>, Error>(
                Some(VariableView { value: ValueView::Text(v@), integer: true, readonly: false }),
            )),
    {
        proof {
            if let Some(v) = initial_value {
                let var = variables::integer_variable(v@);
                let ws = integer_writes(name@, v@);
                if sound_shell(self@) && bind_outcome(self@, name@, ws, var).1 is Ok {
                    bound_integer_reads_back(self@, name@, v@);
                }
            }
        }
        let value = self.bind_text(name, initial_value, "0");
        let mut region = self.shared.take_region()?;
        let stored = store_integer(&mut region, name, value.as_str());
        self.shared.region = Some(region);
        if stored.is_err() {
            return stored;
        }
        self.shared.bind(name);
        let mut var = ShellVariable::new(ShellValue::String(value));
        var.treat_as_integer();
        self.env.set_global(name, var);
        Ok(())
    }

    /// Deletes a shared variable binding and removes its backing shared value.
    pub fn shared_delete(&mut self, name: &str) -> (r: Result<bool, Error>)
        requires
            old(self).wf(),
        ensures
            final(self).wf(),
            (final(self)@, r) == delete_outcome(old(self)@, name@),
    {
        if !self.shared.bound_names.contains(name) {
            return Ok(false);
        }
        self.shared.drop_name(name)?;
        self.shared.unbind(name);
        let _ = self.env.unset(name)?;
        Ok(true)
    }

    /// Unsets a variable in the shell environment and shared backing (if bound).
    pub fn shared_unset_var(&mut self, name: &str) -> (r: Result<Option<ShellVariable>, Error>)
        requires
            old(self).wf(),
        ensures
            final(self).wf(),
            ({
                let (s, result) = unset_var_outcome(old(self)@, name@);
                &&& final(self)@ == s
                &&& match result {
                    Ok(unset) => r matches Ok(var) && variables::optional_view(var) == unset,
                    Err(e) => r == Err::<Option<ShellVariable>, Error>(e),
                }
            }),
    {
        if self.shared.bound_names.contains(name) {
            self.shared.drop_name(name)?;
        }
        self.env.unset(name)
    }

    /// Pushes the shell variable's current value into shared storage when the name is bound.
    pub fn shared_sync_from_env(&mut self, name: &str) -> (r: Result<(), Error>)
        requires
            old(self).wf(),
        ensures
            final(self).wf(),
            (final(self)@, r) == sync_outcome(old(self)@, name@),
    {
        if !self.shared.bound_names.contains(name) {
            return Ok(());
        }
        let var = match self.env.get(name) {
            Some((_, var)) => Some(var.clone()),
            None => None,
        };
        let mut region = self.shared.take_region()?;
        let result = match &var {
            Some(var) => match var.value() {
                ShellValue::String(s) => if var.is_treated_as_integer() {
                    store_integer(&mut region, name, s.as_str())
                } else {
                    region.set_scalar(name, s.as_str())
                },
                ShellValue::IndexedArray(values) => region.set_indexed_array(name, values),
                ShellValue::AssociativeArray(values) => region.set_assoc_array(name, values),
                ShellValue::Unset(_) => region.unset_name(name),
                ShellValue::Dynamic { .. } => Err(Error::DynamicShared),
            },
            None => region.unset_name(name),
        };
        self.shared.region = Some(region);
        result
    }

    /// Reads a variable as a cloned value, resolving shared-backed bindings from shared memory.
    pub fn env_var_cloned(&self, name: &str) -> (r: Result<Option<ShellVariable>, Error>)
        requires
            self.wf(),
        ensures
            match read_outcome(self@, name@) {
                Ok(var) => r matches Ok(v) && variables::optional_view(v) == var && (v matches Some(
                    v,
                ) ==> v.wf()),
                Err(e) => r == Err::<Option<ShellVariable>, Error>(e),
            },
    {
        if self.shared.bound_names.contains(name) {
            if let Some(region) = &self.shared.region {
                return read_stored(region, name);
            }
        }
        match self.env.get(name) {
            Some((_, var)) => Ok(Some(var.clone())),
            None => Ok(None),
        }
    }
}

/// Sets a string that is treated as an integer.
fn store_integer(region: &mut SharedRegion, name: &str, value: &str) -> (r: Result<(), Error>)
    requires
        old(region).wf(),
    ensures
        final(region).wf(),
        final(region).granted() == old(region).granted(),
        (final(region)@, r) == journal::run(
            old(region)@,
            old(region).granted(),
            integer_writes(name@, value@),
        ),
{
    proof {
        journal::run_concat(
            region@,
            region.granted(),
            effective::scalar_writes(name@, value@),
            effective::meta_writes(name@, effective::type_key(), "integer"@),
        );
    }
    region.set_scalar(name, value)?;
    region.set_meta(name, "type", "integer")
}

/// The variable that the store holds for `name`.
fn read_stored(region: &SharedRegion, name: &str) -> (r: Result<Option<ShellVariable>, Error>)
    requires
        region.wf(),
    ensures
        match stored_variable(region@, name@) {
            Ok(var) => r matches Ok(v) && variables::optional_view(v) == var && (v matches Some(v)
                ==> v.wf()),
            Err(e) => r == Err::<Option<ShellVariable>, Error>(e),
        },
{
    let meta = region.get_meta(name, "type")?;
    let ghost stored = text::optional_text(meta);
    let tag = match meta {
        Some(tag) => tag,
        None => String::new(),
    };
    proof {
        reveal_strlit("array");
        reveal_strlit("assoc");
        reveal_strlit("integer");
        assert("array"@.len() == 5 && "assoc"@.len() == 5 && "integer"@.len() == 7);
        assert(stored is None ==> tag@.len() == 0);
        assert(stored is Some ==> stored == Some(tag@));
    }
    if same_text(tag.as_str(), "array") {
        let values = region.get_indexed_array(name)?;
        Ok(Some(ShellVariable::new(ShellValue::IndexedArray(values))))
    } else if same_text(tag.as_str(), "assoc") {
        let values = region.get_assoc_array(name)?;
        Ok(Some(ShellVariable::new(ShellValue::AssociativeArray(values))))
    } else if same_text(tag.as_str(), "integer") {
        let value = match region.get_scalar(name)? {
            Some(value) => value,
            None => "0".to_owned(),
        };
        let mut var = ShellVariable::new(ShellValue::String(value));
        var.treat_as_integer();
        Ok(Some(var))
    } else {
        match region.get_scalar(name)? {
            Some(value) => Ok(Some(ShellVariable::new(ShellValue::String(value)))),
            None => Ok(None),
        }
    }
}

/// A shell as its operations leave it: the store is sound, names are bound only where there is a
/// store, and the scopes are nested in a global one.
pub open spec fn sound_shell(s: ShellView) -> bool {
    &&& s.region matches Some(region) ==> journal::sound(region.img)
    &&& s.region is None ==> s.bound == Set::<Seq<char>>::empty()
    &&& env::nested(s.env)
}

/// A shell without variables and without a store is sound.
pub proof fn new_shell_is_sound(s: ShellView)
    requires
        s == (ShellView {
            env: seq![(ScopeView { kind: env::EnvironmentScope::Global, vars: Map::empty() })],
            region: None,
            bound: Set::empty(),
        }),
    ensures
        sound_shell(s),
{
}

proof fn lemma_ensured(s: ShellView)
    requires
        sound_shell(s),
    ensures
        journal::sound(ensured(s).img),
{
    shared_memory::fresh_store_is_sound(shared_memory::zeros(DEFAULT_SHARED_REGION_SIZE as nat));
}

/// Writes to the store keep a shell sound, and change nothing that is read for other names.
proof fn lemma_store(s: ShellView, ws: Seq<Write>, name: Seq<char>)
    requires
        sound_shell(s),
        forall|i: int| 0 <= i < ws.len() ==> (#[trigger] ws[i]).name == name,
    ensures
        sound_shell(store_outcome(s, ws).0),
        store_outcome(s, ws).0.region is Some,
        forall|other: Seq<char>|
            other != name ==> #[trigger] read_outcome(store_outcome(s, ws).0, other)
                == read_outcome(s, other),
{
    let region = ensured(s);
    lemma_ensured(s);
    journal::run_keeps_sound(region.img, region.granted, ws);
    let s1 = store_outcome(s, ws).0;
    assert forall|other: Seq<char>| other != name implies #[trigger] read_outcome(s1, other)
        == read_outcome(s, other) by {
        effective::writes_leave_other_names(region.img, region.granted, ws, name, other);
        let img2 = s1.region->Some_0.img;
        assert(effective::read_meta(img2, other, effective::type_key()) == effective::read_meta(
            region.img,
            other,
            effective::type_key(),
        ));
    }
}

/// Binding a scalar keeps a shell sound, and changes nothing that is read for other names.
pub proof fn bind_scalar_keeps_others(
    s: ShellView,
    name: Seq<char>,
    initial: Option<Seq<char>>,
    other: Seq<char>,
)
    requires
        sound_shell(s),
        name != other,
    ensures
        sound_shell(bind_scalar_outcome(s, name, initial).0),
        read_outcome(bind_scalar_outcome(s, name, initial).0, other) == read_outcome(s, other),
{
    let value = bind_value(s, name, initial, seq![]);
    let ws = effective::scalar_writes(name, value);
    lemma_store(s, ws, name);
    let s1 = store_outcome(s, ws).0;
    if env::update_or_add_outcome(s1.env, name, value) is Ok {
        env::assignment_leaves_other_names(s1.env, name, value, other);
        env::holder_is_innermost(s1.env, name);
    }
    assert(read_outcome(s1, other) == read_outcome(s, other));
}

/// Binding an array or an integer keeps a shell sound, and changes nothing that is read for other
/// names.
pub proof fn bind_keeps_others(
    s: ShellView,
    name: Seq<char>,
    ws: Seq<Write>,
    var: VariableView,
    other: Seq<char>,
)
    requires
        sound_shell(s),
        forall|i: int| 0 <= i < ws.len() ==> (#[trigger] ws[i]).name == name,
        name != other,
    ensures
        sound_shell(bind_outcome(s, name, ws, var).0),
        read_outcome(bind_outcome(s, name, ws, var).0, other) == read_outcome(s, other),
{
    lemma_store(s, ws, name);
    let s1 = store_outcome(s, ws).0;
    assert(read_outcome(s1, other) == read_outcome(s, other));
    env::global_leaves_other_names(s1.env, name, var, other);
}

/// Pushing a variable into the store keeps a shell sound, and changes nothing that is read for
/// other names.
pub proof fn sync_keeps_others(s: ShellView, name: Seq<char>, other: Seq<char>)
    requires
        sound_shell(s),
        name != other,
    ensures
        sound_shell(sync_outcome(s, name).0),
        read_outcome(sync_outcome(s, name).0, other) == read_outcome(s, other),
{
    lemma_ensured(s);
    if let Some(ws) = sync_writes(name, env::lookup(s.env, name)) {
        lemma_store(s, ws, name);
        assert(read_outcome(store_outcome(s, ws).0, other) == read_outcome(s, other));
    }
}

/// Deleting a shared variable keeps a shell sound, and changes nothing that is read for other
/// names.
pub proof fn delete_keeps_others(s: ShellView, name: Seq<char>, other: Seq<char>)
    requires
        sound_shell(s),
        name != other,
    ensures
        sound_shell(delete_outcome(s, name).0),
        read_outcome(delete_outcome(s, name).0, other) == read_outcome(s, other),
{
    let ws = effective::unset_writes(name);
    lemma_store(s, ws, name);
    let s1 = drop_outcome(s, name).0;
    assert(read_outcome(s1, other) == read_outcome(s, other));
    env::holder_is_innermost(s1.env, name);
    if env::unset_outcome(s1.env, name) is Ok {
        env::unset_leaves_other_names(s1.env, name, other);
    }
}

/// Unsetting a variable keeps a shell sound, and changes nothing that is read for other names.
pub proof fn unset_var_keeps_others(s: ShellView, name: Seq<char>, other: Seq<char>)
    requires
        sound_shell(s),
        name != other,
    ensures
        sound_shell(unset_var_outcome(s, name).0),
        read_outcome(unset_var_outcome(s, name).0, other) == read_outcome(s, other),
{
    let ws = effective::unset_writes(name);
    lemma_store(s, ws, name);
    assert(read_outcome(store_outcome(s, ws).0, other) == read_outcome(s, other));
    env::holder_is_innermost(s.env, name);
    if env::unset_outcome(s.env, name) is Ok {
        env::unset_leaves_other_names(s.env, name, other);
    }
}

proof fn lemma_tags_differ()
    ensures
        "scalar"@ != "array"@,
        "scalar"@ != "assoc"@,
        "scalar"@ != "integer"@,
        "array"@ != "assoc"@,
        "array"@ != "integer"@,
        "assoc"@ != "integer"@,
{
    reveal_strlit("scalar");
    reveal_strlit("array");
    reveal_strlit("assoc");
    reveal_strlit("integer");
    assert("scalar"@.len() == 6);
    assert("array"@.len() == 5);
    assert("assoc"@.len() == 5);
    assert("integer"@.len() == 7);
    assert("array"@[1] == 'r');
    assert("assoc"@[1] == 's');
}

/// The variable that the store holds once a variable has been pushed into it.
pub open spec fn pushed(var: Option<VariableView>) -> Option<VariableView> {
    match var {
        None => None,
        Some(var) => match var.value {
            ValueView::Unset(_) => None,
            ValueView::Text(v) => if var.integer {
                Some(variables::integer_variable(v))
            } else {
                Some(variables::plain(var.value))
            },
            _ => Some(variables::plain(var.value)),
        },
    }
}

/// Whether the value of a variable can be one: associative arrays are finite.
pub open spec fn finite_value(var: Option<VariableView>) -> bool {
    var matches Some(var) ==> variables::finite_value(var.value)
}

/// The store gives back what was pushed into it: value, kind and integer attribute.
pub proof fn pushed_variable_is_stored(
    img: Seq<u8>,
    granted: nat,
    name: Seq<char>,
    var: Option<VariableView>,
)
    requires
        journal::sound(img),
        finite_value(var),
        sync_writes(name, var) matches Some(ws) && journal::run(img, granted, ws).1 is Ok,
    ensures
        stored_variable(
            journal::run(img, granted, sync_writes(name, var)->Some_0).0,
            name,
        ) == Ok::<Option<VariableView>, Error>(pushed(var)),
{
    lemma_tags_differ();
    let ws = sync_writes(name, var)->Some_0;
    match var {
        None => {
            effective::unset_reads_nothing(img, granted, name);
            let img2 = journal::run(img, granted, ws).0;
            assert(effective::read_meta(img2, name, effective::type_key()) == Ok::<
                Option<Seq<char>>,
                Error,
            >(None));
        },
        Some(v) => match v.value {
            ValueView::Unset(_) => {
                effective::unset_reads_nothing(img, granted, name);
                let img2 = journal::run(img, granted, ws).0;
                assert(effective::read_meta(img2, name, effective::type_key()) == Ok::<
                    Option<Seq<char>>,
                    Error,
                >(None));
            },
            ValueView::Text(t) => {
                if v.integer {
                    let scalar = effective::scalar_writes(name, t);
                    let meta = effective::meta_writes(name, effective::type_key(), "integer"@);
                    journal::run_concat(img, granted, scalar, meta);
                    effective::scalar_reads_back(img, granted, name, t);
                    let img1 = journal::run(img, granted, scalar).0;
                    effective::meta_reads_back(
                        img1,
                        granted,
                        name,
                        effective::type_key(),
                        "integer"@,
                    );
                    let img2 = journal::run(img1, granted, meta).0;
                    assert(effective::read_meta(img2, name, effective::type_key()) == Ok::<
                        Option<Seq<char>>,
                        Error,
                    >(Some("integer"@)));
                } else {
                    effective::scalar_reads_back(img, granted, name, t);
                }
            },
            ValueView::Array(m) => {
                effective::array_reads_back(img, granted, name, m);
            },
            ValueView::Assoc(m) => {
                effective::assoc_reads_back(img, granted, name, m);
            },
            ValueView::Dynamic(_) => {},
        },
    }
}

/// A scalar that was bound is read back with the value that it was bound with.
pub proof fn bound_scalar_reads_back(s: ShellView, name: Seq<char>, initial: Option<Seq<char>>)
    requires
        sound_shell(s),
        bind_scalar_outcome(s, name, initial).1 is Ok,
    ensures
        ({
            let s2 = bind_scalar_outcome(s, name, initial).0;
            &&& s2.bound.contains(name)
            &&& read_outcome(s2, name) == Ok::<Option<VariableView>, Error>(
                Some(variables::plain(ValueView::Text(bind_value(s, name, initial, seq![])))),
            )
        }),
{
    lemma_ensured(s);
    let var = variables::plain(ValueView::Text(bind_value(s, name, initial, seq![])));
    pushed_variable_is_stored(ensured(s).img, ensured(s).granted, name, Some(var));
}

/// An indexed array that was bound is read back with the elements that it had.
pub proof fn bound_array_reads_back(s: ShellView, name: Seq<char>)
    requires
        sound_shell(s),
        ({
            let m = bind_array(s, name);
            bind_outcome(
                s,
                name,
                effective::array_writes(name, m),
                variables::plain(ValueView::Array(m)),
            ).1 is Ok
        }),
    ensures
        ({
            let m = bind_array(s, name);
            let var = variables::plain(ValueView::Array(m));
            let s2 = bind_outcome(s, name, effective::array_writes(name, m), var).0;
            &&& s2.bound.contains(name)
            &&& read_outcome(s2, name) == Ok::<Option<VariableView>, Error>(Some(var))
        }),
{
    lemma_ensured(s);
    let var = variables::plain(ValueView::Array(bind_array(s, name)));
    pushed_variable_is_stored(ensured(s).img, ensured(s).granted, name, Some(var));
}

/// An associative array that was bound is read back with the elements that it had.
pub proof fn bound_assoc_reads_back(s: ShellView, name: Seq<char>)
    requires
        sound_shell(s),
        finite_value(env::lookup(s.env, name)),
        ({
            let m = bind_assoc(s, name);
            bind_outcome(
                s,
                name,
                effective::assoc_writes(name, m),
                variables::plain(ValueView::Assoc(m)),
            ).1 is Ok
        }),
    ensures
        ({
            let m = bind_assoc(s, name);
            let var = variables::plain(ValueView::Assoc(m));
            let s2 = bind_outcome(s, name, effective::assoc_writes(name, m), var).0;
            &&& s2.bound.contains(name)
            &&& read_outcome(s2, name) == Ok::<Option<VariableView>, Error>(Some(var))
        }),
{
    lemma_ensured(s);
    let var = variables::plain(ValueView::Assoc(bind_assoc(s, name)));
    pushed_variable_is_stored(ensured(s).img, ensured(s).granted, name, Some(var));
}

/// An integer that was bound is read back with the value that it was bound with, as an integer.
pub proof fn bound_integer_reads_back(s: ShellView, name: Seq<char>, value: Seq<char>)
    requires
        sound_shell(s),
        bind_outcome(
            s,
            name,
            integer_writes(name, value),
            variables::integer_variable(value),
        ).1 is Ok,
    ensures
        ({
            let var = variables::integer_variable(value);
            let s2 = bind_outcome(s, name, integer_writes(name, value), var).0;
            &&& s2.bound.contains(name)
            &&& read_outcome(s2, name) == Ok::<Option<VariableView>, Error>(Some(var))
        }),
{
    lemma_ensured(s);
    let var = variables::integer_variable(value);
    pushed_variable_is_stored(ensured(s).img, ensured(s).granted, name, Some(var));
}

/// A bound variable that was pushed into the store is read back as it was pushed.
pub proof fn synced_variable_reads_back(s: ShellView, name: Seq<char>)
    requires
        sound_shell(s),
        s.bound.contains(name),
        finite_value(env::lookup(s.env, name)),
        sync_outcome(s, name).1 is Ok,
    ensures
        read_outcome(sync_outcome(s, name).0, name) == Ok::<Option<VariableView>, Error>(
            pushed(env::lookup(s.env, name)),
        ),
{
    lemma_ensured(s);
    pushed_variable_is_stored(
        ensured(s).img,
        ensured(s).granted,
        name,
        env::lookup(s.env, name),
    );
}

/// A deleted variable is no longer bound, nothing is stored for it, and deleting it again does
/// nothing.
pub proof fn deleted_variable_is_gone(s: ShellView, name: Seq<char>)
    requires
        sound_shell(s),
        delete_outcome(s, name).1 is Ok,
    ensures
        ({
            let (s2, deleted) = delete_outcome(s, name);
            &&& deleted == Ok::<bool, Error>(s.bound.contains(name))
            &&& !s2.bound.contains(name)
            &&& delete_outcome(s2, name) == (s2, Ok::<bool, Error>(false))
            &&& s.bound.contains(name) ==> (s2.region matches Some(region)
                && effective::reads_nothing(region.img, name))
        }),
{
    if s.bound.contains(name) {
        let region = ensured(s);
        effective::unset_reads_nothing(region.img, region.granted, name);
    }
}

/// A bound variable that was unset has no value.
pub proof fn unset_variable_has_no_value(s: ShellView, name: Seq<char>)
    requires
        sound_shell(s),
        s.bound.contains(name),
        unset_var_outcome(s, name).1 is Ok,
    ensures
        read_outcome(unset_var_outcome(s, name).0, name) == Ok::<Option<VariableView>, Error>(
            None,
        ),
{
    let region = ensured(s);
    let ws = effective::unset_writes(name);
    effective::unset_reads_nothing(region.img, region.granted, name);
    let img2 = journal::run(region.img, region.granted, ws).0;
    assert(effective::read_meta(img2, name, effective::type_key()) == Ok::<
        Option<Seq<char>>,
        Error,
    >(None));
}

/// Shells that share a store read the same value for a name that both have bound. So what one of
/// them writes, the others see.
pub proof fn shells_with_one_store_agree(s: ShellView, t: ShellView, name: Seq<char>)
    requires
        s.region matches Some(a) && t.region matches Some(b) && a.img == b.img,
        s.bound.contains(name),
        t.bound.contains(name),
    ensures
        read_outcome(s, name) == read_outcome(t, name),
{
}

/// What one shell pushes into the store is what every other shell reads that has the name bound,
/// once the store has been handed over to it, whatever its own copy of the variable is.
pub proof fn pushed_variable_is_seen_elsewhere(s: ShellView, t: ShellView, name: Seq<char>)
    requires
        sound_shell(s),
        s.bound.contains(name),
        t.bound.contains(name),
        finite_value(env::lookup(s.env, name)),
        sync_outcome(s, name).1 is Ok,
    ensures
        read_outcome(
            (ShellView { region: sync_outcome(s, name).0.region, ..t }),
            name,
        ) == Ok::<Option<VariableView>, Error>(pushed(env::lookup(s.env, name))),
{
    synced_variable_reads_back(s, name);
    let s2 = sync_outcome(s, name).0;
    let t2 = ShellView { region: s2.region, ..t };
    shells_with_one_store_agree(s2, t2, name);
}

} // verus!
