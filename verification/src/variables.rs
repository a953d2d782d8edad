//! Shell variables and their values.

use std::collections::BTreeMap;

use vstd::prelude::*;

use crate::error::Error;
use crate::indexed;
use crate::name_map;
use crate::name_map::NameMap;

verus! {

/// What a declared but unset variable will hold.
#[derive(Clone, Copy, Debug, PartialEq, Eq, Structural)]
pub enum ShellValueUnsetType {
    /// Nothing is declared.
    Untyped,
    /// An associative array.
    AssociativeArray,
    /// An indexed array.
    IndexedArray,
}

/// The value of a shell variable.
#[derive(Debug, PartialEq, Eq)]
pub enum ShellValue {
    /// Declared, without a value.
    Unset(ShellValueUnsetType),
    /// A string.
    String(String),
    /// An associative array.
    AssociativeArray(NameMap<String>),
    /// An indexed array.
    IndexedArray(BTreeMap<u64, String>),
    /// A value that the shell computes on each read.
    Dynamic {
        /// What a read gives at present.
        current: String,
    },
}

/// What a value is.
#[verifier::ext_equal]
pub enum ValueView {
    /// Declared, without a value.
    Unset(ShellValueUnsetType),
    /// A string.
    Text(Seq<char>),
    /// An associative array.
    Assoc(Map<Seq<char>, Seq<char>>),
    /// An indexed array.
    Array(Map<u64, Seq<char>>),
    /// A computed value.
    Dynamic(Seq<char>),
}

impl View for ShellValue {
    type V = ValueView;

    open spec fn view(&self) -> ValueView {
        match self {
            ShellValue::Unset(t) => ValueView::Unset(*t),
            ShellValue::String(s) => ValueView::Text(s@),
            ShellValue::AssociativeArray(m) => ValueView::Assoc(name_map::texts(*m)),
            ShellValue::IndexedArray(m) => ValueView::Array(indexed::array_texts(m@)),
            ShellValue::Dynamic { current } => ValueView::Dynamic(current@),
        }
    }
}

/// The text of the element under `key`, or no text where there is none.
pub open spec fn element_text<K>(m: Map<K, Seq<char>>, key: K) -> Seq<char> {
    if m.contains_key(key) {
        m[key]
    } else {
        seq![]
    }
}

/// What a value reads as where a single string is asked for: of an array, the element `0`.
pub open spec fn value_text(v: ValueView) -> Seq<char> {
    match v {
        ValueView::Unset(_) => seq![],
        ValueView::Text(s) => s,
        ValueView::Assoc(m) => element_text(m, "0"@),
        ValueView::Array(m) => element_text(m, 0u64),
        ValueView::Dynamic(s) => s,
    }
}

/// The value after a string has been assigned to it: an array takes the string as its element `0`,
/// a computed value stays as it is.
pub open spec fn assigned_value(v: ValueView, s: Seq<char>) -> ValueView {
    match v {
        ValueView::Unset(ShellValueUnsetType::Untyped) => ValueView::Text(s),
        ValueView::Unset(ShellValueUnsetType::IndexedArray) => ValueView::Array(
            Map::<u64, Seq<char>>::empty().insert(0u64, s),
        ),
        ValueView::Unset(ShellValueUnsetType::AssociativeArray) => ValueView::Assoc(
            Map::<Seq<char>, Seq<char>>::empty().insert("0"@, s),
        ),
        ValueView::Text(_) => ValueView::Text(s),
        ValueView::Assoc(m) => ValueView::Assoc(m.insert("0"@, s)),
        ValueView::Array(m) => ValueView::Array(m.insert(0u64, s)),
        ValueView::Dynamic(_) => v,
    }
}

impl ShellValue {
    /// An associative array lists its elements in order.
    pub open spec fn wf(self) -> bool {
        match self {
            ShellValue::AssociativeArray(m) => m.wf(),
            _ => true,
        }
    }

    /// What the value reads as where a single string is asked for.
    pub fn to_text(&self) -> (r: String)
        requires
            self.wf(),
        ensures
            r@ == value_text(self@),
    {
        match self {
            ShellValue::Unset(_) => String::new(),
            ShellValue::String(s) => s.clone(),
            ShellValue::AssociativeArray(m) => match m.get("0") {
                Some(s) => s.clone(),
                None => String::new(),
            },
            ShellValue::IndexedArray(m) => match m.get(&0) {
                Some(s) => s.clone(),
                None => String::new(),
            },
            ShellValue::Dynamic { current } => current.clone(),
        }
    }
}

impl Clone for ShellValue {
    fn clone(&self) -> (r: Self)
        ensures
            r@ == self@,
            self.wf() ==> r.wf(),
    {
        match self {
            ShellValue::Unset(t) => ShellValue::Unset(*t),
            ShellValue::String(s) => ShellValue::String(s.clone()),
            ShellValue::AssociativeArray(m) => ShellValue::AssociativeArray(m.clone()),
            ShellValue::IndexedArray(m) => ShellValue::IndexedArray(m.clone()),
            ShellValue::Dynamic { current } => ShellValue::Dynamic { current: current.clone() },
        }
    }
}

/// A shell variable: a value and its attributes.
#[derive(Debug, PartialEq, Eq)]
pub struct ShellVariable {
    value: ShellValue,
    integer: bool,
    readonly: bool,
}

/// What a variable is.
#[verifier::ext_equal]
pub struct VariableView {
    /// Its value.
    pub value: ValueView,
    /// Whether it is treated as an integer.
    pub integer: bool,
    /// Whether it cannot be changed.
    pub readonly: bool,
}

impl View for ShellVariable {
    type V = VariableView;

    closed spec fn view(&self) -> VariableView {
        VariableView { value: self.value@, integer: self.integer, readonly: self.readonly }
    }
}

/// Whether a value can be one: associative arrays are finite.
pub open spec fn finite_value(v: ValueView) -> bool {
    v matches ValueView::Assoc(m) ==> m.dom().finite()
}

/// A variable with no attributes.
pub open spec fn plain(value: ValueView) -> VariableView {
    VariableView { value, integer: false, readonly: false }
}

/// A string variable that is treated as an integer.
pub open spec fn integer_variable(s: Seq<char>) -> VariableView {
    VariableView { value: ValueView::Text(s), integer: true, readonly: false }
}

/// What assigning a string to a variable gives.
pub open spec fn assign_outcome(var: VariableView, s: Seq<char>) -> Result<VariableView, Error> {
    if var.readonly {
        Err(Error::ReadonlyVariable)
    } else {
        Ok(VariableView { value: assigned_value(var.value, s), ..var })
    }
}

impl ShellVariable {
    /// The value of the variable is well-formed.
    pub closed spec fn wf(self) -> bool {
        self.value.wf()
    }

    /// The value of a variable can be one.
    pub proof fn value_is_finite(self)
        ensures
            finite_value(self@.value),
    {
        if let ShellValue::AssociativeArray(m) = self.value {
            name_map::texts_are_finite(m);
        }
    }

    /// A variable with the given value and no attributes.
    pub fn new(value: ShellValue) -> (r: ShellVariable)
        requires
            value.wf(),
        ensures
            r.wf(),
            r@ == plain(value@),
    {
        ShellVariable { value, integer: false, readonly: false }
    }

    /// The value of the variable.
    pub fn value(&self) -> (r: &ShellValue)
        requires
            self.wf(),
        ensures
            r.wf(),
            r@ == self@.value,
    {
        &self.value
    }

    /// Whether the variable is treated as an integer.
    pub fn is_treated_as_integer(&self) -> (r: bool)
        ensures
            r == self@.integer,
    {
        self.integer
    }

    /// Whether the variable cannot be changed.
    pub fn is_readonly(&self) -> (r: bool)
        ensures
            r == self@.readonly,
    {
        self.readonly
    }

    /// Has the variable treated as an integer.
    pub fn treat_as_integer(&mut self)
        ensures
            final(self)@ == (VariableView { integer: true, ..old(self)@ }),
            old(self).wf() ==> final(self).wf(),
    {
        self.integer = true;
    }

    /// Makes the variable unchangeable.
    pub fn set_readonly(&mut self)
        ensures
            final(self)@ == (VariableView { readonly: true, ..old(self)@ }),
            old(self).wf() ==> final(self).wf(),
    {
        self.readonly = true;
    }

    /// Assigns a string to the variable.
    pub fn assign(&mut self, s: &str) -> (r: Result<(), Error>)
        requires
            old(self).wf(),
        ensures
            final(self).wf(),
            match assign_outcome(old(self)@, s@) {
                Ok(var) => final(self)@ == var && r == Ok::<(), Error>(()),
                Err(e) => *final(self) == *old(self) && r == Err::<(), Error>(e),
            },
    {
        if self.readonly {
            return Err(Error::ReadonlyVariable);
        }
        let value = s.to_owned();
        let ghost before = self.value@;
        let next = match &self.value {
            ShellValue::Unset(ShellValueUnsetType::IndexedArray) => ShellValue::IndexedArray(
                BTreeMap::new(),
            ),
            ShellValue::Unset(ShellValueUnsetType::AssociativeArray) => {
                ShellValue::AssociativeArray(NameMap::new())
            },
            other => other.clone(),
        };
        match next {
            ShellValue::IndexedArray(mut m) => {
                let ghost m0 = m@;
                m.insert(0, value);
                assert(indexed::array_texts(m@) =~= indexed::array_texts(m0).insert(0u64, s@));
                proof {
                    if before is Unset {
                        assert(indexed::array_texts(m0) =~= Map::<u64, Seq<char>>::empty());
                    }
                }
                self.value = ShellValue::IndexedArray(m);
            },
            ShellValue::AssociativeArray(mut m) => {
                let ghost m0 = m;
                m.insert("0", value);
                assert(name_map::texts(m) =~= name_map::texts(m0).insert("0"@, s@));
                proof {
                    if before is Unset {
                        assert(name_map::texts(m0) =~= Map::<Seq<char>, Seq<char>>::empty());
                    }
                }
                self.value = ShellValue::AssociativeArray(m);
            },
            ShellValue::Dynamic { .. } => {},
            _ => {
                self.value = ShellValue::String(value);
            },
        }
        Ok(())
    }
}

impl Clone for ShellVariable {
    fn clone(&self) -> (r: Self)
        ensures
            r@ == self@,
            self.wf() ==> r.wf(),
    {
        ShellVariable {
            value: self.value.clone(),
            integer: self.integer,
            readonly: self.readonly,
        }
    }
}

/// What an optional variable is.
pub open spec fn optional_view(v: Option<ShellVariable>) -> Option<VariableView> {
    match v {
        Some(v) => Some(v@),
        None => None,
    }
}

} // verus!
