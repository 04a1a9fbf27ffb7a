//! The one kind of name that the solver's language has.
use vstd::prelude::*;
use vstd::std_specs::cmp::PartialEqSpecImpl;
use vstd::std_specs::convert::FromSpecImpl;
use vstd::string::StringExecFns;

verus! {

/// An identifier of the solver's language. Variables, functions, sorts and
/// labels all share this one kind of name.
#[derive(Debug, Eq, PartialOrd, Ord, Hash)]
pub struct IdentSymbol(pub String);

impl View for IdentSymbol {
    type V = Seq<char>;

    open spec fn view(&self) -> Seq<char> {
        self.0@
    }
}

impl IdentSymbol {
    /// The symbol with the characters of `name`.
    pub fn new(name: &str) -> (r: Self)
        ensures
            r@ == name@,
    {
        IdentSymbol(String::from_str(name))
    }

    /// The characters of the name, as a new string.
    pub fn as_string(&self) -> (r: String)
        ensures
            r@ == self@,
    {
        self.0.clone()
    }
}

impl Clone for IdentSymbol {
    fn clone(&self) -> (r: Self)
        ensures
            r@ == self@,
    {
        IdentSymbol(self.0.clone())
    }
}

impl PartialEq for IdentSymbol {
    fn eq(&self, other: &Self) -> (r: bool) {
        self.0 == other.0
    }
}

impl PartialEqSpecImpl for IdentSymbol {
    open spec fn obeys_eq_spec() -> bool {
        true
    }

    open spec fn eq_spec(&self, other: &Self) -> bool {
        self@ == other@
    }
}

impl From<String> for IdentSymbol {
    fn from(value: String) -> (r: Self) {
        IdentSymbol(value)
    }
}

impl FromSpecImpl<String> for IdentSymbol {
    open spec fn obeys_from_spec() -> bool {
        true
    }

    open spec fn from_spec(value: String) -> Self {
        IdentSymbol(value)
    }
}

impl<'a> From<&'a str> for IdentSymbol {
    fn from(value: &'a str) -> (r: Self) {
        IdentSymbol::new(value)
    }
}

/// Nothing is stated of this conversion: verified code calls `new`.
impl<'a> FromSpecImpl<&'a str> for IdentSymbol {
    open spec fn obeys_from_spec() -> bool {
        false
    }

    open spec fn from_spec(value: &'a str) -> Self {
        arbitrary()
    }
}

} // verus!
