//! The symbols of the low tier: one nominal type for each kind of name.
use vstd::prelude::*;
use vstd::std_specs::cmp::PartialEqSpecImpl;
use vstd::std_specs::convert::FromSpecImpl;
use vstd::string::StringExecFns;

verus! {

/// What a context of the low tier has to be: nothing yet.
pub trait Context {
}

/// The name of an uninterpreted sort of the low tier.
#[derive(Debug, Eq, PartialOrd, Ord, Hash)]
pub struct UninterpretedSortSymbol(pub String);

impl View for UninterpretedSortSymbol {
    type V = Seq<char>;

    open spec fn view(&self) -> Seq<char> {
        self.0@
    }
}

impl UninterpretedSortSymbol {
    /// The symbol with the characters of `name`.
    pub fn new(name: &str) -> (r: Self)
        ensures
            r@ == name@,
    {
        UninterpretedSortSymbol(String::from_str(name))
    }

    /// The characters of the name, as a new string.
    pub fn as_string(&self) -> (r: String)
        ensures
            r@ == self@,
    {
        self.0.clone()
    }
}

impl Clone for UninterpretedSortSymbol {
    fn clone(&self) -> (r: Self)
        ensures
            r@ == self@,
    {
        UninterpretedSortSymbol(self.0.clone())
    }
}

impl PartialEq for UninterpretedSortSymbol {
    fn eq(&self, other: &Self) -> (r: bool) {
        self.0 == other.0
    }
}

impl PartialEqSpecImpl for UninterpretedSortSymbol {
    open spec fn obeys_eq_spec() -> bool {
        true
    }

    open spec fn eq_spec(&self, other: &Self) -> bool {
        self@ == other@
    }
}

impl From<String> for UninterpretedSortSymbol {
    fn from(value: String) -> (r: Self) {
        UninterpretedSortSymbol(value)
    }
}

impl FromSpecImpl<String> for UninterpretedSortSymbol {
    open spec fn obeys_from_spec() -> bool {
        true
    }

    open spec fn from_spec(value: String) -> Self {
        UninterpretedSortSymbol(value)
    }
}

impl<'a> From<&'a str> for UninterpretedSortSymbol {
    fn from(value: &'a str) -> (r: Self) {
        UninterpretedSortSymbol::new(value)
    }
}

/// Nothing is stated of this conversion: verified code calls `new`.
impl<'a> FromSpecImpl<&'a str> for UninterpretedSortSymbol {
    open spec fn obeys_from_spec() -> bool {
        false
    }

    open spec fn from_spec(value: &'a str) -> Self {
        arbitrary()
    }
}

/// The name of one version of a program variable.
#[derive(Debug, Eq, PartialOrd, Ord, Hash)]
pub struct VariableSymbol(pub String);

impl View for VariableSymbol {
    type V = Seq<char>;

    open spec fn view(&self) -> Seq<char> {
        self.0@
    }
}

impl VariableSymbol {
    /// The symbol with the characters of `name`.
    pub fn new(name: &str) -> (r: Self)
        ensures
            r@ == name@,
    {
        VariableSymbol(String::from_str(name))
    }

    /// The characters of the name, as a new string.
    pub fn as_string(&self) -> (r: String)
        ensures
            r@ == self@,
    {
        self.0.clone()
    }
}

impl Clone for VariableSymbol {
    fn clone(&self) -> (r: Self)
        ensures
            r@ == self@,
    {
        VariableSymbol(self.0.clone())
    }
}

impl PartialEq for VariableSymbol {
    fn eq(&self, other: &Self) -> (r: bool) {
        self.0 == other.0
    }
}

impl PartialEqSpecImpl for VariableSymbol {
    open spec fn obeys_eq_spec() -> bool {
        true
    }

    open spec fn eq_spec(&self, other: &Self) -> bool {
        self@ == other@
    }
}

impl From<String> for VariableSymbol {
    fn from(value: String) -> (r: Self) {
        VariableSymbol(value)
    }
}

impl FromSpecImpl<String> for VariableSymbol {
    open spec fn obeys_from_spec() -> bool {
        true
    }

    open spec fn from_spec(value: String) -> Self {
        VariableSymbol(value)
    }
}

impl<'a> From<&'a str> for VariableSymbol {
    fn from(value: &'a str) -> (r: Self) {
        VariableSymbol::new(value)
    }
}

/// Nothing is stated of this conversion: verified code calls `new`.
impl<'a> FromSpecImpl<&'a str> for VariableSymbol {
    open spec fn obeys_from_spec() -> bool {
        false
    }

    open spec fn from_spec(value: &'a str) -> Self {
        arbitrary()
    }
}

/// The name of a function of the low tier.
#[derive(Debug, Eq, PartialOrd, Ord, Hash)]
pub struct FunctionSymbol(pub String);

impl View for FunctionSymbol {
    type V = Seq<char>;

    open spec fn view(&self) -> Seq<char> {
        self.0@
    }
}

impl FunctionSymbol {
    /// The symbol with the characters of `name`.
    pub fn new(name: &str) -> (r: Self)
        ensures
            r@ == name@,
    {
        FunctionSymbol(String::from_str(name))
    }

    /// The characters of the name, as a new string.
    pub fn as_string(&self) -> (r: String)
        ensures
            r@ == self@,
    {
        self.0.clone()
    }
}

impl Clone for FunctionSymbol {
    fn clone(&self) -> (r: Self)
        ensures
            r@ == self@,
    {
        FunctionSymbol(self.0.clone())
    }
}

impl PartialEq for FunctionSymbol {
    fn eq(&self, other: &Self) -> (r: bool) {
        self.0 == other.0
    }
}

impl PartialEqSpecImpl for FunctionSymbol {
    open spec fn obeys_eq_spec() -> bool {
        true
    }

    open spec fn eq_spec(&self, other: &Self) -> bool {
        self@ == other@
    }
}

impl From<String> for FunctionSymbol {
    fn from(value: String) -> (r: Self) {
        FunctionSymbol(value)
    }
}

impl FromSpecImpl<String> for FunctionSymbol {
    open spec fn obeys_from_spec() -> bool {
        true
    }

    open spec fn from_spec(value: String) -> Self {
        FunctionSymbol(value)
    }
}

impl<'a> From<&'a str> for FunctionSymbol {
    fn from(value: &'a str) -> (r: Self) {
        FunctionSymbol::new(value)
    }
}

/// Nothing is stated of this conversion: verified code calls `new`.
impl<'a> FromSpecImpl<&'a str> for FunctionSymbol {
    open spec fn obeys_from_spec() -> bool {
        false
    }

    open spec fn from_spec(value: &'a str) -> Self {
        arbitrary()
    }
}

/// The name of an axiom of the low tier.
#[derive(Debug, Eq, PartialOrd, Ord, Hash)]
pub struct AxiomNameSymbol(pub String);

impl View for AxiomNameSymbol {
    type V = Seq<char>;

    open spec fn view(&self) -> Seq<char> {
        self.0@
    }
}

impl AxiomNameSymbol {
    /// The symbol with the characters of `name`.
    pub fn new(name: &str) -> (r: Self)
        ensures
            r@ == name@,
    {
        AxiomNameSymbol(String::from_str(name))
    }

    /// The characters of the name, as a new string.
    pub fn as_string(&self) -> (r: String)
        ensures
            r@ == self@,
    {
        self.0.clone()
    }
}

impl Clone for AxiomNameSymbol {
    fn clone(&self) -> (r: Self)
        ensures
            r@ == self@,
    {
        AxiomNameSymbol(self.0.clone())
    }
}

impl PartialEq for AxiomNameSymbol {
    fn eq(&self, other: &Self) -> (r: bool) {
        self.0 == other.0
    }
}

impl PartialEqSpecImpl for AxiomNameSymbol {
    open spec fn obeys_eq_spec() -> bool {
        true
    }

    open spec fn eq_spec(&self, other: &Self) -> bool {
        self@ == other@
    }
}

impl From<String> for AxiomNameSymbol {
    fn from(value: String) -> (r: Self) {
        AxiomNameSymbol(value)
    }
}

impl FromSpecImpl<String> for AxiomNameSymbol {
    open spec fn obeys_from_spec() -> bool {
        true
    }

    open spec fn from_spec(value: String) -> Self {
        AxiomNameSymbol(value)
    }
}

impl<'a> From<&'a str> for AxiomNameSymbol {
    fn from(value: &'a str) -> (r: Self) {
        AxiomNameSymbol::new(value)
    }
}

/// Nothing is stated of this conversion: verified code calls `new`.
impl<'a> FromSpecImpl<&'a str> for AxiomNameSymbol {
    open spec fn obeys_from_spec() -> bool {
        false
    }

    open spec fn from_spec(value: &'a str) -> Self {
        arbitrary()
    }
}

/// A label of the low tier.
#[derive(Debug, Eq, PartialOrd, Ord, Hash)]
pub struct LabelSymbol(pub String);

impl View for LabelSymbol {
    type V = Seq<char>;

    open spec fn view(&self) -> Seq<char> {
        self.0@
    }
}

impl LabelSymbol {
    /// The symbol with the characters of `name`.
    pub fn new(name: &str) -> (r: Self)
        ensures
            r@ == name@,
    {
        LabelSymbol(String::from_str(name))
    }

    /// The characters of the name, as a new string.
    pub fn as_string(&self) -> (r: String)
        ensures
            r@ == self@,
    {
        self.0.clone()
    }
}

impl Clone for LabelSymbol {
    fn clone(&self) -> (r: Self)
        ensures
            r@ == self@,
    {
        LabelSymbol(self.0.clone())
    }
}

impl PartialEq for LabelSymbol {
    fn eq(&self, other: &Self) -> (r: bool) {
        self.0 == other.0
    }
}

impl PartialEqSpecImpl for LabelSymbol {
    open spec fn obeys_eq_spec() -> bool {
        true
    }

    open spec fn eq_spec(&self, other: &Self) -> bool {
        self@ == other@
    }
}

impl From<String> for LabelSymbol {
    fn from(value: String) -> (r: Self) {
        LabelSymbol(value)
    }
}

impl FromSpecImpl<String> for LabelSymbol {
    open spec fn obeys_from_spec() -> bool {
        true
    }

    open spec fn from_spec(value: String) -> Self {
        LabelSymbol(value)
    }
}

impl<'a> From<&'a str> for LabelSymbol {
    fn from(value: &'a str) -> (r: Self) {
        LabelSymbol::new(value)
    }
}

/// Nothing is stated of this conversion: verified code calls `new`.
impl<'a> FromSpecImpl<&'a str> for LabelSymbol {
    open spec fn obeys_from_spec() -> bool {
        false
    }

    open spec fn from_spec(value: &'a str) -> Self {
        arbitrary()
    }
}

} // verus!
