//! Values that flow through the interpreter: integers, strings, register
//! references and the empty value.

use vstd::prelude::*;

use crate::asm_definition::{ASMDefinition, DefView};
use crate::asm_instruction::Instruction;
use crate::number::{i32_to_text, int_text};
use crate::text::{chars_to_string, string_chars};

verus! {

/// What a value holds.
///
/// `Float` keeps the IEEE-754 bit pattern of an `f32`.
#[derive(Debug)]
pub enum ASMValueHolder {
    Int(i32),
    Str(String),
    Float(u32),
    Register(String),
    Invalid,
}

/// The mathematical content of an [`ASMValueHolder`].
pub enum HolderView {
    Int(i32),
    Str(Seq<char>),
    Float(u32),
    Register(Seq<char>),
    Invalid,
}

impl View for ASMValueHolder {
    type V = HolderView;

    open spec fn view(&self) -> HolderView {
        match self {
            ASMValueHolder::Int(v) => HolderView::Int(*v),
            ASMValueHolder::Str(s) => HolderView::Str(s@),
            ASMValueHolder::Float(b) => HolderView::Float(*b),
            ASMValueHolder::Register(r) => HolderView::Register(r@),
            ASMValueHolder::Invalid => HolderView::Invalid,
        }
    }
}

impl Clone for ASMValueHolder {
    fn clone(&self) -> (r: Self)
        ensures
            r == *self,
    {
        match self {
            ASMValueHolder::Int(v) => ASMValueHolder::Int(*v),
            ASMValueHolder::Str(s) => ASMValueHolder::Str(s.clone()),
            ASMValueHolder::Float(b) => ASMValueHolder::Float(*b),
            ASMValueHolder::Register(r) => ASMValueHolder::Register(r.clone()),
            ASMValueHolder::Invalid => ASMValueHolder::Invalid,
        }
    }
}

/// The text that displaying a holder produces (a `Float` is left to the caller).
pub open spec fn holder_text(h: HolderView) -> Seq<char> {
    match h {
        HolderView::Int(v) => int_text(v as int),
        HolderView::Str(s) => s,
        HolderView::Float(_) => Seq::empty(),
        HolderView::Register(r) => r,
        HolderView::Invalid => "NIL"@,
    }
}

impl ASMValueHolder {
    /// The displayed form: the decimal integer, the string, the register's
    /// name, or `NIL`.
    pub fn to_string(&self) -> (r: String)
        requires
            !(self is Float),
        ensures
            r@ == holder_text(self@),
    {
        match self {
            ASMValueHolder::Int(v) => chars_to_string(&i32_to_text(*v)),
            ASMValueHolder::Str(s) => s.clone(),
            ASMValueHolder::Float(_) => String::new(),
            ASMValueHolder::Register(r) => r.clone(),
            ASMValueHolder::Invalid => "NIL".to_owned(),
        }
    }
}

/// A value of the interpreter, with a note of whether it belongs to a
/// definition (only such values can reach registers). No value holds a float:
/// no way of making a value makes one.
#[derive(Debug)]
pub struct ASMValue {
    lang_definition: bool,
    value: ASMValueHolder,
}

impl ASMValue {
    #[verifier::type_invariant]
    closed spec fn holds_no_float(self) -> bool {
        !(self.value is Float)
    }
}

/// The mathematical content of an [`ASMValue`].
pub struct ValueView {
    pub bound: bool,
    pub holder: HolderView,
}

impl View for ASMValue {
    type V = ValueView;

    closed spec fn view(&self) -> ValueView {
        ValueView { bound: self.lang_definition, holder: self.value@ }
    }
}

impl Clone for ASMValue {
    fn clone(&self) -> (r: Self)
        ensures
            r == *self,
    {
        proof {
            use_type_invariant(self);
        }
        ASMValue { lang_definition: self.lang_definition, value: self.value.clone() }
    }
}

/// The value made by [`ASMValue::new_int`].
pub open spec fn int_value(v: i32, bound: bool) -> ValueView {
    ValueView { bound, holder: HolderView::Int(v) }
}

/// The value made by [`ASMValue::new_empty`].
pub open spec fn empty_value(bound: bool) -> ValueView {
    ValueView { bound, holder: HolderView::Invalid }
}

/// The value made by [`ASMValue::new_reg`].
pub open spec fn reg_value(name: Seq<char>, bound: bool) -> ValueView {
    ValueView { bound, holder: HolderView::Register(name) }
}

/// The error text of [`ASMValue::try_into_i32`].
pub open spec fn wrong_type_text() -> Seq<char> {
    "Wrong value type!"@
}

/// What adding `rhs` to `lhs` gives, for the left operands that support it.
pub open spec fn add_spec(lhs: ValueView, rhs: ValueView) -> ValueView {
    match lhs.holder {
        HolderView::Int(l) => match rhs.holder {
            HolderView::Int(r) => int_value((r + l) as i32, lhs.bound),
            _ => empty_value(lhs.bound),
        },
        _ => empty_value(lhs.bound),
    }
}

/// The left operands and operand pairs on which addition is defined: an
/// `Int` whose sum with an `Int` right operand fits in `i32`, or `Invalid`.
pub open spec fn add_defined(lhs: ValueView, rhs: ValueView) -> bool {
    match lhs.holder {
        HolderView::Int(l) => match rhs.holder {
            HolderView::Int(r) => i32::MIN <= r + l <= i32::MAX,
            _ => true,
        },
        HolderView::Invalid => true,
        _ => false,
    }
}

impl ASMValue {
    /// An integer value.
    pub fn new_int(value: i32, ldef: bool) -> (r: Self)
        ensures
            r@ == int_value(value, ldef),
    {
        ASMValue { lang_definition: ldef, value: ASMValueHolder::Int(value) }
    }

    /// The empty value (`Invalid`), which a new register holds.
    pub fn new_empty(ldef: bool) -> (r: Self)
        ensures
            r@ == empty_value(ldef),
    {
        ASMValue { lang_definition: ldef, value: ASMValueHolder::Invalid }
    }

    /// A reference to the register named `reg_name`.
    pub fn new_reg(reg_name: String, ldef: bool) -> (r: Self)
        ensures
            r@ == reg_value(reg_name@, ldef),
    {
        ASMValue { lang_definition: ldef, value: ASMValueHolder::Register(reg_name) }
    }

    /// A copy of what the value holds.
    pub fn get_value_holder(&self) -> (r: ASMValueHolder)
        ensures
            r@ == self@.holder,
    {
        self.value.clone()
    }

    /// The integer held, or an error for any other kind of value.
    pub fn try_into_i32(&self) -> (r: Result<i32, &'static str>)
        ensures
            match self@.holder {
                HolderView::Int(v) => r == Ok::<i32, &'static str>(v),
                _ => r matches Err(e) && e@ == wrong_type_text(),
            },
    {
        if let ASMValueHolder::Int(value) = self.value {
            Ok(value)
        } else {
            Err("Wrong value type!")
        }
    }

    /// Whether the value belongs to a definition.
    pub fn get_lang_definition(&self) -> (r: bool)
        ensures
            r == self@.bound,
    {
        self.lang_definition
    }

    /// The sum of two values: two integers add up (the result keeps the left
    /// operand's definition); an integer plus anything else, or `Invalid` plus
    /// anything, gives `Invalid`.
    pub fn add(self, rhs: ASMValue) -> (r: ASMValue)
        requires
            add_defined(self@, rhs@),
        ensures
            r@ == add_spec(self@, rhs@),
            self@.holder is Int && rhs@.holder is Int ==> (r@.holder matches HolderView::Int(s) && s
                == self@.holder->Int_0 + rhs@.holder->Int_0),
    {
        match self.value {
            ASMValueHolder::Int(lvalue) => {
                if let ASMValueHolder::Int(rvalue) = rhs.value {
                    ASMValue::new_int(rvalue + lvalue, self.lang_definition)
                } else {
                    ASMValue::new_empty(self.lang_definition)
                }
            },
            _ => ASMValue::new_empty(self.lang_definition),
        }
    }

    /// The displayed form of the value: that of what it holds.
    pub fn to_string(&self) -> (r: String)
        ensures
            r@ == holder_text(self@.holder),
    {
        proof {
            use_type_invariant(self);
        }
        self.value.to_string()
    }
}

/// The error text of resolving a register reference that belongs to no definition.
pub open spec fn unbound_text() -> Seq<char> {
    "ASMValue was a reference and wasnt holding a valid lanugage definition pointer!"@
}

/// The error text of resolving a value that is no register reference.
pub open spec fn not_reference_text() -> Seq<char> {
    "ASMValue wasnt a reference!"@
}

/// The report of writing through a register reference that belongs to no definition.
pub open spec fn modify_unbound_text(name: Seq<char>) -> Seq<char> {
    "Failed to modify state of "@ + name
}

/// The report of writing through a value that is no register reference.
pub open spec fn modify_not_register_text() -> Seq<char> {
    "Value is not a register!"@
}

/// What `v` stands for: the content of the register it names, or `v` itself.
pub open spec fn resolve_spec(v: ValueView, registers: Map<Seq<char>, ValueView>) -> ValueView {
    match v.holder {
        HolderView::Register(name) => registers[name],
        _ => v,
    }
}

/// `v` can be resolved against `registers`: it is no register reference, or
/// one that belongs to a definition and names a declared register.
pub open spec fn resolvable(v: ValueView, registers: Map<Seq<char>, ValueView>) -> bool {
    v.holder matches HolderView::Register(name) ==> v.bound && registers.contains_key(name)
}

/// The definition after writing `value` through `target`.
pub open spec fn modify_spec<I>(d: DefView<I>, target: ValueView, value: ValueView) -> DefView<I> {
    match target.holder {
        HolderView::Register(name) => if target.bound {
            DefView { registers: d.registers.insert(name, value), ..d }
        } else {
            d.reported(modify_unbound_text(name))
        },
        _ => d.reported(modify_not_register_text()),
    }
}

impl ASMValue {
    /// What the value stands for in `def`: a register reference gives the
    /// register's content, any other value itself.
    pub fn resolve<I: Instruction>(&self, def: &ASMDefinition<I>) -> (r: ASMValue)
        requires
            resolvable(self@, def@.registers),
        ensures
            r@ == resolve_spec(self@, def@.registers),
            !(self@.holder is Register) ==> r@ == self@,
    {
        match self.value {
            ASMValueHolder::Register(_) => match self.try_resolve_register(def) {
                Ok(v) => v,
                Err(_) => self.clone(),
            },
            _ => self.clone(),
        }
    }

    /// The content of the register that the value refers to in `def`; an
    /// error when the value is no register reference or belongs to no
    /// definition.
    pub fn try_resolve_register<I: Instruction>(&self, def: &ASMDefinition<I>) -> (r: Result<
        ASMValue,
        &'static str,
    >)
        requires
            self@.holder is Register && self@.bound ==> def@.registers.contains_key(
                self@.holder->Register_0,
            ),
        ensures
            match self@.holder {
                HolderView::Register(name) => if self@.bound {
                    r matches Ok(v) && v@ == def@.registers[name]
                } else {
                    r matches Err(e) && e@ == unbound_text()
                },
                _ => r matches Err(e) && e@ == not_reference_text(),
            },
    {
        if let ASMValueHolder::Register(reference) = &self.value {
            if self.lang_definition {
                match def.get_register(reference.as_str()) {
                    Some(v) => Ok(v),
                    None => Err("ASMValue wasnt a reference!"),
                }
            } else {
                Err("ASMValue was a reference and wasnt holding a valid lanugage definition pointer!")
            }
        } else {
            Err("ASMValue wasnt a reference!")
        }
    }

    /// Writes `value` into the register that the value refers to in `def`;
    /// when the value is no register reference, or belongs to no definition,
    /// `def` only gets a diagnostic line.
    pub fn try_modify_register<I: Instruction>(&self, def: &mut ASMDefinition<I>, value: ASMValue)
        ensures
            final(def)@ == modify_spec(old(def)@, self@, value@),
    {
        if let ASMValueHolder::Register(reference) = &self.value {
            if self.lang_definition {
                def.write_register(reference.clone(), value.clone());
            } else {
                let mut text = string_chars("Failed to modify state of ");
                let mut name = string_chars(reference.as_str());
                text.append(&mut name);
                def.report(chars_to_string(&text));
            }
        } else {
            def.report("Value is not a register!".to_owned());
        }
    }
}

impl From<i32> for ASMValue {
    fn from(item: i32) -> (r: Self) {
        ASMValue::new_int(item, false)
    }
}

impl vstd::std_specs::convert::FromSpecImpl<i32> for ASMValue {
    open spec fn obeys_from_spec() -> bool {
        true
    }

    closed spec fn from_spec(v: i32) -> ASMValue {
        ASMValue { lang_definition: false, value: ASMValueHolder::Int(v) }
    }
}

/// Converting an integer gives an integer value that belongs to no definition.
pub proof fn lemma_from_i32(v: i32)
    ensures
        <ASMValue as vstd::std_specs::convert::FromSpec<i32>>::from_spec(v)@ == int_value(v, false),
{
}

} // verus!

verus! {

/// Writing a value through a register reference that belongs to a
/// definition, then resolving that reference, gives back the value written.
pub proof fn lemma_read_after_write<I>(d: DefView<I>, target: ValueView, value: ValueView)
    requires
        target.holder is Register,
        target.bound,
    ensures
        resolvable(target, modify_spec(d, target, value).registers),
        resolve_spec(target, modify_spec(d, target, value).registers) == value,
{
}

/// Writing through `target` leaves every register that `target` does not
/// name as it was, and leaves the declared instructions, the error count and
/// the halted flag as they were.
pub proof fn lemma_write_keeps_others<I>(
    d: DefView<I>,
    target: ValueView,
    value: ValueView,
    name: Seq<char>,
)
    requires
        !(target.bound && target.holder == HolderView::Register(name)),
    ensures
        modify_spec(d, target, value).registers.contains_key(name) == d.registers.contains_key(
            name,
        ),
        d.registers.contains_key(name) ==> modify_spec(d, target, value).registers[name]
            == d.registers[name],
        modify_spec(d, target, value).instructions == d.instructions,
        modify_spec(d, target, value).errors == d.errors,
        modify_spec(d, target, value).halted == d.halted,
{
}

/// Resolving a value that is no register reference gives that very value,
/// whatever the registers hold.
pub proof fn lemma_resolve_keeps_non_references(v: ValueView, registers: Map<Seq<char>, ValueView>)
    requires
        !(v.holder is Register),
    ensures
        resolvable(v, registers),
        resolve_spec(v, registers) == v,
{
}

/// Adding two integers whose sum fits in `i32` gives an integer equal to
/// their arithmetic sum, whatever their signs; the operands may be swapped
/// without changing what is held.
pub proof fn lemma_add_is_integer_sum(l: i32, r: i32, lb: bool, rb: bool)
    requires
        i32::MIN <= l + r <= i32::MAX,
    ensures
        add_defined(int_value(l, lb), int_value(r, rb)),
        add_spec(int_value(l, lb), int_value(r, rb)).holder matches HolderView::Int(s) && s == l
            + r,
        add_spec(int_value(l, lb), int_value(r, rb)).bound == lb,
        add_spec(int_value(l, lb), int_value(r, rb)).holder == add_spec(
            int_value(r, rb),
            int_value(l, lb),
        ).holder,
{
}

} // verus!
