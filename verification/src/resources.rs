//! Resources: the materials and the personnel that a project's tasks draw on.

use crate::person::Person;
use vstd::prelude::*;
use vstd::std_specs::convert::FromSpec;

verus! {

/// A resource that can be used in a project: a material or a person.
#[derive(Debug, Clone, PartialEq, Eq)]
pub enum Resource {
    /// A material resource.
    Material(Material),
    /// A personnel resource: someone who can complete tasks.
    Personnel {
        /// Information about the person.
        person: Person,
        /// Hourly rate of the person.
        hourly_rate: Option<u16>,
    },
}

/// A material resource, consumable or not.
#[derive(Debug, Clone, PartialEq, Eq)]
pub enum Material {
    /// A material that needs to be resupplied after use.
    Consumable(Consumable),
    /// A material that does not need to be resupplied after use.
    NonConsumable(NonConsumable),
}

/// A consumable material.
#[derive(Debug, Clone, Default, PartialEq, Eq)]
pub struct Consumable {
    /// Name of the consumable material.
    name: String,
    /// Available quantity of the consumable material.
    quantity: Option<u16>,
    /// Cost to buy this material.
    cost_per_unit: Option<u16>,
}

/// A non-consumable material.
#[derive(Debug, Clone, Default, PartialEq, Eq)]
pub struct NonConsumable {
    /// Name of the non-consumable material.
    name: String,
    /// Available quantity of the non-consumable material.
    quantity: Option<u16>,
    /// Cost to buy this material.
    cost_per_unit: Option<u16>,
    /// Some non-consumable materials have an hourly rate, for example because
    /// of the energy they use.
    hourly_rate: Option<u16>,
}

/// What a material holds, whichever kind it is. `hourly_rate` is `None` for
/// every consumable.
pub struct MaterialView {
    pub consumable: bool,
    pub name: Seq<char>,
    pub quantity: Option<u16>,
    pub cost_per_unit: Option<u16>,
    pub hourly_rate: Option<u16>,
}

impl View for Consumable {
    type V = MaterialView;

    closed spec fn view(&self) -> MaterialView {
        MaterialView {
            consumable: true,
            name: self.name@,
            quantity: self.quantity,
            cost_per_unit: self.cost_per_unit,
            hourly_rate: None,
        }
    }
}

impl View for NonConsumable {
    type V = MaterialView;

    closed spec fn view(&self) -> MaterialView {
        MaterialView {
            consumable: false,
            name: self.name@,
            quantity: self.quantity,
            cost_per_unit: self.cost_per_unit,
            hourly_rate: self.hourly_rate,
        }
    }
}

impl View for Material {
    type V = MaterialView;

    open spec fn view(&self) -> MaterialView {
        match self {
            Material::Consumable(consumable) => consumable@,
            Material::NonConsumable(non_consumable) => non_consumable@,
        }
    }
}

impl Consumable {
    /// Creates a consumable material with the given name, of which neither
    /// quantity nor cost is known.
    pub fn new(name: String) -> (r: Self)
        ensures
            r@ == (MaterialView {
                consumable: true,
                name: name@,
                quantity: None,
                cost_per_unit: None,
                hourly_rate: None,
            }),
    {
        Consumable { name, quantity: None, cost_per_unit: None }
    }

    /// A consumable is never given an hourly rate.
    pub proof fn lemma_is_consumable(&self)
        ensures
            self@.consumable,
            self@.hourly_rate is None,
    {
    }
}

impl NonConsumable {
    /// Creates a non-consumable material with the given name, of which
    /// neither quantity, cost nor hourly rate is known.
    pub fn new(name: String) -> (r: Self)
        ensures
            r@ == (MaterialView {
                consumable: false,
                name: name@,
                quantity: None,
                cost_per_unit: None,
                hourly_rate: None,
            }),
    {
        NonConsumable { name, quantity: None, hourly_rate: None, cost_per_unit: None }
    }

    /// Returns the hourly rate of the non-consumable material.
    pub fn hourly_rate(&self) -> (r: Option<u16>)
        ensures
            r == self@.hourly_rate,
    {
        self.hourly_rate
    }

    /// Sets the hourly rate of the non-consumable material.
    pub fn update_hourly_rate(&mut self, hourly_rate: u16)
        ensures
            final(self)@ == (MaterialView { hourly_rate: Some(hourly_rate), ..old(self)@ }),
    {
        self.hourly_rate = Some(hourly_rate);
    }

    /// Removes the hourly rate of the non-consumable material.
    pub fn remove_hourly_rate(&mut self)
        ensures
            final(self)@ == (MaterialView { hourly_rate: None, ..old(self)@ }),
    {
        self.hourly_rate = None;
    }

    /// A non-consumable is not a consumable.
    pub proof fn lemma_is_not_consumable(&self)
        ensures
            !self@.consumable,
    {
    }
}

impl Material {
    /// Returns a consumable material with the given name.
    pub fn new(name: String) -> (r: Self)
        ensures
            r is Consumable,
            r@ == (MaterialView {
                consumable: true,
                name: name@,
                quantity: None,
                cost_per_unit: None,
                hourly_rate: None,
            }),
    {
        Material::Consumable(Consumable::new(name))
    }

    /// Returns the name of the material.
    pub fn name(&self) -> (r: &str)
        ensures
            r@ == self@.name,
    {
        match self {
            Material::Consumable(consumable) => consumable.name.as_str(),
            Material::NonConsumable(non_consumable) => non_consumable.name.as_str(),
        }
    }

    /// Updates the name of the material.
    pub fn update_name(&mut self, name: String)
        ensures
            final(self)@ == (MaterialView { name: name@, ..old(self)@ }),
    {
        match self {
            Material::Consumable(consumable) => consumable.name = name,
            Material::NonConsumable(non_consumable) => non_consumable.name = name,
        }
    }

    /// Returns the quantity of the material.
    pub fn quantity(&self) -> (r: Option<u16>)
        ensures
            r == self@.quantity,
    {
        match self {
            Material::Consumable(consumable) => consumable.quantity,
            Material::NonConsumable(non_consumable) => non_consumable.quantity,
        }
    }

    /// Updates the quantity of the material.
    pub fn update_quantity(&mut self, quantity: u16)
        ensures
            final(self)@ == (MaterialView { quantity: Some(quantity), ..old(self)@ }),
    {
        match self {
            Material::Consumable(consumable) => consumable.quantity = Some(quantity),
            Material::NonConsumable(non_consumable) => non_consumable.quantity = Some(quantity),
        }
    }

    /// Removes the quantity of the material.
    pub fn remove_quantity(&mut self)
        ensures
            final(self)@ == (MaterialView { quantity: None, ..old(self)@ }),
    {
        match self {
            Material::Consumable(consumable) => consumable.quantity = None,
            Material::NonConsumable(non_consumable) => non_consumable.quantity = None,
        }
    }

    /// Returns the cost per unit of the material.
    pub fn cost_per_unit(&self) -> (r: Option<u16>)
        ensures
            r == self@.cost_per_unit,
    {
        match self {
            Material::Consumable(consumable) => consumable.cost_per_unit,
            Material::NonConsumable(non_consumable) => non_consumable.cost_per_unit,
        }
    }

    /// Updates the cost per unit of the material.
    pub fn update_cost_per_unit(&mut self, cost_per_unit: u16)
        ensures
            final(self)@ == (MaterialView { cost_per_unit: Some(cost_per_unit), ..old(self)@ }),
    {
        match self {
            Material::Consumable(consumable) => consumable.cost_per_unit = Some(cost_per_unit),
            Material::NonConsumable(non_consumable) => {
                non_consumable.cost_per_unit = Some(cost_per_unit)
            },
        }
    }

    /// Removes the cost per unit of the material.
    pub fn remove_cost_per_unit(&mut self)
        ensures
            final(self)@ == (MaterialView { cost_per_unit: None, ..old(self)@ }),
    {
        match self {
            Material::Consumable(consumable) => consumable.cost_per_unit = None,
            Material::NonConsumable(non_consumable) => non_consumable.cost_per_unit = None,
        }
    }
}

impl Default for Material {
    /// A consumable material with an empty name.
    fn default() -> (r: Self)
        ensures
            r is Consumable,
            r@ == (MaterialView {
                consumable: true,
                name: Seq::<char>::empty(),
                quantity: None,
                cost_per_unit: None,
                hourly_rate: None,
            }),
    {
        Material::new(String::new())
    }
}

impl From<NonConsumable> for Consumable {
    /// Keeps the name and the quantity. The cost per unit of the result is
    /// the quantity of `value`; the hourly rate is dropped.
    fn from(value: NonConsumable) -> (r: Self) {
        Consumable { name: value.name, quantity: value.quantity, cost_per_unit: value.quantity }
    }
}

impl vstd::std_specs::convert::FromSpecImpl<NonConsumable> for Consumable {
    open spec fn obeys_from_spec() -> bool {
        true
    }

    closed spec fn from_spec(value: NonConsumable) -> Self {
        Consumable { name: value.name, quantity: value.quantity, cost_per_unit: value.quantity }
    }
}

impl From<Consumable> for NonConsumable {
    /// Keeps the name, the quantity and the cost per unit; the result has no
    /// hourly rate.
    fn from(value: Consumable) -> (r: Self) {
        NonConsumable {
            name: value.name,
            quantity: value.quantity,
            cost_per_unit: value.cost_per_unit,
            hourly_rate: None,
        }
    }
}

impl vstd::std_specs::convert::FromSpecImpl<Consumable> for NonConsumable {
    open spec fn obeys_from_spec() -> bool {
        true
    }

    closed spec fn from_spec(value: Consumable) -> Self {
        NonConsumable {
            name: value.name,
            quantity: value.quantity,
            cost_per_unit: value.cost_per_unit,
            hourly_rate: None,
        }
    }
}

/// What the conversion of a non-consumable into a consumable holds.
pub proof fn lemma_consumable_from(value: NonConsumable)
    ensures
        <Consumable as FromSpec<NonConsumable>>::from_spec(value)@ == (MaterialView {
            consumable: true,
            name: value@.name,
            quantity: value@.quantity,
            cost_per_unit: value@.quantity,
            hourly_rate: None,
        }),
{
}

/// What the conversion of a consumable into a non-consumable holds.
pub proof fn lemma_non_consumable_from(value: Consumable)
    ensures
        <NonConsumable as FromSpec<Consumable>>::from_spec(value)@ == (MaterialView {
            consumable: false,
            ..value@
        }),
{
}

} // verus!
