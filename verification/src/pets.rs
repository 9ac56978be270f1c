//! Cats, dogs and the conversions between a cat and a pet.
use vstd::prelude::*;
use vstd::string::*;
use crate::text::{decimal, push_decimal};
use std::ops::{Add, AddAssign};
use vstd::std_specs::convert::FromSpecImpl;
use vstd::std_specs::convert::TryFromSpecImpl;
use vstd::std_specs::convert::{FromSpec, TryFromSpec};
use vstd::std_specs::ops::AddSpecImpl;

verus! {

#[derive(Debug)]
pub struct Cat {
    pub name: String,
    pub age: u32,
}

impl Cat {
    /// A cat with the given name and age.
    pub fn new(name: &str, age: u32) -> (cat: Cat)
        ensures
            cat.name@ == name@,
            cat.age == age,
    {
        Cat { name: String::from_str(name), age }
    }

    /// The cat's name.
    pub fn name(&self) -> (name: &str)
        ensures
            name@ == self.name@,
    {
        self.name.as_str()
    }

    /// One year older.
    pub fn increment_age(&mut self)
        requires
            old(self).age < u32::MAX,
        ensures
            final(self).age == old(self).age + 1,
            final(self).name == old(self).name,
    {
        self.age = self.age + 1;
    }

    /// `Cat: <name> - <age> years old`.
    pub fn to_string(&self) -> (text: String)
        ensures
            text@ == "Cat: "@ + self.name@ + " - "@ + decimal(self.age as nat) + " years old"@,
    {
        let mut text = String::from_str("Cat: ");
        text.append(self.name.as_str());
        text.append(" - ");
        push_decimal(&mut text, self.age as u64);
        text.append(" years old");
        text
    }
}

impl Clone for Cat {
    fn clone(&self) -> (cat: Cat)
        ensures
            cat.name@ == self.name@,
            cat.age == self.age,
    {
        Cat { name: self.name.clone(), age: self.age }
    }
}

#[derive(Debug)]
pub struct Dog {}

#[derive(Debug)]
pub enum Pet {
    Dog(Dog),
    Cat(Cat),
}

impl From<Cat> for Pet {
    fn from(cat: Cat) -> (pet: Pet)
        ensures
            pet == Pet::Cat(cat),
    {
        Pet::Cat(cat)
    }
}

impl FromSpecImpl<Cat> for Pet {
    open spec fn obeys_from_spec() -> bool {
        true
    }

    open spec fn from_spec(cat: Cat) -> Pet {
        Pet::Cat(cat)
    }
}

impl From<Pet> for Option<Cat> {
    fn from(pet: Pet) -> (cat: Option<Cat>)
        ensures
            cat == (match pet {
                Pet::Cat(c) => Some(c),
                Pet::Dog(_) => None,
            }),
    {
        match pet {
            Pet::Cat(cat) => Some(cat),
            _ => None,
        }
    }
}

impl FromSpecImpl<Pet> for Option<Cat> {
    open spec fn obeys_from_spec() -> bool {
        true
    }

    open spec fn from_spec(pet: Pet) -> Option<Cat> {
        match pet {
            Pet::Cat(c) => Some(c),
            Pet::Dog(_) => None,
        }
    }
}

/// The pet was not a cat.
#[derive(Debug)]
pub struct CatCastError;

impl TryFrom<Pet> for Cat {
    type Error = CatCastError;

    fn try_from(pet: Pet) -> (cat: Result<Cat, CatCastError>)
        ensures
            cat == (match pet {
                Pet::Cat(c) => Ok(c),
                Pet::Dog(_) => Err(CatCastError),
            }),
    {
        match pet {
            Pet::Cat(cat) => Ok(cat),
            _ => Err(CatCastError),
        }
    }
}

impl TryFromSpecImpl<Pet> for Cat {
    open spec fn obeys_try_from_spec() -> bool {
        true
    }

    open spec fn try_from_spec(pet: Pet) -> Result<Cat, CatCastError> {
        match pet {
            Pet::Cat(c) => Ok(c),
            Pet::Dog(_) => Err(CatCastError),
        }
    }
}

impl Add<u32> for Cat {
    type Output = Cat;

    fn add(self, rhs: u32) -> (cat: Cat) {
        Cat { name: self.name, age: self.age + rhs }
    }
}

impl AddSpecImpl<u32> for Cat {
    open spec fn obeys_add_spec() -> bool {
        true
    }

    open spec fn add_req(self, rhs: u32) -> bool {
        self.age + rhs <= u32::MAX
    }

    open spec fn add_spec(self, rhs: u32) -> Cat {
        Cat { name: self.name, age: (self.age + rhs) as u32 }
    }
}

/// `+=` ages the cat in place. The trait gives no room for a precondition,
/// so an age past `u32::MAX` wraps around, as unchecked `+=` does in a
/// release build.
impl AddAssign<u32> for Cat {
    fn add_assign(&mut self, rhs: u32)
        ensures
            final(self).age == (old(self).age + rhs) % 0x1_0000_0000,
            final(self).name == old(self).name,
    {
        self.age = self.age.wrapping_add(rhs);
    }
}

/// A cat made into a pet comes back as the same cat, through `Option<Cat>`
/// and through `TryFrom` alike; a dog never comes back as a cat.
pub proof fn lemma_cat_round_trip(cat: Cat, dog: Dog)
    ensures
        <Option<Cat> as FromSpec<Pet>>::from_spec(<Pet as FromSpec<Cat>>::from_spec(cat)) == Some(
            cat,
        ),
        <Cat as TryFromSpec<Pet>>::try_from_spec(<Pet as FromSpec<Cat>>::from_spec(cat)) == Ok::<
            Cat,
            CatCastError,
        >(cat),
        <Option<Cat> as FromSpec<Pet>>::from_spec(Pet::Dog(dog)) == None::<Cat>,
        <Cat as TryFromSpec<Pet>>::try_from_spec(Pet::Dog(dog)) is Err,
{
}

} // verus!
