//! A worked example of closed-enum dispatch: the pattern the rule
//! registry uses to keep every rule behind one small enum instead of a
//! trait object, so that dispatch is a match and the compiler sees every
//! case.

use vstd::prelude::*;

verus! {

/// A dog, for the dispatch example.
#[derive(Debug, Clone)]
pub struct Dog {
    pub name: String,
}

/// A cat, for the dispatch example.
#[derive(Debug, Clone)]
pub struct Cat {
    pub name: String,
}

/// The closed enum over both animals: one variant per case, dispatched by
/// match.
#[derive(Debug, Clone)]
pub enum AnimalEnum {
    Dog(Dog),
    Cat(Cat),
}

impl AnimalEnum {
    /// The sound the animal makes.
    pub fn make_sound(&self) -> (r: &'static str)
        ensures
            (self is Dog) ==> r@ == "Woof!"@,
            (self is Cat) ==> r@ == "Meow!"@,
    {
        match self {
            AnimalEnum::Dog(_) => "Woof!",
            AnimalEnum::Cat(_) => "Meow!",
        }
    }

    /// The animal's name.
    pub fn get_name(&self) -> (r: &String)
        ensures
            (self is Dog) ==> r == self->Dog_0.name,
            (self is Cat) ==> r == self->Cat_0.name,
    {
        match self {
            AnimalEnum::Dog(dog) => &dog.name,
            AnimalEnum::Cat(cat) => &cat.name,
        }
    }

    /// The animal's kind.
    pub fn get_type(&self) -> (r: &'static str)
        ensures
            (self is Dog) ==> r@ == "dog"@,
            (self is Cat) ==> r@ == "cat"@,
    {
        match self {
            AnimalEnum::Dog(_) => "dog",
            AnimalEnum::Cat(_) => "cat",
        }
    }
}

} // verus!
