//! Typed identifiers.
//!
//! An identifier is a 64-bit value tagged, at the type level only, with the
//! kind of entity it names, so that the identifier of a player cannot be
//! handed in where that of a part is asked for. Two identifiers of one kind
//! are the same when their values are the same.

use core::marker::PhantomData;
use vstd::prelude::*;

verus! {

/// The untyped value carried by an identifier.
pub type IdValue = u64;

/// An identifier for an entity of kind `T`.
#[derive(Debug, PartialEq, Eq, Hash)]
pub struct Id<T> {
    value: IdValue,
    kind: PhantomData<T>,
}

/// The kind of the nodes of a part tree.
#[derive(Debug, PartialEq, Eq, Hash)]
pub struct PartTag;

/// The kind of bot definitions.
#[derive(Debug, PartialEq, Eq, Hash)]
pub struct BotDefTag;

/// The kind of players.
#[derive(Debug, PartialEq, Eq, Hash)]
pub struct PlayerTag;

/// The kind of live bots.
#[derive(Debug, PartialEq, Eq, Hash)]
pub struct BotTag;

/// The kind of projectiles in flight.
#[derive(Debug, PartialEq, Eq, Hash)]
pub struct ProjectileTag;

/// The identifier of a node of a part tree.
pub type PartId = Id<PartTag>;

/// The identifier of a bot definition.
pub type BotDefId = Id<BotDefTag>;

/// The identifier of a player.
pub type PlayerId = Id<PlayerTag>;

/// The identifier of a live bot.
pub type BotId = Id<BotTag>;

/// The identifier of a projectile in flight.
pub type ProjectileId = Id<ProjectileTag>;

impl<T> View for Id<T> {
    type V = IdValue;

    closed spec fn view(&self) -> IdValue {
        self.value
    }
}

impl<T> Id<T> {
    /// The identifier of kind `T` that carries `value`.
    pub fn from_value(value: IdValue) -> (id: Self)
        ensures
            id@ == value,
    {
        Id { value, kind: PhantomData }
    }

    /// The untyped value of this identifier.
    pub fn value(&self) -> (value: IdValue)
        ensures
            value == self@,
    {
        self.value
    }

    /// Whether two identifiers name the same entity.
    pub fn same(&self, other: &Self) -> (same: bool)
        ensures
            same == (self@ == other@),
    {
        self.value == other.value
    }
}

impl<T> Clone for Id<T> {
    fn clone(&self) -> (id: Self)
        ensures
            id == *self,
    {
        Id { value: self.value, kind: PhantomData }
    }
}

impl<T> Copy for Id<T> {}

/// Draws a 64-bit value with `rand::random`, from the generator of the
/// calling thread. Nothing is claimed of the value drawn. The generator
/// takes entropy from the operating system, when a thread first draws
/// from it and again each time it reseeds itself, and the thread stops
/// if the system has none to give.
#[verifier::external_body]
fn random_value() -> (value: IdValue) {
    rand::random::<u64>()
}

/// A fresh identifier of kind `T`, drawn at random from the whole 64-bit
/// space.
pub fn allocate<T>() -> (id: Id<T>) {
    Id::from_value(random_value())
}

} // verus!
