use vstd::prelude::*;

use crate::world::World;

verus! {

/// The component type handed to a builder has no storage in the registry.
#[derive(Debug, PartialEq, Eq)]
pub struct UnregisteredComponent;

/// Attaches components to one newly spawned entity. It holds the registry
/// exclusively until `into_id` hands back the entity's id.
pub struct EntityBuilder<'a> {
    pub id: usize,
    pub world: &'a mut World,
}

impl<'a> EntityBuilder<'a> {
    /// The id of the entity being built.
    pub open spec fn id(&self) -> nat {
        self.id as nat
    }

    /// The registry as it stands now.
    pub open spec fn world(&self) -> World {
        *self.world
    }

    /// Binds `id` to the registry `world`.
    pub fn new(id: usize, world: &'a mut World) -> (r: Self)
        ensures
            r.id() == id,
            r.world() == *old(world),
            *final(r.world) == *final(world),
    {
        EntityBuilder { id, world }
    }

    /// Stores `value` as the entity's component of type `T`, replacing one
    /// that it already has. A type that is not registered is a setup error:
    /// the builder is given up and `UnregisteredComponent` comes back, with
    /// the registry as it was.
    pub fn with<T: 'static>(self, value: T) -> (r: Result<Self, UnregisteredComponent>)
        requires
            self.world().wf(),
            self.id() < self.world().capacity(),
        ensures
            self.world().keys().len() == 0 ==> r is Err,
            r matches Ok(b) ==> {
                &&& b.id() == self.id()
                &&& *final(b.world) == *final(self.world)
                &&& World::attached(self.world(), b.world(), self.id() as usize)
            },
            r is Err ==> {
                &&& (*final(self.world)).wf()
                &&& (*final(self.world)).same_shape(self.world())
            },
    {
        let EntityBuilder { id, world } = self;
        if world.create::<T>(id, value) {
            let b = EntityBuilder { id, world };
            Ok(b)
        } else {
            Err(UnregisteredComponent)
        }
    }

    /// Ends the construction and returns the entity's id.
    pub fn into_id(self) -> (r: usize)
        ensures
            r == self.id(),
            *final(self.world) == *old(self.world),
    {
        self.id
    }
}

} // verus!
