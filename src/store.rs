//! Bodies kept as entities of a `hecs::World`, one component per part of a
//! body, addressed by the bits of their entity handles.
use vstd::prelude::*;
use crate::body::{Body, Rect, Role};
use crate::direction::Velocity;

verus! {

#[verifier::external_type_specification]
#[verifier::external_body]
pub struct ExWorld(hecs::World);

/// The speed component of an entity.
#[derive(Clone, Copy, Debug, PartialEq, Eq, Structural)]
pub struct Speed(pub i64);

/// The bodies held by a world: each entity that has all four components,
/// keyed by the bits of its handle.
pub uninterp spec fn world_bodies(w: hecs::World) -> Map<u64, Body>;

/// Relies on `hecs::World::new`: a world with no entities.
#[verifier::external_body]
pub(crate) fn new_world() -> (r: hecs::World)
    ensures
        world_bodies(r).is_empty(),
{
    hecs::World::new()
}

/// Relies on `hecs::World::spawn` and `Entity::to_bits`: a new entity whose
/// handle is not that of any live entity.
#[verifier::external_body]
pub(crate) fn spawn_body(w: &mut hecs::World, b: Body) -> (id: u64)
    ensures
        !world_bodies(*old(w)).contains_key(id),
        world_bodies(*final(w)) == world_bodies(*old(w)).insert(id, b),
{
    w.spawn((b.bounds, b.vel, Speed(b.speed), b.role)).to_bits().get()
}

/// Relies on `Entity::from_bits`, `hecs::World::query_one` and `QueryOne::get`:
/// the components of a live entity that has all four.
#[verifier::external_body]
pub(crate) fn get_body(w: &hecs::World, id: u64) -> (r: Option<Body>)
    ensures
        r == (if world_bodies(*w).contains_key(id) { Some(world_bodies(*w)[id]) } else { None }),
{
    let e = hecs::Entity::from_bits(id)?;
    let mut q = w.query_one::<(&Rect, &Velocity, &Speed, &Role)>(e).ok()?;
    q.get().map(|(bounds, vel, speed, role)| Body { bounds: *bounds, vel: *vel, speed: speed.0, role: *role })
}

/// Relies on `Entity::from_bits` and `hecs::World::query_one_mut`: the
/// components of a live entity overwritten in place.
#[verifier::external_body]
pub(crate) fn set_body(w: &mut hecs::World, id: u64, b: Body)
    requires
        world_bodies(*old(w)).contains_key(id),
    ensures
        world_bodies(*final(w)) == world_bodies(*old(w)).insert(id, b),
{
    if let Some(e) = hecs::Entity::from_bits(id) {
        if let Ok((r, v, s, ro)) = w.query_one_mut::<(&mut Rect, &mut Velocity, &mut Speed, &mut Role)>(e) {
            *r = b.bounds;
            *v = b.vel;
            *s = Speed(b.speed);
            *ro = b.role;
        }
    }
}

} // verus!
