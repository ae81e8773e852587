//! The closest intersection of a ray with an ordered collection of surfaces.

use crate::hit::Hit;
use crate::ray::{Intersectable, Ray};
use crate::vector::Vector3;
use vstd::prelude::*;

verus! {

/// The surfaces of a scene, in the order of their declaration.
pub type Surfaces = Seq<Box<dyn Intersectable>>;

/// The intersection of `ray` with the surface at index `i`.
pub open spec fn hit_of(objects: Surfaces, ray: Ray, i: int) -> Option<Hit> {
    objects[i].nearest(&ray)
}

/// The distance at which `ray` meets the surface at index `i`, given that
/// it does.
pub open spec fn distance_of(objects: Surfaces, ray: Ray, i: int) -> int {
    hit_of(objects, ray, i)->Some_0.distance@
}

/// `ray` meets none of the surfaces.
pub open spec fn all_miss(objects: Surfaces, ray: Ray) -> bool {
    forall|j: int| 0 <= j < objects.len() ==> hit_of(objects, ray, j) is None
}

/// The surface at index `i` is the one that `ray` meets first: it is hit, no
/// surface is hit at a smaller distance, and no surface before it at the
/// same distance.
pub open spec fn is_closest(objects: Surfaces, ray: Ray, i: int) -> bool {
    &&& 0 <= i < objects.len()
    &&& hit_of(objects, ray, i) is Some
    &&& forall|j: int|
        0 <= j < objects.len() && (#[trigger] hit_of(objects, ray, j)) is Some ==> {
            &&& distance_of(objects, ray, i) <= distance_of(objects, ray, j)
            &&& j < i ==> distance_of(objects, ray, i) < distance_of(objects, ray, j)
        }
}

/// The index of the surface that `ray` meets first, if it meets any.
pub open spec fn closest_index(objects: Surfaces, ray: Ray) -> Option<int> {
    if exists|i: int| is_closest(objects, ray, i) {
        Some(choose|i: int| is_closest(objects, ray, i))
    } else {
        None
    }
}

/// The intersection of `ray` with the surface that it meets first.
pub open spec fn closest_hit(objects: Surfaces, ray: Ray) -> Option<Hit> {
    match closest_index(objects, ray) {
        Some(i) => hit_of(objects, ray, i),
        None => None,
    }
}

/// At most one surface is the one that a ray meets first.
pub proof fn lemma_closest_unique(objects: Surfaces, ray: Ray, i: int, k: int)
    requires
        is_closest(objects, ray, i),
        is_closest(objects, ray, k),
    ensures
        i == k,
{
}

/// The surface that passes the test is the one that the ray meets first.
pub proof fn lemma_closest_is(objects: Surfaces, ray: Ray, i: int)
    requires
        is_closest(objects, ray, i),
    ensures
        closest_index(objects, ray) == Some(i),
        closest_hit(objects, ray) == hit_of(objects, ray, i),
{
    let k = choose|k: int| is_closest(objects, ray, k);
    lemma_closest_unique(objects, ray, i, k);
}

/// A ray has no closest hit exactly if it misses every surface; an empty
/// scene is missed by every ray.
pub proof fn lemma_closest_none(objects: Surfaces, ray: Ray)
    ensures
        closest_hit(objects, ray) is None <==> all_miss(objects, ray),
        objects.len() == 0 ==> closest_hit(objects, ray) is None,
{
    if all_miss(objects, ray) {
        assert forall|i: int| !is_closest(objects, ray, i) by {}
    } else {
        lemma_some_hit_has_closest(objects, ray, objects.len() as int);
        let i = choose|i: int| is_closest(objects, ray, i);
        lemma_closest_is(objects, ray, i);
    }
}

/// The surface at index `i` is the one that the ray meets first among the
/// first `n` surfaces.
pub open spec fn is_closest_among(objects: Surfaces, ray: Ray, n: int, i: int) -> bool {
    is_closest(objects.take(n), ray, i)
}

/// Where a ray meets one of the first `n` surfaces, it meets one of them
/// first.
pub proof fn lemma_some_hit_has_closest(objects: Surfaces, ray: Ray, n: int)
    requires
        0 <= n <= objects.len(),
        exists|j: int| 0 <= j < n && hit_of(objects, ray, j) is Some,
    ensures
        exists|i: int| is_closest_among(objects, ray, n, i),
        n == objects.len() ==> exists|i: int| is_closest(objects, ray, i),
    decreases n,
{
    let prefix = objects.take(n);
    assert forall|j: int| 0 <= j < n implies hit_of(prefix, ray, j) == hit_of(objects, ray, j) by {}
    let last = n - 1;
    if exists|j: int| 0 <= j < last && hit_of(objects, ray, j) is Some {
        lemma_some_hit_has_closest(objects, ray, last);
        let i = choose|i: int| is_closest_among(objects, ray, last, i);
        let shorter = objects.take(last);
        assert forall|j: int| 0 <= j < last implies hit_of(shorter, ray, j) == hit_of(
            prefix,
            ray,
            j,
        ) by {}
        if hit_of(prefix, ray, last) is Some && distance_of(prefix, ray, last) < distance_of(
            prefix,
            ray,
            i,
        ) {
            assert forall|j: int|
                0 <= j < n && (#[trigger] hit_of(prefix, ray, j)) is Some implies distance_of(
                prefix,
                ray,
                last,
            ) <= distance_of(prefix, ray, j) && (j < last ==> distance_of(prefix, ray, last)
                < distance_of(prefix, ray, j)) by {
                if j < last {
                    assert(hit_of(shorter, ray, j) is Some);
                }
            }
            assert(is_closest_among(objects, ray, n, last));
        } else {
            assert forall|j: int|
                0 <= j < n && (#[trigger] hit_of(prefix, ray, j)) is Some implies distance_of(
                prefix,
                ray,
                i,
            ) <= distance_of(prefix, ray, j) && (j < i ==> distance_of(prefix, ray, i)
                < distance_of(prefix, ray, j)) by {
                if j < last {
                    assert(hit_of(shorter, ray, j) is Some);
                }
            }
            assert(is_closest_among(objects, ray, n, i));
        }
    } else {
        assert(hit_of(prefix, ray, last) is Some);
        assert(is_closest_among(objects, ray, n, last));
    }
    if n == objects.len() {
        assert(prefix =~= objects);
    }
}

/// The closest hit is the hit of one of the surfaces, and no surface is hit
/// at a smaller distance.
pub proof fn lemma_closest_is_minimal(objects: Surfaces, ray: Ray)
    requires
        closest_hit(objects, ray) is Some,
    ensures
        exists|i: int|
            0 <= i < objects.len() && hit_of(objects, ray, i) == closest_hit(objects, ray),
        forall|j: int|
            0 <= j < objects.len() && (#[trigger] hit_of(objects, ray, j)) is Some
                ==> closest_hit(objects, ray)->Some_0.distance@ <= distance_of(objects, ray, j),
{
    let i = choose|i: int| is_closest(objects, ray, i);
    assert(0 <= i < objects.len() && hit_of(objects, ray, i) == closest_hit(objects, ray));
}

/// A surface that is hit at a smaller distance than every other surface that
/// is hit gives the closest hit, wherever it stands among the surfaces.
pub proof fn lemma_nearest_surface_wins(objects: Surfaces, ray: Ray, i: int)
    requires
        0 <= i < objects.len(),
        hit_of(objects, ray, i) is Some,
        forall|j: int|
            0 <= j < objects.len() && j != i && (#[trigger] hit_of(objects, ray, j)) is Some
                ==> distance_of(objects, ray, i) < distance_of(objects, ray, j),
    ensures
        closest_hit(objects, ray) == hit_of(objects, ray, i),
{
    assert(is_closest(objects, ray, i));
    lemma_closest_is(objects, ray, i);
}

/// Of several surfaces that are hit at the smallest distance, the one that
/// was declared first gives the closest hit.
pub proof fn lemma_first_wins_ties(objects: Surfaces, ray: Ray, i: int)
    requires
        0 <= i < objects.len(),
        hit_of(objects, ray, i) is Some,
        forall|j: int|
            0 <= j < objects.len() && (#[trigger] hit_of(objects, ray, j)) is Some
                ==> distance_of(objects, ray, i) <= distance_of(objects, ray, j),
        forall|j: int|
            0 <= j < i && (#[trigger] hit_of(objects, ray, j)) is Some ==> distance_of(
                objects,
                ray,
                i,
            ) != distance_of(objects, ray, j),
    ensures
        closest_hit(objects, ray) == hit_of(objects, ray, i),
{
    assert(is_closest(objects, ray, i));
    lemma_closest_is(objects, ray, i);
}

/// Finds the closest intersection of `ray` with the surfaces, scanning them
/// in order and keeping a hit only if it is strictly closer than the best so
/// far.
pub fn get_closest_hit(ray: &Ray, objects: &Vec<Box<dyn Intersectable>>) -> (nearest_hit: Option<
    Hit,
>)
    ensures
        nearest_hit == closest_hit(objects@, *ray),
        nearest_hit is None <==> all_miss(objects@, *ray),
        nearest_hit matches Some(h) ==> Vector3::spec_dot(&h.normal, &ray.direction)@ <= 0,
{
    let mut nearest_hit: Option<Hit> = None;
    let ghost mut best: int = -1;
    let mut k: usize = 0;
    while k < objects.len()
        invariant
            k <= objects.len(),
            nearest_hit is None ==> forall|j: int|
                0 <= j < k ==> hit_of(objects@, *ray, j) is None,
            nearest_hit matches Some(h) ==> {
                &&& 0 <= best < k
                &&& hit_of(objects@, *ray, best) == Some(h)
                &&& Vector3::spec_dot(&h.normal, &ray.direction)@ <= 0
                &&& forall|j: int|
                    0 <= j < k && (#[trigger] hit_of(objects@, *ray, j)) is Some ==> {
                        &&& h.distance@ <= distance_of(objects@, *ray, j)
                        &&& j < best ==> h.distance@ < distance_of(objects@, *ray, j)
                    }
            },
        decreases objects.len() - k,
    {
        match objects[k].intersect(ray) {
            Some(hit) => {
                match nearest_hit {
                    Some(nearest) => {
                        if hit.distance.raw < nearest.distance.raw {
                            nearest_hit = Some(hit);
                            proof {
                                best = k as int;
                            }
                        }
                    },
                    None => {
                        nearest_hit = Some(hit);
                        proof {
                            best = k as int;
                        }
                    },
                }
            },
            None => {},
        }
        k += 1;
    }
    proof {
        if nearest_hit is Some {
            assert(is_closest(objects@, *ray, best));
            lemma_closest_is(objects@, *ray, best);
        }
        lemma_closest_none(objects@, *ray);
    }
    nearest_hit
}

} // verus!
