//! The index buffer of the particle mesh.
use vstd::prelude::*;

verus! {

/// The most particles whose triangles a 16-bit index buffer can address.
pub const MAX_TRIANGLES: usize = 21_845;

/// The indices of one triangle per particle: particle `i` owns the three
/// consecutive vertices from `3 * i` on, so the buffer counts up from zero.
pub open spec fn triangle_index_list(particles: int) -> Seq<u16> {
    Seq::new((3 * particles) as nat, |k: int| k as u16)
}

/// The index buffer for the triangles of `particles` particles.
pub fn triangle_indices(particles: usize) -> (indices: Vec<u16>)
    requires
        particles <= MAX_TRIANGLES,
    ensures
        indices@ == triangle_index_list(particles as int),
{
    let mut indices: Vec<u16> = Vec::new();
    let mut i: usize = 0;
    while i < particles
        invariant
            0 <= i <= particles <= MAX_TRIANGLES,
            indices@ == triangle_index_list(i as int),
        decreases particles - i,
    {
        let base_index: u16 = (i as u16) * 3;
        indices.push(base_index);
        indices.push(base_index + 1);
        indices.push(base_index + 2);
        i += 1;
        assert(indices@ =~= triangle_index_list(i as int));
    }
    indices
}

} // verus!
