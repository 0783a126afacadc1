use vstd::prelude::*;

verus! {

/// The position of a vertex in a vertex list.
pub type Index = u32;

/// The number of a material.
pub type MaterialId = usize;

/// The corners of the six faces, four to a face, as positions in the vertex
/// list of the cube. Each face is two triangles.
pub const INDICES: [Index; 36] = [
    0, 1, 2, 0, 2, 3,
    1, 0, 3, 1, 3, 2,
    3, 2, 1, 3, 1, 0,
    0, 1, 2, 0, 2, 3,
    0, 3, 1, 1, 3, 2,
    0, 1, 2, 0, 2, 3,
];

/// A cube mesh with the instances that are to be drawn of it.
pub struct Cube<I> {
    instances: Vec<I>,
}

impl<I> View for Cube<I> {
    type V = Seq<I>;

    closed spec fn view(&self) -> Seq<I> {
        self.instances@
    }
}

impl<I> Default for Cube<I> {
    fn default() -> (cube: Self)
        ensures
            cube@ == Seq::<I>::empty(),
    {
        Cube { instances: Vec::new() }
    }
}

impl<I> Cube<I> {
    /// Adds `instance` behind the instances that the cube has.
    pub fn add_instance(&mut self, instance: I)
        ensures
            final(self)@ == old(self)@.push(instance),
    {
        self.instances.push(instance);
    }

    pub fn instances(&self) -> (instances: &[I])
        ensures
            instances@ == self@,
    {
        self.instances.as_slice()
    }

    pub fn indices(&self) -> (indices: &[Index])
        ensures
            indices@ == INDICES@,
    {
        INDICES.as_slice()
    }

    pub fn material_id(&self) -> (id: MaterialId)
        ensures
            id == 0,
    {
        0
    }
}

} // verus!
