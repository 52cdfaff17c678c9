use vstd::prelude::*;

verus! {

/// A mesh drawn with a material, and the render pipeline made for the two,
/// kept until either changes.
pub struct StaticMeshRenderer<M, T, P> {
    mesh: M,
    material: T,
    pipeline: Option<P>,
}

impl<M, T, P> StaticMeshRenderer<M, T, P> {
    pub closed spec fn spec_mesh(&self) -> M {
        self.mesh
    }

    pub closed spec fn spec_material(&self) -> T {
        self.material
    }

    /// The pipeline kept for the mesh and material, if one was made.
    pub closed spec fn spec_pipeline(&self) -> Option<P> {
        self.pipeline
    }

    /// A renderer with no pipeline made yet.
    pub fn new(mesh: M, material: T) -> (r: Self)
        ensures
            r.spec_mesh() == mesh,
            r.spec_material() == material,
            r.spec_pipeline() is None,
    {
        StaticMeshRenderer { mesh, material, pipeline: None }
    }

    pub fn mesh(&self) -> (r: &M)
        ensures
            *r == self.spec_mesh(),
    {
        &self.mesh
    }

    pub fn material(&self) -> (r: &T)
        ensures
            *r == self.spec_material(),
    {
        &self.material
    }

    /// The pipeline kept, if any.
    pub fn pipeline(&self) -> (r: Option<&P>)
        ensures
            r == match self.spec_pipeline() {
                Some(p) => Some(&p),
                None => None::<&P>,
            },
    {
        self.pipeline.as_ref()
    }

    /// Replaces the mesh; the pipeline made for the old one is dropped.
    pub fn set_mesh(&mut self, mesh: M)
        ensures
            final(self).spec_mesh() == mesh,
            final(self).spec_material() == old(self).spec_material(),
            final(self).spec_pipeline() is None,
    {
        self.mesh = mesh;
        self.pipeline = None;
    }

    /// Replaces the material; the pipeline made for the old one is dropped.
    pub fn set_material(&mut self, material: T)
        ensures
            final(self).spec_mesh() == old(self).spec_mesh(),
            final(self).spec_material() == material,
            final(self).spec_pipeline() is None,
    {
        self.material = material;
        self.pipeline = None;
    }

    /// Makes sure a pipeline is kept: the one kept is reused, and `build` is
    /// called, once, only when none is kept, and what it makes is kept. Gives
    /// whether `build` was called.
    pub fn construct_render_pipeline<F: FnOnce(&M, &T) -> P>(&mut self, build: F) -> (built: bool)
        requires
            old(self).spec_pipeline() is None ==> call_requires(build, (&old(self).spec_mesh(), &old(self).spec_material())),
        ensures
            built == old(self).spec_pipeline() is None,
            final(self).spec_mesh() == old(self).spec_mesh(),
            final(self).spec_material() == old(self).spec_material(),
            !built ==> final(self).spec_pipeline() == old(self).spec_pipeline(),
            built ==> (final(self).spec_pipeline() matches Some(p) && call_ensures(
                build,
                (&old(self).spec_mesh(), &old(self).spec_material()),
                p,
            )),
    {
        if self.pipeline.is_some() {
            return false;
        }
        let pipeline = build(&self.mesh, &self.material);
        self.pipeline = Some(pipeline);
        true
    }
}

} // verus!
