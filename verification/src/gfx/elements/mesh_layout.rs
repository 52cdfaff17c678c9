use vstd::prelude::*;

verus! {

/// The kind of a vertex attribute, which fixes its size in bytes
/// (a vector of 32-bit floats of the given width).
#[derive(Debug, Clone, Copy, PartialEq, Eq, Hash)]
pub enum MeshLayoutElementKind {
    /// Vec3
    Position,
    /// Vec3
    Normal,
    /// Vec2
    TexCoord(u8),
    /// Vec3
    Tangent,
}

impl MeshLayoutElementKind {
    /// Size in bytes: 4 bytes per float component.
    pub open spec fn spec_size(self) -> nat {
        match self {
            MeshLayoutElementKind::Position => 12,
            MeshLayoutElementKind::Normal => 12,
            MeshLayoutElementKind::TexCoord(_) => 8,
            MeshLayoutElementKind::Tangent => 12,
        }
    }

    pub fn size(self) -> (r: usize)
        ensures
            r == self.spec_size(),
    {
        match self {
            MeshLayoutElementKind::Position => 12,
            MeshLayoutElementKind::Normal => 12,
            MeshLayoutElementKind::TexCoord(_) => 8,
            MeshLayoutElementKind::Tangent => 12,
        }
    }
}

#[derive(Debug, Clone, PartialEq, Eq, Hash)]
pub struct MeshLayoutElement {
    pub name: String,
    pub kind: MeshLayoutElementKind,
    pub offset: u64,
}

/// The byte just past an element: its offset plus its size.
pub open spec fn element_end(element: MeshLayoutElement) -> int {
    element.offset + element.kind.spec_size()
}

/// The largest end among the elements, or 0 when there are none.
pub open spec fn max_element_end(elements: Seq<MeshLayoutElement>) -> int
    decreases elements.len(),
{
    if elements.len() == 0 {
        0
    } else {
        let rest = max_element_end(elements.drop_last());
        let last = element_end(elements.last());
        if rest < last {
            last
        } else {
            rest
        }
    }
}

/// Every element ends within the range of a `u64`.
pub open spec fn ends_fit_u64(elements: Seq<MeshLayoutElement>) -> bool {
    forall|i: int| 0 <= i < elements.len() ==> #[trigger] element_end(elements[i]) <= u64::MAX
}

/// The maximum is an end of some element (or 0) and no element ends later.
pub proof fn lemma_max_element_end(elements: Seq<MeshLayoutElement>)
    ensures
        forall|i: int|
            0 <= i < elements.len() ==> #[trigger] element_end(elements[i]) <= max_element_end(elements),
        elements.len() == 0 ==> max_element_end(elements) == 0,
        elements.len() > 0 ==> exists|i: int|
            0 <= i < elements.len() && #[trigger] element_end(elements[i]) == max_element_end(elements),
    decreases elements.len(),
{
    if elements.len() > 0 {
        let rest = elements.drop_last();
        lemma_max_element_end(rest);
        assert forall|i: int| 0 <= i < elements.len() implies #[trigger] element_end(elements[i])
            <= max_element_end(elements) by {
            if i < rest.len() {
                assert(elements[i] == rest[i]);
            }
        }
        if max_element_end(elements) == element_end(elements.last()) {
            assert(element_end(elements[elements.len() - 1]) == max_element_end(elements));
        } else {
            let j = choose|j: int| 0 <= j < rest.len() && element_end(rest[j]) == max_element_end(rest);
            assert(elements[j] == rest[j]);
        }
    }
}

/// The per-vertex byte stride implied by the elements: the largest end of an
/// element, or 0 for no elements.
pub fn compute_stride_from_elements(elements: &[MeshLayoutElement]) -> (r: u64)
    requires
        ends_fit_u64(elements@),
    ensures
        r == max_element_end(elements@),
{
    let mut stride: u64 = 0;
    let mut i: usize = 0;
    while i < elements.len()
        invariant
            0 <= i <= elements.len(),
            ends_fit_u64(elements@),
            stride == max_element_end(elements@.take(i as int)),
        decreases elements.len() - i,
    {
        let element = &elements[i];
        assert(element_end(elements@[i as int]) <= u64::MAX);
        let size: usize = element.kind.size();
        let end: u64 = size as u64 + element.offset;
        assert(elements@.take(i as int + 1).drop_last() =~= elements@.take(i as int));
        if stride < end {
            stride = end;
        }
        i = i + 1;
    }
    assert(elements@.take(elements.len() as int) =~= elements@);
    stride
}

/// The attributes of one vertex and the stride between vertices.
#[derive(Debug, Clone, PartialEq, Eq, Hash)]
pub struct MeshLayout {
    elements: Vec<MeshLayoutElement>,
    stride: u64,
}

impl MeshLayout {
    pub closed spec fn spec_elements(&self) -> Seq<MeshLayoutElement> {
        self.elements@
    }

    pub closed spec fn spec_stride(&self) -> u64 {
        self.stride
    }

    /// A layout whose stride is computed from the elements.
    pub fn new(elements: Vec<MeshLayoutElement>) -> (r: MeshLayout)
        requires
            ends_fit_u64(elements@),
        ensures
            r.spec_elements() == elements@,
            r.spec_stride() == max_element_end(elements@),
    {
        let stride = compute_stride_from_elements(elements.as_slice());
        MeshLayout { elements, stride }
    }

    /// A layout with the given stride.
    pub fn with_stride(elements: Vec<MeshLayoutElement>, stride: u64) -> (r: MeshLayout)
        ensures
            r.spec_elements() == elements@,
            r.spec_stride() == stride,
    {
        MeshLayout { elements, stride }
    }

    pub fn elements(&self) -> (r: &[MeshLayoutElement])
        ensures
            r@ == self.spec_elements(),
    {
        self.elements.as_slice()
    }

    pub fn stride(&self) -> (r: u64)
        ensures
            r == self.spec_stride(),
    {
        self.stride
    }
}

} // verus!
