use super::super::vertex_attributes::{VertexFormatKind, VertexInput};
use vstd::prelude::*;
use vstd::string::StringExecFns;

verus! {

/// What a vertex attribute of a PMX model holds.
#[derive(Debug, Clone, Copy, PartialEq, Eq, Hash)]
pub enum PmxVertexElementKind {
    Position,
    Normal,
    TexCoord,
    Tangent,
    AdditionalVec4(u32),
    DeformKind,
    BoneIndex,
    BoneWeight,
    SdefC,
    SdefR0,
    SdefR1,
    EdgeSize,
    VertexMorphIndexStart,
    UvMorphIndexStart,
    VertexMorphCount,
    UvMorphCount,
}

/// A vertex attribute of a PMX model and its byte offset within a vertex.
#[derive(Debug, Clone, Copy, PartialEq, Eq, Hash)]
pub struct PmxVertexLayoutElement {
    pub kind: PmxVertexElementKind,
    pub offset: u64,
}

impl PmxVertexElementKind {
    /// Size in bytes: 4 bytes per float or integer component.
    pub open spec fn spec_size(self) -> nat {
        match self {
            PmxVertexElementKind::Position => 12,
            PmxVertexElementKind::Normal => 12,
            PmxVertexElementKind::TexCoord => 8,
            PmxVertexElementKind::Tangent => 12,
            PmxVertexElementKind::AdditionalVec4(_) => 16,
            PmxVertexElementKind::DeformKind => 4,
            PmxVertexElementKind::BoneIndex => 16,
            PmxVertexElementKind::BoneWeight => 16,
            PmxVertexElementKind::SdefC => 12,
            PmxVertexElementKind::SdefR0 => 12,
            PmxVertexElementKind::SdefR1 => 12,
            PmxVertexElementKind::EdgeSize => 4,
            PmxVertexElementKind::VertexMorphIndexStart => 4,
            PmxVertexElementKind::UvMorphIndexStart => 4,
            PmxVertexElementKind::VertexMorphCount => 4,
            PmxVertexElementKind::UvMorphCount => 4,
        }
    }

    pub fn size(self) -> (r: u64)
        ensures
            r == self.spec_size(),
    {
        match self {
            PmxVertexElementKind::Position => 12,
            PmxVertexElementKind::Normal => 12,
            PmxVertexElementKind::TexCoord => 8,
            PmxVertexElementKind::Tangent => 12,
            PmxVertexElementKind::AdditionalVec4(_) => 16,
            PmxVertexElementKind::DeformKind => 4,
            PmxVertexElementKind::BoneIndex => 16,
            PmxVertexElementKind::BoneWeight => 16,
            PmxVertexElementKind::SdefC => 12,
            PmxVertexElementKind::SdefR0 => 12,
            PmxVertexElementKind::SdefR1 => 12,
            PmxVertexElementKind::EdgeSize => 4,
            PmxVertexElementKind::VertexMorphIndexStart => 4,
            PmxVertexElementKind::UvMorphIndexStart => 4,
            PmxVertexElementKind::VertexMorphCount => 4,
            PmxVertexElementKind::UvMorphCount => 4,
        }
    }

    /// The vertex format the attribute is read with.
    pub open spec fn spec_format(self) -> VertexFormatKind {
        match self {
            PmxVertexElementKind::Position => VertexFormatKind::Float32x3,
            PmxVertexElementKind::Normal => VertexFormatKind::Float32x3,
            PmxVertexElementKind::TexCoord => VertexFormatKind::Float32x2,
            PmxVertexElementKind::Tangent => VertexFormatKind::Float32x3,
            PmxVertexElementKind::AdditionalVec4(_) => VertexFormatKind::Float32x4,
            PmxVertexElementKind::DeformKind => VertexFormatKind::Uint32,
            PmxVertexElementKind::BoneIndex => VertexFormatKind::Uint32x4,
            PmxVertexElementKind::BoneWeight => VertexFormatKind::Float32x4,
            PmxVertexElementKind::SdefC => VertexFormatKind::Float32x3,
            PmxVertexElementKind::SdefR0 => VertexFormatKind::Float32x3,
            PmxVertexElementKind::SdefR1 => VertexFormatKind::Float32x3,
            PmxVertexElementKind::EdgeSize => VertexFormatKind::Float32,
            PmxVertexElementKind::VertexMorphIndexStart => VertexFormatKind::Uint32,
            PmxVertexElementKind::UvMorphIndexStart => VertexFormatKind::Uint32,
            PmxVertexElementKind::VertexMorphCount => VertexFormatKind::Uint32,
            PmxVertexElementKind::UvMorphCount => VertexFormatKind::Uint32,
        }
    }

    pub fn vertex_format(self) -> (r: VertexFormatKind)
        ensures
            r == self.spec_format(),
    {
        match self {
            PmxVertexElementKind::Position => VertexFormatKind::Float32x3,
            PmxVertexElementKind::Normal => VertexFormatKind::Float32x3,
            PmxVertexElementKind::TexCoord => VertexFormatKind::Float32x2,
            PmxVertexElementKind::Tangent => VertexFormatKind::Float32x3,
            PmxVertexElementKind::AdditionalVec4(_) => VertexFormatKind::Float32x4,
            PmxVertexElementKind::DeformKind => VertexFormatKind::Uint32,
            PmxVertexElementKind::BoneIndex => VertexFormatKind::Uint32x4,
            PmxVertexElementKind::BoneWeight => VertexFormatKind::Float32x4,
            PmxVertexElementKind::SdefC => VertexFormatKind::Float32x3,
            PmxVertexElementKind::SdefR0 => VertexFormatKind::Float32x3,
            PmxVertexElementKind::SdefR1 => VertexFormatKind::Float32x3,
            PmxVertexElementKind::EdgeSize => VertexFormatKind::Float32,
            PmxVertexElementKind::VertexMorphIndexStart => VertexFormatKind::Uint32,
            PmxVertexElementKind::UvMorphIndexStart => VertexFormatKind::Uint32,
            PmxVertexElementKind::VertexMorphCount => VertexFormatKind::Uint32,
            PmxVertexElementKind::UvMorphCount => VertexFormatKind::Uint32,
        }
    }

    /// The name of the shader input the attribute feeds.
    pub open spec fn spec_input_name(self) -> Seq<char> {
        match self {
            PmxVertexElementKind::Position => "position"@,
            PmxVertexElementKind::Normal => "normal"@,
            PmxVertexElementKind::TexCoord => "uv"@,
            PmxVertexElementKind::Tangent => "tangent"@,
            PmxVertexElementKind::AdditionalVec4(index) => "additional_"@ + decimal(index as nat) + "_"@,
            PmxVertexElementKind::DeformKind => "deform_kind"@,
            PmxVertexElementKind::BoneIndex => "bone_index"@,
            PmxVertexElementKind::BoneWeight => "bone_weight"@,
            PmxVertexElementKind::SdefC => "sdef_c"@,
            PmxVertexElementKind::SdefR0 => "sdef_r0"@,
            PmxVertexElementKind::SdefR1 => "sdef_r1"@,
            PmxVertexElementKind::EdgeSize => "edge_size"@,
            PmxVertexElementKind::VertexMorphIndexStart => "vertex_morph_index_start"@,
            PmxVertexElementKind::UvMorphIndexStart => "uv_morph_index_start"@,
            PmxVertexElementKind::VertexMorphCount => "vertex_morph_count"@,
            PmxVertexElementKind::UvMorphCount => "uv_morph_count"@,
        }
    }

    pub fn shader_input_name(self) -> (r: String)
        ensures
            r@ == self.spec_input_name(),
    {
        match self {
            PmxVertexElementKind::Position => "position".to_owned(),
            PmxVertexElementKind::Normal => "normal".to_owned(),
            PmxVertexElementKind::TexCoord => "uv".to_owned(),
            PmxVertexElementKind::Tangent => "tangent".to_owned(),
            PmxVertexElementKind::AdditionalVec4(index) => {
                let mut name = "additional_".to_owned();
                let digits = decimal_string(index);
                name.append(digits.as_str());
                name.append("_");
                name
            },
            PmxVertexElementKind::DeformKind => "deform_kind".to_owned(),
            PmxVertexElementKind::BoneIndex => "bone_index".to_owned(),
            PmxVertexElementKind::BoneWeight => "bone_weight".to_owned(),
            PmxVertexElementKind::SdefC => "sdef_c".to_owned(),
            PmxVertexElementKind::SdefR0 => "sdef_r0".to_owned(),
            PmxVertexElementKind::SdefR1 => "sdef_r1".to_owned(),
            PmxVertexElementKind::EdgeSize => "edge_size".to_owned(),
            PmxVertexElementKind::VertexMorphIndexStart => "vertex_morph_index_start".to_owned(),
            PmxVertexElementKind::UvMorphIndexStart => "uv_morph_index_start".to_owned(),
            PmxVertexElementKind::VertexMorphCount => "vertex_morph_count".to_owned(),
            PmxVertexElementKind::UvMorphCount => "uv_morph_count".to_owned(),
        }
    }
}

/// The character of a decimal digit.
pub open spec fn digit_char(d: nat) -> char {
    if d == 0 {
        '0'
    } else if d == 1 {
        '1'
    } else if d == 2 {
        '2'
    } else if d == 3 {
        '3'
    } else if d == 4 {
        '4'
    } else if d == 5 {
        '5'
    } else if d == 6 {
        '6'
    } else if d == 7 {
        '7'
    } else if d == 8 {
        '8'
    } else {
        '9'
    }
}

/// The decimal digits of `n`, most significant first, without leading zeros.
pub open spec fn decimal(n: nat) -> Seq<char>
    decreases n,
{
    if n < 10 {
        seq![digit_char(n)]
    } else {
        decimal(n / 10).push(digit_char(n % 10))
    }
}

fn digit_str(d: u32) -> (r: &'static str)
    requires
        d < 10,
    ensures
        r@ == seq![digit_char(d as nat)],
{
    if d == 0 {
        proof {
            reveal_strlit("0");
        }
        "0"
    } else if d == 1 {
        proof {
            reveal_strlit("1");
        }
        "1"
    } else if d == 2 {
        proof {
            reveal_strlit("2");
        }
        "2"
    } else if d == 3 {
        proof {
            reveal_strlit("3");
        }
        "3"
    } else if d == 4 {
        proof {
            reveal_strlit("4");
        }
        "4"
    } else if d == 5 {
        proof {
            reveal_strlit("5");
        }
        "5"
    } else if d == 6 {
        proof {
            reveal_strlit("6");
        }
        "6"
    } else if d == 7 {
        proof {
            reveal_strlit("7");
        }
        "7"
    } else if d == 8 {
        proof {
            reveal_strlit("8");
        }
        "8"
    } else {
        proof {
            reveal_strlit("9");
        }
        "9"
    }
}

/// `n` written in decimal.
fn decimal_string(n: u32) -> (r: String)
    ensures
        r@ == decimal(n as nat),
    decreases n,
{
    if n < 10 {
        let mut s = String::new();
        s.append(digit_str(n));
        s
    } else {
        let mut s = decimal_string(n / 10);
        s.append(digit_str(n % 10));
        s
    }
}

/// The byte just past an attribute: its offset plus its size.
pub open spec fn pmx_element_end(e: PmxVertexLayoutElement) -> int {
    e.offset + e.kind.spec_size()
}

/// The largest end among the attributes, or 0 when there are none.
pub open spec fn pmx_max_end(elements: Seq<PmxVertexLayoutElement>) -> int
    decreases elements.len(),
{
    if elements.len() == 0 {
        0
    } else {
        let rest = pmx_max_end(elements.drop_last());
        let end = pmx_element_end(elements.last());
        if rest < end {
            end
        } else {
            rest
        }
    }
}

/// The attributes of the vertices of a PMX model and the stride between
/// vertices.
#[derive(Debug, Clone, PartialEq, Eq, Hash)]
pub struct PmxModelVertexLayout {
    pub elements: Vec<PmxVertexLayoutElement>,
    pub stride: u64,
}

impl PmxModelVertexLayout {
    /// A layout whose stride is the largest end of an attribute (0 for none).
    /// Each end must fit a `u64`.
    pub fn new(elements: Vec<PmxVertexLayoutElement>) -> (r: PmxModelVertexLayout)
        requires
            forall|i: int| 0 <= i < elements@.len() ==> pmx_element_end(#[trigger] elements@[i]) <= u64::MAX,
        ensures
            r.elements@ == elements@,
            r.stride == pmx_max_end(elements@),
    {
        let mut stride: u64 = 0;
        let mut i: usize = 0;
        while i < elements.len()
            invariant
                0 <= i <= elements@.len(),
                forall|j: int| 0 <= j < elements@.len() ==> pmx_element_end(#[trigger] elements@[j]) <= u64::MAX,
                stride == pmx_max_end(elements@.take(i as int)),
            decreases elements@.len() - i,
        {
            let e = elements[i];
            assert(pmx_element_end(elements@[i as int]) <= u64::MAX);
            let end: u64 = e.offset + e.kind.size();
            proof {
                assert(elements@.take(i as int + 1).drop_last() =~= elements@.take(i as int));
            }
            if stride < end {
                stride = end;
            }
            i = i + 1;
        }
        proof {
            assert(elements@.take(elements@.len() as int) =~= elements@);
        }
        PmxModelVertexLayout { elements, stride }
    }

    /// The vertex inputs of the layout: each attribute under its shader
    /// input name, with its format and offset.
    pub fn vertex_inputs(&self) -> (r: Vec<VertexInput>)
        ensures
            r@.len() == self.elements@.len(),
            forall|i: int|
                0 <= i < r@.len() ==> (#[trigger] r@[i]).name@ == self.elements@[i].kind.spec_input_name()
                    && r@[i].format == self.elements@[i].kind.spec_format() && r@[i].offset
                    == self.elements@[i].offset,
    {
        let mut r: Vec<VertexInput> = Vec::new();
        let mut i: usize = 0;
        while i < self.elements.len()
            invariant
                0 <= i <= self.elements@.len(),
                r@.len() == i,
                forall|j: int|
                    0 <= j < i ==> (#[trigger] r@[j]).name@ == self.elements@[j].kind.spec_input_name()
                        && r@[j].format == self.elements@[j].kind.spec_format() && r@[j].offset
                        == self.elements@[j].offset,
            decreases self.elements@.len() - i,
        {
            let e = self.elements[i];
            r.push(VertexInput { name: e.kind.shader_input_name(), format: e.kind.vertex_format(), offset: e.offset });
            i = i + 1;
        }
        r
    }
}

} // verus!
