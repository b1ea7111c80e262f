use vstd::prelude::*;

verus! {

/// The layout of one vertex as the shaders read it.
#[allow(non_camel_case_types)]
#[derive(Debug, Clone, Copy, PartialEq, Eq, Structural)]
pub enum VertexFormat {
    VERTEX_2D_RGBA,
    VERTEX_2D_TEXTURE,
    VERTEX_3D_RGBA,
    VERTEX_3D_RGBA_TEXTURE,
    VERTEX_3D_TEXTURE_ARRAY_NORMAL,
}

/// The data type of one vertex attribute.
#[derive(Debug, Clone, Copy, PartialEq, Eq, Structural)]
pub enum AttributeFormat {
    /// Two 32-bit floats.
    Vec2F32,
    /// Three 32-bit floats.
    Vec3F32,
    /// Four 32-bit floats.
    Vec4F32,
    /// One 32-bit unsigned integer.
    U32,
}

/// Bytes an attribute of format `f` takes.
pub open spec fn attribute_size(f: AttributeFormat) -> int {
    match f {
        AttributeFormat::Vec2F32 => 8,
        AttributeFormat::Vec3F32 => 12,
        AttributeFormat::Vec4F32 => 16,
        AttributeFormat::U32 => 4,
    }
}

/// One vertex attribute: the shader location it feeds, its format, and its
/// byte offset within the vertex.
#[derive(Debug, Clone, Copy, PartialEq, Eq, Structural)]
pub struct VertexAttribute {
    pub location: u32,
    pub format: AttributeFormat,
    pub offset: u32,
}

/// The attribute formats of vertex format `v`, in location order.
pub open spec fn attribute_formats(v: VertexFormat) -> Seq<AttributeFormat> {
    match v {
        VertexFormat::VERTEX_2D_RGBA => seq![
            AttributeFormat::Vec2F32,
            AttributeFormat::Vec2F32,
            AttributeFormat::Vec4F32,
        ],
        VertexFormat::VERTEX_2D_TEXTURE => seq![AttributeFormat::Vec2F32, AttributeFormat::Vec2F32],
        VertexFormat::VERTEX_3D_RGBA => seq![AttributeFormat::Vec3F32, AttributeFormat::Vec4F32],
        VertexFormat::VERTEX_3D_RGBA_TEXTURE => seq![
            AttributeFormat::Vec3F32,
            AttributeFormat::Vec4F32,
            AttributeFormat::Vec2F32,
        ],
        VertexFormat::VERTEX_3D_TEXTURE_ARRAY_NORMAL => seq![
            AttributeFormat::Vec3F32,
            AttributeFormat::Vec2F32,
            AttributeFormat::U32,
            AttributeFormat::Vec3F32,
        ],
    }
}

/// Bytes taken by the first `n` attributes of `fs`.
pub open spec fn packed_size(fs: Seq<AttributeFormat>, n: nat) -> int
    decreases n,
{
    if n == 0 {
        0
    } else {
        packed_size(fs, (n - 1) as nat) + attribute_size(fs[n - 1])
    }
}

/// Bytes between consecutive vertices of format `v`.
pub open spec fn stride_spec(v: VertexFormat) -> int {
    match v {
        VertexFormat::VERTEX_2D_RGBA => 32,
        VertexFormat::VERTEX_2D_TEXTURE => 16,
        VertexFormat::VERTEX_3D_RGBA => 28,
        VertexFormat::VERTEX_3D_RGBA_TEXTURE => 36,
        VertexFormat::VERTEX_3D_TEXTURE_ARRAY_NORMAL => 36,
    }
}

impl VertexFormat {
    /// Bytes between consecutive vertices.
    pub fn stride(&self) -> (r: u32)
        ensures
            r == stride_spec(*self),
    {
        match self {
            VertexFormat::VERTEX_2D_RGBA => 32,
            VertexFormat::VERTEX_2D_TEXTURE => 16,
            VertexFormat::VERTEX_3D_RGBA => 28,
            VertexFormat::VERTEX_3D_RGBA_TEXTURE => 36,
            VertexFormat::VERTEX_3D_TEXTURE_ARRAY_NORMAL => 36,
        }
    }

    /// The vertex's attributes: location `i` has the `i`-th format, right
    /// after the attributes before it.
    pub fn attributes(&self) -> (r: Vec<VertexAttribute>)
        ensures
            r.len() == attribute_formats(*self).len(),
            forall|i: int|
                0 <= i < r.len() ==> (#[trigger] r@[i]).location == i && r@[i].format == attribute_formats(
                    *self,
                )[i] && r@[i].offset == packed_size(attribute_formats(*self), i as nat),
    {
        let formats: Vec<AttributeFormat> = match self {
            VertexFormat::VERTEX_2D_RGBA => vec![
                AttributeFormat::Vec2F32,
                AttributeFormat::Vec2F32,
                AttributeFormat::Vec4F32,
            ],
            VertexFormat::VERTEX_2D_TEXTURE => vec![AttributeFormat::Vec2F32, AttributeFormat::Vec2F32],
            VertexFormat::VERTEX_3D_RGBA => vec![AttributeFormat::Vec3F32, AttributeFormat::Vec4F32],
            VertexFormat::VERTEX_3D_RGBA_TEXTURE => vec![
                AttributeFormat::Vec3F32,
                AttributeFormat::Vec4F32,
                AttributeFormat::Vec2F32,
            ],
            VertexFormat::VERTEX_3D_TEXTURE_ARRAY_NORMAL => vec![
                AttributeFormat::Vec3F32,
                AttributeFormat::Vec2F32,
                AttributeFormat::U32,
                AttributeFormat::Vec3F32,
            ],
        };
        proof {
            assert(formats@ =~= attribute_formats(*self));
        }
        let mut out: Vec<VertexAttribute> = Vec::new();
        let mut offset: u32 = 0;
        let mut i: usize = 0;
        while i < formats.len()
            invariant
                formats@ == attribute_formats(*self),
                formats.len() <= 4,
                0 <= i <= formats.len(),
                out.len() == i,
                offset == packed_size(formats@, i as nat),
                offset <= 16 * i,
                forall|k: int|
                    0 <= k < i ==> (#[trigger] out@[k]).location == k && out@[k].format == formats@[k]
                        && out@[k].offset == packed_size(formats@, k as nat),
            decreases formats.len() - i,
        {
            let f = formats[i];
            out.push(VertexAttribute { location: i as u32, format: f, offset });
            let size: u32 = match f {
                AttributeFormat::Vec2F32 => 8,
                AttributeFormat::Vec3F32 => 12,
                AttributeFormat::Vec4F32 => 16,
                AttributeFormat::U32 => 4,
            };
            offset = offset + size;
            i += 1;
        }
        out
    }
}

/// Every vertex format packs its attributes with no gap and no overlap, and
/// its stride is exactly the bytes they take.
pub proof fn lemma_attributes_fill_stride(v: VertexFormat)
    ensures
        packed_size(attribute_formats(v), attribute_formats(v).len()) == stride_spec(v),
{
    let fs = attribute_formats(v);
    reveal_with_fuel(packed_size, 5);
    match v {
        VertexFormat::VERTEX_2D_RGBA => {},
        VertexFormat::VERTEX_2D_TEXTURE => {},
        VertexFormat::VERTEX_3D_RGBA => {},
        VertexFormat::VERTEX_3D_RGBA_TEXTURE => {},
        VertexFormat::VERTEX_3D_TEXTURE_ARRAY_NORMAL => {},
    }
}

/// Shaders, vertex format and resource counts of a material.
#[derive(Debug)]
pub struct MaterialDef {
    pub vertex_shader: &'static [u8],
    pub fragment_shader: &'static [u8],
    pub vertex_format: VertexFormat,
    pub textures: u32,
    pub uniforms: u32,
}

/// What a graphics pipeline is built from.
#[derive(Debug)]
pub struct PipelineDef {
    pub vertex_format: VertexFormat,
    pub vertex_shader: &'static [u8],
    pub fragment_shader: &'static [u8],
    pub push_constants: bool,
}

/// Materials by id; an id whose slot was handed back is reused first.
#[derive(Debug)]
pub struct Materials<T> {
    materials: Vec<T>,
    free_ids: Vec<usize>,
}

impl<T> Materials<T> {
    pub closed spec fn slots(&self) -> Seq<T> {
        self.materials@
    }

    pub closed spec fn reusable(&self) -> Seq<usize> {
        self.free_ids@
    }

    pub closed spec fn wf(&self) -> bool {
        forall|k: int| 0 <= k < self.free_ids@.len() ==> #[trigger] self.free_ids@[k] < self.materials@.len()
    }

    /// No materials.
    pub fn new() -> (r: Self)
        ensures
            r.wf(),
            r.slots().len() == 0,
            r.reusable().len() == 0,
    {
        Materials { materials: Vec::new(), free_ids: Vec::new() }
    }

    /// Stores `material` in the slot last handed back, or in a new slot, and
    /// returns the slot's id.
    pub fn allocate(&mut self, material: T) -> (r: usize)
        requires
            old(self).wf(),
        ensures
            final(self).wf(),
            old(self).reusable().len() > 0 ==> {
                &&& r == old(self).reusable().last()
                &&& final(self).slots() == old(self).slots().update(r as int, material)
                &&& final(self).reusable() == old(self).reusable().drop_last()
            },
            old(self).reusable().len() == 0 ==> {
                &&& r == old(self).slots().len()
                &&& final(self).slots() == old(self).slots().push(material)
                &&& final(self).reusable() == old(self).reusable()
            },
    {
        match self.free_ids.pop() {
            Some(id) => {
                self.materials.set(id, material);
                id
            },
            None => {
                self.materials.push(material);
                self.materials.len() - 1
            },
        }
    }

    /// The material with id `id`.
    pub fn get(&self, id: usize) -> (r: &T)
        requires
            id < self.slots().len(),
        ensures
            *r == self.slots()[id as int],
    {
        &self.materials[id]
    }

    /// Number of slots.
    pub fn len(&self) -> (r: usize)
        ensures
            r == self.slots().len(),
    {
        self.materials.len()
    }
}

} // verus!
