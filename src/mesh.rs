use vstd::prelude::*;

verus! {

/// One named attribute of an interleaved vertex buffer: `size` components
/// starting `offset` components into each vertex.
#[derive(Clone, Debug)]
pub struct VertexAttribute {
    name: String,
    size: usize,
    offset: usize,
}

impl VertexAttribute {
    pub closed spec fn spec_name(&self) -> Seq<char> {
        self.name@
    }

    pub closed spec fn spec_size(&self) -> usize {
        self.size
    }

    pub closed spec fn spec_offset(&self) -> usize {
        self.offset
    }

    pub fn new(name: &str, size: usize, offset: usize) -> (a: VertexAttribute)
        ensures
            a.spec_name() == name@,
            a.spec_size() == size,
            a.spec_offset() == offset,
    {
        VertexAttribute { name: name.to_owned(), size, offset }
    }

    pub fn name(&self) -> (r: &str)
        ensures
            r@ == self.spec_name(),
    {
        self.name.as_str()
    }

    pub fn size(&self) -> (r: usize)
        ensures
            r == self.spec_size(),
    {
        self.size
    }

    pub fn offset(&self) -> (r: usize)
        ensures
            r == self.spec_offset(),
    {
        self.offset
    }
}

/// Whether a mesh's buffers are uploaded once or rewritten as it changes.
#[derive(Debug, Clone, Copy, PartialEq, Eq, Structural)]
pub enum MeshMode {
    Static,
    Dynamic,
}

/// How a mesh's triangles are rasterised.
#[derive(Debug, Clone, Copy, PartialEq, Eq, Structural)]
pub enum DrawMode {
    Surface,
    Wireframe,
    Points,
}

} // verus!
