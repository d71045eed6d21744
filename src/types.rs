use vstd::prelude::*;

verus! {

/// A 2D offset in texels or pixels.
#[derive(Clone, Copy, Debug, Default, PartialEq, Eq, Hash)]
pub struct Offset2D {
    pub x: i32,
    pub y: i32,
}

impl Offset2D {
    #[inline]
    pub fn new(x: i32, y: i32) -> (r: Self)
        ensures
            r.x == x && r.y == y,
    {
        Self { x, y }
    }
}

/// A 2D size in texels or pixels.
#[derive(Clone, Copy, Debug, Default, PartialEq, Eq, Hash)]
pub struct Extent2D {
    pub width: u32,
    pub height: u32,
}

impl Extent2D {
    #[inline]
    pub fn new(width: u32, height: u32) -> (r: Self)
        ensures
            r.width == width && r.height == height,
    {
        Self { width, height }
    }
}

/// A 2D rectangle: its corner and its size.
#[derive(Clone, Copy, Debug, Default, PartialEq, Eq, Hash)]
pub struct Rect2D {
    pub offset: Offset2D,
    pub extent: Extent2D,
}

impl Rect2D {
    #[inline]
    pub fn new(x: i32, y: i32, width: u32, height: u32) -> (r: Self)
        ensures
            r.offset.x == x && r.offset.y == y,
            r.extent.width == width && r.extent.height == height,
    {
        Self { offset: Offset2D { x, y }, extent: Extent2D { width, height } }
    }
}

/// A 3D offset in texels.
#[derive(Clone, Copy, Debug, Default, PartialEq, Eq, Hash)]
pub struct Offset3D {
    pub x: i32,
    pub y: i32,
    pub z: i32,
}

impl Offset3D {
    #[inline]
    pub fn new(x: i32, y: i32, z: i32) -> (r: Self)
        ensures
            r.x == x && r.y == y && r.z == z,
    {
        Self { x, y, z }
    }
}

/// A 3D size in texels.
#[derive(Clone, Copy, Debug, Default, PartialEq, Eq, Hash)]
pub struct Extent3D {
    pub width: u32,
    pub height: u32,
    pub depth: u32,
}

impl Extent3D {
    #[inline]
    pub fn new(width: u32, height: u32, depth: u32) -> (r: Self)
        ensures
            r.width == width && r.height == height && r.depth == depth,
    {
        Self { width, height, depth }
    }
}

/// One specialization constant: its id, and where its bytes lie in the data.
#[derive(Clone, Copy, Debug, PartialEq, Eq, Hash)]
pub struct SpecializationMapEntry {
    pub constant_id: u32,
    pub offset: u32,
    pub size: usize,
}

/// The specialization constants of a shader stage and the bytes they are read from.
#[derive(Clone, Debug, PartialEq, Eq, Hash)]
pub struct SpecializationInfo {
    pub map_entries: Vec<SpecializationMapEntry>,
    pub data: Vec<u8>,
}

/// How to create a command buffer: an optional debug name.
#[derive(Clone, Copy, Debug, Default, PartialEq, Eq, Hash)]
pub struct CommandBufferDesc<'a> {
    pub label: Option<&'a str>,
}

/// How to create a fence: an optional debug name, and whether it starts signaled.
#[derive(Clone, Copy, Debug, Default, PartialEq, Eq, Hash)]
pub struct FenceDesc<'a> {
    pub label: Option<&'a str>,
    pub signaled: bool,
}

/// How to create a binary semaphore: an optional debug name.
#[derive(Clone, Copy, Debug, Default, PartialEq, Eq, Hash)]
pub struct BinarySemaphoreDesc<'a> {
    pub label: Option<&'a str>,
}

} // verus!
