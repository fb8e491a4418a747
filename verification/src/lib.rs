//! A codec for the BNTX texture container: decoding a pointer-based file into
//! a structured container, encoding a container back into bytes, and
//! converting between containers and untiled surfaces.
pub mod codec;
pub mod container;
pub mod dds;
pub mod decode;
pub mod encode;
pub mod format;
pub mod interchange;
pub mod layout;
pub mod roundtrip;
pub mod surface;
pub mod tiling;

pub use container::{
    Bntx, BntxStr, Brtd, Brti, BrtiOffset, DictNode, DictSection, Header, Mipmaps, NxHeader,
    RelocationEntry, RelocationSection, RelocationTable, StrSection,
};
pub use format::{BlockDim, ByteOrder, SurfaceFormat, TextureDimension, TextureViewDimension};
