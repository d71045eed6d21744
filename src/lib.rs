//! The meshlet codec of a mesh-shading renderer: triangle meshes split into meshlets of at
//! most 64 vertices and 124 triangles, their positions quantized per meshlet and axis, and
//! everything packed least significant bit first into one buffer that the mesh stage of the
//! GPU reads back by bit offset.
//!
//! - `bits`: bit strings and their values, the model of every buffer.
//! - `bit_writer`, `bit_reader`: writing and reading fields of up to 32 bits.
//! - `mesh`, `partition`: deduplicated meshes and their split into meshlets.
//! - `quantize`: index widths and the choice of position widths.
//! - `meshlet`: the wire layout of headers and payloads.
//! - `encoder`, `decoder`: the packed buffer, written and read back.
//! - `round_trip`: what the decoder recovers from what the encoder wrote.

pub mod bit_reader;
pub mod bit_writer;
pub mod bits;
pub mod decoder;
pub mod encoder;
pub mod hash;
pub mod mesh;
pub mod meshlet;
pub mod partition;
pub mod quantize;
pub mod round_trip;
pub mod types;
