//! Client side of an RDP graphics session, verified with Verus.

pub mod acceptance_laws;
pub mod bitmap;
pub mod bitmap_cache;
pub mod bitmap_caching;
pub mod bitmap_laws;
pub mod bitmap_updates;
pub mod call_laws;
pub mod color_conversion;
pub mod complete_data;
pub mod cursor;
pub mod drawing_orders;
pub mod drawing_laws;
pub mod drive;
pub mod drive_backend;
pub mod drive_laws;
pub mod drive_paths;
pub mod error;
pub mod fast_path;
pub mod fast_path_pdu;
pub mod fast_path_update;
pub mod frame_marker;
pub mod geometry;
pub mod image;
pub mod image_laws;
pub mod line;
pub mod operation_laws;
pub mod order_decoding;
pub mod order_encoding;
pub mod order_fields;
pub mod order_laws;
pub mod order_processing;
pub mod order_rendering;
pub mod order_sequence;
pub mod order_wire;
pub mod palette;
pub mod pixel_format;
pub mod pixel_laws;
pub mod pointer;
pub mod pointer_laws;
pub mod pointer_updates;
pub mod primary_encoding;
pub mod processor_laws;
pub mod raster;
pub mod server_graphics_update;
pub mod session_laws;
pub mod surface_commands;
pub mod surface_laws;
pub mod update_wire;
pub mod wire;
pub mod x224;

pub mod zstd_stream;
