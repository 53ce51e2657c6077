pub mod utf8_len;
pub mod text_input;
pub mod time;
pub mod frames;
pub mod ticks;
pub mod byte_slice;
pub mod buffer_helper;
pub mod vec_buffer;
pub mod vertex_buffer;
pub mod control_flow;
pub mod error;
pub mod option_result_helper;
pub mod wgsl_path;
pub mod wgsl_include;
pub mod path_map;
pub mod utf8_pieces;
pub mod refs;
pub mod wgsl_modules;
pub mod naga_types;
pub mod naga_front;
