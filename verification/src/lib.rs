pub mod controller;
pub mod frame_buffers;
pub mod images;
pub mod inference;
pub mod model_frames;
pub mod policy;
pub mod recent_frames;
pub mod report;
pub mod status;
pub mod tensors;
pub mod text;
