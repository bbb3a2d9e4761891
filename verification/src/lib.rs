//! Windowed video-upscaling orchestrator.
//!
//! The library contains the logic of a pipeline that upscales a video by
//! chaining three external tools: a frame decoder that emits a continuous
//! stream of PNG images, a batch image upscaler that works on a directory of
//! frames, and a video encoder that consumes a raw image stream. The modules
//! hold the PNG stream demultiplexer, the windowed pipeline state machine,
//! the probe-result interpreter, the command lines handed to the external
//! tools, and the progress helpers. All input and output — spawning the
//! tools, moving bytes over their pipes, the scratch files — is left to the
//! surrounding program, which drives the state machine and obeys its actions.

pub mod cli;
pub mod ffmpeg;
pub mod pipeline;
pub mod png_stream;
pub mod realesrgan;
pub mod util;
