//! Verified core of a content-filtering reader and renderer: the text
//! pipeline (sources, filters, chunk bookkeeping), frame blackout and mask
//! dilation, model input and output layout, the renderer's and browser's
//! decisions, the frame protocol, and the packaging rules.

pub mod types;
pub mod text;
pub mod buffer;
pub mod filter;
pub mod source;
pub mod pipeline;
pub mod mask;
pub mod detection;
pub mod model;
pub mod tokenizer;
pub mod parser;
pub mod network;
pub mod render;
pub mod browser;
pub mod content_buffer;
pub mod fetcher;
pub mod ml_processor;
pub mod logging;
pub mod debug_config;
pub mod packaging;
pub mod shared_state;
