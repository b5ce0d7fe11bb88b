//! Streaming markdown core with verified syntax self-healing.
#![allow(unused_imports)]

pub use ast::{Alignment, Ast, Block, Inline, ListItem};
pub use preprocess::PreprocessOptions;
pub use processor::{BlockResult, Document, MarkdownProcessor, Mode, ProcessorOptions};
pub use renderer::{NullRenderer, Renderer};


pub mod text;
pub mod bytes;
pub mod scan;
pub mod pattern;
pub mod fix;
pub mod fix_table;
pub mod fix_math;
pub mod emphasis;
pub mod preprocess;
pub mod blocks;
pub mod ast;
pub mod parse;
pub mod processor;
pub mod renderer;
pub mod tui;
