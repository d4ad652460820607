//! GLSL source-to-source transpiler for ShaderToy-style fragment shaders.
//!
//! A shader source passes through four stages: comments are stripped, the
//! macro preprocessor runs, declarations without an initializer get the
//! default value of their type, and the words that the target GLSL version
//! reserves are renamed. Each stage is a function from text to text whose
//! contract names the text that comes out.

pub mod declarations;
pub mod defaults;
pub mod directives;
pub mod error;
pub mod expression;
pub mod glsl_depth_tracker;
pub mod glsl_initializer;
pub mod glsl_preprocessor;
pub mod glsl_utils;
pub mod macros;
pub mod shadertoy;
pub mod struct_parser;
pub mod text;
pub mod word_regex;
