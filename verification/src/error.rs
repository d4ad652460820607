//! Errors of the shader pipeline.

use vstd::prelude::*;

use crate::text::{decimal, decimal_digits, string_of};

verus! {

/// Why a shader was refused.
#[derive(Debug, PartialEq)]
pub enum ShaderError {
    /// The preprocessor stopped: the message and the 1-based line number.
    PreprocessError(String, usize),
    /// The shader compiler refused the source.
    CompileError(String),
    /// The program did not link.
    LinkError(String),
}

impl ShaderError {
    /// The error as one line of text.
    pub open spec fn message_text(&self) -> Seq<char> {
        match self {
            ShaderError::PreprocessError(text, line) => "Shader preprocess #error at line "@
                + decimal(*line as nat) + ": "@ + text@,
            ShaderError::CompileError(text) => "Shader compile error: "@ + text@,
            ShaderError::LinkError(text) => "Shader link error: "@ + text@,
        }
    }

    /// Writes the error as one line of text.
    pub fn message(&self) -> (r: String)
        ensures
            r@ == self.message_text(),
    {
        match self {
            ShaderError::PreprocessError(text, line) => {
                let mut r = String::from_str("Shader preprocess #error at line ");
                r.append(string_of(decimal_digits(*line).as_slice()).as_str());
                r.append(": ");
                r.append(text.as_str());
                r
            },
            ShaderError::CompileError(text) => {
                let mut r = String::from_str("Shader compile error: ");
                r.append(text.as_str());
                r
            },
            ShaderError::LinkError(text) => {
                let mut r = String::from_str("Shader link error: ");
                r.append(text.as_str());
                r
            },
        }
    }
}

} // verus!
