//! Adapting ShaderToy sources to a GLSL version.

use vstd::prelude::*;

use crate::error::ShaderError;
use crate::glsl_initializer::{initialize_uninitialized_variables, initialized};
use crate::glsl_preprocessor::Failure;
use crate::glsl_utils::{conditionals_replaced, replace_in_preprocessor_conditionals};
use crate::text::{decimal, decimal_digits, string_of};
use crate::word_regex::{replace_word, word_replaced};

verus! {

/// Words that desktop GLSL 4.20 reserves and GLSL ES does not.
pub const DIFF_RESERVED_WORDS_4_2: [&'static str; 63] = [
    "double",
    "dvec2", "dvec3", "dvec4",
    "dmat2", "dmat3", "dmat4",
    "dmat2x2", "dmat2x3", "dmat2x4",
    "dmat3x2", "dmat3x3", "dmat3x4",
    "dmat4x2", "dmat4x3", "dmat4x4",

    "imageCubeArray", "iimageCubeArray", "uimageCubeArray",
    "image2DMS", "iimage2DMS", "uimage2DMS",
    "image2DMSArray", "iimage2DMSArray", "uimage2DMSArray",

    "uaddCarry", "usubBorrow", "umulExtended", "imulExtended",
    "bitfieldExtract", "bitfieldInsert", "bitfieldReverse",
    "bitCount", "findLSB", "findMSB",

    "textureQueryLod", "textureGather", "textureGatheOffset", "textureGatherOffsets",

    "atomicCounterIncrement", "atomicCounterDecrement", "atomicCounter",

    "imageLoad", "imageStore",
    "imageAtomicAdd", "imageAtomicMin", "imageAtomicMax",
    "imageAtomicAnd", "imageAtomicOr", "imageAtomicXor",
    "imageAtomicExchange", "imageAtomicCompSwap", "imageAtomicCompSwap",

    "interpolateAtCentroid", "interpolateAtSample", "interpolateAtOffset",

    "noise1", "noise2", "noise3", "noise4",

    "memoryBarrier",

    "packed", "precise",
];

/// Words that GLSL ES 3.00 reserves and ShaderToy sources may use.
pub const DIFF_RESERVED_WORDS_3_0_ES_REV_2: [&'static str; 1] = ["packed"];

/// `n` written in decimal, with `-` before a negative number.
pub open spec fn signed_decimal(n: int) -> Seq<char> {
    if n < 0 {
        seq!['-'] + decimal((-n) as nat)
    } else {
        decimal(n as nat)
    }
}

/// The number that stands for `__VERSION__`: major, minor, and a zero.
pub open spec fn version_number(major: i32, minor: i32) -> Seq<char> {
    signed_decimal(major as int) + signed_decimal(minor as int) + seq!['0']
}

/// `text` after each of `words`, from position `i` on and in order, got a
/// trailing underscore wherever it stands as a whole word.
pub open spec fn renamed_from(text: Seq<char>, words: Seq<&'static str>, i: int) -> Seq<char>
    decreases words.len() - i,
{
    if 0 <= i < words.len() {
        renamed_from(word_replaced(text, words[i]@, words[i]@ + seq!['_']), words, i + 1)
    } else {
        text
    }
}

/// `text` with the reserved words of the target renamed: those of GLSL ES
/// 3.00 for that target, those of desktop GLSL 4.20 for that one, and none
/// for any other.
pub open spec fn reserved_renamed(text: Seq<char>, major: i32, minor: i32, glsl_es: bool) -> Seq<
    char,
> {
    if major == 3 && minor == 0 && glsl_es {
        renamed_from(text, DIFF_RESERVED_WORDS_3_0_ES_REV_2@, 0)
    } else if major == 4 && minor == 2 && !glsl_es {
        renamed_from(text, DIFF_RESERVED_WORDS_4_2@, 0)
    } else {
        text
    }
}

/// `source` adapted to a GLSL version: in the conditions of `#if` and
/// `#elif`, `GL_ES` becomes `SHADERBG` and `__VERSION__` the version number;
/// then the source is preprocessed and its declarations are initialized;
/// then the target's reserved words are renamed.
pub open spec fn adapted(source: Seq<char>, major: i32, minor: i32, glsl_es: bool) -> Result<
    Seq<char>,
    Failure,
> {
    match initialized(
        conditionals_replaced(
            conditionals_replaced(source, "GL_ES"@, "SHADERBG"@),
            "__VERSION__"@,
            version_number(major, minor),
        ),
    ) {
        Ok(text) => Ok(reserved_renamed(text, major, minor, glsl_es)),
        Err(f) => Err(f),
    }
}

/// Writes `n` in decimal.
pub fn write_signed(n: i32) -> (r: Vec<char>)
    ensures
        r@ == signed_decimal(n as int),
{
    if n < 0 {
        let magnitude: i64 = -(n as i64);
        let mut r: Vec<char> = Vec::new();
        r.push('-');
        crate::text::append_chars(&mut r, decimal_digits(magnitude as usize).as_slice());
        r
    } else {
        decimal_digits(n as usize)
    }
}

/// Gives a trailing underscore to every whole-word occurrence of `word`.
pub fn rename_with_trailing_underscore(text: &str, word: &str) -> (r: String)
    ensures
        r@ == word_replaced(text@, word@, word@ + seq!['_']),
{
    let mut replacement = String::from_str(word);
    replacement.append("_");
    proof {
        reveal_strlit("_");
        assert("_"@ =~= seq!['_']);
    }
    replace_word(text, word, replacement.as_str())
}

/// Renames each of `words` in `text`.
fn rename_all(text: String, words: &[&'static str]) -> (r: String)
    ensures
        r@ == renamed_from(text@, words@, 0),
{
    let mut current = text;
    let mut i: usize = 0;
    while i < words.len()
        invariant
            i <= words.len(),
            renamed_from(current@, words@, i as int) == renamed_from(text@, words@, 0),
        decreases words.len() - i,
    {
        current = rename_with_trailing_underscore(current.as_str(), words[i]);
        i += 1;
    }
    current
}

/// Turns a ShaderToy source into GLSL of the given version: `version` is
/// the pair of major and minor number, `glsl_es` tells GLSL ES from desktop
/// GLSL.
pub fn to_glsl_version(source: &str, version: (i32, i32), glsl_es: bool) -> (r: Result<
    String,
    ShaderError,
>)
    ensures
        match adapted(source@, version.0, version.1, glsl_es) {
            Ok(text) => r matches Ok(s) && s@ == text,
            Err(f) => r matches Err(ShaderError::PreprocessError(m, l)) && m@ == f.message && l
                == f.line,
        },
{
    let mut number = write_signed(version.0);
    crate::text::append_chars(&mut number, write_signed(version.1).as_slice());
    number.push('0');
    assert(number@ =~= version_number(version.0, version.1));
    let glsl_version = string_of(number.as_slice());
    let first = replace_in_preprocessor_conditionals(source, "GL_ES", "SHADERBG");
    let second = replace_in_preprocessor_conditionals(
        first.as_str(),
        "__VERSION__",
        glsl_version.as_str(),
    );
    match initialize_uninitialized_variables(second.as_str()) {
        Err(e) => Err(e),
        Ok(text) => {
            if version.0 == 3 && version.1 == 0 && glsl_es {
                let words = DIFF_RESERVED_WORDS_3_0_ES_REV_2.as_slice();
                assert(words@ =~= DIFF_RESERVED_WORDS_3_0_ES_REV_2@);
                Ok(rename_all(text, words))
            } else if version.0 == 4 && version.1 == 2 && !glsl_es {
                let words = DIFF_RESERVED_WORDS_4_2.as_slice();
                assert(words@ =~= DIFF_RESERVED_WORDS_4_2@);
                Ok(rename_all(text, words))
            } else {
                Ok(text)
            }
        },
    }
}

/// Whether inputs of the channel type `ctype` can be used: all but video,
/// sound, keyboard and camera inputs.
pub fn is_supported_channel_type(ctype: &str) -> (r: bool)
    ensures
        r == !(ctype@ == "video"@ || ctype@ == "music"@ || ctype@ == "musicstream"@ || ctype@
            == "keyboard"@ || ctype@ == "webcam"@ || ctype@ == "mic"@),
{
    let c = crate::text::chars_of(ctype);
    let s = c.as_slice();
    !(crate::text::equals_str(s, "video") || crate::text::equals_str(s, "music")
        || crate::text::equals_str(s, "musicstream") || crate::text::equals_str(s, "keyboard")
        || crate::text::equals_str(s, "webcam") || crate::text::equals_str(s, "mic"))
}

} // verus!
