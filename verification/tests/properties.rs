use std::borrow::Cow;

use shaderbg::error::ShaderError;
use shaderbg::glsl_initializer::initialize_uninitialized_variables;
use shaderbg::glsl_preprocessor::preprocess;
use shaderbg::glsl_utils::{replace_in_preprocessor_conditionals, strip_comments};
use shaderbg::shadertoy::{
    is_supported_channel_type, rename_with_trailing_underscore, to_glsl_version,
    DIFF_RESERVED_WORDS_4_2,
};

fn holds(condition: &str) -> bool {
    let source = format!("#if {}\nyes\n#else\nno\n#endif\n", condition);
    let out = preprocess(&source).unwrap();
    assert!(out == "yes\n" || out == "no\n");
    out == "yes\n"
}

#[test]
fn stripping_twice_equals_stripping_once() {
    let sources = [
        "a // b\nc /* d */ e",
        "/ /**/ /",
        "x /* unterminated",
        "\"text\" // tail",
        "a /*/ b */ c",
        "//\n//\n",
        "",
    ];
    for source in sources {
        let once = strip_comments(source).into_owned();
        let twice = strip_comments(&once).into_owned();
        assert_eq!(twice, once);
    }
}

#[test]
fn stripping_borrows_exactly_without_comment_marks() {
    assert!(matches!(strip_comments("a / b * c"), Cow::Borrowed(_)));
    assert!(matches!(strip_comments("\"//\""), Cow::Owned(_)));
    assert_eq!(strip_comments("\"//\""), "\"//\"");
    assert!(matches!(strip_comments("a // b"), Cow::Owned(_)));
}

#[test]
fn stripping_keeps_the_line_feed_of_a_line_comment() {
    assert_eq!(strip_comments("a//b\nc"), "a \nc");
    assert_eq!(strip_comments("a/*b\nc*/d"), "a d");
    assert_eq!(strip_comments("\"a\\\"//b\"//c"), "\"a\\\"//b\" ");
}

#[test]
fn initialized_source_is_left_alone() {
    let source = "float a = 1.0;\n\n\nvec2 b = vec2(2.0), c = vec2(3.0);\n  \nvoid f(int x) { int y = x; }\n";
    let expected = "float a = 1.0;\nvec2 b = vec2(2.0), c = vec2(3.0);\nvoid f(int x) { int y = x; }";
    assert_eq!(initialize_uninitialized_variables(source).unwrap(), expected);
}

#[test]
fn nested_structs_get_nested_constructors() {
    let source = "struct A { float x; ivec2 y; };\nstruct B { A a; bool ok; A pair[2]; };\nB b;";
    let expected = "struct A { float x; ivec2 y; };\nstruct B { A a; bool ok; A pair[2]; };\nB b = B(A(0.0, ivec2(0)), false, A[2](A(0.0, ivec2(0)), A(0.0, ivec2(0))));";
    assert_eq!(initialize_uninitialized_variables(source).unwrap(), expected);
}

#[test]
fn struct_with_unknown_member_gets_no_initializer() {
    let source = "struct A { float x; sampler2D s; };\nA a;";
    assert_eq!(initialize_uninitialized_variables(source).unwrap(), source);
}

#[test]
fn struct_that_holds_itself_gets_no_initializer() {
    let source = "struct A { A a; };\nA a;";
    assert_eq!(initialize_uninitialized_variables(source).unwrap(), source);
}

#[test]
fn array_dimensions_nest_from_the_last() {
    let source = "vec2[2][3] points;";
    let expected = "vec2[2][3] points = vec2[2][3](vec2[2](vec2(0.0), vec2(0.0)), vec2[2](vec2(0.0), vec2(0.0)), vec2[2](vec2(0.0), vec2(0.0)));";
    assert_eq!(initialize_uninitialized_variables(source).unwrap(), expected);
}

#[test]
fn array_of_size_zero_gets_no_initializer() {
    assert_eq!(initialize_uninitialized_variables("float a[0];").unwrap(), "float a[0];");
    assert_eq!(initialize_uninitialized_variables("float a[2][0];").unwrap(), "float a[2][0];");
    assert_eq!(initialize_uninitialized_variables("float a[];").unwrap(), "float a[];");
    assert_eq!(
        initialize_uninitialized_variables("float a[ 2 ];").unwrap(),
        "float a[ 2 ] = float[2](0.0, 0.0);"
    );
    assert_eq!(
        initialize_uninitialized_variables("uint a[03];").unwrap(),
        "uint a[03] = uint[3](0u, 0u, 0u);"
    );
}

#[test]
fn array_size_beyond_the_machine_word_is_left_out() {
    assert_eq!(
        initialize_uninitialized_variables("int a[99999999999999999999999999][1];").unwrap(),
        "int a[99999999999999999999999999][1] = int[1](0);"
    );
}

#[test]
fn qualified_declarations_are_exempt() {
    let source = "const float PI = 3.14; float a, b;";
    let expected = "const float PI = 3.14; float a = 0.0, b = 0.0;";
    assert_eq!(initialize_uninitialized_variables(source).unwrap(), expected);
}

#[test]
fn default_values_of_all_scalar_and_vector_kinds() {
    let source = "float a; int b; uint c; bool d; vec3 e; mat2x3 f; ivec2 g; uvec4 h; bvec3 i;";
    let expected = "float a = 0.0; int b = 0; uint c = 0u; bool d = false; vec3 e = vec3(0.0); mat2x3 f = mat2x3(0.0); ivec2 g = ivec2(0); uvec4 h = uvec4(0u); bvec3 i = bvec3(false);";
    assert_eq!(initialize_uninitialized_variables(source).unwrap(), expected);
}

#[test]
fn struct_keyword_at_the_end_is_passed_over() {
    assert_eq!(initialize_uninitialized_variables("struct").unwrap(), "struct");
    assert_eq!(initialize_uninitialized_variables("struct  ").unwrap(), "struct  ");
    assert_eq!(initialize_uninitialized_variables("struct A { float x;").unwrap(), "struct A { float x;");
}

#[test]
fn declaration_without_semicolon_is_left_alone() {
    assert_eq!(initialize_uninitialized_variables("float a").unwrap(), "float a");
    assert_eq!(initialize_uninitialized_variables("float a \"s\";").unwrap(), "float a \"s\";");
}

#[test]
fn precedence_follows_the_table() {
    assert!(holds("10 + 5 * 3 == 25"));
    assert!(holds("1 || 0 && 0"));
    assert!(!holds("1 ^^ 0 && 0"));
    assert!(!holds("1 ^^ 1"));
    assert!(holds("(1 | 2 ^ 2 & 3) == 1"));
    assert!(holds("(6 & 3 == 3) == 0"));
    assert!(holds("(1 == 2 < 3) == 1"));
    assert!(holds("(1 < 2 << 1) == 1"));
    assert!(holds("(1 << 2 + 1) == 8"));
    assert!(holds("2 + 3 * 4 == 14"));
    assert!(holds("-2 * -3 == 6"));
    assert!(holds("10 - 4 - 3 == 3"));
    assert!(holds("100 / 10 / 5 == 2"));
}

#[test]
fn arithmetic_wraps_and_division_by_zero_is_zero() {
    assert!(holds("9223372036854775807 + 1 < 0"));
    assert!(holds("-9223372036854775807 - 2 > 0"));
    assert!(holds("4611686018427387904 * 2 < 0"));
    assert!(holds("(-9223372036854775807 - 1) / -1 < 0"));
    assert!(holds("(-9223372036854775807 - 1) % -1 == 0"));
    assert!(holds("-(-9223372036854775807 - 1) < 0"));
    assert!(holds("-7 / 2 == -3"));
    assert!(holds("7 / -2 == -3"));
    assert!(holds("-7 % 2 == -1"));
    assert!(holds("7 % -2 == 1"));
    assert!(holds("5 / 0 == 0"));
    assert!(holds("5 % 0 == 0"));
    assert!(holds("(1 << 65) == 2"));
    assert!(holds("(-8 >> 1) == -4"));
    assert!(holds("(1 << 4294967297) == 2"));
    assert!(holds("~5 == -6"));
}

#[test]
fn number_literals_in_three_bases() {
    assert!(holds("0x7fffffffffffffff == 9223372036854775807"));
    assert!(!holds("0x8000000000000000"));
    assert!(!holds("9223372036854775808"));
    assert!(!holds("0x"));
    assert!(holds("010 == 8"));
    assert!(holds("0 == 00"));
    assert!(holds("08 == 8"));
    assert!(!holds("1.5"));
    assert!(!holds("1 = 1"));
    assert!(holds("1 2 == 12"));
    assert!(!holds("1 (2)"));
    assert!(holds("(1"));
    assert!(!holds("("));
    assert!(holds("(1)"));
    assert!(!holds("1)"));
}

#[test]
fn defined_reads_the_macro_table() {
    let source = "#define A\n#if defined(A) && defined ( A ) && defined A && !defined(B) && !defined B\nyes\n#endif\n";
    assert_eq!(preprocess(source).unwrap(), "yes\n");
    let source = "#define A 0\n#if defined(A)\nyes\n#endif\n#undef A\n#if defined(A)\nno\n#endif\n";
    assert_eq!(preprocess(source).unwrap(), "yes\n");
}

#[test]
fn error_reports_its_line() {
    let source = "a\nb // c\nd \\\ne\n/* f */\n#define X\n\n#error \"msg\"\n";
    assert_eq!(
        preprocess(source),
        Err(ShaderError::PreprocessError("msg".to_string(), 7))
    );
}

#[test]
fn error_message_forms() {
    let cases = [
        ("#error \"a b\"", "a b"),
        ("#error 'a b'", "a b"),
        ("#error \"a b'", "\"a b'"),
        ("#error \"", "\""),
        ("#error \"\"", ""),
        ("#error", "Error directive encountered"),
        ("  #   error   text  ", "text"),
    ];
    for (source, message) in cases {
        assert_eq!(
            preprocess(source),
            Err(ShaderError::PreprocessError(message.to_string(), 1))
        );
    }
}

#[test]
fn unknown_directive_fails_in_a_skipped_branch_too() {
    let source = "#if 0\n#frobnicate\n#endif\n";
    assert_eq!(
        preprocess(source),
        Err(ShaderError::PreprocessError("Unknown directive (frobnicate)".to_string(), 2))
    );
    let source = "#if 0\n#error no\n#define A 1\n#endif\nA\n";
    assert_eq!(preprocess(source).unwrap(), "A\n");
}

#[test]
fn macros_expand_to_a_fixed_point() {
    let source = "#define FOO .4\n#define BAR (FOO * 4.)\nBAR";
    assert_eq!(preprocess(source).unwrap(), "(.4 * 4.)\n");
}

#[test]
fn macro_names_match_whole_words_only() {
    let source = "#define A 1\nA AA A_ _A A1 (A) A";
    assert_eq!(preprocess(source).unwrap(), "1 AA A_ _A A1 (1) 1\n");
}

#[test]
fn function_like_macro_needs_its_arguments() {
    let source = "#define F(a,b) [b a]\nF F(1) F(1,2) F (3, (4,5)) F(1,2,3)\n#define G() g\nG G() G( ) G(x)";
    assert_eq!(
        preprocess(source).unwrap(),
        "F F(1) [2 1] [(4,5) 3] F(1,2,3)\nG g g G(x)\n"
    );
}

#[test]
fn longer_parameters_are_replaced_first() {
    let source = "#define F(X,XY) X+XY\nF(1,2)";
    assert_eq!(preprocess(source).unwrap(), "1+2\n");
    let source = "#define F(a,b) a b a\nF(b,a)";
    assert_eq!(preprocess(source).unwrap(), "b a b\n");
}

#[test]
fn macro_that_names_itself_stops() {
    let source = "#define A A\nA";
    assert_eq!(preprocess(source).unwrap(), "A\n");
}

#[test]
fn redefinition_replaces_and_undef_removes() {
    let source = "#define A 1\nA\n#define A 2\nA\n#undef A\nA\n#define A(x) x\nA(3)";
    assert_eq!(preprocess(source).unwrap(), "1\n2\nA\n3\n");
}

#[test]
fn line_endings_are_normalized() {
    assert_eq!(preprocess("a\r\nb\rc\n\rd").unwrap(), "a\nb\nc\nd\n");
    assert_eq!(preprocess("a\\\nb\nc\\\r\nd").unwrap(), "ab\ncd\n");
}

#[test]
fn branches_cover_else_and_elif() {
    let source = "#if 0\na\n#elif 0\nb\n#elif 1\nc\n#elif 1\nd\n#else\ne\n#endif\nf";
    assert_eq!(preprocess(source).unwrap(), "c\nf\n");
    let source = "#ifdef X\na\n#else\nb\n#ifndef X\nc\n#else\nd\n#endif\n#endif";
    assert_eq!(preprocess(source).unwrap(), "b\nc\n");
    let source = "#if 0\n#if 1\na\n#else\nb\n#endif\n#else\nc\n#endif";
    assert_eq!(preprocess(source).unwrap(), "c\n");
}

#[test]
fn conditionals_only_are_rewritten() {
    let code = "GL_ES\n#if GL_ES && defined(GL_ES)\n  #elif\tGL_ES_2 + GL_ES\n#ifdef GL_ES\n# if GL_ES\n#if\nGL_ES";
    let expected = "GL_ES\n#if X && defined(X)\n  #elif\tGL_ES_2 + X\n#ifdef GL_ES\n# if GL_ES\n#if\nX";
    assert_eq!(replace_in_preprocessor_conditionals(code, "GL_ES", "X"), expected);
    assert_eq!(replace_in_preprocessor_conditionals("", "GL_ES", "X"), "");
    assert_eq!(replace_in_preprocessor_conditionals("#if a\n", "a", "b"), "#if b\n");
}

#[test]
fn version_and_flavor_reach_the_conditions() {
    let source = "#if __VERSION__ >= 400 && !defined(GL_ES)\nfloat a;\n#else\nfloat b;\n#endif";
    assert_eq!(to_glsl_version(source, (4, 2), false).unwrap(), "float a = 0.0;");
    assert_eq!(to_glsl_version(source, (3, 0), true).unwrap(), "float b = 0.0;");
    let source = "#if __VERSION__ == 300\nint packed;\n#endif";
    assert_eq!(to_glsl_version(source, (3, 0), true).unwrap(), "int packed_ = 0;");
    assert_eq!(to_glsl_version(source, (3, 0), false).unwrap(), "int packed = 0;");
    let source = "#if __VERSION__ == -1-20\nint x;\n#endif";
    assert_eq!(to_glsl_version(source, (-1, -2), false).unwrap(), "int x = 0;");
}

#[test]
fn reserved_words_are_renamed_as_whole_words() {
    for word in DIFF_RESERVED_WORDS_4_2 {
        assert_eq!(to_glsl_version(word, (4, 2), false).unwrap(), format!("{}_", word));
        assert_eq!(to_glsl_version(word, (4, 1), false).unwrap(), word);
        assert_eq!(to_glsl_version(word, (4, 2), true).unwrap(), word);
    }
    assert_eq!(
        to_glsl_version("precise_variable precise xprecise", (4, 2), false).unwrap(),
        "precise_variable precise_ xprecise"
    );
    assert_eq!(DIFF_RESERVED_WORDS_4_2.len(), 63);
}

#[test]
fn renaming_escapes_the_word() {
    assert_eq!(rename_with_trailing_underscore("x a+b aab y", "a+b"), "x a+b_ aab y");
    assert_eq!(rename_with_trailing_underscore("f(x) fx", "f(x"), "f(x_) fx");
    assert_eq!(rename_with_trailing_underscore("a a_ a", "a"), "a_ a_ a_");
}

#[test]
fn preprocess_error_passes_through_the_pipeline() {
    let expected = Err(ShaderError::PreprocessError("stop".to_string(), 2));
    assert_eq!(initialize_uninitialized_variables("float a;\n#error stop"), expected);
    assert_eq!(to_glsl_version("float a;\n#error stop", (4, 2), false), expected);
}

#[test]
fn errors_have_a_message() {
    assert_eq!(
        ShaderError::PreprocessError("bad".to_string(), 120).message(),
        "Shader preprocess #error at line 120: bad"
    );
    assert_eq!(
        ShaderError::CompileError("x".to_string()).message(),
        "Shader compile error: x"
    );
    assert_eq!(ShaderError::LinkError("y".to_string()).message(), "Shader link error: y");
}

#[test]
fn channel_types_without_support() {
    for ctype in ["video", "music", "musicstream", "keyboard", "webcam", "mic"] {
        assert!(!is_supported_channel_type(ctype));
    }
    for ctype in ["texture", "cubemap", "buffer", "volume", "", "Video"] {
        assert!(is_supported_channel_type(ctype));
    }
}

#[test]
fn text_beyond_ascii_is_kept() {
    let source = "#define É(x) «x»\nfloat ü; // ä\nÉ(1) É\u{a0}";
    assert_eq!(preprocess(source).unwrap(), "float ü;  \nÉ(1) É\u{a0}\n");
    assert_eq!(
        initialize_uninitialized_variables("float ü, \u{2003}a\u{a0};").unwrap(),
        "float ü = 0.0, a = 0.0;"
    );
}

#[test]
fn many_invocations_expand_in_order() {
    let mut source = String::from("#define SQ(x) ((x)*(x))\n#define PI 3.14\n");
    let mut expected = String::new();
    for n in 0..400 {
        source.push_str(&format!("float v{} = SQ({}.0) + PI;\n", n, n));
        expected.push_str(&format!("float v{} = (({}.0)*({}.0)) + 3.14;\n", n, n, n));
    }
    assert_eq!(preprocess(&source).unwrap(), expected);
}

#[test]
fn unterminated_constructs_run_to_the_end() {
    assert_eq!(strip_comments("a \"b // c"), "a \"b // c");
    assert_eq!(strip_comments("a \"b\\"), "a \"b\\");
    assert_eq!(strip_comments("a // b"), "a  ");
    assert_eq!(strip_comments("a /* b *"), "a  ");
    assert_eq!(
        initialize_uninitialized_variables("float a; \"float b;").unwrap(),
        "float a = 0.0; \"float b;"
    );
    assert_eq!(
        initialize_uninitialized_variables("const float a").unwrap(),
        "const float a"
    );
    assert_eq!(preprocess("#define F(a) [a]\nF(1").unwrap(), "F(1\n");
}

#[test]
fn for_header_declarations_are_initialized() {
    assert_eq!(
        initialize_uninitialized_variables("void f() { for (int i; i < 3; i++) { g(int(i)); } }").unwrap(),
        "void f() { for (int i = 0; i < 3; i++) { g(int(i)); } }"
    );
    assert_eq!(
        initialize_uninitialized_variables("void f(float a, vec2 b) { h(a, b); }").unwrap(),
        "void f(float a, vec2 b) { h(a, b); }"
    );
}
