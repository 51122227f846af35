use bench_migrate::block::{BlockParser, BlockWriter};
use bench_migrate::lexer::{Lexer, LineKind};

#[test]
fn test_dispatch_should_call_benchmarks() {
    let lexer = Lexer::new("".to_string());
    let input = "benchmarks!";
    let line = BlockParser::dispatch(input, &lexer).unwrap();
    assert_eq!(line.head, Some("benchmarks".to_string()));
}

#[test]
fn test_dispatch_should_call_function() {
    let lexer = Lexer::new("propose_proposed { }".to_string());
    let input = "propose_proposed {";
    let line = BlockParser::dispatch(input, &lexer).unwrap();
    assert_eq!(line.head, Some("propose_proposed".to_string()));
}

#[test]
fn test_benchmarks_instance_pallet() {
    let input = "benchmarks_instance_pallet!";
    let (_, parsed) = BlockParser::benchmark(input).unwrap();
    assert_eq!(parsed, "benchmarks_instance_pallet");
}

#[test]
fn test_benchmarks_with_whitespace() {
    let input = "    benchmarks!"; // Input with leading whitespace
    let (_, parsed) = BlockParser::benchmark(input).unwrap();
    assert_eq!(parsed, "benchmarks");
}

#[test]
fn test_parse_valid_function_call() {
    let input = "propose_proposed {";
    let (_, parsed) = BlockParser::function(input).unwrap();
    assert_eq!(parsed, "propose_proposed");
}

#[test]
fn test_parse_verify_function_call() {
    let input = "verify {";
    let (_, parsed) = BlockParser::function(input).unwrap();
    assert_eq!(parsed, "verify");
}

#[test]
fn test_parse_function_call_with_whitespace() {
    let input = "   propose_proposed {"; // Leading whitespace
    let (_, parsed) = BlockParser::function(input).unwrap();
    assert_eq!(parsed, "propose_proposed");
}

#[test]
fn test_parse_function_call_with_new_name() {
    let input = "propose_proposed_with_new_name {";
    let (_, parsed) = BlockParser::function(input).unwrap();
    assert_eq!(parsed, "propose_proposed_with_new_name");
}

#[test]
fn test_mod_item_generation() {
    let input = "benchmarks!";
    let expected = "#[benchmarks]\nmod benchmarks {\n\n}";
    let actual = BlockWriter::dispatch_mod(input);
    assert_eq!(actual, expected);
}

#[test]
fn test_fn_item_generation() {
    let input = "propose_proposed {";
    let (_, parsed) = BlockParser::function(input).unwrap();
    let expected = "#[benchmark]\nfn propose_proposed() -> Result<(), BenchmarkError> {\n\n}";
    let actual = BlockWriter::fn_item(&parsed);
    assert_eq!(actual, expected);
}

#[test]
fn dispatch_mod_picks_instance_variant() {
    let actual = BlockWriter::dispatch_mod("benchmarks_instance_pallet! {");
    assert_eq!(actual, "#[instance_benchmarks]\nmod benchmarks {\n\n}");
    assert_eq!(
        BlockWriter::dispatch_mod("something else"),
        "Error: Invalid benchmark module type"
    );
}

#[test]
fn verify_line_is_classified_as_verify() {
    let src = "verify {\n    ensure!(true, \"x\");\n}";
    let lexer = Lexer::new(src.to_string());
    let line = BlockParser::dispatch("verify {", &lexer).unwrap();
    assert_eq!(line.kind, LineKind::Verify);
    assert_eq!(line.fn_body, Some("\n    ensure!(true, \"x\");\n".to_string()));
}

#[test]
fn function_body_capture_tracks_nesting_depth() {
    let src = "outer {\n    if x { inner(); }\n    tail();\n}";
    let (_, body) = BlockParser::fn_body("outer", src).unwrap();
    assert_eq!(body, "\n    if x { inner(); }\n    tail();\n");
}

#[test]
fn function_body_missing_close_is_an_error() {
    let lexer = Lexer::new("abc {".to_string());
    assert!(BlockParser::dispatch("abc {", &lexer).is_err());
}

#[test]
fn ensure_line_captures_assertion_content() {
    let lexer = Lexer::new("".to_string());
    let line = BlockParser::dispatch("  ensure!(a == b, \"msg\");", &lexer).unwrap();
    assert_eq!(line.kind, LineKind::Ensure);
    assert_eq!(line.content, Some("a == b, \"msg\"".to_string()));
}

#[test]
fn loop_lines_are_passthrough_content() {
    let lexer = Lexer::new("".to_string());
    let line = BlockParser::dispatch("for i in 0..n {", &lexer).unwrap();
    assert_eq!(line.kind, LineKind::Content);
    let line = BlockParser::dispatch("T::Currency::make_free_balance_be(&caller);", &lexer).unwrap();
    assert_eq!(line.kind, LineKind::Content);
    let line = BlockParser::dispatch("}", &lexer).unwrap();
    assert_eq!(line.kind, LineKind::Content);
}

#[test]
fn extrinsic_rewrites_shorthand_call() {
    let input = "foo: _<T::RuntimeOrigin>(origin, account)";
    let expected = "#[extrinsic_call]\n_<T::RuntimeOrigin>(origin, account)";
    assert_eq!(BlockWriter::extrinsic(input), expected);
}

#[test]
fn extrinsic_drops_trailing_brace_noise() {
    let input = "}: _<T::RuntimeOrigin>(origin, account)";
    let expected = "#[extrinsic_call]\n_<T::RuntimeOrigin>(origin, account)";
    assert_eq!(BlockWriter::extrinsic(input), expected);
}

#[test]
fn extrinsic_on_other_text_strips_braces_only() {
    assert_eq!(BlockWriter::extrinsic("a } b }"), "ab");
    assert_eq!(BlockWriter::extrinsic("plain text"), "plain text");
}

#[test]
fn clean_code_block_validates_statements() {
    let cleaned = BlockWriter::clean_code_block("  foo();\n  let x = bar(x) ").unwrap();
    assert_eq!(cleaned, "foo(); let x = bar(x);");

    let err = BlockWriter::clean_code_block("((((").unwrap_err();
    assert_eq!(err, "{ ((((; }");
}

#[test]
fn clean_code_block_strips_arrow_prefix_and_param_fragments() {
    let raw = "\n  let r in 1 .. T::Max::get() - 1 => add_registrars::<T>(r)?;\n  let b in 1 .. MAX_BYTES;\n  frob();\n";
    let cleaned = BlockWriter::clean_code_block(raw).unwrap();
    assert_eq!(cleaned, "add_registrars::<T>(r)?; frob();");
}

#[test]
fn function_declaration_shape_is_recognized() {
    assert!(BlockParser::is_function_declaration("propose_proposed {"));
    assert!(BlockParser::is_function_declaration("  verify { "));
    assert!(!BlockParser::is_function_declaration("for i in 0..n {"));
    assert!(!BlockParser::is_function_declaration("foo();"));
    assert!(!BlockParser::is_function_declaration("   "));
}

#[test]
fn module_shells_render_fixed_text() {
    assert_eq!(BlockWriter::mod_item(), "#[benchmarks]\nmod benchmarks {\n\n}");
    assert_eq!(
        BlockWriter::mod_instance_item(),
        "#[instance_benchmarks]\nmod benchmarks {\n\n}"
    );
}
