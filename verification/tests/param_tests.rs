use bench_migrate::errors::ParamError;
use bench_migrate::param::{
    BenchmarkParameter, ParamParser, ParamWriter, RangeEndKind, RangeTerminator,
};

#[test]
fn test_parse_param_declaration_with_expression() {
    let input = "let r in 1 .. T::MaxRegistrars::get() =>";
    match ParamParser::let_declaration(input) {
        Ok((_str, param)) => {
            assert_eq!(param.name, "r");
            assert_eq!(param.range_start, 1);
            assert_eq!(param.range_end, "T::MaxRegistrars::get()");
        }
        Err(e) => panic!("Parsing failed when it should have succeeded: {:?}", e),
    }
}

#[test]
fn test_parse_param_declaration_with_constant() {
    let input = "let b in 1 .. MAX_BYTES;";
    match ParamParser::let_declaration(input) {
        Ok((_str, param)) => {
            assert_eq!(param.name, "b");
            assert_eq!(param.range_start, 1);
            assert_eq!(param.range_end, "MAX_BYTES");
        }
        Err(e) => panic!("Parsing failed when it should have succeeded: {:?}", e),
    }
}

#[test]
fn test_invalid_param_declaration_no_range() {
    let input = "let foo =";
    let result = ParamParser::let_declaration(input);
    assert!(result.is_err(), "The input should not be parsed successfully.");
    assert!(matches!(result, Err(ParamError::MissingIn)));
}

#[test]
fn param_parser_test_parse_let() {
    let input = "let";
    let (_, result) = ParamParser::item_let(input).unwrap();
    assert_eq!(result, "let");
}

#[test]
fn param_parser_test_parse_in() {
    let input = "in";
    let (_, result) = ParamParser::item_in(input).unwrap();
    assert_eq!(result, "in");
}

#[test]
fn param_parser_test_parse_range_start() {
    let input = "42";
    let (_, result) = ParamParser::range_start(input).unwrap();
    assert_eq!(result, 42);
}

#[test]
fn parser_test_parse_range_start() {
    let input = " 42";
    let (_, result) = ParamParser::range_start(input).unwrap();
    assert_eq!(result, 42);
}

#[test]
fn test_range_end_with_constant() {
    let input = ".. MAX_BYTES;";
    let (remaining, result) = ParamParser::range_end(input).unwrap();
    assert_eq!(result, RangeEndKind::Constant("MAX_BYTES".to_string()));
    assert_eq!(remaining, "");
}

#[test]
fn test_range_end_with_expression_semicolon() {
    let input = ".. T::MaxRegistrars::get() - 1;";
    let (remaining, result) = ParamParser::range_end(input).unwrap();
    assert_eq!(
        result,
        RangeEndKind::Expression("T::MaxRegistrars::get() - 1".to_string())
    );
    assert_eq!(remaining, "");
}

#[test]
fn test_range_end_with_expression_arrow() {
    let input = ".. T::MaxRegistrars::get() =>";
    let (remaining, result) = ParamParser::range_end(input).unwrap();
    assert_eq!(
        result,
        RangeEndKind::Expression("T::MaxRegistrars::get()".to_string())
    );
    assert_eq!(remaining, "");
}

#[test]
fn test_ignore_after_arrow() {
    let input = " => some irrelevant stuff";
    let (remaining, captured) = ParamParser::ignore_after_arrow(input).unwrap();
    assert_eq!(remaining, "some irrelevant stuff");
    assert_eq!(captured, " ");
}

#[test]
fn till_arrow_splits_at_first_arrow() {
    let (rest, before) = ParamParser::till_arrow("a .. b => tail").unwrap();
    assert_eq!(before, "a .. b ");
    assert_eq!(rest, " tail");
    assert!(ParamParser::till_arrow("no arrow here").is_err());
}

#[test]
fn statement_terminator_is_recorded() {
    let (rest, param) = ParamParser::let_declaration("let b in 1 .. MAX_BYTES; tail").unwrap();
    assert_eq!(param.terminator, RangeTerminator::Statement);
    assert_eq!(rest, " tail");
}

#[test]
fn arrow_terminator_is_recorded_and_rest_untouched() {
    let (rest, param) =
        ParamParser::let_declaration("let r in 1 .. T::Max::get() => add::<T>(r)?;").unwrap();
    // a statement terminator anywhere wins over the arrow
    assert_eq!(param.terminator, RangeTerminator::Statement);
    assert_eq!(param.range_end, "T::Max::get() => add::<T>(r)?");
    assert_eq!(rest, "");

    let (rest, param) = ParamParser::let_declaration("let r in 1 .. T::Max::get() => tail").unwrap();
    assert_eq!(param.terminator, RangeTerminator::Arrow);
    assert_eq!(param.range_end, "T::Max::get()");
    assert_eq!(rest, " tail");
}

#[test]
fn lower_bound_bounds_checked() {
    let (_, param) = ParamParser::let_declaration("let r in 255 .. MAX;").unwrap();
    assert_eq!(param.range_start, 255);
    assert!(matches!(
        ParamParser::let_declaration("let r in 256 .. MAX;"),
        Err(ParamError::BadRangeStart)
    ));
    assert!(matches!(
        ParamParser::let_declaration("let r in x .. MAX;"),
        Err(ParamError::BadRangeStart)
    ));
}

#[test]
fn each_param_error_has_an_input() {
    assert!(matches!(
        ParamParser::let_declaration("foo"),
        Err(ParamError::MissingLet)
    ));
    assert!(matches!(
        ParamParser::let_declaration("let  in 1 .. MAX;"),
        Err(ParamError::MissingName)
    ));
    assert!(matches!(
        ParamParser::let_declaration("let r of 1 .. MAX;"),
        Err(ParamError::MissingIn)
    ));
    assert!(matches!(
        ParamParser::let_declaration("let r in 1 MAX;"),
        Err(ParamError::MissingRangeOp)
    ));
    assert!(matches!(
        ParamParser::let_declaration("let r in 1 .. MAX"),
        Err(ParamError::MissingTerminator)
    ));
    assert!(matches!(
        ParamParser::let_declaration("let r in 1 ..;"),
        Err(ParamError::EmptyRangeEnd)
    ));
    assert!(matches!(
        ParamParser::dispatch("not a declaration"),
        Err(ParamError::NotParameter)
    ));
}

#[test]
fn dispatch_assignment_guard_yields_content() {
    let line = "let origin = T::RegistrarOrigin::successful_origin();";
    let classified = ParamParser::dispatch(line).unwrap();
    assert_eq!(classified.content, Some(line.to_string()));
    assert!(classified.param_content.is_none());
}

#[test]
fn default_parameter_is_empty() {
    let p = BenchmarkParameter::default();
    assert_eq!(p.name, "");
    assert_eq!(p.range_start, 0);
    assert_eq!(p.range_end, "");
    assert_eq!(p.terminator, RangeTerminator::Statement);
}

#[test]
fn fn_input_rendering() {
    let params = vec![
        BenchmarkParameter {
            name: "b".to_string(),
            range_start: 1,
            range_end: "MAX_BYTES".to_string(),
            terminator: RangeTerminator::Statement,
        },
        BenchmarkParameter {
            name: "m".to_string(),
            range_start: 2,
            range_end: "T::MaxFellows::get()".to_string(),
            terminator: RangeTerminator::Statement,
        },
        BenchmarkParameter {
            name: "p".to_string(),
            range_start: 1,
            range_end: "T::MaxProposals::get()".to_string(),
            terminator: RangeTerminator::Statement,
        },
    ];

    let expected_outputs = vec![
        "b: Linear<1, MAX_BYTES>,",
        "m: Linear<2, { T::MaxFellows::get() }>,",
        "p: Linear<1, { T::MaxProposals::get() }>,",
    ];

    for (param, expected) in params.iter().zip(expected_outputs.iter()) {
        assert_eq!(ParamWriter::fn_input(param), *expected);
    }
}

#[test]
fn fn_input_strips_retained_arrow_tail() {
    let param = BenchmarkParameter {
        name: "r".to_string(),
        range_start: 1,
        range_end: "T::MaxRegistrars::get() - 1 => add_registrars::<T>(r)?".to_string(),
        terminator: RangeTerminator::Statement,
    };
    assert_eq!(
        ParamWriter::fn_input(&param),
        "r: Linear<1, { T::MaxRegistrars::get() - 1 }>,"
    );
}

#[test]
fn fn_input_renders_numeric_bound_bare() {
    let param = BenchmarkParameter {
        name: "n".to_string(),
        range_start: 0,
        range_end: "100".to_string(),
        terminator: RangeTerminator::Statement,
    };
    assert_eq!(ParamWriter::fn_input(&param), "n: Linear<0, 100>,");
}
