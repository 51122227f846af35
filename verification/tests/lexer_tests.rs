use bench_migrate::errors::{LexError, ParamError};
use bench_migrate::lexer::{Lexer, LineKind};

#[test]
fn lexer_test_parse_valid_function_call() {
    let input = r#"benchmarks! {
	add_registrar {
		let r in 1 .. T::MaxRegistrars::get() - 1 => add_registrars::<T>(r)?;
		ensure!(Registrars::<T>::get().len() as u32 == r, "Registrars not set up correctly.");
		let origin =
			T::RegistrarOrigin::try_successful_origin().map_err(|_| BenchmarkError::Weightless)?;
		let account = T::Lookup::unlookup(account("registrar", r + 1, SEED));
	}: _<T::RuntimeOrigin>(origin, account)
	verify {
		ensure!(Registrars::<T>::get().len() as u32 == r + 1, "Registrars not added.");
	}"#;

    let l = Lexer::new(input.to_string());
    let parsed = l.parse().unwrap();
    for block in parsed {
        println!("\n{:?}\n", block);
    }
}

#[test]
fn empty_input_yields_no_lines_error() {
    let l = Lexer::new("".to_string());
    let failure = l.parse().unwrap_err();
    assert_eq!(failure.error, LexError::NoLines);
}

#[test]
fn classified_lines_keep_source_order() {
    let input = "benchmarks! {\n\tfoo {\n\t\tlet a in 1 .. MAX;\n\t}: _<T::Origin>(a, b)\n}";
    let l = Lexer::new(input.to_string());
    let parsed = l.parse().unwrap();
    let kinds: Vec<LineKind> = parsed.iter().map(|b| b.kind).collect();
    assert_eq!(
        kinds,
        vec![
            LineKind::Mod,
            LineKind::Fn,
            LineKind::FnParam,
            LineKind::Extrinsic,
            LineKind::Content,
        ]
    );
}

#[test]
fn first_bad_line_aborts_the_pass() {
    let input = "foo();\nensure!oops\nbar();";
    let l = Lexer::new(input.to_string());
    let failure = l.parse().unwrap_err();
    assert_eq!(failure.error, LexError::BadEnsure);
    assert_eq!(failure.line, "ensure!oops");
}

#[test]
fn bad_parameter_line_fails_the_pass() {
    let l = Lexer::new("foo {\nlet r in 1 ..\n}".to_string());
    let failure = l.parse().unwrap_err();
    assert_eq!(failure.error, LexError::BadParameter(ParamError::MissingTerminator));
    assert_eq!(failure.line, "let r in 1 ..");
}

#[test]
fn bare_open_brace_is_a_bad_function_line() {
    let l = Lexer::new("{".to_string());
    let failure = l.parse().unwrap_err();
    assert_eq!(failure.error, LexError::BadFunction);
}
