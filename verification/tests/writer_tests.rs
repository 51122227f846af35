use bench_migrate::errors::AssembleError;
use bench_migrate::lexer::Lexer;
use bench_migrate::param::ParamWriter;
use bench_migrate::writer::{ModGen, Writer};

#[test]
fn test_lexer() {
    let input = r#"benchmarks! {
	add_registrar {
		let r in 1 .. T::MaxRegistrars::get() - 1 => add_registrars::<T>(r)?;
		ensure!(Registrars::<T>::get().len() as u32 == r, "Registrars not set up correctly.");
		let origin =
			T::RegistrarOrigin::try_successful_origin().map_err(|_| BenchmarkError::Weightless)?;
		let account = T::Lookup::unlookup(account("registrar", r + 1, SEED));
	}: _<T::RuntimeOrigin>(origin, account)
	verify {
		ensure!(Registrars::<T>::get().len() as u32 == r + 1, "Registrars not added.");
	}"#;

    let lexer = Lexer::new(input.to_string());
    let parsed_lines = lexer.parse().unwrap();
    let gen_lines = Writer::generate_module(parsed_lines).unwrap();
    println!("Generated Lines:");
    for line in gen_lines.fns {
        println!("{:?}", line);
    }
}

#[test]
fn assembled_module_carries_all_pieces() {
    let input = "benchmarks! {\n\tadd_registrar {\n\t\tlet r in 1 .. T::MaxRegistrars::get() - 1 => add_registrars::<T>(r)?;\n\t\tlet account = T::Lookup::unlookup(account(\"registrar\", r + 1, SEED));\n\t}: _<T::RuntimeOrigin>(origin, account)\n\tverify {\n\t\tensure!(ok, \"Registrars not added.\");\n\t}";
    let lexer = Lexer::new(input.to_string());
    let lines = lexer.parse().unwrap();
    let module = Writer::generate_module(lines).unwrap();
    assert_eq!(module.parent, "#[benchmarks]\nmod benchmarks {");
    assert_eq!(module.fns.len(), 1);
    let f = &module.fns[0];
    assert_eq!(f.name, "add_registrar");
    assert_eq!(f.params.len(), 1);
    assert_eq!(f.params[0].name, "r");
    assert_eq!(
        f.body.as_deref(),
        Some("add_registrars::<T>(r)?; let account = T::Lookup::unlookup(account(\"registrar\", r + 1, SEED));")
    );
    assert_eq!(
        f.extrinsic.as_deref(),
        Some("#[extrinsic_call]\n_<T::RuntimeOrigin>(origin, account)")
    );
    assert_eq!(f.verify.as_deref(), Some("ensure!(ok, \"Registrars not added.\");"));
}

#[test]
fn parameter_without_open_function_is_rejected() {
    let input = "benchmarks! {\n\tlet r in 1 .. MAX;\n}";
    let lexer = Lexer::new(input.to_string());
    let lines = lexer.parse().unwrap();
    let failure = Writer::generate_module(lines).unwrap_err();
    assert_eq!(failure.error, AssembleError::NoOpenFunction);
}

#[test]
fn unparsable_body_is_rejected_with_the_block() {
    let input = "benchmarks! {\nfoo {\n((( ;\nlet a in 1 .. MAX;\n}\n}";
    let lexer = Lexer::new(input.to_string());
    let lines = lexer.parse().unwrap();
    let failure = Writer::generate_module(lines).unwrap_err();
    assert_eq!(failure.error, AssembleError::BodyUnparsable);
    assert_eq!(failure.detail, "{ (((; }");
}

#[test]
fn parameters_keep_source_order_across_content_lines() {
    let input = "benchmarks_instance_pallet! {\n    propose_proposed {\n        let b in 1 .. MAX_BYTES;\n        T::Currency::make_free_balance_be(&caller);\n        let m in 2 .. T::MaxFellows::get();\n        (some, opaque, tuple);\n        let p in 1 .. T::MaxProposals::get();\n    }\n}";
    let lexer = Lexer::new(input.to_string());
    let lines = lexer.parse().unwrap();
    let module = Writer::generate_module(lines).unwrap();
    assert_eq!(module.fns.len(), 1);
    let names: Vec<&str> = module.fns[0]
        .params
        .iter()
        .map(|p| p.name.as_str())
        .collect();
    assert_eq!(names, vec!["b", "m", "p"]);
}

#[test]
fn render_is_deterministic() {
    let input = "benchmarks! {\n    foo {\n        let a in 1 .. MAX;\n    }\n}";
    let lexer = Lexer::new(input.to_string());
    let module = Writer::generate_module(lexer.parse().unwrap()).unwrap();
    let first = module.render();
    let second = module.render();
    assert_eq!(first, second);
}

#[test]
fn render_places_parameters_in_insertion_order() {
    let input = "benchmarks! {\n    foo {\n        let a in 1 .. FIRST;\n        let z in 2 .. SECOND;\n    }\n}";
    let lexer = Lexer::new(input.to_string());
    let module = Writer::generate_module(lexer.parse().unwrap()).unwrap();
    let text = module.render();
    let a_pos = text.find("a: Linear<1, FIRST>,").unwrap();
    let z_pos = text.find("z: Linear<2, SECOND>,").unwrap();
    assert!(a_pos < z_pos);
}

#[test]
fn fn_gen_inserts_before_closing_delimiter() {
    let sig = "#[benchmark]\nfn foo() -> Result<(), BenchmarkError> {\n\n}".to_string();
    let once = ParamWriter::fn_gen("a: Linear<1, X>,".to_string(), &sig).unwrap();
    assert_eq!(
        once,
        "#[benchmark]\nfn foo(a: Linear<1, X>,) -> Result<(), BenchmarkError> {\n\n}"
    );
    let twice = ParamWriter::fn_gen("b: Linear<2, Y>,".to_string(), &once).unwrap();
    assert_eq!(
        twice,
        "#[benchmark]\nfn foo(a: Linear<1, X>,b: Linear<2, Y>,) -> Result<(), BenchmarkError> {\n\n}"
    );
    assert!(ParamWriter::fn_gen("x,".to_string(), &"no parens".to_string()).is_err());
}

#[test]
fn adjust_module_closure_drops_doubled_close() {
    let lines = vec![
        "fn foo() {".to_string(),
        "body(); } }".to_string(),
        "}".to_string(),
    ];
    let adjusted = Writer::adjust_module_closure(lines).unwrap();
    assert_eq!(adjusted, vec!["fn foo() {".to_string(), "}".to_string()]);

    let at_end = vec!["fn foo() {".to_string(), "} }".to_string()];
    let adjusted = Writer::adjust_module_closure(at_end).unwrap();
    assert_eq!(adjusted, vec!["fn foo() {".to_string(), "} }".to_string()]);

    let no_misplaced = vec!["fn foo() {".to_string(), "}".to_string()];
    assert!(Writer::adjust_module_closure(no_misplaced).is_err());
}

#[test]
fn default_module_is_empty_and_renders_bare() {
    let m = ModGen::default();
    assert_eq!(m.parent, "");
    assert_eq!(m.fns.len(), 0);
    assert_eq!(m.render(), "\n}");
}
