use bench_migrate::generator::CodeGenerator;

#[test]
fn test_generate_module() {
    let input = "benchmarks_instance_pallet! {
            propose_proposed {
                let b in 1 .. MAX_BYTES;
                let m in 2 .. T::MaxFellows::get();
                let p in 1 .. T::MaxProposals::get();
            }
        }";
    let expected = "#[instance_benchmarks]
mod benchmarks_instance_pallet {

    #[benchmark]
    fn propose_proposed(
        b: Linear<1, MAX_BYTES>,
        m: Linear<2, { T::MaxFellows::get() }>,
        p: Linear<1, { T::MaxProposals::get() }>,
    ) -> Result<(), BenchmarkError> {
    }
}";

    match CodeGenerator::generate_module(input) {
        Ok(output) => assert_eq!(output, expected),
        Err(e) => panic!("Module generation failed: {}", e),
    }
}

#[test]
fn generating_twice_gives_identical_text() {
    let input = "benchmarks! {\n    foo {\n        let a in 1 .. MAX;\n    }\n}";
    let first = CodeGenerator::generate_module(input).unwrap();
    let second = CodeGenerator::generate_module(input).unwrap();
    assert_eq!(first, second);
}

#[test]
fn empty_document_is_an_error() {
    assert!(CodeGenerator::generate_module("").is_err());
}

#[test]
fn whole_document_converts_with_body_and_verify() {
    let input = "benchmarks! {\n\tadd_registrar {\n\t\tlet r in 1 .. T::MaxRegistrars::get() - 1 => add_registrars::<T>(r)?;\n\t}: _<T::RuntimeOrigin>(origin, account)\n\tverify {\n\t\tensure!(ok, \"Registrars not added.\");\n\t}\n}";
    let expected = "#[benchmarks]\nmod benchmarks {\n\n    #[benchmark]\n    fn add_registrar(\n        r: Linear<1, { T::MaxRegistrars::get() - 1 }>,\n    ) -> Result<(), BenchmarkError> {\n        add_registrars::<T>(r)?;\n        #[extrinsic_call]\n        _<T::RuntimeOrigin>(origin, account)\n        ensure!(ok, \"Registrars not added.\");\n    }\n}";
    assert_eq!(CodeGenerator::generate_module(input).unwrap(), expected);
}

#[test]
fn lex_failure_names_the_offending_line() {
    // a module-keyword line that is not a module header
    let input = "benchmarksfoo";
    let err = CodeGenerator::generate_module(input).unwrap_err();
    assert_eq!(err, "Parsing failed: benchmarksfoo");
}

#[test]
fn assembly_failure_names_the_offending_text() {
    let input = "benchmarks! {\nfoo {\n((( ;\nlet a in 1 .. MAX;\n}\n}";
    let err = CodeGenerator::generate_module(input).unwrap_err();
    assert_eq!(err, "Assembly failed: { (((; }");
}
