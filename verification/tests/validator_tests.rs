use tapcode::engine;
use tapcode::models::{Challenge, ChipGroup, FragmentType};
use tapcode::validator::{
    nonblank_program_structure, validate_all_challenges, validate_challenge_static, AdapterRegistry,
    CompilerAdapter, RustAdapter, ValidationStatus,
};


fn registry() -> AdapterRegistry {
    AdapterRegistry::default_registry()
}

// ── S1: Adapter Trait + Registry ──

#[test]
fn s1_1_rust_adapter_registered() {
    let reg = registry();
    assert!(reg.get("rust").is_some());
}

#[test]
fn s1_2_unknown_language_returns_none() {
    let reg = registry();
    assert!(reg.get("brainfuck").is_none());
}

#[test]
fn s1_3_rust_adapter_wraps_statement() {
    let reg = registry();
    let adapter = reg.get("rust").unwrap();
    let result = adapter.wrap_fragment("let x = 5;", &FragmentType::Statement, "");
    assert!(result.is_some());
    let program = result.unwrap();
    assert!(program.contains("fn main()"));
    assert!(program.contains("let x = 5;"));
}

#[test]
fn s1_4_rust_adapter_wraps_expression() {
    let reg = registry();
    let adapter = reg.get("rust").unwrap();
    let result = adapter.wrap_fragment("42", &FragmentType::Expression, "");
    assert!(result.unwrap().contains("let _ = 42;"));
}

#[test]
fn s1_5_rust_adapter_wraps_fn_def() {
    let reg = registry();
    let adapter = reg.get("rust").unwrap();
    let result = adapter.wrap_fragment("fn add(a: i32, b: i32) -> i32 { a + b }", &FragmentType::FnDef, "");
    let program = result.unwrap();
    assert!(program.contains("fn add"));
    assert!(program.contains("fn main()"));
}

#[test]
fn s1_6_rust_adapter_wraps_program() {
    let reg = registry();
    let adapter = reg.get("rust").unwrap();
    let result = adapter.wrap_fragment("fn main() { println!(\"hi\"); }", &FragmentType::Program, "");
    assert_eq!(result.unwrap(), "fn main() { println!(\"hi\"); }");
}

#[test]
fn s1_7_rust_validates_missing_main() {
    let adapter = RustAdapter::new();
    let result = adapter.validate_program_structure("let x = 5;");
    assert!(result.is_err());
    assert!(result.unwrap_err().contains("fn main"));
}

#[test]
fn s1_8_scaffold_inner_variables_go_inside_main() {
    let reg = registry();
    let adapter = reg.get("rust").unwrap();
    let result = adapter.wrap_fragment("x = 10;", &FragmentType::Statement, "let mut x = 0;");
    let program = result.unwrap();
    let decl_pos = program.find("let mut x = 0;").unwrap();
    let frag_pos = program.find("x = 10;").unwrap();
    assert!(decl_pos < frag_pos);
}

#[test]
fn s1_9_scaffold_outer_items_go_before_main() {
    let reg = registry();
    let adapter = reg.get("rust").unwrap();
    let scaffold = "use std::collections::HashMap;\nlet mut map = HashMap::new();";
    let result = adapter.wrap_fragment("map.insert(1, 2);", &FragmentType::Statement, scaffold);
    let program = result.unwrap();
    let use_pos = program.find("use std::collections::HashMap;").unwrap();
    let main_pos = program.find("fn main()").unwrap();
    let let_pos = program.find("let mut map").unwrap();
    assert!(use_pos < main_pos, "use should be before fn main");
    assert!(let_pos > main_pos, "let should be inside fn main");
}

#[test]
fn s1_10_registry_lists_languages() {
    let reg = registry();
    let langs = reg.languages();
    assert!(langs.contains(&"rust"));
}

#[test]
fn s1_11_custom_adapter_registers_without_code_changes_to_core() {
    struct MockPythonAdapter;

    impl CompilerAdapter for MockPythonAdapter {
        fn language_id(&self) -> &str { "python" }
        fn run_command(&self) -> &str { "python3 {SRC}" }
        fn timeout_seconds(&self) -> u32 { 5 }
        fn file_extension(&self) -> &str { "py" }
        fn wrap_fragment(&self, fragment: &str, _ft: &FragmentType, scaffold: &str) -> Option<String> {
            Some(format!("{}\n{}", scaffold, fragment))
        }
        fn validate_program_structure(&self, program: &str) -> Result<(), String> {
            nonblank_program_structure(program)
        }
    }

    let mut reg = AdapterRegistry::default_registry();
    reg.register(Box::new(MockPythonAdapter));

    assert!(reg.get("rust").is_some(), "Rust still works");
    assert!(reg.get("python").is_some(), "Python added");
    assert_eq!(reg.get("python").unwrap().file_extension(), "py");

    // Python adapter can wrap fragments
    let program = reg.get("python").unwrap()
        .wrap_fragment("print('hello')", &FragmentType::Statement, "import os")
        .unwrap();
    assert!(program.contains("import os"));
    assert!(program.contains("print('hello')"));
}

#[test]
fn s1_12_adapter_metadata_accessible() {
    let reg = registry();
    let adapter = reg.get("rust").unwrap();
    assert_eq!(adapter.language_id(), "rust");
    assert_eq!(adapter.file_extension(), "rs");
    assert!(adapter.timeout_seconds() > 0);
    assert!(!adapter.compiler_flags().is_empty());
}

// ── S2: Static Validation ──

#[test]
fn s2_1_valid_challenge_passes() {
    let c = Challenge {
        id: "test-valid".into(),
        language: "rust".into(),
        module: 1, position: 1,
        title: "Test".into(), prompt: "Do something".into(),
        hint_concept: "Hint".into(), hint_structural: "_ ;".into(),
        fragment_type: FragmentType::Statement,
        answer: vec!["x".into(), ";".into()],
        answer_variants: vec![],
        chips: vec![
            ChipGroup { group: "identifiers".into(), tokens: vec!["x".into(), "y".into()] },
            ChipGroup { group: "symbols".into(), tokens: vec![";".into()] },
        ],
        xp: 20, explanation: "".into(), scaffold: "".into(),
    };
    let result = validate_challenge_static(&c, &registry());
    assert_eq!(result.status, ValidationStatus::Verified, "Errors: {:?}", result.errors);
}

#[test]
fn s2_2_answer_token_not_in_chips_fails() {
    let c = Challenge {
        id: "test-missing".into(), language: "rust".into(),
        module: 1, position: 1, title: "T".into(), prompt: "T".into(),
        hint_concept: "".into(), hint_structural: "".into(),
        fragment_type: FragmentType::Statement,
        answer: vec!["ghost_token".into()], answer_variants: vec![],
        chips: vec![ChipGroup { group: "x".into(), tokens: vec!["x".into()] }],
        xp: 20, explanation: "".into(), scaffold: "".into(),
    };
    let result = validate_challenge_static(&c, &registry());
    assert_eq!(result.status, ValidationStatus::Failed);
}

#[test]
fn s2_3_empty_answer_fails() {
    let mut c = Challenge::test_fixture(vec![]);
    c.chips = vec![ChipGroup { group: "x".into(), tokens: vec!["x".into()] }];
    let result = validate_challenge_static(&c, &registry());
    assert_eq!(result.status, ValidationStatus::Failed);
}

#[test]
fn s2_4_unknown_language_fails_validation() {
    let mut c = Challenge::test_fixture(vec!["x"]);
    c.language = "cobol".into();
    c.chips = vec![ChipGroup { group: "x".into(), tokens: vec!["x".into()] }];
    let result = validate_challenge_static(&c, &registry());
    assert_eq!(result.status, ValidationStatus::Failed);
    assert!(result.errors.iter().any(|e| e.contains("no compiler adapter")));
}

// ── S3: Full pack validation ──

#[test]
fn s3_1_all_rust_challenges_pass_static_validation() {
    let reg = engine::build_default_registry();
    let pack = reg.get_pack("rust").unwrap();
    let adapter_reg = registry();
    let (passed, failed, results) = validate_all_challenges(pack, &adapter_reg);

    for r in &results {
        if r.status != ValidationStatus::Verified {
            println!("FAILED: {} — {:?}", r.challenge_id, r.errors);
        }
    }
    assert_eq!(failed, 0, "{} challenges failed", failed);
    assert!(passed > 0);
}

#[test]
fn s3_2_all_answer_tokens_in_chips() {
    let reg = engine::build_default_registry();
    let pack = reg.get_pack("rust").unwrap();
    for challenge in &pack.challenges {
        let all_tokens: Vec<&String> = challenge.chips.iter()
            .flat_map(|g| g.tokens.iter()).collect();
        for (i, token) in challenge.answer.iter().enumerate() {
            assert!(all_tokens.contains(&token),
                "Challenge '{}': answer token '{}' at {} not in chips", challenge.id, token, i);
        }
    }
}

#[test]
fn s3_3_no_prompt_leaks_answer() {
    let reg = engine::build_default_registry();
    let pack = reg.get_pack("rust").unwrap();
    for challenge in &pack.challenges {
        let answer_str = challenge.answer.join("");
        assert!(!challenge.prompt.contains(&answer_str),
            "Challenge '{}' prompt leaks full answer", challenge.id);
        if challenge.answer.len() >= 3 {
            let first_three = challenge.answer[..3].join("");
            assert!(!challenge.prompt.contains(&first_three),
                "Challenge '{}' prompt leaks first 3 tokens", challenge.id);
        }
    }
}

#[test]
fn s3_4_every_challenge_has_explanation() {
    let reg = engine::build_default_registry();
    let pack = reg.get_pack("rust").unwrap();
    for c in &pack.challenges {
        assert!(!c.explanation.is_empty(), "{} missing explanation", c.id);
    }
}

#[test]
fn s3_5_every_challenge_has_hints() {
    let reg = engine::build_default_registry();
    let pack = reg.get_pack("rust").unwrap();
    for c in &pack.challenges {
        assert!(!c.hint_concept.is_empty(), "{} missing hint_concept", c.id);
        assert!(!c.hint_structural.is_empty(), "{} missing hint_structural", c.id);
    }
}

#[test]
fn s3_6_challenge_ids_match_language_namespace() {
    let reg = engine::build_default_registry();
    let pack = reg.get_pack("rust").unwrap();
    for c in &pack.challenges {
        assert!(c.id.starts_with("rust-"), "{} wrong namespace", c.id);
    }
}

#[test]
fn s3_7_fragment_wrapping_produces_valid_program() {
    let reg = engine::build_default_registry();
    let pack = reg.get_pack("rust").unwrap();
    let adapter_reg = registry();
    let adapter = adapter_reg.get("rust").unwrap();

    for challenge in &pack.challenges {
        let fragment = challenge.answer.join(" ");
        let program = adapter.wrap_fragment(&fragment, &challenge.fragment_type, &challenge.scaffold);
        assert!(program.is_some(), "{}: adapter couldn't wrap {:?}", challenge.id, challenge.fragment_type);
        let program = program.unwrap();
        assert!(adapter.validate_program_structure(&program).is_ok(),
            "{}: structural validation failed", challenge.id);
    }
}

#[test]
fn static_errors_name_the_challenge_and_position() {
    let mut c = Challenge::test_fixture(vec!["x", "ghost"]);
    c.chips = vec![
        ChipGroup { group: "ids".into(), tokens: vec!["x".into()] },
        ChipGroup { group: "empty".into(), tokens: vec![] },
    ];
    c.answer_variants = vec![vec![], vec!["nope".into()]];
    let result = validate_challenge_static(&c, &registry());
    assert_eq!(result.status, ValidationStatus::Failed);
    assert_eq!(result.challenge_id, "test-c1");
    assert_eq!(result.answers_checked, 3);
    assert_eq!(result.answers_passed, 1);
    assert_eq!(
        result.errors,
        vec![
            "[test-c1] answer token 'ghost' at position 1 not found in any chip group".to_string(),
            "[test-c1] answer_variant[0] is empty".to_string(),
            "[test-c1] answer_variant[1] token 'nope' at position 0 not in chips".to_string(),
            "[test-c1] chip group 'empty' has no tokens".to_string(),
        ]
    );
}

#[test]
fn structural_failure_is_reported_with_the_adapter_message() {
    let mut c = Challenge::test_fixture(vec!["x"]);
    c.fragment_type = FragmentType::Program;
    c.chips = vec![ChipGroup { group: "ids".into(), tokens: vec!["x".into()] }];
    let result = validate_challenge_static(&c, &registry());
    assert_eq!(result.errors, vec!["[test-c1] Rust program missing fn main".to_string()]);
}

#[test]
fn empty_program_fails_default_structure_check() {
    struct Bare;
    impl CompilerAdapter for Bare {
        fn language_id(&self) -> &str { "bare" }
        fn run_command(&self) -> &str { "" }
        fn timeout_seconds(&self) -> u32 { 1 }
        fn file_extension(&self) -> &str { "txt" }
        fn wrap_fragment(&self, _f: &str, _ft: &FragmentType, _s: &str) -> Option<String> { None }
        fn validate_program_structure(&self, program: &str) -> Result<(), String> {
            nonblank_program_structure(program)
        }
    }
    let b = Bare;
    assert_eq!(b.validate_program_structure("   "), Err("Wrapped program is empty".to_string()));
    assert!(b.validate_program_structure("x").is_ok());
    assert!(b.compiler_flags().is_empty());
    let mut reg = AdapterRegistry::new();
    reg.register(Box::new(Bare));
    let mut c = Challenge::test_fixture(vec!["x"]);
    c.language = "bare".into();
    c.chips = vec![ChipGroup { group: "ids".into(), tokens: vec!["x".into()] }];
    let result = validate_challenge_static(&c, &reg);
    assert_eq!(
        result.errors,
        vec!["[test-c1] adapter 'bare' has no wrapper for fragment_type Statement".to_string()]
    );
}

#[test]
fn clean_empty_lines_drops_blank_lines() {
    assert_eq!(RustAdapter::clean_empty_lines("a\n\n  \nb\n"), "a\nb");
    let (outer, inner) = RustAdapter::split_scaffold("use x;\n\nlet y = 1;\n#[derive(Debug)]");
    assert_eq!(outer, "use x;\n#[derive(Debug)]");
    assert_eq!(inner, "let y = 1;");
}

#[test]
fn bare_fragments_are_placed_exactly() {
    let a = RustAdapter::new();
    assert_eq!(a.wrap_fragment("let x = 5;", &FragmentType::Statement, "").unwrap(), "fn main() { \nlet x = 5; }");
    assert_eq!(a.wrap_fragment("42", &FragmentType::Expression, "").unwrap(), "fn main() { \nlet _ = 42; }");
    assert_eq!(a.wrap_fragment("fn add() {}", &FragmentType::FnDef, "").unwrap(), "fn add() {}\nfn main() {}");
    assert_eq!(a.wrap_fragment("struct P;", &FragmentType::TypeDef, "").unwrap(), "struct P;\nfn main() {}");
    assert_eq!(a.wrap_fragment("fn main() {}", &FragmentType::Program, "").unwrap(), "fn main() {}");
}
