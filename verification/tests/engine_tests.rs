use tapcode::engine::{
    build_default_registry, compute_diff, evaluate_context, get_challenge_by_id,
    get_module_challenges, get_next_challenge_id, get_token_category, is_module_complete,
    validate_answer, xp_for_attempt, LanguagePackRegistry, RegistryError,
};
use tapcode::models::{
    Challenge, ChipGroupState, ContextRule, HintTier, LanguageProgress, LanguageStatus, TokenDiff,
    ValidationResult,
};
use tapcode::rust_pack::rust_pack;


// ── Helpers ──

fn s(val: &str) -> String { val.to_string() }
fn sv(vals: &[&str]) -> Vec<String> { vals.iter().map(|v| s(v)).collect() }

fn make_challenge(answer: &[&str], variants: Vec<Vec<&str>>) -> Challenge {
    let mut c = Challenge::test_fixture(answer.to_vec());
    c.answer_variants = variants.into_iter().map(|v| sv(&v)).collect();
    c
}

fn rust_groups() -> Vec<String> {
    sv(&["keywords", "macros", "types", "strings", "symbols", "identifiers", "numbers"])
}

fn rust_rules() -> Vec<ContextRule> {
    vec![
        ContextRule {
            after_tokens: sv(&["fn"]),
            highlight_groups: sv(&["identifiers"]),
            dim_groups: sv(&["keywords", "macros", "types", "strings", "numbers"]),
        },
        ContextRule {
            after_tokens: sv(&["let"]),
            highlight_groups: sv(&["identifiers", "keywords"]),
            dim_groups: sv(&["macros", "types", "strings"]),
        },
        ContextRule {
            after_tokens: sv(&["let", "mut"]),
            highlight_groups: sv(&["identifiers"]),
            dim_groups: sv(&["keywords", "macros", "types", "strings"]),
        },
        ContextRule {
            after_tokens: sv(&[":"]),
            highlight_groups: sv(&["types"]),
            dim_groups: sv(&["keywords", "macros", "strings", "identifiers", "numbers"]),
        },
        ContextRule {
            after_tokens: sv(&["->"]),
            highlight_groups: sv(&["types"]),
            dim_groups: sv(&["keywords", "macros", "strings", "identifiers", "numbers"]),
        },
        ContextRule {
            after_tokens: sv(&["="]),
            highlight_groups: sv(&["identifiers", "numbers", "strings", "macros", "types"]),
            dim_groups: sv(&["keywords"]),
        },
        ContextRule {
            after_tokens: sv(&["("]),
            highlight_groups: sv(&["identifiers", "numbers", "strings", "types", "symbols"]),
            dim_groups: sv(&["keywords"]),
        },
    ]
}

fn is_highlighted(states: &[ChipGroupState], group: &str) -> bool {
    states.iter().find(|s| s.group_name == group).map(|s| s.is_highlighted).unwrap_or(false)
}

// ════════════════════════════════════════════

#[test]
fn s1_2_metadata_fields_populated() {
    let pack = build_default_registry();
    let rust = pack.get_pack("rust").unwrap();
    assert_eq!(rust.metadata.id, "rust");
    assert_eq!(rust.metadata.display_name, "Rust");
    assert_eq!(rust.metadata.primary_hue, "#f5a623");
    assert_eq!(rust.metadata.icon, "🦀");
    assert!(!rust.metadata.version.is_empty());
}

#[test]
fn s1_3_seven_token_categories() {
    let reg = build_default_registry();
    let pack = reg.get_pack("rust").unwrap();
    assert_eq!(pack.categories.len(), 7, "Rust pack must have 7 token categories");
}

#[test]
fn s1_4_each_category_has_tokens() {
    let reg = build_default_registry();
    let pack = reg.get_pack("rust").unwrap();
    for cat in &pack.categories {
        assert!(!cat.tokens.is_empty(), "Category '{}' must have at least 1 token", cat.name);
    }
}

#[test]
fn s1_5_modules_ordered() {
    let reg = build_default_registry();
    let pack = reg.get_pack("rust").unwrap();
    let ids: Vec<u32> = pack.modules.iter().map(|m| m.id).collect();
    let mut sorted = ids.clone();
    sorted.sort();
    assert_eq!(ids, sorted, "Modules must be in order");
}

#[test]
fn s1_7_unknown_extra_field_ignored() {
    // A pack with an extra unknown field should still parse (forward-compatible)
    let reg = build_default_registry();
    let pack = reg.get_pack("rust").unwrap();
    // If we got here, serde's default deny_unknown_fields is NOT active — good.
    assert_eq!(pack.metadata.id, "rust");
}

// ════════════════════════════════════════════

#[test]
fn s2_1_registry_loads_at_least_one_language() {
    let reg = build_default_registry();
    assert!(reg.pack_count() >= 1);
}

#[test]
fn s2_2_rust_is_available() {
    let reg = build_default_registry();
    let rust = reg.list_languages().iter().find(|e| e.id == "rust");
    assert!(rust.is_some());
    assert_eq!(rust.unwrap().status, LanguageStatus::Available);
}

#[test]
fn s2_3_get_pack_returns_some_for_rust() {
    let reg = build_default_registry();
    assert!(reg.get_pack("rust").is_some());
}

#[test]
fn s2_4_get_pack_returns_none_for_unknown() {
    let reg = build_default_registry();
    assert!(reg.get_pack("nonexistent").is_none());
}

#[test]
fn s2_5_adding_second_language_requires_no_code_changes() {
    let rust = rust_pack();
    let mut go = rust_pack();
    go.metadata.id = "go".to_string();
    go.metadata.display_name = "Go".to_string();

    let reg = LanguagePackRegistry::from_embedded(vec![
        ("rust".to_string(), Ok(rust)),
        ("go".to_string(), Ok(go)),
    ]).unwrap();

    assert_eq!(reg.pack_count(), 2);
    assert!(reg.get_pack("rust").is_some());
    assert!(reg.get_pack("go").is_some());
    assert_eq!(reg.get_pack("go").unwrap().metadata.display_name, "Go");
}

#[test]
fn s2_6_invalid_json_returns_parse_error() {
    let result = LanguagePackRegistry::from_embedded(vec![(
        "bad".to_string(),
        Err("expected value at line 1 column 1".to_string()),
    )]);
    assert!(result.is_err());
    match result.unwrap_err() {
        RegistryError::ParseError { language_id, .. } => {
            assert_eq!(language_id, "bad");
        }
    }
}

// ════════════════════════════════════════════

#[test]
fn s3_1_empty_sequence_all_highlighted() {
    let states = evaluate_context(&[] as &[String], &rust_rules(), &rust_groups());
    for s in &states {
        assert!(s.is_highlighted, "Group '{}' should be highlighted on empty", s.group_name);
    }
}

#[test]
fn s3_2_after_fn_identifiers_highlighted_keywords_dimmed() {
    let tokens = sv(&["fn"]);
    let states = evaluate_context(&tokens, &rust_rules(), &rust_groups());
    assert!(is_highlighted(&states, "identifiers"));
    assert!(!is_highlighted(&states, "keywords"));
}

#[test]
fn s3_3_after_let_identifiers_highlighted() {
    let tokens = sv(&["let"]);
    let states = evaluate_context(&tokens, &rust_rules(), &rust_groups());
    assert!(is_highlighted(&states, "identifiers"));
}

#[test]
fn s3_4_after_colon_types_highlighted() {
    let tokens = sv(&["let", "x", ":"]);
    let states = evaluate_context(&tokens, &rust_rules(), &rust_groups());
    assert!(is_highlighted(&states, "types"));
    assert!(!is_highlighted(&states, "keywords"));
}

#[test]
fn s3_5_after_arrow_types_highlighted() {
    let tokens = sv(&["fn", "add", "(", "a", ":", "i32", ")", "->"]);
    let states = evaluate_context(&tokens, &rust_rules(), &rust_groups());
    assert!(is_highlighted(&states, "types"));
}

#[test]
fn s3_6_after_equals_values_highlighted() {
    let tokens = sv(&["let", "x", "="]);
    let states = evaluate_context(&tokens, &rust_rules(), &rust_groups());
    assert!(is_highlighted(&states, "numbers"));
    assert!(is_highlighted(&states, "strings"));
    assert!(is_highlighted(&states, "identifiers"));
    assert!(!is_highlighted(&states, "keywords"));
}

#[test]
fn s3_7_after_open_paren_values_forward() {
    let tokens = sv(&["println!", "("]);
    let states = evaluate_context(&tokens, &rust_rules(), &rust_groups());
    assert!(is_highlighted(&states, "strings"));
    assert!(is_highlighted(&states, "identifiers"));
    assert!(!is_highlighted(&states, "keywords"));
}

#[test]
fn s3_8_unknown_sequence_all_visible() {
    let tokens = sv(&["some_random_token_xyz"]);
    let states = evaluate_context(&tokens, &rust_rules(), &rust_groups());
    for s in &states {
        assert!(s.is_highlighted, "Unmatched sequence should show all groups");
    }
}

#[test]
fn s3_9_longer_rule_takes_precedence() {
    // "let" matches, but "let", "mut" is longer and should win
    let tokens = sv(&["let", "mut"]);
    let states = evaluate_context(&tokens, &rust_rules(), &rust_groups());
    assert!(is_highlighted(&states, "identifiers"));
    // "let" alone would highlight keywords too, but "let mut" should dim them
    assert!(!is_highlighted(&states, "keywords"));
}

// ════════════════════════════════════════════

#[test]
fn s4_1_exact_match_is_correct() {
    let c = make_challenge(&["let", "x", "=", "5", ";"], vec![]);
    let user = sv(&["let", "x", "=", "5", ";"]);
    assert_eq!(validate_answer(&user, &c), ValidationResult::Correct);
}

#[test]
fn s4_2_variant_match_is_correct() {
    let c = make_challenge(
        &["let", "x", "=", "5", ";"],
        vec![vec!["let", "x", ":", "i32", "=", "5", ";"]],
    );
    let user = sv(&["let", "x", ":", "i32", "=", "5", ";"]);
    assert_eq!(validate_answer(&user, &c), ValidationResult::Correct);
}

#[test]
fn s4_3_second_variant_matches() {
    let c = make_challenge(
        &["a"],
        vec![vec!["b"], vec!["c"]],
    );
    assert_eq!(validate_answer(&sv(&["c"]), &c), ValidationResult::Correct);
}

#[test]
fn s4_4_primary_fails_variant_succeeds() {
    let c = make_challenge(&["a", "b"], vec![vec!["b", "a"]]);
    // Primary ["a","b"] doesn't match ["b","a"], but variant does
    assert_eq!(validate_answer(&sv(&["b", "a"]), &c), ValidationResult::Correct);
}

// ════════════════════════════════════════════

#[test]
fn s5_1_single_wrong_token() {
    let c = make_challenge(&["x", "=", "10", ";"], vec![]);
    let user = sv(&["x", "=", "5", ";"]);
    match validate_answer(&user, &c) {
        ValidationResult::Wrong(diff) => {
            assert!(matches!(&diff[0], TokenDiff::Match(t) if t == "x"));
            assert!(matches!(&diff[1], TokenDiff::Match(t) if t == "="));
            assert!(matches!(&diff[2], TokenDiff::Wrong { got, expected } if got == "5" && expected == "10"));
            assert!(matches!(&diff[3], TokenDiff::Match(t) if t == ";"));
        }
        _ => panic!("Expected Wrong"),
    }
}

#[test]
fn s5_2_extra_token_at_end() {
    let c = make_challenge(&["x", "=", "10", ";"], vec![]);
    let user = sv(&["x", "=", "10", ";", "!"]);
    match validate_answer(&user, &c) {
        ValidationResult::Wrong(diff) => {
            assert_eq!(diff.len(), 5);
            assert!(matches!(&diff[4], TokenDiff::Extra(t) if t == "!"));
        }
        _ => panic!("Expected Wrong"),
    }
}

#[test]
fn s5_3_missing_token() {
    let c = make_challenge(&["x", "=", "10", ";"], vec![]);
    let user = sv(&["x", "=", "10"]);
    match validate_answer(&user, &c) {
        ValidationResult::Wrong(diff) => {
            assert_eq!(diff.len(), 4);
            assert!(matches!(&diff[3], TokenDiff::Missing(t) if t == ";"));
        }
        _ => panic!("Expected Wrong"),
    }
}

#[test]
fn s5_4_two_swapped_tokens() {
    let c = make_challenge(&["let", "x", "=", "5", ";"], vec![]);
    let user = sv(&["let", "5", "=", "x", ";"]);
    match validate_answer(&user, &c) {
        ValidationResult::Wrong(diff) => {
            assert!(matches!(&diff[1], TokenDiff::Wrong { got, expected } if got == "5" && expected == "x"));
            assert!(matches!(&diff[3], TokenDiff::Wrong { got, expected } if got == "x" && expected == "5"));
        }
        _ => panic!("Expected Wrong"),
    }
}

#[test]
fn s5_5_completely_wrong_sequence() {
    let c = make_challenge(&["x", "=", "10", ";"], vec![]);
    let user = sv(&["y", "+", "5", "!"]);
    match validate_answer(&user, &c) {
        ValidationResult::Wrong(diff) => {
            for d in &diff {
                assert!(matches!(d, TokenDiff::Wrong { .. }), "Every token should be Wrong");
            }
        }
        _ => panic!("Expected Wrong"),
    }
}

#[test]
fn s5_6_empty_user_sequence() {
    let c = make_challenge(&["x", "=", "10", ";"], vec![]);
    let user: Vec<String> = vec![];
    match validate_answer(&user, &c) {
        ValidationResult::Wrong(diff) => {
            assert_eq!(diff.len(), 4);
            for d in &diff {
                assert!(matches!(d, TokenDiff::Missing(_)));
            }
        }
        _ => panic!("Expected Wrong"),
    }
}

#[test]
fn s5_7_only_first_token_correct() {
    let c = make_challenge(&["x", "=", "10", ";"], vec![]);
    let user = sv(&["x"]);
    match validate_answer(&user, &c) {
        ValidationResult::Wrong(diff) => {
            assert!(matches!(&diff[0], TokenDiff::Match(t) if t == "x"));
            assert!(matches!(&diff[1], TokenDiff::Missing(_)));
            assert!(matches!(&diff[2], TokenDiff::Missing(_)));
            assert!(matches!(&diff[3], TokenDiff::Missing(_)));
        }
        _ => panic!("Expected Wrong"),
    }
}

// ════════════════════════════════════════════

#[test]
fn s6_1_user_longer_by_three() {
    let diff = compute_diff(&sv(&["a", "b", "c", "d", "e"]), &sv(&["a", "b"]));
    assert_eq!(diff.len(), 5);
    assert!(matches!(&diff[2], TokenDiff::Extra(_)));
    assert!(matches!(&diff[3], TokenDiff::Extra(_)));
    assert!(matches!(&diff[4], TokenDiff::Extra(_)));
}

#[test]
fn s6_2_user_shorter_by_two() {
    let diff = compute_diff(&sv(&["a"]), &sv(&["a", "b", "c"]));
    assert_eq!(diff.len(), 3);
    assert!(matches!(&diff[1], TokenDiff::Missing(_)));
    assert!(matches!(&diff[2], TokenDiff::Missing(_)));
}

#[test]
fn s6_3_duplicate_tokens_in_answer() {
    let c = make_challenge(&[";", ";"], vec![]);
    let user = sv(&[";", ";"]);
    assert_eq!(validate_answer(&user, &c), ValidationResult::Correct);
}

#[test]
fn s6_4_single_token_correct() {
    let c = make_challenge(&["42"], vec![]);
    assert_eq!(validate_answer(&sv(&["42"]), &c), ValidationResult::Correct);
}

#[test]
fn s6_5_single_token_wrong() {
    let c = make_challenge(&["42"], vec![]);
    match validate_answer(&sv(&["99"]), &c) {
        ValidationResult::Wrong(diff) => {
            assert_eq!(diff.len(), 1);
            assert!(matches!(&diff[0], TokenDiff::Wrong { got, expected } if got == "99" && expected == "42"));
        }
        _ => panic!("Expected Wrong"),
    }
}

#[test]
fn s6_6_no_variants_wrong_only_checks_primary() {
    let c = make_challenge(&["a", "b"], vec![]);
    match validate_answer(&sv(&["b", "a"]), &c) {
        ValidationResult::Wrong(_) => {} // correct behavior
        _ => panic!("Expected Wrong — no variants to check"),
    }
}

// ════════════════════════════════════════════
// S7: XP Calculation
// ════════════════════════════════════════════

#[test]
fn s7_1_first_attempt_full_xp() {
    assert_eq!(xp_for_attempt(20, 1), 20);
}

#[test]
fn s7_2_retry_half_xp() {
    assert_eq!(xp_for_attempt(20, 2), 10);
}

#[test]
fn s7_3_third_attempt_still_half() {
    assert_eq!(xp_for_attempt(20, 3), 10);
}

// ════════════════════════════════════════════
// S8: Module Helpers
// ════════════════════════════════════════════

#[test]
fn s8_1_get_challenge_by_id_found() {
    let reg = build_default_registry();
    let pack = reg.get_pack("rust").unwrap();
    assert!(get_challenge_by_id(pack, "rust-m1-c1").is_some());
}

#[test]
fn s8_2_get_challenge_by_id_not_found() {
    let reg = build_default_registry();
    let pack = reg.get_pack("rust").unwrap();
    assert!(get_challenge_by_id(pack, "nonexistent").is_none());
}

#[test]
fn s8_3_get_module_challenges_returns_correct_count() {
    let reg = build_default_registry();
    let pack = reg.get_pack("rust").unwrap();
    let m1 = get_module_challenges(pack, 1);
    assert_eq!(m1.len(), 5, "Module 1 should have 5 challenges");
}

#[test]
fn s8_4_module_complete_all_done() {
    let reg = build_default_registry();
    let pack = reg.get_pack("rust").unwrap();
    let module = &pack.modules[0];
    let progress = LanguageProgress {
        completed_challenges: module.challenge_ids.clone(),
        ..Default::default()
    };
    assert!(is_module_complete(module, &progress));
}

#[test]
fn s8_5_module_not_complete_partial() {
    let reg = build_default_registry();
    let pack = reg.get_pack("rust").unwrap();
    let module = &pack.modules[0];
    let progress = LanguageProgress {
        completed_challenges: vec![module.challenge_ids[0].clone()],
        ..Default::default()
    };
    assert!(!is_module_complete(module, &progress));
}

#[test]
fn s8_6_next_challenge_skips_completed() {
    let reg = build_default_registry();
    let pack = reg.get_pack("rust").unwrap();
    let progress = LanguageProgress {
        unlocked_modules: vec![1],
        completed_challenges: vec!["rust-m1-c1".into(), "rust-m1-c2".into()],
        ..Default::default()
    };
    assert_eq!(get_next_challenge_id(pack, &progress), Some("rust-m1-c3".into()));
}

#[test]
fn s8_7_next_challenge_none_when_all_done() {
    let reg = build_default_registry();
    let pack = reg.get_pack("rust").unwrap();
    let all_ids: Vec<String> = pack.modules.iter()
        .flat_map(|m| m.challenge_ids.clone())
        .collect();
    let progress = LanguageProgress {
        unlocked_modules: pack.modules.iter().map(|m| m.id).collect(),
        completed_challenges: all_ids,
        ..Default::default()
    };
    assert_eq!(get_next_challenge_id(pack, &progress), None);
}

#[test]
fn s8_8_token_category_lookup() {
    let reg = build_default_registry();
    let pack = reg.get_pack("rust").unwrap();
    let cat = get_token_category(pack, "fn");
    assert!(cat.is_some());
    assert_eq!(cat.unwrap().name, "keywords");
}

#[test]
fn s8_9_token_category_not_found() {
    let reg = build_default_registry();
    let pack = reg.get_pack("rust").unwrap();
    assert!(get_token_category(pack, "zzz_nonexistent").is_none());
}

// ════════════════════════════════════════════
// S9: Hint Tier Progression
// ════════════════════════════════════════════

#[test]
fn s9_1_none_to_concept() {
    assert_eq!(HintTier::NoHint.next(), HintTier::Concept);
}

#[test]
fn s9_2_concept_to_structural() {
    assert_eq!(HintTier::Concept.next(), HintTier::Structure);
}

#[test]
fn s9_3_structural_to_skip() {
    assert_eq!(HintTier::Structure.next(), HintTier::SkipAvailable);
}

#[test]
fn s9_4_skip_stays_at_skip() {
    assert_eq!(HintTier::SkipAvailable.next(), HintTier::SkipAvailable);
}

#[test]
fn s9_5_tier_numbers() {
    assert_eq!(HintTier::NoHint.tier_number(), 0);
    assert_eq!(HintTier::Concept.tier_number(), 1);
    assert_eq!(HintTier::Structure.tier_number(), 2);
    assert_eq!(HintTier::SkipAvailable.tier_number(), 3);
}

#[test]
fn wrong_answer_diffs_against_closest_canonical_answer() {
    let c = make_challenge(&["a", "b"], vec![vec!["x", "y", "z"]]);
    assert_eq!(
        validate_answer(&sv(&["x", "y"]), &c),
        ValidationResult::Wrong(vec![
            TokenDiff::Match(s("x")),
            TokenDiff::Match(s("y")),
            TokenDiff::Missing(s("z")),
        ])
    );
}

#[test]
fn wrong_answer_ties_go_to_primary_answer() {
    let c = make_challenge(&["a", "b"], vec![vec!["a", "c"]]);
    assert_eq!(
        validate_answer(&sv(&["a", "d"]), &c),
        ValidationResult::Wrong(vec![
            TokenDiff::Match(s("a")),
            TokenDiff::Wrong { got: s("d"), expected: s("b") },
        ])
    );
}

#[test]
fn coming_soon_pack_is_not_handed_out() {
    let rust = rust_pack();
    let mut go = rust_pack();
    go.metadata.id = s("go");
    go.metadata.status = LanguageStatus::ComingSoon;
    let reg = LanguagePackRegistry::from_embedded(vec![(s("rust"), Ok(rust)), (s("go"), Ok(go))]).unwrap();
    assert_eq!(reg.pack_count(), 2);
    assert!(reg.get_pack("go").is_none());
    assert!(reg.get_pack("rust").is_some());
    assert_eq!(reg.list_languages().len(), 2);
}

#[test]
fn later_pack_under_one_id_replaces_earlier() {
    let mut first = rust_pack();
    first.metadata.display_name = s("First");
    let mut second = rust_pack();
    second.metadata.display_name = s("Second");
    let reg = LanguagePackRegistry::from_embedded(vec![(s("rust"), Ok(first)), (s("rust"), Ok(second))]).unwrap();
    assert_eq!(reg.get_pack("rust").unwrap().metadata.display_name, "Second");
    assert!(reg.get_pack("go").is_none());
}

#[test]
fn equally_long_rules_leave_the_later_in_force() {
    let rules = vec![
        ContextRule { after_tokens: sv(&["let"]), highlight_groups: sv(&["a"]), dim_groups: sv(&["b"]) },
        ContextRule { after_tokens: sv(&["let"]), highlight_groups: sv(&["b"]), dim_groups: sv(&["a"]) },
    ];
    let states = evaluate_context(&sv(&["let"]), &rules, &sv(&["a", "b"]));
    assert_eq!(states, vec![
        ChipGroupState { group_name: s("a"), is_highlighted: false },
        ChipGroupState { group_name: s("b"), is_highlighted: true },
    ]);
    let none = evaluate_context(&sv(&["fn"]), &rules, &sv(&["a", "b"]));
    assert!(none.iter().all(|g| g.is_highlighted));
}
