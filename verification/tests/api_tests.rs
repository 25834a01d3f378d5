use marauders::api::{
    list_variations, reset_all, set_variant, unset_variant, ApiError, SetResult, VariationInfo,
};
use marauders::code::Code;
use marauders::languages::Language;
use marauders::project::{Project, ProjectFile};
use marauders::syntax::comment::parse_code;

fn sample_project() -> Project {
    let text_a = "start
(*! insert [new, easy] *)
base line
(*!! insert_1 *)
(*!
alt one
*)
(*!! insert_2 *)
(*!
alt two
*)
(* !*)
end
";
    let text_b = "(*! delete *)
del base
(*!! delete_1 *)
(*!
del alt
*)
(* !*)
";
    let spans_a = parse_code(text_a, &Language::Rocq).unwrap();
    let spans_b = parse_code(text_b, &Language::Rocq).unwrap();
    Project {
        root: "test".to_string(),
        files: vec![
            ProjectFile {
                path: "test/a.v".to_string(),
                code: Code::new(Language::Rocq, spans_a, "test/a.v".to_string()),
            },
            ProjectFile {
                path: "test/b.v".to_string(),
                code: Code::new(Language::Rocq, spans_b, "test/b.v".to_string()),
            },
        ],
    }
}

#[test]
fn test_list_variations() {
    let project = sample_project();
    let variations = list_variations(&project);

    // Should find variations in test files
    assert!(!variations.is_empty());

    // Check that each variation has the expected structure
    for info in &variations {
        assert!(info.path.starts_with("test/"));
        assert!(info.line > 0);
    }
    assert_eq!(variations.len(), 2);
    assert_eq!(variations[0].name, Some("insert".to_string()));
    assert_eq!(variations[0].line, 2);
    assert_eq!(
        variations[0].variants,
        vec!["insert_1".to_string(), "insert_2".to_string()]
    );
    assert_eq!(variations[0].tags, vec!["new".to_string(), "easy".to_string()]);
    assert_eq!(variations[0].active, 0);
    assert_eq!(variations[1].name, Some("delete".to_string()));
}

#[test]
fn test_variation_info_structure() {
    let info = VariationInfo {
        path: "test.rs".to_string(),
        line: 10,
        name: Some("my_variation".to_string()),
        variants: vec!["variant_a".to_string(), "variant_b".to_string()],
        active: 0,
        tags: vec!["tag1".to_string()],
    };

    assert_eq!(info.path, "test.rs".to_string());
    assert_eq!(info.line, 10);
    assert_eq!(info.name, Some("my_variation".to_string()));
    assert_eq!(info.variants.len(), 2);
    assert_eq!(info.active, 0);
    assert_eq!(info.tags.len(), 1);
}

#[test]
fn test_set_result_structure() {
    let result = SetResult {
        file: "test.rs".to_string(),
        variation: Some("my_variation".to_string()),
        previous_active: 0,
        new_active: 1,
    };

    assert_eq!(result.file, "test.rs".to_string());
    assert_eq!(result.variation, Some("my_variation".to_string()));
    assert_eq!(result.previous_active, 0);
    assert_eq!(result.new_active, 1);
}

#[test]
fn test_api_error_display() {
    let err = ApiError::VariantNotFound {
        variant: "foo".to_string(),
        available: vec!["bar".to_string(), "baz".to_string()],
    };
    let msg = err.message();
    assert!(msg.contains("foo"));
    assert!(msg.contains("bar"));

    let err = ApiError::AlreadyActive {
        variant: "foo".to_string(),
    };
    let msg = err.message();
    assert!(msg.contains("already active"));
}

#[test]
fn set_variant_activates_and_reports() {
    let mut project = sample_project();
    let result = set_variant(&mut project, "insert_2").unwrap();
    assert_eq!(result.file, "test/a.v".to_string());
    assert_eq!(result.variation, Some("insert".to_string()));
    assert_eq!(result.previous_active, 0);
    assert_eq!(result.new_active, 2);
    let infos = list_variations(&project);
    assert_eq!(infos[0].active, 2);
    assert_eq!(infos[1].active, 0);
}

#[test]
fn set_variant_twice_is_refused() {
    let mut project = sample_project();
    set_variant(&mut project, "insert_1").unwrap();
    let err = set_variant(&mut project, "insert_1").unwrap_err();
    assert_eq!(
        err,
        ApiError::AlreadyActive {
            variant: "insert_1".to_string()
        }
    );
}

#[test]
fn set_variant_unknown_name() {
    let mut project = sample_project();
    let err = set_variant(&mut project, "ghost").unwrap_err();
    match err {
        ApiError::VariantNotFound { variant, available } => {
            assert_eq!(variant, "ghost".to_string());
            assert_eq!(
                available,
                vec![
                    "insert_1".to_string(),
                    "insert_2".to_string(),
                    "delete_1".to_string(),
                ]
            );
        }
        _ => panic!("expected VariantNotFound"),
    }
}

#[test]
fn unset_variant_requires_it_active() {
    let mut project = sample_project();
    let err = unset_variant(&mut project, "insert_1").unwrap_err();
    assert_eq!(
        err,
        ApiError::NotActive {
            variant: "insert_1".to_string()
        }
    );
    set_variant(&mut project, "insert_1").unwrap();
    let result = unset_variant(&mut project, "insert_1").unwrap();
    assert_eq!(result.previous_active, 1);
    assert_eq!(result.new_active, 0);
    let infos = list_variations(&project);
    assert_eq!(infos[0].active, 0);
}

#[test]
fn reset_all_restores_base_everywhere() {
    let mut project = sample_project();
    set_variant(&mut project, "insert_1").unwrap();
    set_variant(&mut project, "delete_1").unwrap();
    let results = reset_all(&mut project).unwrap();
    assert_eq!(results.len(), 2);
    assert_eq!(results[0].variation, Some("insert".to_string()));
    assert_eq!(results[0].previous_active, 1);
    assert_eq!(results[0].new_active, 0);
    assert_eq!(results[1].variation, Some("delete".to_string()));
    for info in list_variations(&project) {
        assert_eq!(info.active, 0);
    }
    // A clean project resets to no changes at all.
    let results = reset_all(&mut project).unwrap();
    assert!(results.is_empty());
}
