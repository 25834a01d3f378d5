use marauders::code::Code;
use marauders::errors::Error;
use marauders::languages::Language;
use marauders::project::{Project, ProjectFile};
use marauders::syntax::comment::parse_code;

fn file(path: &str, text: &str) -> ProjectFile {
    let spans = parse_code(text, &Language::Rocq).unwrap();
    ProjectFile {
        path: path.to_string(),
        code: Code::new(Language::Rocq, spans, path.to_string()),
    }
}

fn sample_project() -> Project {
    let text_a = "(*! insert [easy] *)
base a
(*!! insert_1 *)
(*!
alt a1
*)
(*!! insert_2 *)
(*!
alt a2
*)
(* !*)
";
    let text_b = "(*! delete [easy] *)
base b
(*!! delete_1 *)
(*!
alt b1
*)
(* !*)
";
    Project {
        root: "test".to_string(),
        files: vec![file("test/a.v", text_a), file("test/b.v", text_b)],
    }
}

#[test]
fn maps_and_variant_lists() {
    let project = sample_project();
    let tags = project.tag_map();
    assert_eq!(
        tags.entries,
        vec![(
            "easy".to_string(),
            vec!["insert".to_string(), "delete".to_string()]
        )]
    );
    let variations = project.variation_map();
    assert_eq!(
        variations.entries,
        vec![
            (
                "insert".to_string(),
                vec!["insert_1".to_string(), "insert_2".to_string()]
            ),
            ("delete".to_string(), vec!["delete_1".to_string()]),
        ]
    );
    assert_eq!(
        project.all_variants(),
        vec![
            "insert_1".to_string(),
            "insert_2".to_string(),
            "delete_1".to_string(),
        ]
    );
    assert!(project.active_variants().is_empty());
}

#[test]
fn set_and_reset_track_active_variants() {
    let mut project = sample_project();
    project.set("insert_2").unwrap();
    assert_eq!(project.active_variants(), vec!["insert_2".to_string()]);
    project.set("delete_1").unwrap();
    assert_eq!(
        project.active_variants(),
        vec!["insert_2".to_string(), "delete_1".to_string()]
    );
    project.reset();
    assert!(project.active_variants().is_empty());
}

#[test]
fn set_of_unknown_name_is_a_no_op() {
    let mut project = sample_project();
    assert!(project.set("ghost").is_ok());
    assert!(project.active_variants().is_empty());
}

#[test]
fn set_of_active_variant_is_refused() {
    let mut project = sample_project();
    project.set("insert_1").unwrap();
    assert_eq!(project.set("insert_1"), Err(Error::VariantAlreadyActive));
}

#[test]
fn ambiguous_name_is_refused() {
    let text = "(*! v *)
base
(*!! twin *)
(*!
alt
*)
(* !*)
";
    let mut project = Project {
        root: "test".to_string(),
        files: vec![file("test/x.v", text), file("test/y.v", text)],
    };
    assert_eq!(
        project.set("twin"),
        Err(Error::AmbiguousVariantName {
            variant: "twin".to_string()
        })
    );
    assert!(project.active_variants().is_empty());
}

#[test]
fn set_many_applies_in_order() {
    let mut project = sample_project();
    project
        .set_many(&vec!["insert_1".to_string(), "delete_1".to_string()])
        .unwrap();
    assert_eq!(
        project.active_variants(),
        vec!["insert_1".to_string(), "delete_1".to_string()]
    );
}

#[test]
fn plan_tests_expands_the_expression() {
    let project = sample_project();
    let plans = project.plan_tests("+easy").unwrap();
    assert_eq!(
        plans,
        vec![
            vec!["insert_1".to_string()],
            vec!["insert_2".to_string()],
            vec!["delete_1".to_string()],
        ]
    );
}

#[test]
fn plan_tests_requires_a_clean_project() {
    let mut project = sample_project();
    project.set("insert_1").unwrap();
    assert_eq!(project.plan_tests("+easy"), Err(Error::Precondition));
}

#[test]
fn distributivity_on_concrete_values() {
    // (a + b) * c yields the expansions of a * c followed by b * c.
    let project = sample_project();
    let plans = project
        .plan_tests("(insert_1 + insert_2) * delete_1")
        .unwrap();
    assert_eq!(
        plans,
        vec![
            vec!["insert_1".to_string(), "delete_1".to_string()],
            vec!["insert_2".to_string(), "delete_1".to_string()],
        ]
    );
}

#[test]
fn default_config_is_empty_with_gitignore() {
    let cfg = marauders::project::ProjectConfig::default();
    assert!(cfg.languages.is_empty());
    assert!(cfg.ignore.is_empty());
    assert!(cfg.use_gitignore);
    assert!(cfg.custom_languages.is_empty());
}
