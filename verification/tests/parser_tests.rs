use marauders::code::Code;
use marauders::code::SpanContent;
use marauders::errors::Error;
use marauders::languages::Language;
use marauders::syntax::comment::parse_code;
use marauders::variation::VariantBody;

const ROCQ_SAMPLE: &str = "Fixpoint delete (k: nat) (t: Tree) :=
  match t with
  | E => E
  | T l k' v' r =>
  (*! *)
  if k <? k' then T (delete k l) k' v' r
  else join l r
  (*!! delete_4 *)
  (*!
  if k <? k' then delete k l
  else join l r
  *)
  (*!! delete_5 *)
  (*!
  if k' <? k then T (delete k l) k' v' r
  else join l r
  *)
  (* !*)
  end.";

#[test]
fn parses_spans_and_structure() {
    let spans = parse_code(ROCQ_SAMPLE, &Language::Rocq).unwrap();
    assert_eq!(spans.len(), 3);
    match &spans[0].content {
        SpanContent::Line(t) => {
            assert!(t.starts_with("Fixpoint delete"));
        }
        SpanContent::Variation(_) => panic!("expected plain text first"),
    }
    match &spans[1].content {
        SpanContent::Variation(v) => {
            assert_eq!(v.name, None);
            assert_eq!(v.tags, Vec::<String>::new());
            assert_eq!(v.active, 0);
            assert_eq!(v.variants.len(), 2);
            assert_eq!(v.variants[0].name, "delete_4");
            assert_eq!(v.variants[1].name, "delete_5");
            assert_eq!(
                v.base.lines(),
                vec![
                    "  if k <? k' then T (delete k l) k' v' r".to_string(),
                    "  else join l r".to_string(),
                ]
            );
            assert_eq!(
                v.variants[0].lines(),
                vec![
                    "  if k <? k' then delete k l".to_string(),
                    "  else join l r".to_string(),
                ]
            );
        }
        SpanContent::Line(_) => panic!("expected a variation"),
    }
    assert_eq!(spans[0].line, 1);
    assert_eq!(spans[1].line, 5);
    // header + 2 base lines + 2 * (header + begin + 2 lines + end) + end marker
    assert_eq!(spans[2].line, 5 + 14);
}

#[test]
fn round_trip_preserves_bytes() {
    // The round-trip law on a concrete input: serialize(parse(t)) == t.
    let spans = parse_code(ROCQ_SAMPLE, &Language::Rocq).unwrap();
    let code = Code::new(Language::Rocq, spans, "sample.v".to_string());
    assert_eq!(code.to_text(), ROCQ_SAMPLE.to_string());
}

#[test]
fn round_trip_is_structural() {
    // parse(serialize(parse(t))) == parse(t).
    let spans = parse_code(ROCQ_SAMPLE, &Language::Rocq).unwrap();
    let code = Code::new(Language::Rocq, spans, "sample.v".to_string());
    let text = code.to_text();
    let spans2 = parse_code(&text, &Language::Rocq).unwrap();
    assert_eq!(code.spans.len(), spans2.len());
    for (a, b) in code.spans.iter().zip(spans2.iter()) {
        assert_eq!(a, b);
    }
}

#[test]
fn rust_marker_round_trip() {
    let text = "fn add(a: i32, b: i32) -> i32 {
    /*| add_variation */
    a + b
    /*|| add_mutation_1 */
    /*|
    a - b
    */
    /* |*/
}
";
    let spans = parse_code(text, &Language::Rust).unwrap();
    assert_eq!(spans.len(), 3);
    match &spans[1].content {
        SpanContent::Variation(v) => {
            assert_eq!(v.name, Some("add_variation".to_string()));
            assert_eq!(v.active, 0);
            assert_eq!(v.variants.len(), 1);
            assert_eq!(v.variants[0].name, "add_mutation_1");
        }
        SpanContent::Line(_) => panic!("expected a variation"),
    }
    let code = Code::new(Language::Rust, spans, "sample.rs".to_string());
    assert_eq!(code.to_text(), text.to_string());
}

#[test]
fn header_names_and_tags_parse() {
    let text = "(*! insert [new, easy] *)
base line
(*!! insert_1 *)
(*!
alternative
*)
(* !*)
";
    let spans = parse_code(text, &Language::Rocq).unwrap();
    match &spans[0].content {
        SpanContent::Variation(v) => {
            assert_eq!(v.name, Some("insert".to_string()));
            assert_eq!(v.tags, vec!["new".to_string(), "easy".to_string()]);
        }
        SpanContent::Line(_) => panic!("expected a variation"),
    }
    let code = Code::new(Language::Rocq, spans, "sample.v".to_string());
    assert_eq!(code.to_text(), text.to_string());
}

#[test]
fn active_variant_is_detected() {
    // The variant is bare, the base is wrapped: the variant is active.
    let text = "(*! v *)
(*!
base line
*)
(*!! alt *)
alt line
(* !*)
";
    let spans = parse_code(text, &Language::Rocq).unwrap();
    match &spans[0].content {
        SpanContent::Variation(v) => {
            assert_eq!(v.active, 1);
            assert!(matches!(v.variants[0].body, VariantBody::Active { .. }));
        }
        SpanContent::Line(_) => panic!("expected a variation"),
    }
    let code = Code::new(Language::Rocq, spans, "sample.v".to_string());
    assert_eq!(code.to_text(), text.to_string());
}

#[test]
fn zero_active_bodies_are_rejected() {
    // Both the base and the only variant are wrapped: nothing is active.
    let text = "(*! v *)
(*!
base line
*)
(*!! alt *)
(*!
alt line
*)
(* !*)
";
    assert!(parse_code(text, &Language::Rocq).is_err());
}

#[test]
fn two_active_bodies_are_rejected() {
    let text = "(*! v *)
base line
(*!! alt *)
alt line
(* !*)
";
    let err = parse_code(text, &Language::Rocq).unwrap_err();
    assert!(matches!(err, Error::Grammar { .. }));
}

#[test]
fn unterminated_region_is_rejected() {
    let text = "(*! v *)
base line
";
    assert!(parse_code(text, &Language::Rocq).is_err());
}

#[test]
fn plain_text_always_parses() {
    let text = "no markers here\njust code\n";
    let spans = parse_code(text, &Language::Rocq).unwrap();
    assert_eq!(spans.len(), 1);
    match &spans[0].content {
        SpanContent::Line(t) => assert_eq!(t, text),
        SpanContent::Variation(_) => panic!("expected plain text"),
    }
}

#[test]
fn activation_changes_serialization() {
    let spans = parse_code(ROCQ_SAMPLE, &Language::Rocq).unwrap();
    let mut code = Code::new(Language::Rocq, spans, "sample.v".to_string());
    code.set_active_variant(1, 1).unwrap();
    let text = code.to_text();
    assert!(text.contains("(*!\n  if k <? k' then T (delete k l) k' v' r"));
    // The newly active variant's body is bare.
    assert!(text.contains("(*!! delete_4 *)\n  if k <? k' then delete k l"));
}

#[test]
fn activation_is_idempotent_in_output() {
    // Activating the same index twice leaves the serialized text unchanged
    // after the first call.
    let spans = parse_code(ROCQ_SAMPLE, &Language::Rocq).unwrap();
    let mut code = Code::new(Language::Rocq, spans, "sample.v".to_string());
    code.set_active_variant(1, 2).unwrap();
    let once = code.to_text();
    // A second activation of the same variant is refused as a no-op ...
    assert!(code.set_active_variant(1, 2).is_err());
    // ... and the text is unchanged.
    assert_eq!(code.to_text(), once);
}

#[test]
fn activate_and_reset_restores_bytes() {
    let spans = parse_code(ROCQ_SAMPLE, &Language::Rocq).unwrap();
    let mut code = Code::new(Language::Rocq, spans, "sample.v".to_string());
    code.set_active_variant(1, 1).unwrap();
    code.set_active_variant(1, 0).unwrap();
    assert_eq!(code.to_text(), ROCQ_SAMPLE.to_string());
}

#[test]
fn exactly_one_active_after_activation() {
    let spans = parse_code(ROCQ_SAMPLE, &Language::Rocq).unwrap();
    let mut code = Code::new(Language::Rocq, spans, "sample.v".to_string());
    code.set_active_variant(1, 2).unwrap();
    match &code.spans[1].content {
        SpanContent::Variation(v) => {
            let mut actives = 0;
            if v.base.is_active() {
                actives += 1;
            }
            for var in &v.variants {
                if var.is_active() {
                    actives += 1;
                }
            }
            assert_eq!(actives, 1);
            assert_eq!(v.active, 2);
        }
        SpanContent::Line(_) => panic!("expected a variation"),
    }
}

#[test]
fn out_of_range_activation_is_rejected() {
    let spans = parse_code(ROCQ_SAMPLE, &Language::Rocq).unwrap();
    let mut code = Code::new(Language::Rocq, spans, "sample.v".to_string());
    assert_eq!(code.set_active_variant(1, 3), Err(Error::IndexOutOfRange));
    assert_eq!(code.set_active_variant(0, 1), Err(Error::IndexOutOfRange));
    assert_eq!(code.set_active_variant(9, 1), Err(Error::IndexOutOfRange));
}

#[test]
fn line_accounting_formula() {
    // A base of 3 lines and two variants of 3 lines each count as
    // 1 + 3 + (1 + 3) * 2 + 1 = 13 lines.
    let text = "(*! v *)
b1
b2
b3
(*!! alt_one *)
(*!
x1
x2
x3
*)
(*!! alt_two *)
(*!
y1
y2
y3
*)
(* !*)
";
    let spans = parse_code(text, &Language::Rocq).unwrap();
    match &spans[0].content {
        SpanContent::Variation(v) => {
            assert_eq!(v.count_lines(), 13);
        }
        SpanContent::Line(_) => panic!("expected a variation"),
    }
}

#[test]
fn language_profile_lookups() {
    assert_eq!(
        Language::extension_to_language("rs", &Vec::new()),
        Some(Language::Rust)
    );
    assert_eq!(
        Language::extension_to_language("v", &Vec::new()),
        Some(Language::Rocq)
    );
    assert_eq!(Language::extension_to_language("xyz", &Vec::new()), None);
    assert_eq!(
        Language::name_to_language("RuSt", &Vec::new()),
        Some(Language::Rust)
    );
    assert_eq!(
        Language::name_to_language("ocaml", &Vec::new()),
        Some(Language::OCaml)
    );
    assert_eq!(Language::name_to_language("klingon", &Vec::new()), None);
    assert_eq!(Language::Rust.comment_begin(), "/*".to_string());
    assert_eq!(Language::Rust.comment_end(), "*/".to_string());
    assert_eq!(Language::Rust.mutation_marker(), "|");
    assert_eq!(Language::Rocq.mutation_marker(), "!");
    assert_eq!(Language::Haskell.file_extension(), "hs");
}

#[test]
fn derived_marker_tokens() {
    assert_eq!(Language::Rocq.variation_begin("v "), "(*! v *)".to_string());
    assert_eq!(Language::Rocq.variation_end(), "(* !*)".to_string());
    assert_eq!(Language::Rocq.variant_header_begin(), "(*!!".to_string());
    assert_eq!(Language::Rocq.variant_header_end(), "*)".to_string());
    assert_eq!(Language::Rocq.variant_body_begin(), "(*!".to_string());
    assert_eq!(Language::Rocq.variant_body_end(), "*)".to_string());
}

#[test]
fn detect_language_from_path() {
    assert_eq!(Code::detect_language("src/lib.rs"), Ok(Language::Rust));
    assert_eq!(Code::detect_language("a.b.v"), Ok(Language::Rocq));
    assert_eq!(Code::detect_language("Makefile"), Err(Error::UnsupportedLanguage));
    assert_eq!(Code::detect_language("archive.tar.gz"), Err(Error::UnsupportedLanguage));
}
