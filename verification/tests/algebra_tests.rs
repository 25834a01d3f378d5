use marauders::algebra::{Expr, NameMap, Parser};
use marauders::errors::Error;

#[test]
fn test_simple_expr() {
    let input = "a + b * c";
    let mut parser = Parser::new(input).unwrap();
    let expr = parser.parse().unwrap();
    assert_eq!(
        expr,
        Expr::Sum(
            Box::new(Expr::Id("a".to_string())),
            Box::new(Expr::Product(
                Box::new(Expr::Id("b".to_string())),
                Box::new(Expr::Id("c".to_string()))
            ))
        )
    );
}

#[test]
fn test_nested_expr() {
    let input = "a + ((b * c) + d)";
    let mut parser = Parser::new(input).unwrap();
    let expr = parser.parse().unwrap();
    assert_eq!(
        expr,
        Expr::Sum(
            Box::new(Expr::Id("a".to_string())),
            Box::new(Expr::Sum(
                Box::new(Expr::Product(
                    Box::new(Expr::Id("b".to_string())),
                    Box::new(Expr::Id("c".to_string()))
                )),
                Box::new(Expr::Id("d".to_string()))
            ))
        )
    );
}

#[test]
fn test_complex_names() {
    let input = "a1 + b_2 * c3";
    let mut parser = Parser::new(input).unwrap();
    let expr = parser.parse().unwrap();
    assert_eq!(
        expr,
        Expr::Sum(
            Box::new(Expr::Id("a1".to_string())),
            Box::new(Expr::Product(
                Box::new(Expr::Id("b_2".to_string())),
                Box::new(Expr::Id("c3".to_string()))
            ))
        )
    );
}

#[test]
fn test_unary_expr() {
    let input = "+easy * insert";
    let mut parser = Parser::new(input).unwrap();
    let expr = parser.parse().unwrap();
    assert_eq!(
        expr,
        Expr::Product(
            Box::new(Expr::USum("easy".to_string())),
            Box::new(Expr::Id("insert".to_string()))
        )
    );
}

#[test]
fn test_unary_expr_paren() {
    let input = "+easy * (insert + delete)";
    let mut parser = Parser::new(input).unwrap();
    let expr = parser.parse().unwrap();
    assert_eq!(
        expr,
        Expr::Product(
            Box::new(Expr::USum("easy".to_string())),
            Box::new(Expr::Sum(
                Box::new(Expr::Id("insert".to_string())),
                Box::new(Expr::Id("delete".to_string()))
            ))
        )
    );
}

#[test]
fn test_distribute_tags() {
    let input = "+easy * (insert + delete)";
    let mut parser = Parser::new(input).unwrap();
    let expr = parser.parse().unwrap();
    let mut tag_map = NameMap::new();
    tag_map.add("easy", "a".to_string());
    tag_map.add("easy", "b".to_string());
    let mut variation_map = NameMap::new();
    variation_map.add("insert", "insert_1".to_string());
    variation_map.add("insert", "insert_2".to_string());
    variation_map.add("delete", "delete_1".to_string());
    variation_map.add("delete", "delete_2".to_string());

    let variant_list = vec![
        "a".to_string(),
        "b".to_string(),
        "insert_1".to_string(),
        "insert_2".to_string(),
        "delete_1".to_string(),
        "delete_2".to_string(),
    ];
    let sum_of_products = expr
        .into_sum_of_products(&tag_map, &variation_map, &variant_list)
        .unwrap();
    assert_eq!(
        sum_of_products,
        vec![
            vec!["a".to_string(), "insert_1".to_string()],
            vec!["a".to_string(), "insert_2".to_string()],
            vec!["a".to_string(), "delete_1".to_string()],
            vec!["a".to_string(), "delete_2".to_string()],
            vec!["b".to_string(), "insert_1".to_string()],
            vec!["b".to_string(), "insert_2".to_string()],
            vec!["b".to_string(), "delete_1".to_string()],
            vec!["b".to_string(), "delete_2".to_string()],
        ]
    );
}

#[test]
fn test_scenario_sum_of_products() {
    // "a + b * c" expands, with empty indices, to [[a], [b, c]].
    let mut parser = Parser::new("a + b * c").unwrap();
    let expr = parser.parse().unwrap();
    let tag_map = NameMap::new();
    let variation_map = NameMap::new();
    let variant_list = vec!["a".to_string(), "b".to_string(), "c".to_string()];
    let out = expr
        .into_sum_of_products(&tag_map, &variation_map, &variant_list)
        .unwrap();
    assert_eq!(
        out,
        vec![
            vec!["a".to_string()],
            vec!["b".to_string(), "c".to_string()],
        ]
    );
}

#[test]
fn test_unknown_variant_rejected() {
    // A name absent from the variant list fails with UnknownVariant.
    let mut parser = Parser::new("ghost").unwrap();
    let expr = parser.parse().unwrap();
    let tag_map = NameMap::new();
    let variation_map = NameMap::new();
    let variant_list = vec!["a".to_string(), "b".to_string()];
    let err = expr
        .into_sum_of_products(&tag_map, &variation_map, &variant_list)
        .unwrap_err();
    assert_eq!(
        err,
        Error::UnknownVariant {
            variant: "ghost".to_string()
        }
    );
}

#[test]
fn test_tag_with_no_members_rejected() {
    let mut parser = Parser::new("+lonely").unwrap();
    let expr = parser.parse().unwrap();
    let tag_map = NameMap::new();
    let variation_map = NameMap::new();
    let variant_list = vec!["a".to_string()];
    let err = expr
        .into_sum_of_products(&tag_map, &variation_map, &variant_list)
        .unwrap_err();
    assert_eq!(
        err,
        Error::TagHasNoMembers {
            tag: "lonely".to_string()
        }
    );
}

#[test]
fn test_empty_parens_are_an_error() {
    let mut parser = Parser::new("()").unwrap();
    assert!(parser.parse().is_err());
}

#[test]
fn test_unexpected_character_is_an_error() {
    assert!(Parser::new("a % b").is_err());
}

#[test]
fn test_product_of_sums_order() {
    // (x + y) * (u + w) expands row-major: the left operand is the outer loop.
    let mut parser = Parser::new("(x + y) * (u + w)").unwrap();
    let expr = parser.parse().unwrap();
    let tag_map = NameMap::new();
    let variation_map = NameMap::new();
    let variant_list = vec![
        "x".to_string(),
        "y".to_string(),
        "u".to_string(),
        "w".to_string(),
    ];
    let out = expr
        .into_sum_of_products(&tag_map, &variation_map, &variant_list)
        .unwrap();
    assert_eq!(
        out,
        vec![
            vec!["x".to_string(), "u".to_string()],
            vec!["x".to_string(), "w".to_string()],
            vec!["y".to_string(), "u".to_string()],
            vec!["y".to_string(), "w".to_string()],
        ]
    );
}

#[test]
fn test_variation_name_expands_to_its_variants() {
    // A bare identifier naming a variation becomes the sum of its variants.
    let mut parser = Parser::new("insert").unwrap();
    let expr = parser.parse().unwrap();
    let tag_map = NameMap::new();
    let mut variation_map = NameMap::new();
    variation_map.add("insert", "insert_1".to_string());
    variation_map.add("insert", "insert_2".to_string());
    let variant_list = vec!["insert_1".to_string(), "insert_2".to_string()];
    let out = expr
        .into_sum_of_products(&tag_map, &variation_map, &variant_list)
        .unwrap();
    assert_eq!(
        out,
        vec![
            vec!["insert_1".to_string()],
            vec!["insert_2".to_string()],
        ]
    );
}
