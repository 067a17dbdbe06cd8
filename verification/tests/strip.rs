use untest::paths::{plan_entry, EntryAction};
use untest::model::{expr_contains_test, get_item_attrs, has_cfg_test, CfgExpr};
use untest::removal::apply_line_removals;
use untest::syntax::{attr_model, expr_model, item_model, strip_test_file};

fn attribute(text: &str) -> syn::Attribute {
    let mut attrs = syn::parse::Parser::parse_str(syn::Attribute::parse_outer, text).unwrap();
    assert_eq!(attrs.len(), 1);
    attrs.remove(0)
}

fn expr(text: &str) -> CfgExpr {
    let e: syn::Expr = syn::parse_str(text).unwrap();
    expr_model(&e)
}

#[test]
fn test_strip_simple_test_fn() {
    let input = r#"fn production_code() {}

#[test]
fn test_something() {
    assert!(true);
}
"#;
    let output = strip_test_file(input).unwrap();
    assert_eq!(output, "fn production_code() {}\n");
}

#[test]
fn test_strip_cfg_test_mod() {
    let input = r#"fn production_code() {}

#[cfg(test)]
mod tests {
    #[test]
    fn test_foo() {}
}
"#;
    let output = strip_test_file(input).unwrap();
    assert_eq!(output, "fn production_code() {}\n");
}

#[test]
fn test_preserve_production_code() {
    let input = r#"fn main() {
    println!("Hello, world!");
}

#[cfg(test)]
mod tests {
    #[test]
    fn it_works() {
        assert_eq!(2 + 2, 4);
    }
}

fn another_func() {}
"#;
    let output = strip_test_file(input).unwrap();
    assert_eq!(
        output,
        "fn main() {\n    println!(\"Hello, world!\");\n}\n\n\nfn another_func() {}\n"
    );
}

#[test]
fn test_apply_line_removals() {
    let content = "line1\nline2\n#[test]\nfn test() {\n}\nline6";
    let lines_to_remove = vec![(4, 5)];
    let result = apply_line_removals(content, &lines_to_remove);
    assert_eq!(result, "line1\nline2\nline6");
}

#[test]
fn test_expr_contains_test() {
    assert!(expr_contains_test(&expr("test")));
    assert!(expr_contains_test(&expr("(test)")));
    assert!(expr_contains_test(&expr("all(unix, test)")));
    assert!(expr_contains_test(&expr("any(windows, test)")));
    assert!(expr_contains_test(&expr("not(test)")));
    assert!(!expr_contains_test(&expr("debug_assertions")));
}

#[test]
fn test_has_cfg_test() {
    assert!(has_cfg_test(&[attr_model(&attribute("#[test]"))]));
    assert!(has_cfg_test(&[attr_model(&attribute("#[cfg(test)]"))]));
    assert!(has_cfg_test(&[attr_model(&attribute(
        "#[cfg(all(feature = \"foo\", test))]"
    ))]));
    assert!(has_cfg_test(&[attr_model(&attribute(
        "#[cfg_attr(feature = \"bar\", test)]"
    ))]));
    assert!(!has_cfg_test(&[attr_model(&attribute("#[derive(Debug)]"))]));
}

#[test]
fn test_strip_cfg_attr() {
    let input = r#"#[cfg_attr(feature = "magic", test)]
fn magic_test() {}

fn prod() {}
"#;
    let output = strip_test_file(input).unwrap();
    assert_eq!(output, "fn prod() {}\n");
}

#[test]
fn test_get_item_attrs() {
    let item: syn::Item = syn::parse_str("#[must_use]\nfn foo() {}").unwrap();
    let model = item_model(&item, 0);
    let attrs = get_item_attrs(&model).unwrap();
    assert_eq!(attrs.len(), 1);
    assert_eq!(attrs[0].ident.as_deref(), Some("must_use"));

    let item: syn::Item = syn::parse_str("#[derive(Debug)]\nstruct Bar;").unwrap();
    let model = item_model(&item, 0);
    let attrs = get_item_attrs(&model).unwrap();
    assert_eq!(attrs.len(), 1);
    assert_eq!(attrs[0].ident.as_deref(), Some("derive"));
}

fn replace_until_settled(text: &str) -> String {
    let mut result = text.to_string();
    while result.contains("\n\n\n\n") {
        result = result.replace("\n\n\n\n", "\n\n");
    }
    result
}

#[test]
fn collapses_long_blank_runs_like_repeated_replace() {
    for n in 0..12 {
        let content = format!("a{}b\n", "\n".repeat(n));
        let expected = replace_until_settled(&content);
        assert_eq!(apply_line_removals(&content, &[]), expected);
    }
    assert_eq!(apply_line_removals("a\n\n\n\n\nb\n", &[]), "a\n\n\nb\n");
    assert_eq!(apply_line_removals("a\n\n\n\n\n\nb\n", &[]), "a\n\nb\n");
}

#[test]
fn keeps_final_newline_and_drops_leading_blank_lines() {
    assert_eq!(apply_line_removals("\n\nfoo\n", &[]), "foo\n");
    assert_eq!(apply_line_removals("foo\n\n", &[]), "foo\n");
    assert_eq!(apply_line_removals("foo", &[]), "foo");
    assert_eq!(apply_line_removals("", &[]), "");
    assert_eq!(apply_line_removals("\n", &[]), "\n");
}

#[test]
fn carriage_returns_before_newlines_are_dropped() {
    assert_eq!(apply_line_removals("a\r\nb\r\n", &[]), "a\nb\n");
    assert_eq!(apply_line_removals("a\r", &[]), "a\r");
}

#[test]
fn removal_takes_attribute_lines_above_the_range() {
    let content = "x\n#[cfg(test)]\n\n  #[allow(dead_code)]\nmod t {\n}\ny\n";
    assert_eq!(apply_line_removals(content, &[(5, 6)]), "x\ny\n");
}

#[test]
fn removal_of_separate_ranges_keeps_lines_outside_them() {
    let content = "1\n2\n3\n4\n5\n6\n7\n";
    assert_eq!(apply_line_removals(content, &[(2, 3), (5, 6)]), "1\n4\n7\n");
    assert_eq!(apply_line_removals(content, &[(1, 1)]), "2\n3\n4\n5\n6\n7\n");
    assert_eq!(apply_line_removals(content, &[(6, 100)]), "1\n2\n3\n4\n5\n");
}

#[test]
fn first_range_with_a_start_line_wins() {
    let content = "1\n2\n3\n4\n5\n";
    assert_eq!(apply_line_removals(content, &[(2, 2), (2, 4)]), "1\n3\n4\n5\n");
}

#[test]
fn whole_file_of_tests_leaves_a_newline() {
    let input = "#[test]\nfn t() {}\n";
    assert_eq!(strip_test_file(input).unwrap(), "\n");
}

#[test]
fn invalid_rust_is_an_error() {
    assert!(strip_test_file("fn (").is_err());
    assert!(strip_test_file("").is_ok());
}

#[test]
fn cfg_not_test_and_binary_predicates_count_as_test() {
    assert!(expr_contains_test(&expr("a || test")));
    assert!(!expr_contains_test(&expr("foo(test)")));
    assert!(!expr_contains_test(&expr("a::test")));
    let input = "#[cfg(not(test))]\nfn real() {}\nfn kept() {}\n";
    assert_eq!(strip_test_file(input).unwrap(), "fn kept() {}\n");
}

#[test]
fn cfg_attr_counts_only_the_token_test() {
    assert!(!has_cfg_test(&[attr_model(&attribute(
        "#[cfg_attr(feature = \"testing\", derive(Debug))]"
    ))]));
    assert!(!has_cfg_test(&[attr_model(&attribute(
        "#[cfg_attr(feature = \"test-utils\", derive(Debug))]"
    ))]));
    assert!(!has_cfg_test(&[attr_model(&attribute(
        "#[cfg_attr(testing, derive(Debug))]"
    ))]));
    assert!(has_cfg_test(&[attr_model(&attribute(
        "#[cfg_attr(all(unix, test), allow(dead_code))]"
    ))]));
    assert!(!has_cfg_test(&[attr_model(&attribute(
        "#[cfg_attr(feature = \"x\", derive(Debug))]"
    ))]));
    assert!(!has_cfg_test(&[attr_model(&attribute("#[doc = \"test\"]"))]));
}

#[test]
fn verbatim_items_have_no_attribute_list() {
    let file = syn::parse_file("fn a() {}\n#[test]\nfn b() {}\n").unwrap();
    let models = untest::syntax::file_model(&file, usize::MAX);
    assert_eq!(models.len(), 2);
    assert_eq!(models[1].start_line, 2);
    assert_eq!(models[1].end_line, 3);
    let ranges = untest::model::get_lines_to_remove(&models);
    assert_eq!(ranges, vec![(2, 3)]);
}

#[test]
fn rust_file_entry_is_stripped_and_other_files_copied() {
    assert_eq!(plan_entry("/tmp/input/lib.rs", false), EntryAction::StripTests);
    assert_eq!(
        strip_test_file("fn prod() {}\n#[test]\nfn t() {}").unwrap(),
        "fn prod() {}"
    );
    assert_eq!(plan_entry("/tmp/input/README.md", false), EntryAction::CopyFile);
}

#[test]
fn attribute_lines_above_a_later_range_go_after_an_earlier_removal() {
    let content = "a\nb\nc\n#[x]\nd\ne\n";
    assert_eq!(apply_line_removals(content, &[(2, 2), (5, 5)]), "a\nc\ne\n");
    assert_eq!(apply_line_removals(content, &[(5, 5)]), "a\nb\nc\ne\n");
    let two = "fn a() {}\n#[test]\nfn t1() {}\n#[inline]\n#[test]\nfn t2() {}\nfn b() {}\n";
    assert_eq!(apply_line_removals(two, &[(3, 3), (6, 6)]), "fn a() {}\nfn b() {}\n");
}

#[test]
fn test_items_inside_modules_are_stripped() {
    let input = "mod foo {\n    #[test]\n    fn t() {}\n}\n";
    let output = strip_test_file(input).unwrap();
    assert_eq!(output, "mod foo {\n}\n");

    let input = "mod a {\n    fn keep() {}\n    mod b {\n        #[cfg(test)]\n        fn helper() {}\n    }\n}\n";
    let output = strip_test_file(input).unwrap();
    assert_eq!(output, "mod a {\n    fn keep() {}\n    mod b {\n    }\n}\n");
}

#[test]
fn inner_attributes_above_a_test_item_are_kept() {
    let input = "#![allow(dead_code)]\n\n#[cfg(test)]\nmod tests {}\n";
    let output = strip_test_file(input).unwrap();
    assert_eq!(output, "#![allow(dead_code)]\n");
}

#[test]
fn nested_models_follow_the_depth() {
    let item: syn::Item = syn::parse_str("mod m {\n    #[test]\n    fn t() {}\n}").unwrap();
    assert_eq!(item_model(&item, 0).children.len(), 0);
    let model = item_model(&item, 1);
    assert_eq!(model.children.len(), 1);
    assert_eq!(untest::model::get_lines_to_remove(&[model]), vec![(2, 3)]);
}

#[test]
fn an_item_line_with_an_attribute_is_not_an_attribute_line() {
    let content = "#[inline] fn a() {}\n#[test]\nfn t() {}\n";
    assert_eq!(apply_line_removals(content, &[(3, 3)]), "#[inline] fn a() {}\n");
    let input = "#[inline] fn a() {}\n#[test]\nfn t() {}\n";
    assert_eq!(strip_test_file(input).unwrap(), "#[inline] fn a() {}\n");
    let spaced = "  #[cfg(test)]  \n\nfn t() {}\nfn b() {}\n";
    assert_eq!(apply_line_removals(spaced, &[(3, 3)]), "fn b() {}\n");
}
