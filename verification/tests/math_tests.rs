use waystart::EntryAction;
use waystart::MathFinder;

#[test]
fn implicit_expression_yields_result_entry() {
    let finder = MathFinder::new();
    let list = finder.filtered_entries("2+2").unwrap();
    assert_eq!(list.len(), 1);
    assert_eq!(list[0].0.text, "= 4");
    assert_eq!(list[0].1, u32::MAX);
}

#[test]
fn explicit_division_by_zero_shows_the_error() {
    let finder = MathFinder::new();
    let list = finder.filtered_entries("=1/0").unwrap();
    assert_eq!(list.len(), 1);
    assert!(!list[0].0.text.is_empty());
    assert!(!list[0].0.text.starts_with("= "));
    assert!(!list[0].0.can_favorite());
}

#[test]
fn explicit_prefix_always_answers() {
    let finder = MathFinder::new();
    let list = finder.filtered_entries("=3*7").unwrap();
    assert_eq!(list.len(), 1);
    assert_eq!(list[0].0.text, "= 21");
}

#[test]
fn non_expression_declines() {
    let finder = MathFinder::new();
    assert!(finder.filtered_entries("firefox").is_none());
}

#[test]
fn math_contributes_nothing_by_default() {
    let finder = MathFinder::new();
    assert!(finder.default_entries().is_none());
}

#[test]
fn result_entry_copies_its_value() {
    let finder = MathFinder::new();
    let list = finder.filtered_entries("=10-4").unwrap();
    match &list[0].0.action {
        EntryAction::CopyText { value } => assert_eq!(value, "6"),
        _ => panic!("math entries copy their result"),
    }
}

#[test]
fn expressions_naming_panicking_builtins_are_answered_not_evaluated() {
    let finder = MathFinder::new();
    let list = finder.filtered_entries("=str::substring(\"ä\",0,1)").unwrap();
    assert_eq!(list.len(), 1);
    assert_eq!(list[0].0.text, "unsupported expression");
    let list = finder.filtered_entries("=shl(1,64)").unwrap();
    assert_eq!(list[0].0.text, "unsupported expression");
    let list = finder.filtered_entries("=math::abs(-9223372036854775807-1)").unwrap();
    assert_eq!(list[0].0.text, "unsupported expression");
}

#[test]
fn implicit_queries_naming_panicking_builtins_decline() {
    let finder = MathFinder::new();
    assert!(finder.filtered_entries("shr(4,1)").is_none());
    assert!(finder.filtered_entries("str::substring(\"ä\",0,1)").is_none());
}
