use json_cleaner::{clean_document, clean_value, CleanError, EmptyContainerPolicy, Node};

fn text(s: &str) -> Node {
    Node::String(s.to_string())
}

fn number(n: i64) -> Node {
    Node::Number(serde_json::Number::from(n))
}

fn object(members: Vec<(&str, Node)>) -> Node {
    Node::Object(members.into_iter().map(|(k, v)| (k.to_string(), v)).collect())
}

const BOTH: [EmptyContainerPolicy; 2] = [EmptyContainerPolicy::Collapse, EmptyContainerPolicy::Normalize];

#[test]
fn null_is_absent() {
    for policy in BOTH {
        assert_eq!(clean_value(&Node::Null, policy), None);
    }
}

#[test]
fn booleans_and_numbers_are_kept_as_they_are() {
    for policy in BOTH {
        assert_eq!(clean_value(&Node::Bool(true), policy), Some(Node::Bool(true)));
        assert_eq!(clean_value(&Node::Bool(false), policy), Some(Node::Bool(false)));
        assert_eq!(clean_value(&number(-7), policy), Some(number(-7)));
        let half = Node::Number(serde_json::Number::from_f64(0.5).unwrap());
        assert_eq!(clean_value(&half, policy), Some(Node::Number(serde_json::Number::from_f64(0.5).unwrap())));
    }
}

#[test]
fn strings_are_trimmed() {
    for policy in BOTH {
        assert_eq!(clean_value(&text("  x  "), policy), Some(text("x")));
        assert_eq!(clean_value(&text("\t a  b \n"), policy), Some(text("a  b")));
        assert_eq!(clean_value(&text("   "), policy), Some(text("")));
        assert_eq!(clean_value(&text(""), policy), Some(text("")));
        assert_eq!(clean_value(&text("x"), policy), Some(text("x")));
    }
}

#[test]
fn every_unicode_white_space_is_trimmed() {
    let spaces = [
        '\u{9}', '\u{a}', '\u{b}', '\u{c}', '\u{d}', '\u{20}', '\u{85}', '\u{a0}', '\u{1680}',
        '\u{2000}', '\u{2001}', '\u{2002}', '\u{2003}', '\u{2004}', '\u{2005}', '\u{2006}',
        '\u{2007}', '\u{2008}', '\u{2009}', '\u{200a}', '\u{2028}', '\u{2029}', '\u{202f}',
        '\u{205f}', '\u{3000}',
    ];
    for c in spaces {
        let around = format!("{c}a{c}b{c}");
        let inner = format!("a{c}b");
        assert_eq!(clean_value(&text(&around), EmptyContainerPolicy::Normalize), Some(text(&inner)));
    }
}

#[test]
fn characters_next_to_white_space_are_not_trimmed() {
    let kept = [
        '\u{8}', '\u{e}', '\u{1f}', '\u{21}', '\u{84}', '\u{86}', '\u{9f}', '\u{a1}', '\u{167f}',
        '\u{1681}', '\u{180e}', '\u{1fff}', '\u{200b}', '\u{2027}', '\u{202a}', '\u{202e}',
        '\u{2030}', '\u{205e}', '\u{2060}', '\u{2fff}', '\u{3001}', '\u{feff}',
    ];
    for c in kept {
        let s = format!("{c} a {c}");
        assert_eq!(clean_value(&text(&s), EmptyContainerPolicy::Collapse), Some(text(&s)));
    }
}

#[test]
fn empty_array_follows_the_policy() {
    let empty = Node::Array(vec![]);
    assert_eq!(
        clean_value(&empty, EmptyContainerPolicy::Normalize),
        Some(Node::Array(vec![Node::Null]))
    );
    assert_eq!(clean_value(&empty, EmptyContainerPolicy::Collapse), Some(Node::Null));
}

#[test]
fn array_of_nulls_follows_the_policy() {
    let nulls = Node::Array(vec![Node::Null, Node::Null]);
    assert_eq!(clean_value(&nulls, EmptyContainerPolicy::Normalize), Some(Node::Array(vec![])));
    assert_eq!(clean_value(&nulls, EmptyContainerPolicy::Collapse), Some(Node::Null));
}

#[test]
fn array_that_keeps_only_nulls_collapses() {
    let input = Node::Array(vec![Node::Array(vec![]), Node::Null, Node::Array(vec![Node::Null])]);
    assert_eq!(clean_value(&input, EmptyContainerPolicy::Collapse), Some(Node::Null));
    assert_eq!(
        clean_value(&input, EmptyContainerPolicy::Normalize),
        Some(Node::Array(vec![Node::Array(vec![Node::Null]), Node::Array(vec![])]))
    );
}

#[test]
fn array_with_a_survivor_keeps_collapsed_items_as_null() {
    let input = Node::Array(vec![Node::Array(vec![]), text(" a "), Node::Null, number(1)]);
    assert_eq!(
        clean_value(&input, EmptyContainerPolicy::Collapse),
        Some(Node::Array(vec![Node::Null, text("a"), number(1)]))
    );
    assert_eq!(
        clean_value(&input, EmptyContainerPolicy::Normalize),
        Some(Node::Array(vec![Node::Array(vec![Node::Null]), text("a"), number(1)]))
    );
}

#[test]
fn empty_object_follows_the_policy() {
    let empty = Node::Object(vec![]);
    assert_eq!(clean_value(&empty, EmptyContainerPolicy::Normalize), Some(Node::Object(vec![])));
    assert_eq!(
        clean_value(&empty, EmptyContainerPolicy::Collapse),
        Some(object(vec![("value", Node::Null)]))
    );
}

#[test]
fn object_drops_null_members_and_trims_keys() {
    let input = object(vec![("  a  ", text("  x  ")), ("n", Node::Null), (" b", number(2))]);
    let expected = object(vec![("a", text("x")), ("b", number(2))]);
    for policy in BOTH {
        assert_eq!(clean_value(&input, policy), Some(expected.clone()));
    }
}

#[test]
fn object_left_without_members_follows_the_policy() {
    let input = object(vec![("n", Node::Null), ("m", Node::Null)]);
    assert_eq!(clean_value(&input, EmptyContainerPolicy::Normalize), Some(Node::Object(vec![])));
    assert_eq!(
        clean_value(&input, EmptyContainerPolicy::Collapse),
        Some(object(vec![("value", Node::Null)]))
    );
}

#[test]
fn sample_document_under_collapse() {
    let input = object(vec![
        ("  a  ", text("  x  ")),
        ("e", Node::Array(vec![])),
        ("o", Node::Object(vec![])),
        ("n", Node::Null),
    ]);
    let expected = object(vec![
        ("a", text("x")),
        ("e", Node::Null),
        ("o", object(vec![("value", Node::Null)])),
    ]);
    assert_eq!(clean_value(&input, EmptyContainerPolicy::Collapse), Some(expected));
}

#[test]
fn sample_document_under_normalize() {
    let input = object(vec![
        ("  a  ", text("  x  ")),
        ("e", Node::Array(vec![])),
        ("o", Node::Object(vec![])),
        ("n", Node::Null),
    ]);
    let expected = object(vec![
        ("a", text("x")),
        ("e", Node::Array(vec![Node::Null])),
        ("o", Node::Object(vec![])),
    ]);
    assert_eq!(clean_value(&input, EmptyContainerPolicy::Normalize), Some(expected));
}

#[test]
fn later_member_with_one_trimmed_key_gives_the_value_in_the_first_place() {
    let input = object(vec![
        (" k", number(1)),
        ("other", number(2)),
        ("k ", number(3)),
        ("k", Node::Null),
    ]);
    let expected = object(vec![("k", number(3)), ("other", number(2))]);
    for policy in BOTH {
        assert_eq!(clean_value(&input, policy), Some(expected.clone()));
    }
}

#[test]
fn members_written_twice_are_merged() {
    let input = object(vec![("k", number(1)), ("k", number(2))]);
    for policy in BOTH {
        assert_eq!(clean_value(&input, policy), Some(object(vec![("k", number(2))])));
    }
}

#[test]
fn input_is_left_untouched() {
    let input = object(vec![(" a ", Node::Array(vec![text(" x "), Node::Null]))]);
    let copy = input.clone();
    let _ = clean_value(&input, EmptyContainerPolicy::Collapse);
    assert_eq!(input, copy);
}

#[test]
fn clone_is_deep_and_equal() {
    let input = object(vec![
        ("a", Node::Array(vec![text("x"), Node::Null, Node::Bool(true), number(3)])),
        ("b", object(vec![("c", Node::Array(vec![]))])),
    ]);
    let copy = input.clone();
    assert_eq!(copy, input);
    assert_ne!(copy, object(vec![]));
}

#[test]
fn cleaned_document_is_left_as_it_is() {
    let input = object(vec![
        (" a ", Node::Array(vec![text(" x "), Node::Null, object(vec![("k", Node::Null)])])),
        ("b ", object(vec![(" c", Node::Array(vec![number(1), Node::Null]))])),
    ]);
    for policy in BOTH {
        let once = clean_value(&input, policy).unwrap();
        assert_eq!(clean_value(&once, policy), Some(once.clone()));
    }
}

#[test]
fn cleaned_document_with_an_emptied_array_is_cleaned_further() {
    let input = Node::Array(vec![Node::Array(vec![]), number(1)]);
    let once = clean_value(&input, EmptyContainerPolicy::Collapse).unwrap();
    assert_eq!(once, Node::Array(vec![Node::Null, number(1)]));
    assert_eq!(
        clean_value(&once, EmptyContainerPolicy::Collapse),
        Some(Node::Array(vec![number(1)]))
    );
    let input = Node::Array(vec![]);
    let once = clean_value(&input, EmptyContainerPolicy::Normalize).unwrap();
    assert_eq!(once, Node::Array(vec![Node::Null]));
    assert_eq!(clean_value(&once, EmptyContainerPolicy::Normalize), Some(Node::Array(vec![])));
}

#[test]
fn normalize_leaves_no_null_member() {
    let input = object(vec![
        ("e", Node::Array(vec![])),
        ("n", Node::Array(vec![Node::Null])),
        ("o", object(vec![("x", Node::Null), ("y", Node::Array(vec![]))])),
    ]);
    let expected = object(vec![
        ("e", Node::Array(vec![Node::Null])),
        ("n", Node::Array(vec![])),
        ("o", object(vec![("y", Node::Array(vec![Node::Null]))])),
    ]);
    assert_eq!(clean_value(&input, EmptyContainerPolicy::Normalize), Some(expected));
}

#[test]
fn collapse_leaves_null_where_a_member_array_collapsed() {
    let input = object(vec![("e", Node::Array(vec![Node::Null])), ("k", number(1))]);
    let expected = object(vec![("e", Node::Null), ("k", number(1))]);
    assert_eq!(clean_value(&input, EmptyContainerPolicy::Collapse), Some(expected));
}

#[test]
fn document_that_is_an_empty_object_is_turned_away() {
    for policy in BOTH {
        assert_eq!(clean_document(&Node::Object(vec![]), policy), Err(CleanError::EmptyInput));
    }
}

#[test]
fn document_of_which_nothing_is_left_is_an_empty_result() {
    for policy in BOTH {
        assert_eq!(clean_document(&Node::Null, policy), Err(CleanError::EmptyResult));
    }
}

#[test]
fn document_is_cleaned_as_its_value_is() {
    let input = object(vec![(" a ", text(" x ")), ("n", Node::Null)]);
    for policy in BOTH {
        assert_eq!(clean_document(&input, policy), Ok(object(vec![("a", text("x"))])));
    }
    assert_eq!(
        clean_document(&Node::Array(vec![]), EmptyContainerPolicy::Collapse),
        Ok(Node::Null)
    );
    assert_eq!(
        clean_document(&object(vec![("n", Node::Null)]), EmptyContainerPolicy::Normalize),
        Ok(Node::Object(vec![]))
    );
}

#[test]
fn depth_of_the_document_costs_no_call_stack() {
    let depth = 200_000;
    let mut node = text(" x ");
    for _ in 0..depth {
        node = Node::Array(vec![Node::Null, node]);
    }
    let cleaned = clean_value(&node, EmptyContainerPolicy::Collapse).unwrap();
    let mut levels = 0;
    let mut at = &cleaned;
    while let Node::Array(items) = at {
        assert_eq!(items.len(), 1);
        at = &items[0];
        levels += 1;
    }
    assert_eq!(levels, depth);
    assert_eq!(at, &text("x"));
    std::mem::forget(cleaned);
    std::mem::forget(node);
}

#[test]
fn well_formed_means_no_key_twice_in_any_object() {
    assert!(Node::Null.is_well_formed());
    assert!(object(vec![]).is_well_formed());
    assert!(object(vec![("a", number(1)), ("b", number(2)), (" a", number(3))]).is_well_formed());
    assert!(!object(vec![("a", number(1)), ("b", number(2)), ("a", number(3))]).is_well_formed());
    let nested = Node::Array(vec![
        number(1),
        object(vec![("k", object(vec![("x", Node::Null), ("x", Node::Null)]))]),
    ]);
    assert!(!nested.is_well_formed());
    let fine = Node::Array(vec![
        object(vec![("x", Node::Null)]),
        object(vec![("x", Node::Null), ("y", object(vec![("x", Node::Null)]))]),
    ]);
    assert!(fine.is_well_formed());
}

#[test]
fn cleaned_document_is_well_formed() {
    let input = object(vec![
        ("a", number(1)),
        (" a", number(2)),
        ("o", object(vec![("k", number(1)), ("k ", number(2)), ("k", number(3))])),
    ]);
    for policy in BOTH {
        let cleaned = clean_value(&input, policy).unwrap();
        assert!(cleaned.is_well_formed());
        assert_eq!(
            cleaned,
            object(vec![("a", number(2)), ("o", object(vec![("k", number(3))]))])
        );
    }
}

fn is_listed_white_space(c: char) -> bool {
    matches!(
        c as u32,
        0x09..=0x0D
            | 0x20
            | 0x85
            | 0xA0
            | 0x1680
            | 0x2000..=0x200A
            | 0x2028
            | 0x2029
            | 0x202F
            | 0x205F
            | 0x3000
    )
}

#[test]
fn trimming_takes_the_listed_white_space_and_no_other_character() {
    let mut taken = 0;
    for code in 0..=0x10FFFFu32 {
        let Some(c) = char::from_u32(code) else {
            continue;
        };
        let around = Node::String(format!("{c}x{c}"));
        let cleaned = clean_value(&around, EmptyContainerPolicy::Normalize);
        if is_listed_white_space(c) {
            taken += 1;
            assert_eq!(cleaned, Some(text("x")), "U+{:04X}", code);
        } else {
            assert_eq!(cleaned, Some(around), "U+{:04X}", code);
        }
    }
    assert_eq!(taken, 25);
}
