use json_cleaner::{clean_json, CleanError, EmptyContainerPolicy};

const SAMPLE: &str = r#"{"  a  ": "  x  ", "e": [], "o": {}, "n": null}"#;

#[test]
fn it_works() {
    let input = r#"
        {
            "  key  ": "  true  ",
            "  empty array  ": [],
            "  empty object  ": {},
            "  empty string  ": "   ",
            "  null  ": null,
            "  nested  ": {
                "  key  ": "  false  ",
                "  empty array  ": [],
                "  empty object  ": {},
                "  empty string  ": "   ",
                "  null  ": null
            }
        }
        "#;
    let expected = r#"{"key":"true","empty array":[null],"empty object":{},"empty string":"","nested":{"key":"false","empty array":[null],"empty object":{},"empty string":""}}"#;
    let cleaned = clean_json(input, EmptyContainerPolicy::Normalize).unwrap();

    let cleaned_value: serde_json::Value = serde_json::from_str(&cleaned).unwrap();
    let expected_value: serde_json::Value = serde_json::from_str(expected).unwrap();

    assert_eq!(cleaned_value, expected_value);
}

#[test]
fn it_errors_on_invalid_json() {
    let input = r#"{"key": "value",}"#;
    let result = clean_json(input, EmptyContainerPolicy::Normalize);
    assert!(result.is_err());
}

#[test]
fn it_errors_on_empty_json() {
    let input = r#"{}"#;
    let result = clean_json(input, EmptyContainerPolicy::Normalize);
    assert!(result.is_err());
}

#[test]
fn it_works_to_the_letter() {
    let input = r#"
        {
            "  key  ": "  true  ",
            "  empty array  ": [],
            "  empty object  ": {},
            "  empty string  ": "   ",
            "  null  ": null,
            "  nested  ": {
                "  key  ": "  false  ",
                "  empty array  ": [],
                "  empty object  ": {},
                "  empty string  ": "   ",
                "  null  ": null
            }
        }
        "#;
    let expected = r#"{"key":"true","empty array":[null],"empty object":{},"empty string":"","nested":{"key":"false","empty array":[null],"empty object":{},"empty string":""}}"#;
    assert_eq!(clean_json(input, EmptyContainerPolicy::Normalize), Ok(expected.to_string()));
}

#[test]
fn collapse_writes_the_sample() {
    assert_eq!(
        clean_json(SAMPLE, EmptyContainerPolicy::Collapse),
        Ok(r#"{"a":"x","e":null,"o":{"value":null}}"#.to_string())
    );
}

#[test]
fn normalize_writes_the_sample() {
    assert_eq!(
        clean_json(SAMPLE, EmptyContainerPolicy::Normalize),
        Ok(r#"{"a":"x","e":[null],"o":{}}"#.to_string())
    );
}

#[test]
fn empty_object_is_turned_away_under_both_policies() {
    assert_eq!(clean_json("{}", EmptyContainerPolicy::Collapse), Err(CleanError::EmptyInput));
    assert_eq!(clean_json("{}", EmptyContainerPolicy::Normalize), Err(CleanError::EmptyInput));
    assert_eq!(clean_json(" {\n} ", EmptyContainerPolicy::Collapse), Err(CleanError::EmptyInput));
}

#[test]
fn object_that_cleaning_empties_is_not_empty_input() {
    assert_eq!(
        clean_json(r#"{"n": null}"#, EmptyContainerPolicy::Normalize),
        Ok("{}".to_string())
    );
    assert_eq!(
        clean_json(r#"{"n": null}"#, EmptyContainerPolicy::Collapse),
        Ok(r#"{"value":null}"#.to_string())
    );
}

#[test]
fn trailing_comma_is_a_parse_error_with_the_parser_message() {
    let input = r#"{"key": "value",}"#;
    let expected = CleanError::Parse("trailing comma at line 1 column 17".to_string());
    assert_eq!(clean_json(input, EmptyContainerPolicy::Normalize), Err(expected));
    let expected = CleanError::Parse("trailing comma at line 1 column 17".to_string());
    assert_eq!(clean_json(input, EmptyContainerPolicy::Collapse), Err(expected));
}

#[test]
fn parse_error_message_is_the_parser_own() {
    for input in ["", "{", "[1, 2", "nul", "{\"a\" 1}", "[1] x", "\"open"] {
        let own = serde_json::from_str::<serde_json::Value>(input).unwrap_err().to_string();
        assert_eq!(
            clean_json(input, EmptyContainerPolicy::Collapse),
            Err(CleanError::Parse(own))
        );
    }
}

#[test]
fn null_document_is_an_empty_result() {
    assert_eq!(clean_json("null", EmptyContainerPolicy::Collapse), Err(CleanError::EmptyResult));
    assert_eq!(clean_json("null", EmptyContainerPolicy::Normalize), Err(CleanError::EmptyResult));
    assert_eq!(clean_json(" null\n", EmptyContainerPolicy::Normalize), Err(CleanError::EmptyResult));
}

#[test]
fn top_level_arrays_follow_the_policy() {
    assert_eq!(clean_json("[]", EmptyContainerPolicy::Normalize), Ok("[null]".to_string()));
    assert_eq!(clean_json("[]", EmptyContainerPolicy::Collapse), Ok("null".to_string()));
    assert_eq!(clean_json("[null, null]", EmptyContainerPolicy::Normalize), Ok("[]".to_string()));
    assert_eq!(clean_json("[null, null]", EmptyContainerPolicy::Collapse), Ok("null".to_string()));
    assert_eq!(
        clean_json("[[], [null], 1]", EmptyContainerPolicy::Collapse),
        Ok("[null,null,1]".to_string())
    );
    assert_eq!(
        clean_json("[[], [null]]", EmptyContainerPolicy::Collapse),
        Ok("null".to_string())
    );
    assert_eq!(
        clean_json("[[], [null], 1]", EmptyContainerPolicy::Normalize),
        Ok("[[null],[],1]".to_string())
    );
}

#[test]
fn scalars_pass_through() {
    for text in ["true", "false", "0", "-17", "18446744073709551615", "1.5", "-2.5e-3", "1e300"] {
        let own = serde_json::to_string(
            &serde_json::from_str::<serde_json::Value>(text).unwrap(),
        ).unwrap();
        assert_eq!(clean_json(text, EmptyContainerPolicy::Collapse), Ok(own.clone()));
        assert_eq!(clean_json(text, EmptyContainerPolicy::Normalize), Ok(own));
    }
    assert_eq!(clean_json("[1, 2.0, -3]", EmptyContainerPolicy::Normalize), Ok("[1,2.0,-3]".to_string()));
}

#[test]
fn output_is_compact_and_escaped() {
    let input = "{ \"a\" : [ 1 , \" b\\n\" , { \"c\" : \"\\\"q\\\" \" } ] }";
    assert_eq!(
        clean_json(input, EmptyContainerPolicy::Normalize),
        Ok(r#"{"a":[1,"b",{"c":"\"q\""}]}"#.to_string())
    );
}

#[test]
fn members_keep_the_order_of_the_document() {
    let input = r#"{"zeta": 1, " b": 2, "alpha": null, "a": 3, "m": {"y": 1, "x": 2}}"#;
    let expected = r#"{"zeta":1,"b":2,"a":3,"m":{"y":1,"x":2}}"#;
    assert_eq!(clean_json(input, EmptyContainerPolicy::Normalize), Ok(expected.to_string()));
    assert_eq!(clean_json(input, EmptyContainerPolicy::Collapse), Ok(expected.to_string()));
}

#[test]
fn items_keep_the_order_of_the_document() {
    let input = r#"[3, null, " b ", 1, null, [2, null, 1], "a"]"#;
    let expected = r#"[3,"b",1,[2,1],"a"]"#;
    assert_eq!(clean_json(input, EmptyContainerPolicy::Normalize), Ok(expected.to_string()));
    assert_eq!(clean_json(input, EmptyContainerPolicy::Collapse), Ok(expected.to_string()));
}

#[test]
fn keys_that_trim_to_one_key_are_merged() {
    let input = r#"{" a": 1, "b": 2, "a ": 3, "a": null, " b ": "x"}"#;
    let expected = r#"{"a":3,"b":"x"}"#;
    assert_eq!(clean_json(input, EmptyContainerPolicy::Normalize), Ok(expected.to_string()));
    assert_eq!(clean_json(input, EmptyContainerPolicy::Collapse), Ok(expected.to_string()));
}

#[test]
fn unicode_white_space_is_trimmed_and_inner_space_kept() {
    let input = "[\"\\u00a0\\u2003 a \\t b\\u3000\\u2028\", \"\\u200bx\\u200b\", \"\\u0085\\u1680\\u205f\"]";
    let expected = "[\"a \\t b\",\"\u{200b}x\u{200b}\",\"\"]";
    assert_eq!(clean_json(input, EmptyContainerPolicy::Normalize), Ok(expected.to_string()));
}

#[test]
fn a_settled_document_is_cleaned_to_itself() {
    let settled = r#"{"a":"x","b":[1,"y",{"c":true}],"d":{"e":2.5}}"#;
    for policy in [EmptyContainerPolicy::Collapse, EmptyContainerPolicy::Normalize] {
        let once = clean_json(settled, policy).unwrap();
        assert_eq!(once, settled);
        assert_eq!(clean_json(&once, policy), Ok(once.clone()));
    }
    let placeholder = r#"{"o":{"value":null}}"#;
    assert_eq!(clean_json(placeholder, EmptyContainerPolicy::Collapse), Ok(placeholder.to_string()));
}

#[test]
fn an_emptied_array_under_the_placeholder_key_reads_as_the_placeholder() {
    let input = r#"{" value ": [null], "n": null}"#;
    let once = clean_json(input, EmptyContainerPolicy::Collapse).unwrap();
    assert_eq!(once, r#"{"value":null}"#);
    assert_eq!(clean_json(&once, EmptyContainerPolicy::Collapse), Ok(once.clone()));
}

#[test]
fn cleaning_twice_differs_where_an_array_was_emptied() {
    let once = clean_json(SAMPLE, EmptyContainerPolicy::Collapse).unwrap();
    assert_eq!(once, r#"{"a":"x","e":null,"o":{"value":null}}"#);
    assert_eq!(
        clean_json(&once, EmptyContainerPolicy::Collapse),
        Ok(r#"{"a":"x","o":{"value":null}}"#.to_string())
    );
    let once = clean_json(SAMPLE, EmptyContainerPolicy::Normalize).unwrap();
    assert_eq!(once, r#"{"a":"x","e":[null],"o":{}}"#);
    assert_eq!(
        clean_json(&once, EmptyContainerPolicy::Normalize),
        Ok(r#"{"a":"x","e":[],"o":{}}"#.to_string())
    );
}

#[test]
fn cleaning_twice_is_cleaning_once_where_arrays_hold_items() {
    let input = r#"{"  a ": [" x ", null, {"k ": null}], "b": {" c": [1, null]}, "n": null}"#;
    for policy in [EmptyContainerPolicy::Collapse, EmptyContainerPolicy::Normalize] {
        let once = clean_json(input, policy).unwrap();
        assert_eq!(clean_json(&once, policy), Ok(once.clone()));
    }
}

#[test]
fn deep_nesting_within_the_parser_limit_is_cleaned() {
    let depth = 100;
    let input = format!("{}\" x \"{}", "[".repeat(depth), "]".repeat(depth));
    let expected = format!("{}\"x\"{}", "[".repeat(depth), "]".repeat(depth));
    assert_eq!(clean_json(&input, EmptyContainerPolicy::Collapse), Ok(expected));
}

#[test]
fn nesting_beyond_the_parser_limit_is_a_parse_error() {
    let depth = 200;
    let input = format!("{}1{}", "[".repeat(depth), "]".repeat(depth));
    assert!(matches!(
        clean_json(&input, EmptyContainerPolicy::Normalize),
        Err(CleanError::Parse(_))
    ));
}

#[test]
fn error_messages_name_the_fault() {
    assert_eq!(CleanError::EmptyInput.message(), "JSON is an empty object");
    assert_eq!(CleanError::EmptyResult.message(), "Cleaned JSON is empty");
    assert_eq!(CleanError::Parse("expected value at line 1 column 1".to_string()).message(),
        "expected value at line 1 column 1");
    assert_eq!(CleanError::Serialize("key must be a string".to_string()).message(),
        "key must be a string");
    assert_eq!(
        clean_json("", EmptyContainerPolicy::Collapse).unwrap_err().message(),
        "EOF while parsing a value at line 1 column 0"
    );
}
