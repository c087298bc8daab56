use jayrock::JsonTextReader;
use jayrock::JsonTokenKind;
use jayrock::SyntaxError;

fn collect_results(src: &str) -> Vec<Result<(JsonTokenKind, String), SyntaxError>> {
    let mut reader = JsonTextReader::new(src);
    let mut out = Vec::new();
    while let Some(item) = reader.next_token() {
        out.push(item.map(|t| (t.kind(), t.text().to_string())));
    }
    out
}

#[test]
fn empty_object() {
    assert_eq!(
        collect_results("{}"),
        vec![
            Ok((JsonTokenKind::ObjectStart, "{".to_string())),
            Ok((JsonTokenKind::ObjectEnd, "}".to_string())),
        ]
    );
}

#[test]
fn empty_array() {
    assert_eq!(
        collect_results("[]"),
        vec![
            Ok((JsonTokenKind::ArrayStart, "[".to_string())),
            Ok((JsonTokenKind::ArrayEnd, "]".to_string())),
        ]
    );
}

#[test]
fn object_single_member() {
    assert_eq!(
        collect_results("{\"a\":1}"),
        vec![
            Ok((JsonTokenKind::ObjectStart, "{".to_string())),
            Ok((JsonTokenKind::ObjectMember, "\"a\"".to_string())),
            Ok((JsonTokenKind::Number, "1".to_string())),
            Ok((JsonTokenKind::ObjectEnd, "}".to_string())),
        ]
    );
}

#[test]
fn alternate_delimiters_same_kind_sequence() {
    let plain: Vec<_> = collect_results("{\"a\":1}")
        .into_iter()
        .map(|r| r.map(|(k, _)| k))
        .collect();
    let alternate: Vec<_> = collect_results("{'a'=>1;}")
        .into_iter()
        .map(|r| r.map(|(k, _)| k))
        .collect();
    assert_eq!(plain, alternate);
}

#[test]
fn alternate_delimiters_texts() {
    assert_eq!(
        collect_results("{'a'=>1;}"),
        vec![
            Ok((JsonTokenKind::ObjectStart, "{".to_string())),
            Ok((JsonTokenKind::ObjectMember, "'a'".to_string())),
            Ok((JsonTokenKind::Number, "1".to_string())),
            Ok((JsonTokenKind::ObjectEnd, "}".to_string())),
        ]
    );
}

#[test]
fn equals_without_arrow() {
    assert_eq!(
        collect_results("{'a'=1}"),
        vec![
            Ok((JsonTokenKind::ObjectStart, "{".to_string())),
            Ok((JsonTokenKind::ObjectMember, "'a'".to_string())),
            Ok((JsonTokenKind::Number, "1".to_string())),
            Ok((JsonTokenKind::ObjectEnd, "}".to_string())),
        ]
    );
}

#[test]
fn line_comment_skipped() {
    assert_eq!(collect_results("// comment\n{}"), collect_results("{}"));
}

#[test]
fn block_comment_skipped() {
    assert_eq!(collect_results("/* c */[]"), collect_results("[]"));
}

#[test]
fn hash_comment_skipped() {
    assert_eq!(
        collect_results("#c\n42"),
        vec![Ok((JsonTokenKind::Number, "42".to_string()))]
    );
}

#[test]
fn unterminated_string() {
    assert_eq!(
        collect_results("\"abc"),
        vec![Err(SyntaxError::UnterminatedString)]
    );
}

#[test]
fn unterminated_array() {
    assert_eq!(
        collect_results("[1,2"),
        vec![
            Ok((JsonTokenKind::ArrayStart, "[".to_string())),
            Ok((JsonTokenKind::Number, "1".to_string())),
            Ok((JsonTokenKind::Number, "2".to_string())),
            Err(SyntaxError::UnterminatedArray),
        ]
    );
}

#[test]
fn unterminated_object() {
    assert_eq!(
        collect_results("{\"a\":1"),
        vec![
            Ok((JsonTokenKind::ObjectStart, "{".to_string())),
            Ok((JsonTokenKind::ObjectMember, "\"a\"".to_string())),
            Ok((JsonTokenKind::Number, "1".to_string())),
            Err(SyntaxError::UnterminatedObject),
        ]
    );
}

#[test]
fn unclosed_comment() {
    assert_eq!(
        collect_results("/* unterminated"),
        vec![Err(SyntaxError::UnclosedComment)]
    );
}

#[test]
fn invalid_member_value_delimiter() {
    assert_eq!(
        collect_results("{\"a\" 1}"),
        vec![
            Ok((JsonTokenKind::ObjectStart, "{".to_string())),
            Ok((JsonTokenKind::ObjectMember, "\"a\"".to_string())),
            Err(SyntaxError::InvalidMemberValueDelimiter),
        ]
    );
}

#[test]
fn empty_input_is_missing_value() {
    assert_eq!(collect_results(""), vec![Err(SyntaxError::MissingValue)]);
}

#[test]
fn whitespace_only_is_missing_value() {
    assert_eq!(collect_results("  \t\n  "), vec![Err(SyntaxError::MissingValue)]);
}

#[test]
fn lone_slash_is_missing_value() {
    assert_eq!(collect_results("/"), vec![Err(SyntaxError::MissingValue)]);
}

#[test]
fn retokenizing_yields_same_sequence() {
    let src = "{\"a\":[1,2,/*x*/3],'b'=>null;}";
    let first = collect_results(src);
    let second = collect_results(src);
    assert_eq!(first, second);
}

#[test]
fn token_texts_are_substrings_of_source() {
    for src in [
        "{\"a\":[1,2],\"b\":null}",
        "  [ true, false , null, 1.5e3, 'x' ] ",
        "{\"\u{3c0}\":\"\u{e9}\"}",
        "# note\n[\"q\\\"q\", -2]",
    ] {
        for item in collect_results(src) {
            if let Ok((_, text)) = item {
                assert!(src.contains(&text), "{text:?} not in {src:?}");
            }
        }
    }
}

#[test]
fn nested_structures() {
    let kinds: Vec<_> = collect_results("[[],{}]")
        .into_iter()
        .map(|r| r.unwrap().0)
        .collect();
    assert_eq!(
        kinds,
        vec![
            JsonTokenKind::ArrayStart,
            JsonTokenKind::ArrayStart,
            JsonTokenKind::ArrayEnd,
            JsonTokenKind::ObjectStart,
            JsonTokenKind::ObjectEnd,
            JsonTokenKind::ArrayEnd,
        ]
    );
}

#[test]
fn second_member_name_keeps_scanned_kind() {
    // Only the first member's name is re-wrapped as ObjectMember; a name
    // read after a separator keeps the kind it was scanned with.
    assert_eq!(
        collect_results("{\"a\":1,\"b\":2}"),
        vec![
            Ok((JsonTokenKind::ObjectStart, "{".to_string())),
            Ok((JsonTokenKind::ObjectMember, "\"a\"".to_string())),
            Ok((JsonTokenKind::Number, "1".to_string())),
            Ok((JsonTokenKind::String, "\"b\"".to_string())),
            Ok((JsonTokenKind::Number, "2".to_string())),
            Ok((JsonTokenKind::ObjectEnd, "}".to_string())),
        ]
    );
}

#[test]
fn string_escapes_kept_raw() {
    assert_eq!(
        collect_results("\"a\\\"b\""),
        vec![Ok((JsonTokenKind::String, "\"a\\\"b\"".to_string()))]
    );
}

#[test]
fn trailing_backslash_is_unterminated() {
    assert_eq!(
        collect_results("\"ab\\"),
        vec![Err(SyntaxError::UnterminatedString)]
    );
}

#[test]
fn raw_newline_in_string_is_unterminated() {
    assert_eq!(
        collect_results("\"a\nb\""),
        vec![
            Err(SyntaxError::UnterminatedString),
        ]
    );
}

#[test]
fn escaped_newline_in_string_accepted() {
    assert_eq!(
        collect_results("\"a\\\nb\""),
        vec![Ok((JsonTokenKind::String, "\"a\\\nb\"".to_string()))]
    );
}

#[test]
fn iteration_continues_after_inner_error() {
    assert_eq!(
        collect_results("[\"a]"),
        vec![
            Ok((JsonTokenKind::ArrayStart, "[".to_string())),
            Err(SyntaxError::UnterminatedString),
            Err(SyntaxError::UnterminatedArray),
        ]
    );
}

#[test]
fn block_comment_with_inner_stars() {
    assert_eq!(
        collect_results("/**x**/1"),
        vec![Ok((JsonTokenKind::Number, "1".to_string()))]
    );
}

#[test]
fn semicolon_separates_array_elements() {
    assert_eq!(
        collect_results("[1;2]"),
        vec![
            Ok((JsonTokenKind::ArrayStart, "[".to_string())),
            Ok((JsonTokenKind::Number, "1".to_string())),
            Ok((JsonTokenKind::Number, "2".to_string())),
            Ok((JsonTokenKind::ArrayEnd, "]".to_string())),
        ]
    );
}

#[test]
fn deep_nesting_is_handled_iteratively() {
    let depth = 64;
    let src = "[".repeat(depth) + &"]".repeat(depth);
    let results = collect_results(&src);
    assert_eq!(results.len(), 2 * depth);
    for (idx, item) in results.into_iter().enumerate() {
        let (kind, _) = item.unwrap();
        if idx < depth {
            assert_eq!(kind, JsonTokenKind::ArrayStart);
        } else {
            assert_eq!(kind, JsonTokenKind::ArrayEnd);
        }
    }
}

#[test]
fn unicode_scalar_is_a_string() {
    assert_eq!(
        collect_results("h\u{e9}llo"),
        vec![Ok((JsonTokenKind::String, "h\u{e9}llo".to_string()))]
    );
}

#[test]
fn input_ending_at_member_delimiter() {
    assert_eq!(
        collect_results("{\"a\""),
        vec![
            Ok((JsonTokenKind::ObjectStart, "{".to_string())),
            Ok((JsonTokenKind::ObjectMember, "\"a\"".to_string())),
            Err(SyntaxError::InvalidMemberValueDelimiter),
        ]
    );
}

#[test]
fn input_ending_after_equals() {
    assert_eq!(
        collect_results("{\"a\"="),
        vec![
            Ok((JsonTokenKind::ObjectStart, "{".to_string())),
            Ok((JsonTokenKind::ObjectMember, "\"a\"".to_string())),
            Err(SyntaxError::InvalidMemberValueDelimiter),
        ]
    );
}

#[test]
fn sequence_ends_after_top_level_value() {
    let mut reader = JsonTextReader::new("1 2");
    let first = reader.next_token().unwrap().unwrap();
    assert_eq!(first.kind(), JsonTokenKind::Number);
    assert_eq!(first.text(), "1");
    // The single initial continuation is consumed: the sequence ends even
    // though input remains.
    assert!(reader.next_token().is_none());
    assert!(reader.next_token().is_none());
}
