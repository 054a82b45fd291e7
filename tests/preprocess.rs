use subset_front::preprocess::{strip_comments, PreprocessError};

fn strip(src: &str) -> Result<String, PreprocessError> {
    strip_comments(&src.as_bytes().to_vec()).map(|v| String::from_utf8(v).unwrap())
}

#[test]
fn nested_block_comment_is_one_span() {
    assert_eq!(strip("a /* outer /* inner */ outer2 */ b").unwrap(), "a   b");
}

#[test]
fn deeply_nested_block_comment() {
    assert_eq!(strip("x/* 1 /* 2 /* 3 */ 2 */ 1 */y").unwrap(), "x y");
}

#[test]
fn raw_string_is_comment_and_escape_inert() {
    let src = r###"r#"hello "world" \n\t/* still not a comment */"#"###;
    assert_eq!(strip(src).unwrap(), src);
}

#[test]
fn raw_string_with_two_hashes() {
    let src = r###"let raw3 = r##"hello #"world"# \n\t/* nope, not a comment */"##;"###;
    assert_eq!(strip(src).unwrap(), src);
}

#[test]
fn raw_strings_sample_keeps_every_literal() {
    let src = [
        "fn main() {\n",
        "    let normal = \"hello\\nworld\\t/* not a comment */\";\n",
        "    let raw1 = r\"hello\\nworld\\t/* also not a comment */\";\n",
        "    let raw2 = r#\"hello \"world\" \\n\\t/* still not a comment */\"#;\n",
        "    let raw3 = r##\"hello #\"world\"# \\n\\t/* nope, not a comment */\"##;\n",
        "    let raw_byte1 = br\"hello\\nworld\\t/* not a comment */\";\n",
        "    let raw_byte2 = br#\"hello \"world\" \\n\\t/* not a comment */\"#;\n",
        "    let raw_c1 = cr\"hello\\nworld\\t/* not a comment */\";\n",
        "    let raw_c2 = cr#\"hello \"world\" \\n\\t/* not a comment */\"#; // is a comment\n",
        "    let multiline = r\"line1\nline2\nline3\";\n",
        "\n",
        "    println!(\"done\");\n",
        "}",
    ]
    .concat();
    let expected = src.replace("// is a comment", "");
    assert_eq!(strip(&src).unwrap(), expected);
}

#[test]
fn comments_sample_lines() {
    assert_eq!(strip("let a = 0;  // this is a line comment\n").unwrap(), "let a = 0;  \n");
    assert_eq!(strip("let b = 1;  /* this is a block comment */").unwrap(), "let b = 1;   ");
    assert_eq!(
        strip("let c /* this is */ = /* also a block comment */ 3;").unwrap(),
        "let c   =   3;"
    );
    assert_eq!(strip("/* Block /* comments /* can be NESTED */ */ */").unwrap(), " ");
}

#[test]
fn comment_markers_inside_literals_are_kept() {
    let src = "let d = \"this is a /* STRING */ not a comment\";";
    assert_eq!(strip(src).unwrap(), src);
    let src = "let e = b' this is a /* byte literal */';";
    assert_eq!(strip(src).unwrap(), src);
    let src = "let f = \"\\\"you need to consider /* ESCAPES */ too \\\\\";";
    assert_eq!(strip(src).unwrap(), src);
    let src = "let h = \"\\\nThis back-slash denotes /* NO LINE-BREAK */\n\";  return;";
    assert_eq!(strip(src).unwrap(), src);
}

#[test]
fn literal_markers_inside_comments_are_ignored() {
    assert_eq!(strip("a /* \" r#\" ' */ b").unwrap(), "a   b");
    assert_eq!(strip("a // \" unclosed\nb").unwrap(), "a \nb");
}

#[test]
fn line_comment_at_end_of_input() {
    assert_eq!(strip("x = 1; // done").unwrap(), "x = 1; ");
}

#[test]
fn empty_input() {
    assert_eq!(strip("").unwrap(), "");
}

#[test]
fn identifier_ending_in_r_opens_no_raw_literal() {
    let src = "bar\"/* kept */\"";
    assert_eq!(strip(src).unwrap(), src);
}

#[test]
fn unterminated_block_comment() {
    assert_eq!(
        strip("ab /* open /* inner */").unwrap_err(),
        PreprocessError::UnterminatedBlockComment { start: 3 }
    );
}

#[test]
fn unterminated_string_literal() {
    assert_eq!(
        strip("let s = \"abc").unwrap_err(),
        PreprocessError::UnterminatedLiteral { start: 8 }
    );
}

#[test]
fn unterminated_raw_literal() {
    assert_eq!(
        strip("x r#\"abc\" y").unwrap_err(),
        PreprocessError::UnterminatedLiteral { start: 2 }
    );
}
