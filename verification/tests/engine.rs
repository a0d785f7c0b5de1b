use xloc::handle;

fn rs_content() -> String {
    // The fixture source file: 16 newlines, 36 words.
    String::from("struct TestStruct<'a> {\n    message: &'a str\n}\n\nimpl<'a> TestStruct<'a> {\n    fn new(message: &'a str) -> Self {\n        Self { message }\n    }\n}\n\nfn main() {\n    let t = TestStruct::new(\"Fearless-concurrency! Resistance: futile\");\n    let c = 'c';\n    println!(\"{}\", t.message);\n    println!(\"{}\", c);\n}\n")
}

#[test]
fn threads_handle_lines() {
    let files = vec![Some(rs_content())];
    let result = handle(&files, false);
    assert_eq!(result, 16);
}

#[test]
fn threads_handle_words() {
    let files = vec![Some(rs_content())];
    let result = handle(&files, true);
    assert_eq!(result, 36);
}

#[test]
fn handle_empty_batch() {
    let files: Vec<Option<String>> = Vec::new();
    assert_eq!(handle(&files, false), 0);
    assert_eq!(handle(&files, true), 0);
}

#[test]
fn handle_skips_unreadable_files() {
    let files = vec![None, Some(String::from("a\nb\n")), None];
    assert_eq!(handle(&files, false), 2);
    assert_eq!(handle(&files, true), 2);
}

#[test]
fn handle_sums_batches() {
    let a = Some(String::from("one two three\n"));
    let b = Some(String::from("four five\n\n"));

    let both = vec![a.clone(), b.clone()];
    let first = vec![a];
    let second = vec![b];

    for words in [false, true] {
        assert_eq!(
            handle(&both, words),
            handle(&first, words) + handle(&second, words)
        );
    }
}

#[test]
fn lines_are_newline_characters() {
    let files = vec![Some(String::from("no trailing newline"))];
    assert_eq!(handle(&files, false), 0);

    let files = vec![Some(String::from("\n\n\n"))];
    assert_eq!(handle(&files, false), 3);

    let files = vec![Some(String::new())];
    assert_eq!(handle(&files, false), 0);
}

#[test]
fn words_are_alphanumeric_runs() {
    // A word is a maximal run of ASCII letters and digits: underscores,
    // punctuation and accented characters all end a run.
    let cases = vec![
        ("", 0),
        ("   ", 0),
        ("abc", 1),
        ("abc def", 2),
        ("snake_case", 2),
        ("x1 2y", 2),
        ("a-b-c", 3),
        ("don't stop", 3),
        ("r2d2", 1),
        ("caf\u{e9} au lait", 3),
        ("...!!!", 0),
        ("one\ntwo\nthree", 3),
    ];

    for (text, expected) in cases {
        let files = vec![Some(String::from(text))];
        assert_eq!(handle(&files, true), expected, "text: {:?}", text);
    }
}
