use flowscript::text::{chars_of, find_char, join_strings, split_lines, string_of, trim_of};

fn chars(text: &str) -> Vec<char> {
    text.chars().collect()
}

#[test]
fn characters_of_text() {
    assert_eq!(chars_of(""), Vec::<char>::new());
    assert_eq!(chars_of("aé\u{1F600}\n"), vec!['a', 'é', '\u{1F600}', '\n']);
}

#[test]
fn string_of_range() {
    let text = chars("héllo wörld");
    assert_eq!(string_of(&text, 0, 0), "");
    assert_eq!(string_of(&text, 1, 5), "éllo");
    assert_eq!(string_of(&text, 6, 11), "wörld");
}

#[test]
fn lines_agree_with_std() {
    for text in [
        "",
        "a",
        "a\n",
        "a\nb",
        "a\r\nb\r\n",
        "a\rb\n",
        "a\n\nb",
        "\n",
        "\n\n",
        "\r\n",
        "a\r",
        "a\r\r\nb",
        "a\n\r",
        "one\ntwo\r\nthree\rfour\n\r\nfive",
        "é\nü\r\n",
    ] {
        let expected: Vec<String> = text.lines().map(|l| l.to_string()).collect();
        assert_eq!(split_lines(&chars(text)), expected, "for {:?}", text);
    }
}

#[test]
fn trim_agrees_with_std() {
    for text in [
        "",
        " ",
        "a",
        "  a b  ",
        "\t\n a\r\n",
        "\u{a0}x\u{2003}",
        "\u{b}v\u{c}",
        "   ",
        "x\u{200b}",
        " é ",
    ] {
        let all = chars(text);
        assert_eq!(trim_of(&all, 0, all.len()), text.trim(), "for {:?}", text);
    }
    let all = chars("ab  cd  ef");
    assert_eq!(trim_of(&all, 2, 8), "cd");
    assert_eq!(trim_of(&all, 2, 4), "");
    assert_eq!(trim_of(&all, 5, 5), "");
}

#[test]
fn first_index_of_character() {
    let all = chars("a:b:c");
    assert_eq!(find_char(&all, ':', 0), 1);
    assert_eq!(find_char(&all, ':', 1), 1);
    assert_eq!(find_char(&all, ':', 2), 3);
    assert_eq!(find_char(&all, ':', 4), 5);
    assert_eq!(find_char(&all, 'x', 0), 5);
    assert_eq!(find_char(&Vec::new(), 'x', 0), 0);
}

#[test]
fn joined_strings() {
    let parts = |items: &[&str]| items.iter().map(|s| s.to_string()).collect::<Vec<String>>();
    assert_eq!(join_strings(&parts(&[]), ' '), "");
    assert_eq!(join_strings(&parts(&["a"]), ' '), "a");
    assert_eq!(join_strings(&parts(&["a", "b", "c"]), '\n'), "a\nb\nc");
    assert_eq!(join_strings(&parts(&["", "", ""]), ','), ",,");
}
