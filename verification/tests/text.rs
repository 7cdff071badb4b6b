use nucleo_harness::text::{same_text, split_lines, split_once_text, split_text};

fn strings(items: &[&str]) -> Vec<String> {
    items.iter().map(|item| item.to_string()).collect()
}

#[test]
fn columns_are_cut_at_every_tab() {
    assert_eq!(split_text("a\tb\tc", '\t'), strings(&["a", "b", "c"]));
    assert_eq!(split_text("AAPL\tApple Inc.\tUS0378331005\tNASDAQ", '\t').len(), 4);
}

#[test]
fn a_text_without_separator_is_one_column() {
    assert_eq!(split_text("plain", '\t'), strings(&["plain"]));
    assert_eq!(split_text("", '\t'), strings(&[""]));
}

#[test]
fn empty_columns_are_kept() {
    assert_eq!(split_text("\t", '\t'), strings(&["", ""]));
    assert_eq!(split_text("a\t\tb\t", '\t'), strings(&["a", "", "b", ""]));
    assert_eq!(split_text("\ta", '\t'), strings(&["", "a"]));
}

#[test]
fn columns_keep_characters_beyond_ascii() {
    assert_eq!(split_text("Zürich\tÅre — 東京\tß", '\t'), strings(&["Zürich", "Åre — 東京", "ß"]));
}

#[test]
fn split_text_agrees_with_std_split() {
    for text in ["", "\t", "a\tb", "\t\t", "x\ty\t", "no tabs here", "é\t\tü"] {
        let expected: Vec<String> = text.split('\t').map(|piece| piece.to_string()).collect();
        assert_eq!(split_text(text, '\t'), expected);
    }
}

#[test]
fn lines_end_at_line_feeds() {
    assert_eq!(split_lines("one\ntwo\nthree"), strings(&["one", "two", "three"]));
    assert_eq!(split_lines("one\ntwo\n"), strings(&["one", "two"]));
}

#[test]
fn empty_content_has_no_line() {
    assert_eq!(split_lines(""), Vec::<String>::new());
    assert_eq!(split_lines("\n"), strings(&[""]));
    assert_eq!(split_lines("\n\n"), strings(&["", ""]));
}

#[test]
fn carriage_return_before_line_feed_is_dropped() {
    assert_eq!(split_lines("one\r\ntwo\r\n"), strings(&["one", "two"]));
    assert_eq!(split_lines("one\r\r\ntwo"), strings(&["one\r", "two"]));
    assert_eq!(split_lines("\r\n"), strings(&[""]));
}

#[test]
fn carriage_return_elsewhere_is_kept() {
    assert_eq!(split_lines("one\rtwo\nthree\r"), strings(&["one\rtwo", "three\r"]));
    assert_eq!(split_lines("\r"), strings(&["\r"]));
    assert_eq!(split_lines("a\r\rb"), strings(&["a\r\rb"]));
}

#[test]
fn split_lines_agrees_with_std_lines() {
    for text in [
        "",
        "\n",
        "\r",
        "\r\n",
        "a",
        "a\n",
        "a\r\n",
        "a\nb",
        "a\n\nb\n",
        "foo\nbar\n\r\nbaz\r",
        "x\r\r\n\ry\n\r",
        "日本\r\nü\n",
    ] {
        let expected: Vec<String> = text.lines().map(|line| line.to_string()).collect();
        assert_eq!(split_lines(text), expected, "{:?}", text);
    }
}

#[test]
fn split_once_cuts_at_the_first_separator() {
    assert_eq!(
        split_once_text("apple\tname", '\t'),
        Some(("apple".to_string(), "name".to_string()))
    );
    assert_eq!(
        split_once_text("apple\tname\textra", '\t'),
        Some(("apple".to_string(), "name\textra".to_string()))
    );
    assert_eq!(split_once_text("\t", '\t'), Some((String::new(), String::new())));
    assert_eq!(split_once_text("no separator", '\t'), None);
    assert_eq!(split_once_text("", '\t'), None);
}

#[test]
fn same_text_compares_characters() {
    assert!(same_text("symbol", "symbol"));
    assert!(same_text("", ""));
    assert!(!same_text("symbol", "symbols"));
    assert!(!same_text("symbols", "symbol"));
    assert!(!same_text("symbol", "Symbol"));
    assert!(!same_text("", "x"));
    assert!(same_text("größe", "größe"));
}
