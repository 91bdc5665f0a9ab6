use simple_csv_reader::text::{
    chars_of, find_from_exec, join_exec, lines_exec, replace_exec, split_str_exec, string_of,
    strings_of,
};

fn chars(s: &str) -> Vec<char> {
    s.chars().collect()
}

fn texts(v: &Vec<Vec<char>>) -> Vec<String> {
    v.iter().map(|c| c.iter().collect()).collect()
}

#[test]
fn find_gives_the_first_match_from_the_start() {
    let s = chars("ab,\"cd,\"e");
    let p = chars(",\"");
    assert_eq!(find_from_exec(&s, &p, 0), Some(2));
    assert_eq!(find_from_exec(&s, &p, 3), Some(6));
    assert_eq!(find_from_exec(&s, &p, 7), None);
    assert_eq!(find_from_exec(&s, &chars(""), 4), Some(4));
}

#[test]
fn split_then_join_gives_the_text_back() {
    for (text, sep) in [("a,b,,c", ","), ("::x::", "::"), ("abc", ""), ("", ","), ("héllo wörld", "l")] {
        let s = chars(text);
        let p = chars(sep);
        let parts = split_str_exec(&s, &p);
        assert_eq!(join_exec(&parts, &p), s);
    }
}

#[test]
fn split_matches_str_split() {
    for (text, sep) in [("a,b,,c", ","), ("aaa", "aa"), ("rust", ""), ("", "")] {
        let parts = texts(&split_str_exec(&chars(text), &chars(sep)));
        let expected: Vec<String> = text.split(sep).map(|s| s.to_string()).collect();
        assert_eq!(parts, expected);
    }
}

#[test]
fn lines_match_str_lines() {
    for text in ["a\nb", "a\r\nb\r\n", "\n", "", "x\n\ny", "z\r"] {
        let ls = texts(&lines_exec(&chars(text)));
        let expected: Vec<String> = text.lines().map(|s| s.to_string()).collect();
        assert_eq!(ls, expected);
    }
}

#[test]
fn lines_joined_give_the_text_back_but_a_final_line_feed() {
    let s = chars("one\ntwo\n\nthree\n");
    let ls = lines_exec(&s);
    assert_eq!(string_of(&join_exec(&ls, &chars("\n"))), "one\ntwo\n\nthree");
}

#[test]
fn no_line_holds_a_line_feed() {
    for l in lines_exec(&chars("a\r\n\nb\nc")) {
        assert!(!l.contains(&'\n'));
    }
}

#[test]
fn characters_and_strings_round_trip() {
    let s = "añb€𝄞";
    let c = chars_of(s);
    assert_eq!(c.len(), 5);
    assert_eq!(string_of(&c), s);
    assert_eq!(strings_of(&vec![c.clone(), vec![]]), vec![s.to_string(), String::new()]);
}

#[test]
fn replace_works_from_the_left_without_overlap() {
    let r = replace_exec(&chars("a\"\"\"b\"\"\"\""), &chars("\"\""), &chars("\""));
    assert_eq!(r, chars("a\"\"b\"\""));
    assert_eq!(replace_exec(&chars("plain"), &chars("\"\""), &chars("\"")), chars("plain"));
    assert_eq!(replace_exec(&chars("ab"), &chars(""), &chars("-")), chars("-a-b-"));
}
