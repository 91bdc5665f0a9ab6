use simple_csv_reader::csv::reader::{
    break_line_and_sort, full_read, multi_split, read_buffer_to_table, try_full_read,
    PLACEHOLDER_FILE,
};

fn strings(v: &[&str]) -> Vec<String> {
    v.iter().map(|s| s.to_string()).collect()
}

#[test]
fn plain_line_is_cut_at_every_comma() {
    assert_eq!(break_line_and_sort("a,b,c".to_string()), strings(&["a", "b", "c"]));
}

#[test]
fn plain_line_joined_back_is_the_line() {
    let line = "name,,age,";
    let cells = break_line_and_sort(line.to_string());
    assert_eq!(cells, strings(&["name", "", "age", ""]));
    assert_eq!(cells.join(","), line);
}

#[test]
fn empty_line_gives_one_empty_cell() {
    assert_eq!(break_line_and_sort(String::new()), strings(&[""]));
}

#[test]
fn quoted_field_keeps_its_commas() {
    assert_eq!(
        break_line_and_sort("a,\"x,y\",b".to_string()),
        strings(&["a", "x,y", "b"])
    );
}

#[test]
fn quote_at_line_start_opens_no_quoted_cell() {
    assert_eq!(
        break_line_and_sort("\"x,y\",b".to_string()),
        strings(&["\"x", "y\"", "b"])
    );
}

#[test]
fn quoted_cells_side_by_side_follow_only_the_plain_cell_before_them() {
    assert_eq!(
        break_line_and_sort("a,\"p,q\",\"r,s\",b".to_string()),
        strings(&["a", "p,q", "b"])
    );
    assert_eq!(
        break_line_and_sort("a,\"b\",\"c\",d".to_string()),
        strings(&["a", "b", "d"])
    );
}

#[test]
fn quoted_cell_at_line_end_is_cut_at_its_comma() {
    assert_eq!(
        break_line_and_sort("a,\"b,c\"".to_string()),
        strings(&["a", "\"b", "c\""])
    );
}

#[test]
fn equal_plain_cells_each_get_every_quoted_cell_they_precede() {
    assert_eq!(
        break_line_and_sort("1,\"a,b\",1,\"c,d\",2".to_string()),
        strings(&["1", "a,b", "c,d", "1", "a,b", "c,d", "2"])
    );
}

#[test]
fn unclosed_quote_is_cut_at_its_commas() {
    assert_eq!(
        break_line_and_sort("a,\"b,c".to_string()),
        strings(&["a", "\"b", "c"])
    );
}

#[test]
fn text_after_a_closing_quote_keeps_the_quotes() {
    assert_eq!(
        break_line_and_sort("\"ab\"cd,e".to_string()),
        strings(&["\"ab\"cd", "e"])
    );
}

#[test]
fn quotes_inside_a_plain_cell_stay() {
    assert_eq!(
        break_line_and_sort("a\"b,c".to_string()),
        strings(&["a\"b", "c"])
    );
}

#[test]
fn non_ascii_cells() {
    assert_eq!(
        break_line_and_sort("é,\"ü,ö\",z".to_string()),
        strings(&["é", "ü,ö", "z"])
    );
}

#[test]
fn table_takes_its_width_from_the_first_line() {
    let (cols, cells) = read_buffer_to_table("h1,h2\r\nv1,v2\nw1,w2,w3\n".to_string());
    assert_eq!(cols, 2);
    assert_eq!(cells, strings(&["h1", "h2", "v1", "v2", "w1", "w2", "w3"]));
}

#[test]
fn first_row_is_the_first_line() {
    let (cols, cells) = read_buffer_to_table("x,\"1,2\",y\nz".to_string());
    assert_eq!(cols, 3);
    assert_eq!(cells[..cols].to_vec(), break_line_and_sort("x,\"1,2\",y".to_string()));
}

#[test]
fn carriage_return_of_last_line_without_newline_stays() {
    let (cols, cells) = read_buffer_to_table("a\nb\r".to_string());
    assert_eq!(cols, 1);
    assert_eq!(cells, strings(&["a", "b\r"]));
}

#[test]
fn blank_line_gives_an_empty_cell() {
    let (_, cells) = read_buffer_to_table("a\n\nb".to_string());
    assert_eq!(cells, strings(&["a", "", "b"]));
}

#[test]
fn doubled_quotes_stand_for_one_before_the_line_is_cut() {
    let (cols, cells) = full_read("a,\"say \"\"hi\"\", ok\",b\n");
    assert_eq!(cols, 4);
    assert_eq!(cells, strings(&["a", "say \"hi", " ok\"", "b"]));
}

#[test]
fn three_quotes_read_as_two() {
    let (_, cells) = full_read("\"\"\"");
    assert_eq!(cells, strings(&["\"\""]));
}

#[test]
fn doubled_quote_in_a_plain_cell_reads_as_one() {
    assert_eq!(full_read("a\"\"b"), (1, strings(&["a\"b"])));
}

#[test]
fn full_read_reads_the_unescaped_text() {
    let text = "p,\"q\"\"\"\n1,2";
    assert_eq!(full_read(text), read_buffer_to_table("p,\"q\"\"\n1,2".to_string()));
    assert_eq!(full_read(text).1, strings(&["p", "\"q\"\"", "1", "2"]));
}

#[test]
fn full_read_and_try_full_read_agree() {
    let text = "k,v\n1,\"a,b\",2\n";
    assert_eq!(try_full_read(text), Some(full_read(text)));
}

#[test]
fn line_that_cannot_be_cut_makes_the_text_unreadable() {
    assert_eq!(try_full_read("a,\",b"), None);
    assert_eq!(try_full_read("ok\na\",b,\"c"), None);
    assert_eq!(try_full_read("a,\"\",b"), None);
}

#[test]
fn empty_text_cannot_be_read() {
    assert_eq!(try_full_read(""), None);
}


#[test]
fn multi_split_at_each_separator_in_turn() {
    assert_eq!(multi_split("a,b;c", vec![",", ";"]), strings(&["a", "b", "c"]));
    assert_eq!(multi_split("a--b-c", vec!["--", "-"]), strings(&["a", "b", "c"]));
}

#[test]
fn multi_split_with_one_separator_is_split() {
    assert_eq!(multi_split("x::y::", vec!["::"]), strings(&["x", "y", ""]));
}

#[test]
fn multi_split_at_empty_separator_cuts_every_character() {
    assert_eq!(multi_split("ab", vec![""]), strings(&["", "a", "b", ""]));
}

#[test]
fn placeholder_file_name() {
    assert_eq!(PLACEHOLDER_FILE, "./placeholder.csv");
}

#[test]
fn empty_quoted_field_in_a_line() {
    assert_eq!(
        break_line_and_sort("a,\"\",b".to_string()),
        strings(&["a", "", "b"])
    );
}

#[test]
fn empty_quoted_cell_in_a_file_becomes_a_lone_quote() {
    assert_eq!(try_full_read("h1,h2,h3\na,\"\",b"), None);
    assert_eq!(
        try_full_read("h1,h2,h3\na,\"\"\"\",b"),
        Some((3, strings(&["h1", "h2", "h3", "a", "", "b"])))
    );
}

#[test]
fn every_cell_is_a_piece_of_its_line() {
    for line in [
        "a,\"p,q\",\"r,s\",b",
        "1,\"a,b\",1,\"c,d\",2",
        "x,\"1,2\",y",
        "\"x,y\",b",
        "a,\"\",b",
        "é,\"ü,ö\",z",
        "",
    ] {
        let cells = break_line_and_sort(line.to_string());
        assert!(!cells.is_empty());
        for cell in &cells {
            assert!(line.contains(cell.as_str()));
        }
    }
}

#[test]
fn text_without_doubled_quotes_is_read_as_it_is() {
    let text = "h,\"a,b\",k\n\"x\"y,z";
    assert_eq!(full_read(text), read_buffer_to_table(text.to_string()));
}
