use simple_csv_reader::gui::app::{App, Message};
use simple_csv_reader::matcell::Side;

fn cells(app: &App) -> Vec<String> {
    (0..app.len()).map(|i| app.cell(i).clone()).collect()
}

#[test]
fn new_app_holds_the_table_of_its_file() {
    let app = App::new("t.csv".to_string(), "a,b\n1,2\n").unwrap();
    assert_eq!(app.file(), "t.csv");
    assert_eq!(app.cols(), 2);
    assert_eq!(cells(&app), vec!["a", "b", "1", "2"]);
}

#[test]
fn new_app_refuses_unreadable_text() {
    assert!(App::new("t.csv".to_string(), "").is_none());
}

#[test]
fn title_is_fixed() {
    let app = App::default();
    assert_eq!(app.title(), "csv reader");
}

#[test]
fn default_app_is_empty() {
    let app = App::default();
    assert_eq!(app.file(), "");
    assert_eq!(app.len(), 0);
    assert_eq!(app.cols(), 0);
}

#[test]
fn edited_cell_reads_back_and_others_stay() {
    let mut app = App::new("t.csv".to_string(), "a,b,c\n").unwrap();
    app.update(Message::InputChange((1, "new".to_string())));
    assert_eq!(cells(&app), vec!["a", "new", "c"]);
    assert_eq!(app.cols(), 3);
    assert_eq!(app.file(), "t.csv");
}

#[test]
fn file_from_args_takes_the_first_argument() {
    let args = vec!["prog".to_string(), "data.csv".to_string(), "x".to_string()];
    assert_eq!(App::file_from_args(&args), "data.csv");
}

#[test]
fn file_from_args_falls_back_to_the_placeholder() {
    let args = vec!["prog".to_string()];
    assert_eq!(App::file_from_args(&args), "./placeholder.csv");
}

#[test]
fn layout_has_one_row_per_cols_cells() {
    let text = "a,b,c\nd,e,f\ng,h,i\nj,k,l\nm,n,o\np,q,r\n";
    let app = App::new("t.csv".to_string(), text).unwrap();
    assert_eq!(app.len(), 18);
    assert_eq!(
        app.table_layout(),
        vec![
            vec![0, 1, 2],
            vec![3, 4, 5],
            vec![6, 7, 8],
            vec![9, 10, 11],
            vec![12, 13, 14],
            vec![15, 16, 17]
        ]
    );
}

#[test]
fn layout_of_six_cells_in_two_columns() {
    let app = App::new("t.csv".to_string(), "a,b\n1,2\n3,4\n").unwrap();
    assert_eq!(app.table_layout(), vec![vec![0, 1], vec![2, 3], vec![4, 5]]);
}

#[test]
fn layout_drops_a_short_last_row() {
    let app = App::new("t.csv".to_string(), "a,b,c\nd\n").unwrap();
    assert_eq!(app.len(), 4);
    assert_eq!(app.table_layout(), vec![vec![0, 1, 2]]);
}

#[test]
fn layout_of_an_empty_app_is_empty() {
    assert_eq!(App::default().table_layout(), Vec::<Vec<usize>>::new());
}

#[test]
fn cloned_message_is_equal() {
    let m = Message::InputChange((3, "x".to_string()));
    let c = m.clone();
    let Message::InputChange((i, s)) = c;
    assert_eq!(i, 3);
    assert_eq!(s, "x");
}

#[test]
fn cloned_side_is_equal() {
    assert!(matches!(Side::Left.clone(), Side::Left));
    assert!(matches!(Side::Right.clone(), Side::Right));
}
