//! The table view's state: which file it shows, the cells read from it,
//! and how many columns a row has.

use vstd::prelude::*;
use crate::csv::reader::{
    buffer_readable, buffer_table, try_full_read, unescape_quotes, PLACEHOLDER_FILE,
};
use crate::text::string_views;

verus! {

/// What the user does to the table.
#[derive(Debug)]
pub enum Message {
    /// The cell at the given position now holds the given text.
    InputChange((usize, String)),
}

impl Clone for Message {
    fn clone(&self) -> (m: Message)
        ensures
            m == *self,
    {
        match self {
            Message::InputChange((i, s)) => Message::InputChange((*i, s.clone())),
        }
    }
}

/// The table view: the file shown, its cells row after row, and the
/// number of cells in a row.
#[derive(Debug, Clone)]
pub struct App {
    file: String,
    content: Vec<String>,
    is_loading: bool,
    cols: usize,
}

/// The abstract state of the table view.
pub struct AppView {
    pub file: Seq<char>,
    pub content: Seq<Seq<char>>,
    pub is_loading: bool,
    pub cols: nat,
}

impl App {
    /// The state as plain values.
    pub closed spec fn state(&self) -> AppView {
        AppView {
            file: self.file@,
            content: string_views(self.content@),
            is_loading: self.is_loading,
            cols: self.cols as nat,
        }
    }
}

impl View for App {
    type V = AppView;

    open spec fn view(&self) -> AppView {
        self.state()
    }
}

/// The number of full rows of `cols` cells among `len` cells.
pub open spec fn table_rows(cols: nat, len: nat) -> nat {
    if cols == 0 {
        0
    } else {
        len / cols
    }
}

/// Every position the layout shows is a cell, and positions grow in
/// reading order: they run through `0 .. cols * rows` row after row.
pub proof fn lemma_layout_positions(cols: nat, len: nat, n1: nat, m1: nat, n2: nat, m2: nat)
    requires
        n1 < table_rows(cols, len),
        m1 < cols,
        n2 < table_rows(cols, len),
        m2 < cols,
    ensures
        cols * n1 + m1 < len,
        (n1 < n2 || (n1 == n2 && m1 < m2)) ==> cols * n1 + m1 < cols * n2 + m2,
{
    let rows = table_rows(cols, len);
    assert(cols * rows <= len) by (nonlinear_arith)
        requires
            cols > 0,
            rows == len / cols,
    ;
    assert(cols * n1 + m1 < cols * rows) by (nonlinear_arith)
        requires
            n1 < rows,
            m1 < cols,
    ;
    if n1 < n2 {
        assert(cols * n1 + m1 < cols * n2 + m2) by (nonlinear_arith)
            requires
                n1 < n2,
                m1 < cols,
        ;
    }
}

impl Default for App {
    fn default() -> (app: App)
        ensures
            app@.file == Seq::<char>::empty(),
            app@.content == Seq::<Seq<char>>::empty(),
            !app@.is_loading,
            app@.cols == 0,
    {
        let app = App { file: String::new(), content: Vec::new(), is_loading: false, cols: 0 };
        assert(string_views(app.content@) =~= Seq::<Seq<char>>::empty());
        app
    }
}

impl App {
    /// The view of the file `file` whose text is `contents`, read as
    /// `full_read` reads it, or nothing when that text has no first line to
    /// give the table its width or has a line that cannot be cut.
    pub fn new(file: String, contents: &str) -> (app: Option<App>)
        ensures
            app is Some <==> buffer_readable(unescape_quotes(contents@)),
            app matches Some(a) ==> a@.file == file@ && a@.content == buffer_table(
                unescape_quotes(contents@),
            ).1 && a@.cols == buffer_table(unescape_quotes(contents@)).0 && !a@.is_loading,
    {
        match try_full_read(contents) {
            Some((cols, content)) => Some(App { file, content, cols, is_loading: false }),
            None => None,
        }
    }

    /// The file to show: the first argument after the program's name, or
    /// the placeholder file when there is none.
    pub fn file_from_args(args: &Vec<String>) -> (file: String)
        ensures
            file@ == if args.len() >= 2 {
                args@[1]@
            } else {
                PLACEHOLDER_FILE@
            },
    {
        if args.len() >= 2 {
            args[1].clone()
        } else {
            PLACEHOLDER_FILE.to_owned()
        }
    }

    /// The window's title.
    pub fn title(&self) -> (title: String)
        ensures
            title@ == "csv reader"@,
    {
        "csv reader".to_owned()
    }

    /// Applies a message: an edited cell takes its new text, and nothing
    /// else changes.
    pub fn update(&mut self, message: Message)
        requires
            message matches Message::InputChange((i, _)) ==> i < old(self)@.content.len(),
        ensures
            match message {
                Message::InputChange((i, val)) => {
                    &&& final(self)@.content == old(self)@.content.update(i as int, val@)
                    &&& final(self)@.file == old(self)@.file
                    &&& final(self)@.cols == old(self)@.cols
                    &&& final(self)@.is_loading == old(self)@.is_loading
                },
            },
    {
        match message {
            Message::InputChange((i, val)) => {
                let ghost before = string_views(self.content@);
                let ghost v = val@;
                self.content.set(i, val);
                assert(string_views(self.content@) =~= before.update(i as int, v));
            },
        }
    }

    /// The file shown.
    pub fn file(&self) -> (file: &String)
        ensures
            file@ == self@.file,
    {
        &self.file
    }

    /// The number of cells in a row.
    pub fn cols(&self) -> (cols: usize)
        ensures
            cols == self@.cols,
    {
        self.cols
    }

    /// The number of cells.
    pub fn len(&self) -> (len: usize)
        ensures
            len == self@.content.len(),
    {
        self.content.len()
    }

    /// The text of the cell at position `i`.
    pub fn cell(&self, i: usize) -> (cell: &String)
        requires
            i < self@.content.len(),
        ensures
            cell@ == self@.content[i as int],
    {
        &self.content[i]
    }

    /// The positions of the cells the table shows, row after row: as many
    /// full rows of `cols` cells as the cells make, row `n` holding the
    /// cells `cols * n` up to `cols * (n + 1)`.
    pub fn table_layout(&self) -> (rows: Vec<Vec<usize>>)
        ensures
            rows.len() == table_rows(self@.cols, self@.content.len()),
            forall|n: int|
                #![trigger rows[n]]
                0 <= n < rows.len() ==> rows[n].len() == self@.cols && forall|m: int|
                    0 <= m < self@.cols ==> rows[n][m] == self@.cols * n + m,
    {
        let len = self.content.len();
        let cols = self.cols;
        let n_rows = if cols == 0 {
            0
        } else {
            len / cols
        };
        assert(cols * n_rows <= len) by (nonlinear_arith)
            requires
                cols > 0 ==> n_rows == len / cols,
                cols == 0 ==> n_rows == 0,
        ;
        let mut rows: Vec<Vec<usize>> = Vec::new();
        let mut n: usize = 0;
        while n < n_rows
            invariant
                len == self@.content.len(),
                cols == self@.cols,
                n_rows == table_rows(cols as nat, len as nat),
                cols * n_rows <= len,
                n <= n_rows,
                rows.len() == n,
                forall|k: int|
                    #![trigger rows[k]]
                    0 <= k < n ==> rows[k].len() == cols && forall|m: int|
                        0 <= m < cols ==> rows[k][m] == cols * k + m,
            decreases n_rows - n,
        {
            let mut row: Vec<usize> = Vec::new();
            let mut m: usize = 0;
            while m < cols
                invariant
                    cols * n_rows <= len,
                    n < n_rows,
                    m <= cols,
                    row.len() == m,
                    forall|j: int| 0 <= j < m ==> row[j] == cols * n + j,
                decreases cols - m,
            {
                assert(cols * n + m < cols * n_rows) by (nonlinear_arith)
                    requires
                        n < n_rows,
                        m < cols,
                ;
                row.push(cols * n + m);
                m += 1;
            }
            rows.push(row);
            n += 1;
        }
        rows
    }
}

} // verus!
