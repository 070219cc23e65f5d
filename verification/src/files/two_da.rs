//! Tables of text (2DA): a line that names the format, a line that names
//! the columns, and one line for each row, which starts with the number of
//! the row.

use crate::decimal::{parse_u64, parsed};
use crate::error::{Error, ParseFault};
use crate::files::text::{chars_of, is_text, push_char};
use vstd::prelude::*;

verus! {

/// Whether `c` separates the parts of a line.
pub open spec fn is_separator(c: char) -> bool {
    c == '\n' || c == '\r' || c == ' ' || c == '\t'
}

/// `parts` with `part` after them, unless `part` is empty.
pub open spec fn with_part(parts: Seq<Seq<char>>, part: Seq<char>) -> Seq<Seq<char>> {
    if part.len() == 0 {
        parts
    } else {
        parts.push(part)
    }
}

/// The parts of the rest of `line` from `i` on, after `parts`, where `part`
/// is the part that has been read so far and `quoted` tells whether a
/// quotation mark is open.
pub open spec fn parts_from(
    line: Seq<char>,
    i: int,
    quoted: bool,
    part: Seq<char>,
    parts: Seq<Seq<char>>,
) -> Seq<Seq<char>>
    decreases line.len() - i,
{
    if i < 0 || i >= line.len() {
        with_part(parts, part)
    } else if quoted {
        if line[i] == '"' {
            parts_from(line, i + 1, false, part, parts)
        } else {
            parts_from(line, i + 1, true, part.push(line[i]), parts)
        }
    } else if line[i] == '"' {
        parts_from(line, i + 1, true, part, parts)
    } else if is_separator(line[i]) {
        parts_from(line, i + 1, false, Seq::empty(), with_part(parts, part))
    } else {
        parts_from(line, i + 1, false, part.push(line[i]), parts)
    }
}

/// The parts of a line: the runs of characters between blanks, tabs and
/// line ends. Between two quotation marks every character belongs to the
/// part; the marks themselves do not.
pub open spec fn line_parts(line: Seq<char>) -> Seq<Seq<char>> {
    parts_from(line, 0, false, Seq::empty(), Seq::empty())
}

/// The texts `v` as sequences of characters.
pub open spec fn texts(v: Seq<String>) -> Seq<Seq<char>> {
    Seq::new(v.len(), |i: int| v[i]@)
}

/// The parts of `line`.
pub fn split_line_parts(line: &str) -> (r: Vec<String>)
    ensures
        texts(r@) == line_parts(line@),
{
    let chars = chars_of(line);
    let mut parts: Vec<String> = Vec::new();
    let mut part = String::new();
    let mut quoted = false;
    let mut i: usize = 0;
    assert(texts(parts@) =~= Seq::empty());
    while i < chars.len()
        invariant
            0 <= i <= chars@.len(),
            chars@ == line@,
            line_parts(line@) == parts_from(line@, i as int, quoted, part@, texts(parts@)),
        decreases chars@.len() - i,
    {
        let c = chars[i];
        if quoted {
            if c == '"' {
                quoted = false;
            } else {
                push_char(&mut part, c);
            }
        } else if c == '"' {
            quoted = true;
        } else if c == '\n' || c == '\r' || c == ' ' || c == '\t' {
            if part.as_str().unicode_len() > 0 {
                let ghost before = texts(parts@);
                let ghost pv = part@;
                parts.push(part);
                assert(texts(parts@) =~= before.push(pv));
                part = String::new();
            } else {
                assert(part@ =~= Seq::empty());
            }
        } else {
            push_char(&mut part, c);
        }
        i = i + 1;
    }
    if part.as_str().unicode_len() > 0 {
        let ghost before = texts(parts@);
        let ghost pv = part@;
        parts.push(part);
        assert(texts(parts@) =~= before.push(pv));
    }
    parts
}

/// Whether `parts` are the two parts of the line that names the format.
pub open spec fn is_format_line(parts: Seq<Seq<char>>) -> bool {
    parts.len() == 2 && parts[0] == "2DA"@ && parts[1] == "V2.0"@
}

/// Accepts the parts of the first line if they name the format, `2DA
/// V2.0`; `ParseError(BadHeader)` if they do not or if there is no first line.
pub fn validate_header(header: Option<&Vec<String>>) -> (r: Result<(), Error>)
    ensures
        match r {
            Ok(_) => header matches Some(h) && is_format_line(texts(h@)),
            Err(e) => !(header matches Some(h) && is_format_line(texts(h@))) && e
                == Error::ParseError(ParseFault::BadHeader),
        },
{
    match header {
        Some(h) => {
            if h.len() == 2 && is_text(h[0].as_str(), "2DA") && is_text(h[1].as_str(), "V2.0") {
                Ok(())
            } else {
                Err(Error::ParseError(ParseFault::BadHeader))
            }
        },
        None => Err(Error::ParseError(ParseFault::BadHeader)),
    }
}

/// A table: the names of its columns, and its rows, each with one cell for
/// each column. A cell may be empty.
#[derive(Debug, Default, PartialEq, Eq)]
pub struct DataTable {
    pub columns: Vec<String>,
    pub data: Vec<Vec<Option<String>>>,
}

/// What a cell holds, as plain values.
pub open spec fn cell_text(c: Option<String>) -> Option<Seq<char>> {
    match c {
        Some(s) => Some(s@),
        None => None,
    }
}

/// The cells `row` as plain values.
pub open spec fn row_view(row: Seq<Option<String>>) -> Seq<Option<Seq<char>>> {
    Seq::new(row.len(), |i: int| cell_text(row[i]))
}

/// The rows `rows` as plain values.
pub open spec fn rows_view(rows: Seq<Vec<Option<String>>>) -> Seq<Seq<Option<Seq<char>>>> {
    Seq::new(rows.len(), |i: int| row_view(rows[i]@))
}

/// What a table is, as plain values.
pub struct DataTableView {
    pub columns: Seq<Seq<char>>,
    pub data: Seq<Seq<Option<Seq<char>>>>,
}

impl View for DataTable {
    type V = DataTableView;

    open spec fn view(&self) -> DataTableView {
        DataTableView { columns: texts(self.columns@), data: rows_view(self.data@) }
    }
}

/// A row of `width` empty cells.
pub open spec fn empty_row(width: nat) -> Seq<Option<Seq<char>>> {
    Seq::new(width, |i: int| None::<Seq<char>>)
}

/// The rows `data` of `width` cells each, with `value` in column `x` of
/// row `y`: rows of empty cells are added up to row `y` if need be, and
/// nothing changes if the table has no column `x`.
pub open spec fn inserted(
    data: Seq<Seq<Option<Seq<char>>>>,
    width: nat,
    x: int,
    y: int,
    value: Option<Seq<char>>,
) -> Seq<Seq<Option<Seq<char>>>> {
    if x < 0 || x >= width || y < 0 {
        data
    } else {
        let grown = if y < data.len() {
            data
        } else {
            data + Seq::new((y + 1 - data.len()) as nat, |i: int| empty_row(width))
        };
        grown.update(y, grown[y].update(x, value))
    }
}

/// The cell in column `x` of row `y`, if row `y` has such a cell.
pub open spec fn table_cell(data: Seq<Seq<Option<Seq<char>>>>, x: int, y: int) -> Option<
    Option<Seq<char>>,
> {
    if 0 <= y < data.len() && 0 <= x < data[y].len() {
        Some(data[y][x])
    } else {
        None
    }
}

/// The cell in column `x` of row `y`; an empty cell if row `y` has no such cell.
pub open spec fn column_cell(data: Seq<Seq<Option<Seq<char>>>>, x: int, y: int) -> Option<
    Seq<char>,
> {
    match table_cell(data, x, y) {
        Some(c) => c,
        None => None,
    }
}

/// Whether each row has `width` cells.
pub open spec fn rows_wf(data: Seq<Seq<Option<Seq<char>>>>, width: nat) -> bool {
    forall|i: int| 0 <= i < data.len() ==> (#[trigger] data[i]).len() == width
}

impl DataTable {
    /// Whether each row has one cell for each column.
    pub open spec fn wf(&self) -> bool {
        rows_wf(self@.data, self@.columns.len())
    }

    /// The number of columns.
    pub fn width(&self) -> (r: usize)
        ensures
            r == self@.columns.len(),
    {
        self.columns.len()
    }

    /// The number of rows.
    pub fn height(&self) -> (r: usize)
        ensures
            r == self@.data.len(),
    {
        self.data.len()
    }

    /// The number of the first column with the name `column`, if there is one.
    pub fn find_column_index(&self, column: &str) -> (r: Option<usize>)
        ensures
            match r {
                Some(i) => i < self@.columns.len() && self@.columns[i as int] == column@
                    && forall|k: int| 0 <= k < i ==> self@.columns[k] != column@,
                None => forall|k: int| 0 <= k < self@.columns.len() ==> self@.columns[k] != column@,
            },
    {
        let mut i: usize = 0;
        while i < self.columns.len()
            invariant
                0 <= i <= self.columns@.len(),
                forall|k: int| 0 <= k < i ==> self@.columns[k] != column@,
            decreases self.columns@.len() - i,
        {
            if is_text(self.columns[i].as_str(), column) {
                return Some(i);
            }
            i = i + 1;
        }
        None
    }

    /// The cell in column `x` of row `y`, if row `y` has such a cell.
    pub fn get(&self, x: usize, y: usize) -> (r: Option<&Option<String>>)
        ensures
            match r {
                Some(c) => table_cell(self@.data, x as int, y as int) == Some(cell_text(*c)),
                None => table_cell(self@.data, x as int, y as int) is None,
            },
    {
        if y < self.data.len() {
            let row = &self.data[y];
            if x < row.len() {
                return Some(&row[x]);
            }
        }
        None
    }

    /// The cells of column `index`, from the first row to the last, an
    /// empty cell for a row that has no such cell; none if the table has
    /// no such column.
    pub fn get_column_data(&self, index: usize) -> (r: Vec<Option<&String>>)
        ensures
            index >= self@.columns.len() ==> r@.len() == 0,
            index < self@.columns.len() ==> r@.len() == self@.data.len() && forall|y: int|
                0 <= y < r@.len() ==> column_cell(self@.data, index as int, y) == match #[trigger] r@[y] {
                    Some(s) => Some(s@),
                    None => None,
                },
    {
        let mut out: Vec<Option<&String>> = Vec::new();
        if index >= self.columns.len() {
            return out;
        }
        let mut y: usize = 0;
        while y < self.data.len()
            invariant
                0 <= y <= self.data@.len(),
                index < self@.columns.len(),
                out@.len() == y,
                forall|k: int|
                    0 <= k < y ==> column_cell(self@.data, index as int, k) == match #[trigger] out@[k] {
                        Some(s) => Some(s@),
                        None => None,
                    },
            decreases self.data@.len() - y,
        {
            let row = &self.data[y];
            if index < row.len() {
                out.push(row[index].as_ref());
            } else {
                out.push(None);
            }
            y = y + 1;
        }
        out
    }

    /// The cells of row `index`, from the first to the last; none if the
    /// table has no such row.
    pub fn get_row_data(&self, index: usize) -> (r: Vec<Option<&String>>)
        ensures
            index >= self@.data.len() ==> r@.len() == 0,
            index < self@.data.len() ==> r@.len() == self@.data[index as int].len() && forall|
                x: int,
            |
                0 <= x < r@.len() ==> self@.data[index as int][x] == match #[trigger] r@[x] {
                    Some(s) => Some(s@),
                    None => None,
                },
    {
        let mut out: Vec<Option<&String>> = Vec::new();
        if index >= self.data.len() {
            return out;
        }
        let row = &self.data[index];
        let mut x: usize = 0;
        while x < row.len()
            invariant
                0 <= x <= row@.len(),
                index < self@.data.len(),
                row@ == self.data@[index as int]@,
                out@.len() == x,
                forall|k: int|
                    0 <= k < x ==> self@.data[index as int][k] == match #[trigger] out@[k] {
                        Some(s) => Some(s@),
                        None => None,
                    },
            decreases row@.len() - x,
        {
            out.push(row[x].as_ref());
            x = x + 1;
        }
        out
    }

    /// Puts `value` in column `x` of row `y`: rows of empty cells are added
    /// up to row `y` if need be, and nothing changes if the table has no
    /// column `x`.
    pub fn insert_at(&mut self, x: usize, y: usize, value: Option<String>)
        requires
            old(self).wf(),
        ensures
            final(self).wf(),
            final(self)@.columns == old(self)@.columns,
            final(self)@.data == inserted(
                old(self)@.data,
                old(self)@.columns.len(),
                x as int,
                y as int,
                cell_text(value),
            ),
    {
        let width = self.columns.len();
        if x >= width {
            return ;
        }
        let ghost before = self@.data;
        while self.data.len() <= y
            invariant
                self.columns == old(self).columns,
                width == self.columns@.len(),
                self.wf(),
                before == old(self)@.data,
                before.len() <= self@.data.len(),
                self@.data.len() <= y + 1 || self@.data.len() == before.len(),
                self@.data == before + Seq::new(
                    (self@.data.len() - before.len()) as nat,
                    |i: int| empty_row(width as nat),
                ),
            decreases y + 1 - self.data.len(),
        {
            let mut row: Vec<Option<String>> = Vec::new();
            let mut k: usize = 0;
            while k < width
                invariant
                    0 <= k <= width,
                    row@.len() == k,
                    forall|j: int| 0 <= j < k ==> row@[j] is None,
                decreases width - k,
            {
                row.push(None);
                k = k + 1;
            }
            assert(row_view(row@) =~= empty_row(width as nat));
            let ghost rows = self.data@;
            self.data.push(row);
            assert(rows_view(self.data@) =~= rows_view(rows).push(empty_row(width as nat)));
            assert(self@.data =~= before + Seq::new(
                (self@.data.len() - before.len()) as nat,
                |i: int| empty_row(width as nat),
            ));
        }
        let ghost grown = self@.data;
        let ghost rows = self.data@;
        assert(grown[y as int].len() == width);
        let ghost v = cell_text(value);
        let row = &mut self.data[y];
        row[x] = value;
        proof {
            assert(self.data@[y as int]@ =~= rows[y as int]@.update(x as int, value));
            assert(row_view(self.data@[y as int]@) =~= grown[y as int].update(x as int, v));
            assert(self@.data =~= grown.update(y as int, grown[y as int].update(x as int, v)));
        }
    }
}

/// The table after the first `n` cells of the parts of a row: the first
/// part is the number of the row, each other part the cell of the next
/// column; the part `****` stands for an empty cell.
pub open spec fn with_cells(
    data: Seq<Seq<Option<Seq<char>>>>,
    width: nat,
    parts: Seq<Seq<char>>,
    y: int,
    n: nat,
) -> Seq<Seq<Option<Seq<char>>>>
    decreases n,
{
    if n == 0 || n >= parts.len() {
        data
    } else {
        inserted(
            with_cells(data, width, parts, y, (n - 1) as nat),
            width,
            n - 1,
            y,
            if parts[n as int] == "****"@ {
                None
            } else {
                Some(parts[n as int])
            },
        )
    }
}

/// The table after the first `n` of `lines` that follow the line of the
/// column names: a line without parts is passed over; `ParseError(BadRowIndex)`
/// for the first line whose first part is no decimal number that this
/// machine can hold.
pub open spec fn with_rows(
    data: Seq<Seq<Option<Seq<char>>>>,
    width: nat,
    lines: Seq<Seq<char>>,
    first: int,
    n: nat,
) -> Result<Seq<Seq<Option<Seq<char>>>>, Error>
    decreases n,
{
    if n == 0 {
        Ok(data)
    } else {
        match with_rows(data, width, lines, first, (n - 1) as nat) {
            Err(e) => Err(e),
            Ok(d) => {
                let parts = line_parts(lines[first + n - 1]);
                if parts.len() == 0 {
                    Ok(d)
                } else {
                    match parsed(parts[0], u64::MAX as nat) {
                        Some(y) => if y <= usize::MAX {
                            Ok(with_cells(d, width, parts, y as int, (parts.len() - 1) as nat))
                        } else {
                            Err(Error::ParseError(ParseFault::BadRowIndex))
                        },
                        None => Err(Error::ParseError(ParseFault::BadRowIndex)),
                    }
                }
            },
        }
    }
}

/// The number of the first line, from `from` on, that has parts; the
/// number of lines if none has.
pub open spec fn first_with_parts(lines: Seq<Seq<char>>, from: int) -> int
    decreases lines.len() - from,
{
    if from < 0 || from >= lines.len() || line_parts(lines[from]).len() > 0 {
        from
    } else {
        first_with_parts(lines, from + 1)
    }
}

/// The table that `lines` hold.
///
/// The first line names the format. The first line after it that has parts
/// names the columns. Each line after that one is a row, unless it has no parts.
pub open spec fn table_of(lines: Seq<Seq<char>>) -> Result<DataTableView, Error> {
    if lines.len() == 0 || !is_format_line(line_parts(lines[0])) {
        Err(Error::ParseError(ParseFault::BadHeader))
    } else if first_with_parts(lines, 1) >= lines.len() {
        Err(Error::ParseError(ParseFault::MissingTableHeader))
    } else {
        let h = first_with_parts(lines, 1);
        let columns = line_parts(lines[h]);
        match with_rows(Seq::empty(), columns.len(), lines, h + 1, (lines.len() - h - 1) as nat) {
            Err(e) => Err(e),
            Ok(data) => Ok(DataTableView { columns, data }),
        }
    }
}

/// Rows of which the first `n` cannot be read cannot be read as more either.
pub proof fn lemma_rows_fail(
    data: Seq<Seq<Option<Seq<char>>>>,
    width: nat,
    lines: Seq<Seq<char>>,
    first: int,
    n: nat,
    m: nat,
)
    requires
        n <= m,
        with_rows(data, width, lines, first, n) is Err,
    ensures
        with_rows(data, width, lines, first, m) == with_rows(data, width, lines, first, n),
    decreases m,
{
    if n < m {
        lemma_rows_fail(data, width, lines, first, n, (m - 1) as nat);
    }
}

/// Puts the cells of the row with the parts `parts` into `table`.
fn insert_row(table: &mut DataTable, parts: Vec<String>, y: usize)
    requires
        old(table).wf(),
        parts@.len() >= 1,
    ensures
        final(table).wf(),
        final(table)@.columns == old(table)@.columns,
        final(table)@.data == with_cells(
            old(table)@.data,
            old(table)@.columns.len(),
            texts(parts@),
            y as int,
            (parts@.len() - 1) as nat,
        ),
{
    let ghost pv = texts(parts@);
    let ghost start = table@.data;
    let ghost width = table@.columns.len();
    let mut parts = parts;
    let n = parts.len();
    let mut k: usize = n;
    // cells are taken from the last part to the first, so that each can be
    // moved out of the parts; they are put in their columns from the first
    let mut taken: Vec<String> = Vec::new();
    while k > 1
        invariant
            1 <= k <= n,
            n == pv.len(),
            parts@.len() == k,
            taken@.len() == n - k,
            forall|j: int| 0 <= j < k ==> (#[trigger] parts@[j])@ == pv[j],
            forall|j: int| 0 <= j < taken@.len() ==> (#[trigger] taken@[j])@ == pv[n - 1 - j],
        decreases k,
    {
        let item = parts.pop().unwrap();
        taken.push(item);
        k = k - 1;
    }
    let mut x: usize = 0;
    while x + 1 < n
        invariant
            0 <= x < n,
            n == pv.len(),
            taken@.len() == n - 1 - x,
            forall|j: int| 0 <= j < taken@.len() ==> (#[trigger] taken@[j])@ == pv[n - 1 - j],
            table.wf(),
            table@.columns == old(table)@.columns,
            width == table@.columns.len(),
            start == old(table)@.data,
            table@.data == with_cells(start, width, pv, y as int, x as nat),
        decreases n - x,
    {
        let item = taken.pop().unwrap();
        assert(item@ == pv[x + 1]);
        let value = if is_text(item.as_str(), "****") {
            None
        } else {
            Some(item)
        };
        proof {
            reveal_with_fuel(with_cells, 2);
            assert(((x + 1) - 1) as nat == x as nat);
        }
        table.insert_at(x, y, value);
        x = x + 1;
    }
}

/// Reads a table from its lines.
///
/// `ParseError(BadHeader)` if the first line does not name the format,
/// `ParseError(MissingTableHeader)` if no line names the columns, and
/// `ParseError(BadRowIndex)` if a row does not start with its number.
pub fn parse(lines: &Vec<String>) -> (r: Result<DataTable, Error>)
    ensures
        match r {
            Ok(t) => table_of(texts(lines@)) == Ok::<DataTableView, Error>(t@) && t.wf(),
            Err(e) => table_of(texts(lines@)) == Err::<DataTableView, Error>(e),
        },
{
    let ghost lv = texts(lines@);
    if lines.len() == 0 {
        return Err(Error::ParseError(ParseFault::BadHeader));
    }
    let file_header = split_line_parts(lines[0].as_str());
    validate_header(Some(&file_header))?;

    let mut h: usize = 1;
    let mut table_header: Vec<String> = Vec::new();
    while h < lines.len()
        invariant_except_break
            table_header@.len() == 0,
        invariant
            1 <= h <= lines@.len(),
            lv == texts(lines@),
            first_with_parts(lv, 1) == first_with_parts(lv, h as int),
        ensures
            h <= lines@.len(),
            first_with_parts(lv, 1) == h,
            h < lines@.len() ==> texts(table_header@) == line_parts(lv[h as int])
                && table_header@.len() > 0,
        decreases lines@.len() - h,
    {
        let parts = split_line_parts(lines[h].as_str());
        if parts.len() > 0 {
            table_header = parts;
            break ;
        }
        h = h + 1;
    }
    if h >= lines.len() {
        return Err(Error::ParseError(ParseFault::MissingTableHeader));
    }
    let mut table = DataTable { columns: table_header, data: Vec::new() };
    let ghost width = table@.columns.len();
    assert(table@.data =~= Seq::empty());
    let first: usize = h + 1;
    let total: usize = lines.len() - first;
    let mut n: usize = 0;
    while n < total
        invariant
            0 <= n <= total,
            first + total == lines@.len(),
            first == h + 1,
            h < lines@.len(),
            lines@.len() <= usize::MAX,
            is_format_line(line_parts(lv[0])),
            first_with_parts(lv, 1) == h,
            lv == texts(lines@),
            table.wf(),
            table@.columns == line_parts(lv[h as int]),
            width == table@.columns.len(),
            with_rows(Seq::empty(), width, lv, first as int, n as nat) == Ok::<
                Seq<Seq<Option<Seq<char>>>>,
                Error,
            >(table@.data),
        decreases total - n,
    {
        let parts = split_line_parts(lines[first + n].as_str());
        proof {
            reveal_with_fuel(with_rows, 2);
            assert(((n + 1) - 1) as nat == n as nat);
        }
        if parts.len() > 0 {
            let y = match parse_u64(parts[0].as_str()) {
                Some(y) => y,
                None => {
                    proof {
                        lemma_rows_fail(
                            Seq::empty(),
                            width,
                            lv,
                            first as int,
                            (n + 1) as nat,
                            total as nat,
                        );
                    }
                    return Err(Error::ParseError(ParseFault::BadRowIndex));
                },
            };
            if y > usize::MAX as u64 {
                proof {
                    lemma_rows_fail(
                        Seq::empty(),
                        width,
                        lv,
                        first as int,
                        (n + 1) as nat,
                        total as nat,
                    );
                }
                return Err(Error::ParseError(ParseFault::BadRowIndex));
            }
            insert_row(&mut table, parts, y as usize);
        }
        n = n + 1;
    }
    Ok(table)
}

} // verus!
