use vstd::prelude::*;

use crate::error::GridError;
use crate::grid::{Grid, is_rectangular, row_view, rows_view, set_field};
use crate::text::{
    all_free_of, free_of, join_parts, lemma_join_free, lemma_join_split, lemma_split_free,
    lemma_split_join, lemma_split_nonempty, split_parts,
};

verus! {

broadcast use vstd::string::group_string_axioms;

/// The character between the fields of a row.
pub const FIELD_SEPARATOR: char = ',';

/// The character between rows.
pub const LINE_SEPARATOR: char = '\n';

/// A line with one carriage return at its end taken off.
pub open spec fn strip_cr(p: Seq<char>) -> Seq<char> {
    if p.len() > 0 && p.last() == '\r' {
        p.drop_last()
    } else {
        p
    }
}

/// The lines of a text: the pieces between line separators, where a line
/// ended by a separator loses one trailing carriage return, and an empty
/// last piece (an empty text, or one that ends with a separator) is no line.
pub open spec fn text_lines(text: Seq<char>) -> Seq<Seq<char>> {
    let pieces = split_parts(text, LINE_SEPARATOR);
    let n = if pieces.last().len() == 0 {
        pieces.len() - 1
    } else {
        pieces.len() as int
    };
    Seq::new(
        n as nat,
        |i: int|
            if i < pieces.len() - 1 {
                strip_cr(pieces[i])
            } else {
                pieces[i]
            },
    )
}

/// The fields of each line of a text.
pub open spec fn text_rows(text: Seq<char>) -> Seq<Seq<Seq<char>>> {
    text_lines(text).map_values(|l: Seq<char>| split_parts(l, FIELD_SEPARATOR))
}

/// The text that holds the given rows: fields joined by the field
/// separator, rows joined by the line separator, no separator after the
/// last row.
pub open spec fn csv_text(cells: Seq<Seq<Seq<char>>>) -> Seq<char> {
    join_parts(cells.map_values(|r: Seq<Seq<char>>| join_parts(r, FIELD_SEPARATOR)), LINE_SEPARATOR)
}

/// The characters of a text, in order.
fn chars_of(text: &str) -> (r: Vec<char>)
    ensures
        r@ == text@,
{
    let mut out: Vec<char> = Vec::new();
    for c in it: text.chars()
        invariant
            it.seq() == text@,
            out@ == it.seq().subrange(0, it.index() as int),
    {
        out.push(c);
    }
    assert(out@ =~= text@);
    out
}

/// The pieces of `s[lo..hi]` between occurrences of `sep`.
fn split_chars(s: &[char], lo: usize, hi: usize, sep: char) -> (r: Vec<Vec<char>>)
    requires
        lo <= hi <= s@.len(),
    ensures
        r@.map_values(|v: Vec<char>| v@) == split_parts(s@.subrange(lo as int, hi as int), sep),
{
    let mut pieces: Vec<Vec<char>> = Vec::new();
    let mut cur: Vec<char> = Vec::new();
    let mut i: usize = lo;
    while i < hi
        invariant
            lo <= i <= hi <= s@.len(),
            pieces@.map_values(|v: Vec<char>| v@).push(cur@) == split_parts(
                s@.subrange(lo as int, i as int),
                sep,
            ),
        decreases hi - i,
    {
        let ghost done = s@.subrange(lo as int, i as int);
        let c = s[i];
        assert(s@.subrange(lo as int, i + 1).drop_last() =~= done);
        if c == sep {
            pieces.push(cur);
            cur = Vec::new();
        } else {
            cur.push(c);
        }
        i = i + 1;
        assert(pieces@.map_values(|v: Vec<char>| v@).push(cur@) =~= split_parts(
            s@.subrange(lo as int, i as int),
            sep,
        ));
    }
    pieces.push(cur);
    assert(pieces@.map_values(|v: Vec<char>| v@) =~= split_parts(
        s@.subrange(lo as int, hi as int),
        sep,
    ));
    pieces
}

/// Relies on `String`'s `FromIterator<&char>`: the string holds the given
/// characters, in order.
#[verifier::external_body]
fn string_of(chars: &[char]) -> (r: String)
    ensures
        r@ == chars@,
{
    chars.iter().collect()
}

/// One string for each character sequence.
fn strings_of(parts: &Vec<Vec<char>>) -> (r: Vec<String>)
    ensures
        row_view(r) == parts@.map_values(|v: Vec<char>| v@),
{
    let mut out: Vec<String> = Vec::new();
    let mut j: usize = 0;
    while j < parts.len()
        invariant
            j <= parts@.len(),
            out@.len() == j,
            row_view(out) == parts@.map_values(|v: Vec<char>| v@).subrange(0, j as int),
        decreases parts@.len() - j,
    {
        let ghost prev = out@;
        let field = string_of(parts[j].as_slice());
        out.push(field);
        assert(out@ == prev.push(field));
        assert(row_view(out)[j as int] == parts@[j as int]@);
        assert forall|k: int| 0 <= k < j implies #[trigger] row_view(out)[k] == prev[k]@ by {
            assert(out@[k] == prev[k]);
        }
        j = j + 1;
        assert(row_view(out) =~= parts@.map_values(|v: Vec<char>| v@).subrange(0, j as int));
    }
    assert(parts@.map_values(|v: Vec<char>| v@).subrange(0, j as int) =~= parts@.map_values(
        |v: Vec<char>| v@,
    ));
    out
}

/// Reads a grid from text: one row per line, fields split at each field
/// separator. Fails on a text without lines, and on lines with unequal
/// numbers of fields.
pub fn parse_csv(text: &str) -> (r: Result<Grid, GridError>)
    ensures
        text_rows(text@).len() == 0 ==> r == Err::<Grid, GridError>(GridError::EmptyDataset),
        text_rows(text@).len() > 0 && !is_rectangular(text_rows(text@), text_rows(text@)[0].len())
            ==> r == Err::<Grid, GridError>(GridError::MalformedInput),
        text_rows(text@).len() > 0 && is_rectangular(text_rows(text@), text_rows(text@)[0].len())
            ==> r is Ok,
        r is Ok ==> r->Ok_0@ == text_rows(text@) && r->Ok_0.spec_col_count() == text_rows(
            text@,
        )[0].len() && r->Ok_0.wf(),
{
    let chars = chars_of(text);
    let pieces = split_chars(chars.as_slice(), 0, chars.len(), LINE_SEPARATOR);
    let ghost pv = pieces@.map_values(|v: Vec<char>| v@);
    assert(chars@.subrange(0, chars@.len() as int) =~= text@);
    proof {
        lemma_split_nonempty(text@, LINE_SEPARATOR);
    }
    let np = pieces.len();
    assert(pv[np - 1] == pieces@[np - 1]@);
    let n: usize = if pieces[np - 1].len() == 0 {
        np - 1
    } else {
        np
    };
    let ghost lines = text_lines(text@);
    assert(lines.len() == n);
    let mut rows: Vec<Vec<String>> = Vec::new();
    let mut i: usize = 0;
    while i < n
        invariant
            n <= np,
            np == pieces@.len(),
            pv == pieces@.map_values(|v: Vec<char>| v@),
            pv == split_parts(text@, LINE_SEPARATOR),
            lines == text_lines(text@),
            lines.len() == n,
            i <= n,
            rows@.len() == i,
            rows_view(rows@) == text_rows(text@).subrange(0, i as int),
        decreases n - i,
    {
        let piece = &pieces[i];
        assert(pv[i as int] == piece@);
        let mut end: usize = piece.len();
        if i < np - 1 && end > 0 && piece[end - 1] == '\r' {
            end = end - 1;
        }
        assert(piece@.subrange(0, end as int) =~= lines[i as int]);
        let fields = split_chars(piece.as_slice(), 0, end, FIELD_SEPARATOR);
        let row = strings_of(&fields);
        assert(row_view(row) =~= text_rows(text@)[i as int]);
        let ghost prev = rows@;
        rows.push(row);
        assert(rows@ == prev.push(row));
        assert forall|k: int| 0 <= k < i implies #[trigger] rows_view(rows@)[k] == row_view(
            prev[k],
        ) by {
            assert(rows@[k] == prev[k]);
        }
        i = i + 1;
        assert(rows_view(rows@) =~= text_rows(text@).subrange(0, i as int));
    }
    assert(text_rows(text@).subrange(0, i as int) =~= text_rows(text@));
    assert(rows_view(rows@) == text_rows(text@));
    if rows.len() > 0 {
        assert(rows_view(rows@)[0].len() == rows@[0]@.len());
    }
    Grid::from_rows(rows)
}

/// Appends the given strings to `out`, with `sep_text` between neighbours.
fn push_joined(out: &mut String, parts: &Vec<String>, sep: char, sep_text: &str)
    requires
        sep_text@ == seq![sep],
    ensures
        final(out)@ == old(out)@ + join_parts(row_view(*parts), sep),
{
    let ghost start = out@;
    let ghost pv = row_view(*parts);
    let mut i: usize = 0;
    while i < parts.len()
        invariant
            i <= parts@.len(),
            pv == row_view(*parts),
            sep_text@ == seq![sep],
            out@ == start + join_parts(pv.subrange(0, i as int), sep),
        decreases parts@.len() - i,
    {
        let ghost before = out@;
        if i > 0 {
            out.append(sep_text);
        }
        out.append(parts[i].as_str());
        assert(pv[i as int] == parts@[i as int]@);
        let ghost sub = pv.subrange(0, i + 1);
        assert(sub.drop_last() =~= pv.subrange(0, i as int));
        if i == 0 {
            assert(out@ =~= start + join_parts(sub, sep));
        } else {
            assert(out@ =~= start + join_parts(sub, sep));
        }
        i = i + 1;
    }
    assert(pv.subrange(0, i as int) =~= pv);
}

/// The text that holds the given rows: fields joined by the field
/// separator, rows joined by the line separator, nothing after the last row.
pub fn to_csv_text(rows: &Vec<Vec<String>>) -> (r: String)
    ensures
        r@ == csv_text(rows_view(rows@)),
{
    proof {
        reveal_strlit(",");
    }
    let ghost cells = rows_view(rows@);
    let ghost joined = cells.map_values(|r: Seq<Seq<char>>| join_parts(r, FIELD_SEPARATOR));
    let mut lines: Vec<String> = Vec::new();
    let mut i: usize = 0;
    while i < rows.len()
        invariant
            i <= rows@.len(),
            lines@.len() == i,
            cells == rows_view(rows@),
            joined == cells.map_values(|r: Seq<Seq<char>>| join_parts(r, FIELD_SEPARATOR)),
            ","@ == seq![FIELD_SEPARATOR],
            row_view(lines) == joined.subrange(0, i as int),
        decreases rows@.len() - i,
    {
        let mut line = String::new();
        push_joined(&mut line, &rows[i], FIELD_SEPARATOR, ",");
        assert(line@ =~= joined[i as int]);
        let ghost prev = lines@;
        lines.push(line);
        assert(lines@ == prev.push(line));
        assert forall|k: int| 0 <= k < i implies #[trigger] row_view(lines)[k] == prev[k]@ by {
            assert(lines@[k] == prev[k]);
        }
        i = i + 1;
        assert(row_view(lines) =~= joined.subrange(0, i as int));
    }
    assert(joined.subrange(0, i as int) =~= joined);
    let mut out = String::new();
    proof {
        reveal_strlit("\n");
    }
    assert("\n"@ =~= seq![LINE_SEPARATOR]);
    push_joined(&mut out, &lines, LINE_SEPARATOR, "\n");
    assert(out@ =~= csv_text(cells));
    out
}

/// Writing out the rows read from a text gives the text back, byte for
/// byte, when the text holds no carriage return and does not end with a line
/// separator.
pub proof fn lemma_round_trip(text: Seq<char>)
    requires
        free_of(text, '\r'),
        text.len() == 0 || text.last() != LINE_SEPARATOR,
    ensures
        csv_text(text_rows(text)) == text,
{
    let pieces = split_parts(text, LINE_SEPARATOR);
    lemma_split_nonempty(text, LINE_SEPARATOR);
    lemma_join_split(text, LINE_SEPARATOR);
    lemma_split_free(text, LINE_SEPARATOR, '\r');
    let rows = text_rows(text);
    let joined = rows.map_values(|r: Seq<Seq<char>>| join_parts(r, FIELD_SEPARATOR));
    if text.len() == 0 {
        assert(rows.len() == 0);
        assert(joined =~= Seq::<Seq<char>>::empty());
    } else {
        let prev = split_parts(text.drop_last(), LINE_SEPARATOR);
        lemma_split_nonempty(text.drop_last(), LINE_SEPARATOR);
        assert(pieces.last() == prev.last().push(text.last()));
        assert(text_lines(text).len() == pieces.len());
        assert forall|i: int| 0 <= i < pieces.len() implies #[trigger] joined[i] == pieces[i] by {
            assert(free_of(pieces[i], '\r'));
            if pieces[i].len() > 0 {
                assert(pieces[i][pieces[i].len() - 1] != '\r');
            }
            assert(text_lines(text)[i] == pieces[i]);
            lemma_join_split(pieces[i], FIELD_SEPARATOR);
        }
        assert(joined =~= pieces);
    }
}

/// No field of any row holds `c`.
pub open spec fn cells_free_of(cells: Seq<Seq<Seq<char>>>, c: char) -> bool {
    forall|i: int| 0 <= i < cells.len() ==> all_free_of(#[trigger] cells[i], c)
}

/// Rows that survive being written out and read back: at least one row, at
/// least one field per row, no separator or carriage return in any field,
/// and a last row that is not written as an empty line.
pub open spec fn reloadable(cells: Seq<Seq<Seq<char>>>, cols: nat) -> bool {
    &&& cells.len() >= 1
    &&& cols >= 1
    &&& is_rectangular(cells, cols)
    &&& cells_free_of(cells, FIELD_SEPARATOR)
    &&& cells_free_of(cells, LINE_SEPARATOR)
    &&& cells_free_of(cells, '\r')
    &&& (cols >= 2 || cells.last()[0].len() > 0)
}

/// Reading back the text that rows were written as gives the same rows.
pub proof fn lemma_reload(cells: Seq<Seq<Seq<char>>>, cols: nat)
    requires
        reloadable(cells, cols),
    ensures
        text_rows(csv_text(cells)) == cells,
{
    let lines = cells.map_values(|r: Seq<Seq<char>>| join_parts(r, FIELD_SEPARATOR));
    let text = csv_text(cells);
    assert forall|i: int| 0 <= i < lines.len() implies free_of(
        #[trigger] lines[i],
        LINE_SEPARATOR,
    ) && free_of(lines[i], '\r') by {
        assert(all_free_of(cells[i], LINE_SEPARATOR));
        assert(all_free_of(cells[i], '\r'));
        lemma_join_free(cells[i], FIELD_SEPARATOR, LINE_SEPARATOR);
        lemma_join_free(cells[i], FIELD_SEPARATOR, '\r');
    }
    assert(all_free_of(lines, LINE_SEPARATOR));
    lemma_split_join(lines, LINE_SEPARATOR);
    let last = cells.last();
    assert(last.len() == cols);
    assert(lines.last() == join_parts(last, FIELD_SEPARATOR));
    if cols == 1 {
        assert(lines.last() == last[0]);
    }
    assert(lines.last().len() > 0);
    assert(text_lines(text).len() == lines.len());
    assert forall|i: int| 0 <= i < lines.len() implies #[trigger] text_rows(text)[i] == cells[i] by {
        if lines[i].len() > 0 {
            assert(lines[i][lines[i].len() - 1] != '\r');
        }
        assert(text_lines(text)[i] == lines[i]);
        assert(cells[i].len() == cols);
        assert(all_free_of(cells[i], FIELD_SEPARATOR));
        lemma_split_join(cells[i], FIELD_SEPARATOR);
    }
    assert(text_rows(text) =~= cells);
}

/// After the field at 1-based `(row, col)` is set to `v` and the grid is
/// written out, reading the store back gives a grid whose field there is `v`
/// and whose other fields are as they were.
pub proof fn lemma_modify_then_reload(
    cells: Seq<Seq<Seq<char>>>,
    cols: nat,
    row: int,
    col: int,
    v: Seq<char>,
)
    requires
        is_rectangular(cells, cols),
        1 <= row <= cells.len(),
        1 <= col <= cols,
        reloadable(set_field(cells, row - 1, col - 1, v), cols),
    ensures
        ({
            let back = text_rows(csv_text(set_field(cells, row - 1, col - 1, v)));
            &&& back.len() == cells.len()
            &&& is_rectangular(back, back[0].len())
            &&& back[row - 1][col - 1] == v
            &&& forall|i: int, j: int|
                0 <= i < cells.len() && 0 <= j < cells[i].len() && (i != row - 1 || j != col - 1)
                    ==> #[trigger] back[i][j] == cells[i][j]
        }),
{
    let m = set_field(cells, row - 1, col - 1, v);
    lemma_reload(m, cols);
    assert(m[0].len() == cols);
    assert(cells[row - 1].len() == cols);
    assert(m[row - 1] == cells[row - 1].update(col - 1, v));
    assert forall|i: int, j: int|
        0 <= i < cells.len() && 0 <= j < cells[i].len() && (i != row - 1 || j != col - 1)
            implies #[trigger] m[i][j] == cells[i][j] by {
        if i != row - 1 {
            assert(m[i] == cells[i]);
        } else {
            assert(m[i] == cells[i].update(col - 1, v));
            assert(m[i][j] == cells[i][j]);
        }
    }
    assert(text_rows(csv_text(m)) == m);
    assert(is_rectangular(m, m[0].len()));
}

} // verus!
