use vstd::prelude::*;

verus! {

broadcast use vstd::string::group_string_axioms;

/// Rows of the 5x7 bitmap glyph for `ch`, top row first; within a row the most
/// significant of the five low bits is the leftmost column. Characters without a
/// glyph are blank.
pub open spec fn glyph_rows(ch: char) -> Seq<u8> {
    if ch == '0' {
        seq![0b01110u8, 0b10001, 0b10011, 0b10101, 0b11001, 0b10001, 0b01110]
    } else if ch == '1' {
        seq![0b00100u8, 0b01100, 0b00100, 0b00100, 0b00100, 0b00100, 0b01110]
    } else if ch == '2' {
        seq![0b01110u8, 0b10001, 0b00001, 0b00010, 0b00100, 0b01000, 0b11111]
    } else if ch == '3' {
        seq![0b11110u8, 0b00001, 0b00001, 0b01110, 0b00001, 0b00001, 0b11110]
    } else if ch == '4' {
        seq![0b00010u8, 0b00110, 0b01010, 0b10010, 0b11111, 0b00010, 0b00010]
    } else if ch == '5' {
        seq![0b11111u8, 0b10000, 0b10000, 0b11110, 0b00001, 0b00001, 0b11110]
    } else if ch == '6' {
        seq![0b01110u8, 0b10000, 0b10000, 0b11110, 0b10001, 0b10001, 0b01110]
    } else if ch == '7' {
        seq![0b11111u8, 0b00001, 0b00010, 0b00100, 0b01000, 0b01000, 0b01000]
    } else if ch == '8' {
        seq![0b01110u8, 0b10001, 0b10001, 0b01110, 0b10001, 0b10001, 0b01110]
    } else if ch == '9' {
        seq![0b01110u8, 0b10001, 0b10001, 0b01111, 0b00001, 0b00001, 0b01110]
    } else if ch == 'T' || ch == 't' {
        seq![0b11111u8, 0b00100, 0b00100, 0b00100, 0b00100, 0b00100, 0b00100]
    } else if ch == 'X' || ch == 'x' || ch == '\u{00d7}' {
        seq![0b10001u8, 0b01010, 0b00100, 0b00100, 0b00100, 0b01010, 0b10001]
    } else if ch == '.' {
        seq![0b00000u8, 0b00000, 0b00000, 0b00000, 0b00000, 0b01100, 0b01100]
    } else if ch == ':' {
        seq![0b00000u8, 0b01100, 0b01100, 0b00000, 0b01100, 0b01100, 0b00000]
    } else if ch == '-' {
        seq![0b00000u8, 0b00000, 0b00000, 0b11111, 0b00000, 0b00000, 0b00000]
    } else if ch == '+' {
        seq![0b00000u8, 0b00100, 0b00100, 0b11111, 0b00100, 0b00100, 0b00000]
    } else {
        seq![0b00000u8, 0b00000, 0b00000, 0b00000, 0b00000, 0b00000, 0b00000]
    }
}

/// The 5x7 bitmap of `ch`, one byte per row.
pub fn glyph_bits(ch: char) -> (rows: [u8; 7])
    ensures
        rows@ == glyph_rows(ch),
{
    let rows: [u8; 7] = match ch {
        '0' => [0b01110, 0b10001, 0b10011, 0b10101, 0b11001, 0b10001, 0b01110],
        '1' => [0b00100, 0b01100, 0b00100, 0b00100, 0b00100, 0b00100, 0b01110],
        '2' => [0b01110, 0b10001, 0b00001, 0b00010, 0b00100, 0b01000, 0b11111],
        '3' => [0b11110, 0b00001, 0b00001, 0b01110, 0b00001, 0b00001, 0b11110],
        '4' => [0b00010, 0b00110, 0b01010, 0b10010, 0b11111, 0b00010, 0b00010],
        '5' => [0b11111, 0b10000, 0b10000, 0b11110, 0b00001, 0b00001, 0b11110],
        '6' => [0b01110, 0b10000, 0b10000, 0b11110, 0b10001, 0b10001, 0b01110],
        '7' => [0b11111, 0b00001, 0b00010, 0b00100, 0b01000, 0b01000, 0b01000],
        '8' => [0b01110, 0b10001, 0b10001, 0b01110, 0b10001, 0b10001, 0b01110],
        '9' => [0b01110, 0b10001, 0b10001, 0b01111, 0b00001, 0b00001, 0b01110],
        'T' | 't' => [0b11111, 0b00100, 0b00100, 0b00100, 0b00100, 0b00100, 0b00100],
        'X' | 'x' | '\u{00d7}' => [0b10001, 0b01010, 0b00100, 0b00100, 0b00100, 0b01010, 0b10001],
        '.' => [0b00000, 0b00000, 0b00000, 0b00000, 0b00000, 0b01100, 0b01100],
        ':' => [0b00000, 0b01100, 0b01100, 0b00000, 0b01100, 0b01100, 0b00000],
        '-' => [0b00000, 0b00000, 0b00000, 0b11111, 0b00000, 0b00000, 0b00000],
        '+' => [0b00000, 0b00100, 0b00100, 0b11111, 0b00100, 0b00100, 0b00000],
        _ => [0b00000, 0b00000, 0b00000, 0b00000, 0b00000, 0b00000, 0b00000],
    };
    assert(rows@ =~= glyph_rows(ch));
    rows
}

/// A decimal digit.
pub open spec fn is_digit(ch: char) -> bool {
    '0' <= ch <= '9'
}

/// The seven rows of a bitmap read as one number, five bits per row.
spec fn bitmap_code(rows: Seq<u8>) -> int {
    rows[0] + 32 * rows[1] + 1024 * rows[2] + 32768 * rows[3] + 1048576 * rows[4] + 33554432
        * rows[5] + 1073741824 * rows[6]
}

/// Every glyph fits the 5x7 grid: seven rows of five bits. Each digit is drawn with a
/// bitmap of its own: no two distinct digits share one, and no digit is blank.
pub proof fn lemma_digit_glyphs_distinct()
    ensures
        forall|ch: char| #[trigger] glyph_rows(ch).len() == 7,
        forall|ch: char, i: int| 0 <= i < 7 ==> #[trigger] glyph_rows(ch)[i] < 32,
        forall|a: char, b: char|
            is_digit(a) && is_digit(b) && a != b ==> #[trigger] glyph_rows(a) != #[trigger] glyph_rows(b),
        forall|d: char|
            is_digit(d) ==> #[trigger] glyph_rows(d) != seq![0u8, 0u8, 0u8, 0u8, 0u8, 0u8, 0u8],
{
    assert forall|a: char, b: char|
        is_digit(a) && is_digit(b) && a != b implies #[trigger] glyph_rows(a) != #[trigger] glyph_rows(b) by {
        if glyph_rows(a) == glyph_rows(b) {
            assert(bitmap_code(glyph_rows(a)) == bitmap_code(glyph_rows(b)));
        }
    }
    assert forall|d: char| is_digit(d) implies #[trigger] glyph_rows(d) != seq![
        0u8,
        0u8,
        0u8,
        0u8,
        0u8,
        0u8,
        0u8,
    ] by {
        assert(glyph_rows(d)[3] != 0u8 || glyph_rows(d)[0] != 0u8);
    }
}

/// The cell in row `row`, column `col` of the bitmap of `ch` is lit.
pub open spec fn glyph_lit(ch: char, row: int, col: int) -> bool {
    (glyph_rows(ch)[row] >> ((4 - col) as u8)) & 1u8 == 1u8
}

/// The 35 cells of the 5x7 grid as (row, column), row by row, left to right.
pub open spec fn glyph_grid() -> Seq<(u8, u8)> {
    Seq::new(35, |k: int| ((k / 5) as u8, (k % 5) as u8))
}

/// The cell `cell` is lit in the bitmap of `ch`.
pub open spec fn cell_lit(ch: char) -> spec_fn((u8, u8)) -> bool {
    |cell: (u8, u8)| glyph_lit(ch, cell.0 as int, cell.1 as int)
}

/// The lit cells of the bitmap of `ch`, row by row, left to right.
pub fn glyph_cells(ch: char) -> (cells: Vec<(u8, u8)>)
    ensures
        cells@ == glyph_grid().filter(cell_lit(ch)),
{
    let rows = glyph_bits(ch);
    let ghost grid = glyph_grid();
    let ghost pred = cell_lit(ch);
    let mut cells: Vec<(u8, u8)> = Vec::new();
    let mut row: u8 = 0;
    while row < 7
        invariant
            row <= 7,
            rows@ == glyph_rows(ch),
            grid == glyph_grid(),
            pred == cell_lit(ch),
            cells@ == grid.take(row * 5).filter(pred),
        decreases 7 - row,
    {
        let bits = rows[row as usize];
        let mut col: u8 = 0;
        while col < 5
            invariant
                row < 7,
                col <= 5,
                bits == glyph_rows(ch)[row as int],
                grid == glyph_grid(),
                pred == cell_lit(ch),
                cells@ == grid.take(row * 5 + col).filter(pred),
            decreases 5 - col,
        {
            let ghost k: int = row * 5 + col;
            assert(grid.take(k + 1).drop_last() =~= grid.take(k));
            assert(grid[k] == (row, col));
            reveal_with_fuel(Seq::filter, 1);
            if (bits >> (4 - col)) & 1 == 1 {
                cells.push((row, col));
            }
            col = col + 1;
        }
        row = row + 1;
    }
    assert(grid.take(35) =~= grid);
    cells
}

/// `line` without one trailing carriage return.
pub open spec fn strip_cr(line: Seq<char>) -> Seq<char> {
    if line.len() > 0 && line.last() == '\r' {
        line.drop_last()
    } else {
        line
    }
}

/// Splits `s` at each newline: the lines ended by a newline (each without a
/// carriage return just before its newline), and the rest after the last newline.
pub open spec fn split_newlines(s: Seq<char>) -> (Seq<Seq<char>>, Seq<char>)
    decreases s.len(),
{
    if s.len() == 0 {
        (seq![], seq![])
    } else {
        let (ended, rest) = split_newlines(s.drop_last());
        if s.last() == '\n' {
            (ended.push(strip_cr(rest)), seq![])
        } else {
            (ended, rest.push(s.last()))
        }
    }
}

/// The lines of `s` as `str::lines` yields them: split at `\n` or `\r\n`, with the
/// final line ending optional, so that an empty rest after the last newline is no line.
pub open spec fn text_lines_of(s: Seq<char>) -> Seq<Seq<char>> {
    let (ended, rest) = split_newlines(s);
    if rest.len() == 0 {
        ended
    } else {
        ended.push(rest)
    }
}

/// The characters of each line of `text`, in order.
pub fn text_lines(text: &str) -> (lines: Vec<Vec<char>>)
    ensures
        lines.deep_view() == text_lines_of(text@),
{
    let mut ended: Vec<Vec<char>> = Vec::new();
    let mut rest: Vec<char> = Vec::new();
    for c in it: text.chars()
        invariant
            it.seq() == text@,
            (ended.deep_view(), rest@) == split_newlines(text@.take(it.index() as int)),
    {
        let ghost k = it.index() as int;
        let ghost before = ended.deep_view();
        assert(text@.take(k + 1).drop_last() =~= text@.take(k));
        assert(c == text@[k]);
        if c == '\n' {
            if rest.len() > 0 && rest[rest.len() - 1] == '\r' {
                rest.pop();
            }
            assert(rest@ == strip_cr(split_newlines(text@.take(k)).1));
            let line = rest;
            assert(line.deep_view() =~= line@);
            let ghost line_view = line@;
            rest = Vec::new();
            ended.push(line);
            assert(ended.deep_view() =~= before.push(line_view));
        } else {
            rest.push(c);
        }
    }
    assert(text@.take(text@.len() as int) =~= text@);
    if rest.len() > 0 {
        let ghost before = ended.deep_view();
        let ghost last = rest@;
        assert(rest.deep_view() =~= rest@);
        ended.push(rest);
        assert(ended.deep_view() =~= before.push(last));
    }
    ended
}

/// `s` with its line endings removed: every `\n`, and a `\r` just before a `\n`.
pub open spec fn without_line_endings(s: Seq<char>) -> Seq<char>
    decreases s.len(),
{
    if s.len() == 0 {
        seq![]
    } else if s.last() == '\n' {
        let p = s.drop_last();
        if p.len() > 0 && p.last() == '\r' {
            without_line_endings(p.drop_last())
        } else {
            without_line_endings(p)
        }
    } else {
        without_line_endings(s.drop_last()).push(s.last())
    }
}

/// The lines ended so far, flattened, followed by the unfinished rest, are `s` without
/// its line endings.
proof fn lemma_split_keeps_characters(s: Seq<char>)
    ensures
        split_newlines(s).0.flatten_alt() + split_newlines(s).1 == without_line_endings(s),
        forall|i: int, j: int|
            0 <= i < split_newlines(s).0.len() && 0 <= j < split_newlines(s).0[i].len()
                ==> #[trigger] split_newlines(s).0[i][j] != '\n',
        forall|j: int| 0 <= j < split_newlines(s).1.len() ==> #[trigger] split_newlines(s).1[j] != '\n',
        s.len() > 0 && s.last() == '\n' ==> split_newlines(s).1.len() == 0,
        s.len() > 0 && s.last() != '\n' ==> split_newlines(s).1.len() > 0 && split_newlines(s).1.last()
            == s.last(),
    decreases s.len(),
{
    if s.len() > 0 {
        let p = s.drop_last();
        lemma_split_keeps_characters(p);
        let (ended, rest) = split_newlines(p);
        if s.last() == '\n' {
            assert(ended.push(strip_cr(rest)).drop_last() =~= ended);
            if p.len() > 0 && p.last() == '\r' {
                let q = p.drop_last();
                lemma_split_keeps_characters(q);
                assert(split_newlines(p) == (split_newlines(q).0, split_newlines(q).1.push('\r')));
                assert(strip_cr(rest) =~= split_newlines(q).1);
                assert(ended.flatten_alt() + strip_cr(rest) =~= without_line_endings(q));
            } else {
                assert(strip_cr(rest) == rest);
            }
            assert(ended.push(strip_cr(rest)).flatten_alt() =~= ended.flatten_alt() + strip_cr(rest));
        } else {
            assert(ended.flatten_alt() + rest.push(s.last()) =~= (ended.flatten_alt() + rest).push(s.last()));
        }
    }
}

/// A line of `s` loses nothing but line endings: all lines joined together are `s`
/// with every `\n`, and every `\r` just before a `\n`, removed; and no line holds a
/// newline.
pub proof fn lemma_lines_keep_characters(s: Seq<char>)
    ensures
        text_lines_of(s).flatten() == without_line_endings(s),
        forall|i: int, j: int|
            0 <= i < text_lines_of(s).len() && 0 <= j < text_lines_of(s)[i].len()
                ==> #[trigger] text_lines_of(s)[i][j] != '\n',
{
    lemma_split_keeps_characters(s);
    let (ended, rest) = split_newlines(s);
    text_lines_of(s).lemma_flatten_and_flatten_alt_are_equivalent();
    if rest.len() > 0 {
        assert(ended.push(rest).drop_last() =~= ended);
        assert(ended.push(rest).flatten_alt() =~= ended.flatten_alt() + rest);
    } else {
        assert(ended.flatten_alt() + rest =~= ended.flatten_alt());
    }
}

/// Splitting a newline-free `a` followed by a newline and `b` gives `a` as the first line,
/// without a carriage return that ended it, and then `b`'s ended lines and rest.
proof fn lemma_split_after_first_line(a: Seq<char>, b: Seq<char>)
    requires
        forall|j: int| 0 <= j < a.len() ==> a[j] != '\n',
    ensures
        split_newlines(a + seq!['\n'] + b) == (
            seq![strip_cr(a)] + split_newlines(b).0,
            split_newlines(b).1,
        ),
        split_newlines(a) == (Seq::<Seq<char>>::empty(), a),
    decreases a.len() + b.len(),
{
    if a.len() > 0 {
        lemma_split_after_first_line(a.drop_last(), seq![]);
        assert(a.drop_last() + seq!['\n'] + Seq::<char>::empty() == a.drop_last().push('\n'));
        assert(a.drop_last().push(a.last()) =~= a);
        assert(split_newlines(a.drop_last()).1.push(a.last()) =~= a);
    }
    assert(split_newlines(a).0 =~= Seq::<Seq<char>>::empty() && split_newlines(a).1 =~= a);
    if b.len() == 0 {
        assert(a + seq!['\n'] + b =~= a.push('\n'));
        assert(a.push('\n').drop_last() =~= a);
        assert(seq![strip_cr(a)] + Seq::<Seq<char>>::empty() =~= seq![strip_cr(a)]);
        assert(Seq::<Seq<char>>::empty().push(strip_cr(a)) =~= seq![strip_cr(a)]);
        assert(split_newlines(b) == (Seq::<Seq<char>>::empty(), Seq::<char>::empty()));
        assert(split_newlines(a.push('\n')) == (seq![strip_cr(a)], Seq::<char>::empty()));
    } else {
        let b0 = b.drop_last();
        lemma_split_after_first_line(a, b0);
        assert((a + seq!['\n'] + b).drop_last() =~= a + seq!['\n'] + b0);
        assert((a + seq!['\n'] + b).last() == b.last());
        let (e0, r0) = split_newlines(b0);
        if b.last() == '\n' {
            assert((seq![strip_cr(a)] + e0).push(strip_cr(r0)) =~= seq![strip_cr(a)] + e0.push(strip_cr(r0)));
        } else {
            assert(split_newlines(b) == (e0, r0.push(b.last())));
        }
    }
}

/// How the lines of a text come about: a text without a newline is one line, or none
/// when empty; and a newline after a newline-free `a` ends `a` as the first line, less a
/// carriage return just before the newline, and the rest of the text gives the
/// following lines.
pub proof fn lemma_lines_structure(a: Seq<char>, b: Seq<char>)
    requires
        forall|j: int| 0 <= j < a.len() ==> a[j] != '\n',
    ensures
        text_lines_of(a) == (if a.len() == 0 {
            Seq::<Seq<char>>::empty()
        } else {
            seq![a]
        }),
        text_lines_of(a + seq!['\n'] + b) == seq![
            if a.len() > 0 && a.last() == '\r' {
                a.drop_last()
            } else {
                a
            },
        ] + text_lines_of(b),
{
    lemma_split_after_first_line(a, b);
    let (e, r) = split_newlines(b);
    if r.len() > 0 {
        assert((seq![strip_cr(a)] + e).push(r) =~= seq![strip_cr(a)] + e.push(r));
    }
    if a.len() > 0 {
        assert(Seq::<Seq<char>>::empty().push(a) =~= seq![a]);
    }
}

} // verus!
