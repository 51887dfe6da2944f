use vstd::prelude::*;

verus! {

/// Why a font text was refused.
#[derive(Debug, Clone, Copy, PartialEq, Eq, Structural)]
pub enum FontError {
    /// A glyph row holds a character other than `.` and `@`.
    InvalidPixel,
    /// A header line has fewer than two characters after `0x`.
    ShortHeader,
    /// The two characters after `0x` are not a hexadecimal number.
    InvalidIndex,
    /// A glyph index is neither 0 nor one more than the index before it.
    IndexOutOfOrder,
    /// The text does not hold exactly 256 glyphs.
    WrongGlyphCount,
    /// A glyph does not have exactly 16 rows.
    WrongRowCount,
    /// A row's pixels make a number that does not fit in a byte.
    RowOutOfRange,
}

/// The number of glyphs of a font table.
pub const GLYPH_COUNT: usize = 256;

/// The number of rows of a glyph.
pub const GLYPH_ROWS: usize = 16;

/// Unicode whitespace, as `char::is_whitespace` and `str::trim` take it:
/// tab to carriage return, space, next line, no-break space, ogham space
/// mark, the spaces from en quad to hair space, line and paragraph
/// separator, narrow no-break space, medium mathematical space and
/// ideographic space.
pub open spec fn is_space(c: char) -> bool {
    let v = c as u32;
    ||| 9 <= v <= 13
    ||| v == 0x20
    ||| v == 0x85
    ||| v == 0xa0
    ||| v == 0x1680
    ||| 0x2000 <= v <= 0x200a
    ||| v == 0x2028
    ||| v == 0x2029
    ||| v == 0x202f
    ||| v == 0x205f
    ||| v == 0x3000
}

/// The line without the whitespace at its start.
pub open spec fn trim_start(line: Seq<char>) -> Seq<char>
    decreases line.len(),
{
    if line.len() > 0 && is_space(line[0]) {
        trim_start(line.drop_first())
    } else {
        line
    }
}

/// The line without the whitespace at its end.
pub open spec fn trim_end(line: Seq<char>) -> Seq<char>
    decreases line.len(),
{
    if line.len() > 0 && is_space(line.last()) {
        trim_end(line.drop_last())
    } else {
        line
    }
}

/// The line without whitespace at either end.
pub open spec fn trim(line: Seq<char>) -> Seq<char> {
    trim_end(trim_start(line))
}

/// The complete lines of a text and the unfinished last one.
pub open spec fn split_state(text: Seq<char>) -> (Seq<Seq<char>>, Seq<char>)
    decreases text.len(),
{
    if text.len() == 0 {
        (Seq::empty(), Seq::empty())
    } else {
        let (done, cur) = split_state(text.drop_last());
        if text.last() == '\n' {
            (done.push(cur), Seq::empty())
        } else {
            (done, cur.push(text.last()))
        }
    }
}

/// The lines of a text, split at line feeds; a last line without a line
/// feed counts when it is not empty.
pub open spec fn lines_of(text: Seq<char>) -> Seq<Seq<char>> {
    let (done, cur) = split_state(text);
    if cur.len() > 0 {
        done.push(cur)
    } else {
        done
    }
}

/// The lines of a text, each trimmed.
pub open spec fn trimmed_lines(text: Seq<char>) -> Seq<Seq<char>> {
    lines_of(text).map_values(|l: Seq<char>| trim(l))
}

/// A trimmed line is a glyph row: it starts with `.` or `@`.
pub open spec fn is_row(line: Seq<char>) -> bool {
    line.len() > 0 && (line[0] == '.' || line[0] == '@')
}

/// A trimmed line is a glyph header: it starts with `0x`.
pub open spec fn is_header(line: Seq<char>) -> bool {
    line.len() >= 2 && line[0] == '0' && line[1] == 'x'
}

/// The value of a hexadecimal digit, if it is one.
pub open spec fn hex_value(c: char) -> Option<int> {
    let v = c as u32;
    if 48 <= v <= 57 {
        Some(v - 48)
    } else if 97 <= v <= 102 {
        Some(v - 87)
    } else if 65 <= v <= 70 {
        Some(v - 55)
    } else {
        None
    }
}

/// The number two characters spell in base 16: two digits, or a `+` and
/// one digit.
pub open spec fn index_value(c0: char, c1: char) -> Option<int> {
    if c0 == '+' {
        hex_value(c1)
    } else {
        match (hex_value(c0), hex_value(c1)) {
            (Some(h), Some(l)) => Some(h * 16 + l),
            _ => None,
        }
    }
}

/// The pixels of a row as a 32-bit number, first pixel highest: `@` is a
/// set bit, `.` a clear one; bits shifted out at the top are lost.
pub open spec fn row_value(line: Seq<char>) -> Option<u32>
    decreases line.len(),
{
    if line.len() == 0 {
        Some(0u32)
    } else {
        match row_value(line.drop_last()) {
            None => None,
            Some(v) => if line.last() == '.' {
                Some(v << 1u32)
            } else if line.last() == '@' {
                Some((v << 1u32) | 1u32)
            } else {
                None
            },
        }
    }
}

/// Reading the glyphs from line `i` on, outside a glyph, with `last` the
/// index of the glyph before and `glyphs` the glyphs read so far.
pub open spec fn glyphs_from(lines: Seq<Seq<char>>, i: int, last: Option<int>, glyphs: Seq<Seq<u32>>) -> Result<
    Seq<Seq<u32>>,
    FontError,
>
    decreases lines.len() - i, 1int,
{
    if i >= lines.len() {
        Ok(glyphs)
    } else {
        let line = lines[i];
        if is_header(line) {
            if line.len() < 4 {
                Err(FontError::ShortHeader)
            } else {
                match index_value(line[2], line[3]) {
                    None => Err(FontError::InvalidIndex),
                    Some(index) => if index == 0 || last == Some(index - 1) {
                        rows_from(lines, i + 1, Some(index), glyphs, Seq::empty())
                    } else {
                        Err(FontError::IndexOutOfOrder)
                    },
                }
            }
        } else {
            glyphs_from(lines, i + 1, last, glyphs)
        }
    }
}

/// Reading the rows of a glyph from line `i` on: rows go on until a line
/// that is not a row, which ends the glyph and is skipped, or the end.
pub open spec fn rows_from(
    lines: Seq<Seq<char>>,
    i: int,
    last: Option<int>,
    glyphs: Seq<Seq<u32>>,
    rows: Seq<u32>,
) -> Result<Seq<Seq<u32>>, FontError>
    decreases lines.len() - i, 0int,
{
    if i >= lines.len() {
        Ok(glyphs.push(rows))
    } else if !is_row(lines[i]) {
        glyphs_from(lines, i + 1, last, glyphs.push(rows))
    } else {
        match row_value(lines[i]) {
            None => Err(FontError::InvalidPixel),
            Some(v) => rows_from(lines, i + 1, last, glyphs, rows.push(v)),
        }
    }
}

/// The glyphs make a font table: 256 glyphs of 16 rows, each row a byte.
pub open spec fn table_error(glyphs: Seq<Seq<u32>>) -> Option<FontError> {
    if glyphs.len() != GLYPH_COUNT {
        Some(FontError::WrongGlyphCount)
    } else if exists|g: int| 0 <= g < glyphs.len() && (#[trigger] glyphs[g]).len() != GLYPH_ROWS {
        Some(FontError::WrongRowCount)
    } else if exists|g: int, r: int| 0 <= g < glyphs.len() && 0 <= r < glyphs[g].len() && #[trigger] glyphs[g][r] >= 256 {
        Some(FontError::RowOutOfRange)
    } else {
        None
    }
}

/// The glyphs when they make a font table, else the fault.
pub open spec fn table_result(glyphs: Seq<Seq<u32>>) -> Result<Seq<Seq<u32>>, FontError> {
    match table_error(glyphs) {
        Some(e) => Err(e),
        None => Ok(glyphs),
    }
}

/// What a font text yields: its glyphs, or the first fault found.
pub open spec fn font_of(text: Seq<char>) -> Result<Seq<Seq<u32>>, FontError> {
    match glyphs_from(trimmed_lines(text), 0, None, Seq::empty()) {
        Err(e) => Err(e),
        Ok(glyphs) => table_result(glyphs),
    }
}

/// The contents of each vector.
pub open spec fn views_of<T>(v: Seq<Vec<T>>) -> Seq<Seq<T>> {
    v.map_values(|x: Vec<T>| x@)
}

fn is_space_char(c: char) -> (r: bool)
    ensures
        r == is_space(c),
{
    let v = c as u32;
    (9 <= v && v <= 13) || v == 0x20 || v == 0x85 || v == 0xa0 || v == 0x1680 || (0x2000 <= v && v <= 0x200a)
        || v == 0x2028 || v == 0x2029 || v == 0x202f || v == 0x205f || v == 0x3000
}

/// The line without whitespace at either end.
pub fn trim_line(line: &[char]) -> (r: Vec<char>)
    ensures
        r@ == trim(line@),
{
    let len = line.len();
    let mut s: usize = 0;
    assert(line@.subrange(0, len as int) =~= line@);
    while s < len && is_space_char(line[s])
        invariant
            s <= len == line@.len(),
            trim_start(line@) == trim_start(line@.subrange(s as int, len as int)),
        decreases len - s,
    {
        proof {
            let sub = line@.subrange(s as int, len as int);
            assert(sub.drop_first() =~= line@.subrange(s as int + 1, len as int));
        }
        s = s + 1;
    }
    let ghost front = line@.subrange(s as int, len as int);
    assert(trim_start(line@) == front);
    let mut e: usize = len;
    while e > s && is_space_char(line[e - 1])
        invariant
            s <= e <= len == line@.len(),
            front == line@.subrange(s as int, len as int),
            trim_end(front) == trim_end(line@.subrange(s as int, e as int)),
        decreases e,
    {
        proof {
            let sub = line@.subrange(s as int, e as int);
            assert(sub.drop_last() =~= line@.subrange(s as int, e as int - 1));
        }
        e = e - 1;
    }
    let mut r: Vec<char> = Vec::new();
    let mut k: usize = s;
    while k < e
        invariant
            s <= k <= e <= len == line@.len(),
            r@ == line@.subrange(s as int, k as int),
        decreases e - k,
    {
        r.push(line[k]);
        assert(line@.subrange(s as int, k as int + 1) =~= line@.subrange(s as int, k as int).push(line@[k as int]));
        k = k + 1;
    }
    r
}

/// The lines of the text, split at line feeds and trimmed.
pub fn split_lines(text: &str) -> (r: Vec<Vec<char>>)
    ensures
        views_of(r@) == trimmed_lines(text@),
{
    broadcast use vstd::string::axiom_spec_iter;

    let mut done: Vec<Vec<char>> = Vec::new();
    let mut cur: Vec<char> = Vec::new();
    for c in it: text.chars()
        invariant
            it.seq() == text@,
            views_of(done@) == split_state(text@.take(it.index())).0.map_values(|l: Seq<char>| trim(l)),
            cur@ == split_state(text@.take(it.index())).1,
    {
        let ghost i = it.index();
        proof {
            assert(text@.take(i + 1).drop_last() =~= text@.take(i));
        }
        if c == '\n' {
            let ghost before = done@;
            let ghost prev = split_state(text@.take(i));
            let line = trim_line(cur.as_slice());
            done.push(line);
            cur = Vec::new();
            proof {
                assert(split_state(text@.take(i + 1)).0 == prev.0.push(prev.1));
                assert(views_of(done@) =~= views_of(before).push(trim(prev.1)));
                assert(prev.0.push(prev.1).map_values(|l: Seq<char>| trim(l)) =~= prev.0.map_values(
                    |l: Seq<char>| trim(l),
                ).push(trim(prev.1)));
            }
        } else {
            cur.push(c);
        }
    }
    proof {
        assert(text@.take(text@.len() as int) =~= text@);
    }
    let ghost before = done@;
    let ghost st = split_state(text@);
    if cur.len() > 0 {
        let line = trim_line(cur.as_slice());
        done.push(line);
        proof {
            assert(views_of(done@) =~= views_of(before).push(trim(st.1)));
            assert(st.0.push(st.1).map_values(|l: Seq<char>| trim(l)) =~= st.0.map_values(|l: Seq<char>| trim(l)).push(
                trim(st.1),
            ));
        }
    }
    proof {
        assert(views_of(done@) =~= trimmed_lines(text@));
    }
    done
}

/// An optional index as an integer.
pub open spec fn int_opt(o: Option<u32>) -> Option<int> {
    match o {
        Some(v) => Some(v as int),
        None => None,
    }
}

/// The result of reading glyphs, with the rows as sequences.
pub open spec fn glyphs_view(r: Result<Vec<Vec<u32>>, FontError>) -> Result<Seq<Seq<u32>>, FontError> {
    match r {
        Ok(g) => Ok(views_of(g@)),
        Err(e) => Err(e),
    }
}

fn hex_digit_value(c: char) -> (r: Option<u32>)
    ensures
        int_opt(r) == hex_value(c),
{
    let v = c as u32;
    if 48 <= v && v <= 57 {
        Some(v - 48)
    } else if 97 <= v && v <= 102 {
        Some(v - 87)
    } else if 65 <= v && v <= 70 {
        Some(v - 55)
    } else {
        None
    }
}

/// The glyph index two header characters spell.
pub fn parse_index(c0: char, c1: char) -> (r: Option<u32>)
    ensures
        int_opt(r) == index_value(c0, c1),
{
    if c0 == '+' {
        return hex_digit_value(c1);
    }
    match (hex_digit_value(c0), hex_digit_value(c1)) {
        (Some(h), Some(l)) => Some(h * 16 + l),
        _ => None,
    }
}

proof fn lemma_row_value_stays_invalid(line: Seq<char>, k: int)
    requires
        0 <= k <= line.len(),
        row_value(line.take(k)) is None,
    ensures
        row_value(line) is None,
    decreases line.len() - k,
{
    if k < line.len() {
        assert(line.take(k + 1).drop_last() =~= line.take(k));
        lemma_row_value_stays_invalid(line, k + 1);
    } else {
        assert(line.take(k) =~= line);
    }
}

/// The pixels of a glyph row as a number, or `None` for a character that
/// is not a pixel.
pub fn parse_row(line: &[char]) -> (r: Option<u32>)
    ensures
        r == row_value(line@),
{
    let mut v: u32 = 0;
    let mut i: usize = 0;
    assert(line@.take(0) =~= Seq::<char>::empty());
    while i < line.len()
        invariant
            0 <= i <= line.len(),
            row_value(line@.take(i as int)) == Some(v),
        decreases line.len() - i,
    {
        let c = line[i];
        assert(line@.take(i as int + 1).drop_last() =~= line@.take(i as int));
        if c == '.' {
            v = v << 1;
        } else if c == '@' {
            v = (v << 1) | 1;
        } else {
            proof {
                lemma_row_value_stays_invalid(line@, i as int + 1);
            }
            return None;
        }
        i = i + 1;
    }
    assert(line@.take(line.len() as int) =~= line@);
    Some(v)
}

/// Reads the glyphs of the trimmed lines: each header `0xNN` starts a glyph
/// whose rows are the lines of `.` and `@` that follow it.
pub fn read_glyphs(lines: &Vec<Vec<char>>) -> (r: Result<Vec<Vec<u32>>, FontError>)
    ensures
        glyphs_view(r) == glyphs_from(views_of(lines@), 0, None, Seq::empty()),
{
    let ghost all = views_of(lines@);
    let ghost target = glyphs_from(all, 0, None, Seq::empty());
    let mut glyphs: Vec<Vec<u32>> = Vec::new();
    let mut last: Option<u32> = None;
    let mut i: usize = 0;
    assert(views_of(glyphs@) =~= Seq::<Seq<u32>>::empty());
    while i < lines.len()
        invariant
            0 <= i <= lines.len(),
            all == views_of(lines@),
            target == glyphs_from(all, 0, None, Seq::empty()),
            target == glyphs_from(all, i as int, int_opt(last), views_of(glyphs@)),
            last matches Some(l) ==> l < 256,
        decreases lines.len() - i,
    {
        let line = &lines[i];
        assert(line@ == all[i as int]);
        let ghost i0 = i;
        i = i + 1;
        if line.len() >= 2 && line[0] == '0' && line[1] == 'x' {
            if line.len() < 4 {
                return Err(FontError::ShortHeader);
            }
            let index = match parse_index(line[2], line[3]) {
                None => {
                    return Err(FontError::InvalidIndex);
                },
                Some(v) => v,
            };
            let follows = match last {
                Some(l) => l + 1 == index,
                None => false,
            };
            if !(index == 0 || follows) {
                return Err(FontError::IndexOutOfOrder);
            }
            last = Some(index);
            let mut rows: Vec<u32> = Vec::new();
            let mut in_glyph = true;
            while in_glyph
                invariant
                    0 <= i <= lines.len(),
                    all == views_of(lines@),
                    target == glyphs_from(all, 0, None, Seq::empty()),
                    last == Some(index),
                    index < 256,
                    i > i0,
                    in_glyph ==> target == rows_from(all, i as int, int_opt(last), views_of(glyphs@), rows@),
                    !in_glyph ==> target == glyphs_from(all, i as int, int_opt(last), views_of(glyphs@)),
                decreases 2 * (lines.len() - i) + if in_glyph { 1int } else { 0int },
            {
                if i >= lines.len() {
                    let ghost before = glyphs@;
                    glyphs.push(rows);
                    rows = Vec::new();
                    in_glyph = false;
                    assert(views_of(glyphs@) =~= views_of(before).push(views_of(glyphs@).last()));
                } else {
                    let row_line = &lines[i];
                    assert(row_line@ == all[i as int]);
                    if !(row_line.len() > 0 && (row_line[0] == '.' || row_line[0] == '@')) {
                        let ghost before = glyphs@;
                        let ghost rows_seen = rows@;
                        glyphs.push(rows);
                        rows = Vec::new();
                        in_glyph = false;
                        assert(views_of(glyphs@) =~= views_of(before).push(rows_seen));
                        i = i + 1;
                    } else {
                        assert(is_row(all[i as int]));
                        match parse_row(row_line.as_slice()) {
                            None => {
                                assert(row_value(all[i as int]) is None);
                                return Err(FontError::InvalidPixel);
                            },
                            Some(v) => {
                                rows.push(v);
                                i = i + 1;
                            },
                        }
                    }
                }
            }
        }
    }
    Ok(glyphs)
}

/// Reads a font table from its text: 256 glyphs, each a header line
/// `0xNN` (the glyph's index in hexadecimal, starting at 0 and counting up)
/// followed by 16 lines of 8 pixels, `.` for a clear and `@` for a set one.
/// Lines are split at line feeds and trimmed of whitespace; other
/// lines outside a glyph are skipped. The first fault found is reported.
pub fn parse_ascii_font(text: &str) -> (r: Result<Vec<[u8; 16]>, FontError>)
    ensures
        r is Ok <==> font_of(text@) is Ok,
        r is Err ==> font_of(text@) == Err::<Seq<Seq<u32>>, FontError>(r->Err_0),
        r is Ok ==> {
            let t = r->Ok_0@;
            let g = font_of(text@)->Ok_0;
            &&& t.len() == GLYPH_COUNT
            &&& forall|k: int, j: int|
                0 <= k < GLYPH_COUNT && 0 <= j < GLYPH_ROWS ==> #[trigger] t[k]@[j] as u32 == g[k][j]
        },
{
    let lines = split_lines(text);
    let glyphs = match read_glyphs(&lines) {
        Ok(g) => g,
        Err(e) => {
            return Err(e);
        },
    };
    let ghost gv = views_of(glyphs@);
    assert(font_of(text@) == table_result(gv));
    if glyphs.len() != GLYPH_COUNT {
        return Err(FontError::WrongGlyphCount);
    }
    let mut k: usize = 0;
    while k < GLYPH_COUNT
        invariant
            0 <= k <= GLYPH_COUNT,
            glyphs.len() == GLYPH_COUNT,
            gv == views_of(glyphs@),
            font_of(text@) == table_result(gv),
            forall|g: int| 0 <= g < k ==> (#[trigger] gv[g]).len() == GLYPH_ROWS,
        decreases GLYPH_COUNT - k,
    {
        if glyphs[k].len() != GLYPH_ROWS {
            assert(gv[k as int].len() != GLYPH_ROWS);
            assert(table_error(gv) == Some(FontError::WrongRowCount));
            return Err(FontError::WrongRowCount);
        }
        k = k + 1;
    }
    assert(!exists|g: int| 0 <= g < gv.len() && (#[trigger] gv[g]).len() != GLYPH_ROWS);
    let mut k: usize = 0;
    while k < GLYPH_COUNT
        invariant
            0 <= k <= GLYPH_COUNT,
            glyphs.len() == GLYPH_COUNT,
            gv == views_of(glyphs@),
            font_of(text@) == table_result(gv),
            forall|g: int| 0 <= g < gv.len() ==> (#[trigger] gv[g]).len() == GLYPH_ROWS,
            forall|g: int, j: int| 0 <= g < k && 0 <= j < gv[g].len() ==> #[trigger] gv[g][j] < 256,
        decreases GLYPH_COUNT - k,
    {
        let mut j: usize = 0;
        while j < GLYPH_ROWS
            invariant
                0 <= k < GLYPH_COUNT,
                0 <= j <= GLYPH_ROWS,
                glyphs.len() == GLYPH_COUNT,
                gv == views_of(glyphs@),
                font_of(text@) == table_result(gv),
                forall|g: int| 0 <= g < gv.len() ==> (#[trigger] gv[g]).len() == GLYPH_ROWS,
                forall|g: int, j2: int| 0 <= g < k && 0 <= j2 < gv[g].len() ==> #[trigger] gv[g][j2] < 256,
                forall|j2: int| 0 <= j2 < j ==> #[trigger] gv[k as int][j2] < 256,
            decreases GLYPH_ROWS - j,
        {
            assert(glyphs[k as int]@ == gv[k as int]);
            if glyphs[k][j] >= 256 {
                assert(gv[k as int][j as int] >= 256);
                assert(!exists|g: int| 0 <= g < gv.len() && (#[trigger] gv[g]).len() != GLYPH_ROWS);
                assert(table_error(gv) == Some(FontError::RowOutOfRange));
                return Err(FontError::RowOutOfRange);
            }
            j = j + 1;
        }
        k = k + 1;
    }
    assert(table_error(gv) is None);
    let mut table: Vec<[u8; 16]> = Vec::new();
    let mut k: usize = 0;
    while k < GLYPH_COUNT
        invariant
            0 <= k <= GLYPH_COUNT,
            glyphs.len() == GLYPH_COUNT,
            gv == views_of(glyphs@),
            font_of(text@) == table_result(gv),
            forall|g: int| 0 <= g < gv.len() ==> (#[trigger] gv[g]).len() == GLYPH_ROWS,
            forall|g: int, j: int| 0 <= g < gv.len() && 0 <= j < gv[g].len() ==> #[trigger] gv[g][j] < 256,
            table@.len() == k,
            forall|g: int, j: int| 0 <= g < k && 0 <= j < GLYPH_ROWS ==> #[trigger] table@[g]@[j] as u32 == gv[g][j],
        decreases GLYPH_COUNT - k,
    {
        let g = &glyphs[k];
        assert(g@ == gv[k as int]);
        let glyph: [u8; 16] = [
            g[0] as u8,
            g[1] as u8,
            g[2] as u8,
            g[3] as u8,
            g[4] as u8,
            g[5] as u8,
            g[6] as u8,
            g[7] as u8,
            g[8] as u8,
            g[9] as u8,
            g[10] as u8,
            g[11] as u8,
            g[12] as u8,
            g[13] as u8,
            g[14] as u8,
            g[15] as u8,
        ];
        assert forall|j: int| 0 <= j < GLYPH_ROWS implies glyph@[j] as u32 == gv[k as int][j] by {
            assert(gv[k as int][j] < 256);
        }
        table.push(glyph);
        k = k + 1;
    }
    Ok(table)
}

} // verus!
