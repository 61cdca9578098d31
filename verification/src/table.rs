//! The table of an inventory: one line per record, its cells padded to the
//! width of their column and joined by two spaces.

use vstd::prelude::*;
use crate::order::record_views;
use crate::record::{lemma_cells_len, row_cells, texts, MediaInfo, MediaInfoView};
use crate::text::{chars_of, push_repeat, repeat};

verus! {

/// The smaller of two numbers.
pub open spec fn least(a: nat, b: nat) -> nat {
    if a <= b {
        a
    } else {
        b
    }
}

/// The largest number of video tracks that any record has.
pub open spec fn max_videos(records: Seq<MediaInfoView>) -> nat
    decreases records.len(),
{
    if records.len() == 0 {
        0
    } else {
        let rest = max_videos(records.drop_last());
        if records.last().video.len() > rest {
            records.last().video.len()
        } else {
            rest
        }
    }
}

/// The largest number of audio tracks that any record has.
pub open spec fn max_audios(records: Seq<MediaInfoView>) -> nat
    decreases records.len(),
{
    if records.len() == 0 {
        0
    } else {
        let rest = max_audios(records.drop_last());
        if records.last().audio.len() > rest {
            records.last().audio.len()
        } else {
            rest
        }
    }
}

/// The rows of the table: the cells of each record, with as many video and
/// audio slots as were asked for, but no more than some record fills.
pub open spec fn table_rows(records: Seq<MediaInfoView>, vts: nat, ats: nat) -> Seq<
    Seq<Seq<char>>,
> {
    let v = least(vts, max_videos(records));
    let a = least(ats, max_audios(records));
    records.map_values(|m: MediaInfoView| row_cells(m, v, a))
}

/// The width of column `x`: the largest number of characters in any row's
/// cell at `x`.
pub open spec fn column_width(rows: Seq<Seq<Seq<char>>>, x: int) -> nat
    decreases rows.len(),
{
    if rows.len() == 0 {
        0
    } else {
        let rest = column_width(rows.drop_last(), x);
        let row = rows.last();
        if 0 <= x < row.len() && row[x].len() > rest {
            row[x].len()
        } else {
            rest
        }
    }
}

/// `cell` filled up with spaces on the right to `width` characters.
pub open spec fn padded(cell: Seq<char>, width: nat) -> Seq<char> {
    if cell.len() >= width {
        cell
    } else {
        cell + repeat(' ', (width - cell.len()) as nat)
    }
}

/// The cells joined by two spaces.
pub open spec fn joined(cells: Seq<Seq<char>>) -> Seq<char>
    decreases cells.len(),
{
    if cells.len() == 0 {
        Seq::empty()
    } else if cells.len() == 1 {
        cells[0]
    } else {
        joined(cells.drop_last()) + seq![' ', ' '] + cells.last()
    }
}

/// The cells of `row`, each padded to the width of its column in `rows`.
pub open spec fn padded_row(row: Seq<Seq<char>>, rows: Seq<Seq<Seq<char>>>) -> Seq<Seq<char>> {
    Seq::new(row.len(), |x: int| padded(row[x], column_width(rows, x)))
}

/// The lines of the table with the rows `rows`.
pub open spec fn lines_of(rows: Seq<Seq<Seq<char>>>) -> Seq<Seq<char>> {
    Seq::new(rows.len(), |i: int| joined(padded_row(rows[i], rows)))
}

/// The lines of the table of `records`, in their order, where `vts` video
/// slots and `ats` audio slots were asked for.
pub open spec fn table_lines(records: Seq<MediaInfoView>, vts: nat, ats: nat) -> Seq<Seq<char>> {
    lines_of(table_rows(records, vts, ats))
}

/// The texts of the cells of some rows.
pub open spec fn row_texts(rows: Seq<Vec<String>>) -> Seq<Seq<Seq<char>>> {
    rows.map_values(|r: Vec<String>| texts(r@))
}

/// The numbers of video and audio slots to show: what was asked for, but no
/// more than some record fills.
pub fn clamp_slots(data: &Vec<MediaInfo>, vts: usize, ats: usize) -> (r: (usize, usize))
    ensures
        r.0 == least(vts as nat, max_videos(record_views(data@))),
        r.1 == least(ats as nat, max_audios(record_views(data@))),
{
    let ghost all = record_views(data@);
    let mut vt: usize = 0;
    let mut at: usize = 0;
    let mut i: usize = 0;
    assert(all.take(0) =~= Seq::empty());
    while i < data.len()
        invariant
            i <= data.len(),
            all == record_views(data@),
            vt == max_videos(all.take(i as int)),
            at == max_audios(all.take(i as int)),
        decreases data.len() - i,
    {
        proof {
            let next = all.take(i + 1);
            assert(next.drop_last() =~= all.take(i as int));
            assert(next.last() == data@[i as int]@);
        }
        if data[i].video_tracks.len() > vt {
            vt = data[i].video_tracks.len();
        }
        if data[i].audio_tracks.len() > at {
            at = data[i].audio_tracks.len();
        }
        i += 1;
    }
    assert(all.take(data.len() as int) =~= all);
    (if vts <= vt { vts } else { vt }, if ats <= at { ats } else { at })
}

/// The width of column `x`.
fn width_of(rows: &Vec<Vec<String>>, x: usize) -> (w: usize)
    ensures
        w == column_width(row_texts(rows@), x as int),
{
    let ghost all = row_texts(rows@);
    let mut w: usize = 0;
    let mut k: usize = 0;
    assert(all.take(0) =~= Seq::empty());
    while k < rows.len()
        invariant
            k <= rows.len(),
            all == row_texts(rows@),
            w == column_width(all.take(k as int), x as int),
        decreases rows.len() - k,
    {
        proof {
            let next = all.take(k + 1);
            assert(next.drop_last() =~= all.take(k as int));
            assert(next.last() == texts(rows@[k as int]@));
        }
        if x < rows[k].len() {
            let n = chars_of(rows[k][x].as_str()).len();
            if n > w {
                w = n;
            }
        }
        k += 1;
    }
    assert(all.take(rows.len() as int) =~= all);
    w
}

/// The cell, filled up with spaces on the right to `width` characters.
pub fn pad(cell: &str, width: usize) -> (r: String)
    ensures
        r@ == padded(cell@, width as nat),
{
    let mut out = cell.to_owned();
    let n = chars_of(cell).len();
    if n < width {
        push_repeat(&mut out, ' ', width - n);
    }
    out
}

/// One line of the table: the cells of `row`, padded to `widths` and joined
/// by two spaces.
fn line_of(row: &Vec<String>, widths: &Vec<usize>, Ghost(rows): Ghost<Seq<Seq<Seq<char>>>>) -> (r:
    String)
    requires
        row.len() <= widths.len(),
        forall|x: int| 0 <= x < widths.len() ==> widths@[x] == column_width(rows, x),
    ensures
        r@ == joined(padded_row(texts(row@), rows)),
{
    let ghost cells = padded_row(texts(row@), rows);
    let mut line = String::new();
    let mut j: usize = 0;
    assert(cells.take(0) =~= Seq::empty());
    while j < row.len()
        invariant
            j <= row.len() <= widths.len(),
            cells == padded_row(texts(row@), rows),
            forall|x: int| 0 <= x < widths.len() ==> widths@[x] == column_width(rows, x),
            line@ == joined(cells.take(j as int)),
        decreases row.len() - j,
    {
        let cell = pad(row[j].as_str(), widths[j]);
        proof {
            let next = cells.take(j + 1);
            assert(next.drop_last() =~= cells.take(j as int));
            assert(next.last() == cell@);
            if j > 0 {
                assert(cells.take(j as int).len() == j);
            }
        }
        if j > 0 {
            line.append("  ");
            proof {
                reveal_strlit("  ");
                assert("  "@ =~= seq![' ', ' ']);
            }
        }
        line.append(cell.as_str());
        proof {
            if j == 0 {
                assert(line@ =~= cell@);
            }
        }
        j += 1;
    }
    assert(cells.take(row.len() as int) =~= cells);
    line
}

/// The lines of the table of `data`, in its order: one line per record. The
/// numbers of video and audio slots asked for are `maxes.0` and `maxes.1`;
/// subtitle slots are not shown.
pub fn render_infotable(data: &Vec<MediaInfo>, maxes: (usize, usize, usize)) -> (r: Vec<String>)
    ensures
        texts(r@) == table_lines(record_views(data@), maxes.0 as nat, maxes.1 as nat),
{
    let (num_vt, num_at) = clamp_slots(data, maxes.0, maxes.1);
    let ghost rows = table_rows(record_views(data@), maxes.0 as nat, maxes.1 as nat);
    let mut outlines: Vec<Vec<String>> = Vec::new();
    let mut i: usize = 0;
    while i < data.len()
        invariant
            i <= data.len(),
            rows == table_rows(record_views(data@), maxes.0 as nat, maxes.1 as nat),
            num_vt == least(maxes.0 as nat, max_videos(record_views(data@))),
            num_at == least(maxes.1 as nat, max_audios(record_views(data@))),
            outlines@.len() == i,
            forall|k: int| 0 <= k < i ==> texts((#[trigger] outlines@[k])@) == rows[k],
        decreases data.len() - i,
    {
        outlines.push(data[i].get_printline(num_vt, num_at, 0));
        i += 1;
    }
    assert(row_texts(outlines@) =~= rows);
    let mut size: usize = 0;
    let mut k: usize = 0;
    while k < outlines.len()
        invariant
            k <= outlines.len(),
            forall|j: int| 0 <= j < k ==> (#[trigger] outlines@[j]).len() <= size,
        decreases outlines.len() - k,
    {
        if outlines[k].len() > size {
            size = outlines[k].len();
        }
        k += 1;
    }
    let mut padvec: Vec<usize> = Vec::new();
    let mut x: usize = 0;
    while x < size
        invariant
            x <= size,
            padvec@.len() == x,
            rows == row_texts(outlines@),
            forall|c: int| 0 <= c < x ==> padvec@[c] == column_width(rows, c),
        decreases size - x,
    {
        padvec.push(width_of(&outlines, x));
        x += 1;
    }
    let mut lines: Vec<String> = Vec::new();
    let mut n: usize = 0;
    while n < outlines.len()
        invariant
            n <= outlines.len(),
            rows == row_texts(outlines@),
            padvec@.len() == size,
            forall|j: int| 0 <= j < outlines.len() ==> (#[trigger] outlines@[j]).len() <= size,
            forall|c: int| 0 <= c < size ==> padvec@[c] == column_width(rows, c),
            lines@.len() == n,
            forall|j: int| 0 <= j < n ==> (#[trigger] lines@[j])@ == joined(padded_row(rows[j], rows)),
        decreases outlines.len() - n,
    {
        lines.push(line_of(&outlines[n], &padvec, Ghost(rows)));
        n += 1;
    }
    assert(texts(lines@) =~= lines_of(rows));
    lines
}

/// No record has more video or audio tracks than the largest number, and
/// where there are records, one of them has that many.
pub proof fn lemma_max_tracks(records: Seq<MediaInfoView>)
    ensures
        forall|i: int|
            0 <= i < records.len() ==> (#[trigger] records[i]).video.len() <= max_videos(records),
        forall|i: int|
            0 <= i < records.len() ==> (#[trigger] records[i]).audio.len() <= max_audios(records),
        records.len() > 0 ==> exists|i: int|
            0 <= i < records.len() && (#[trigger] records[i]).video.len() == max_videos(records),
        records.len() > 0 ==> exists|i: int|
            0 <= i < records.len() && (#[trigger] records[i]).audio.len() == max_audios(records),
    decreases records.len(),
{
    if records.len() > 0 {
        let rest = records.drop_last();
        let last = records.len() - 1;
        lemma_max_tracks(rest);
        assert forall|i: int| 0 <= i < records.len() implies (#[trigger] records[i]).video.len()
            <= max_videos(records) && records[i].audio.len() <= max_audios(records) by {
            if i < rest.len() {
                assert(rest[i] == records[i]);
            }
        }
        if max_videos(records) == records[last].video.len() {
        } else {
            let i = choose|i: int|
                0 <= i < rest.len() && (#[trigger] rest[i]).video.len() == max_videos(rest);
            assert(records[i].video.len() == max_videos(records));
        }
        if max_audios(records) == records[last].audio.len() {
        } else {
            let i = choose|i: int|
                0 <= i < rest.len() && (#[trigger] rest[i]).audio.len() == max_audios(rest);
            assert(records[i].audio.len() == max_audios(records));
        }
    }
}

/// Every row of a table has the same shape: the name, a bar, three cells
/// for each video slot, a bar, four cells for each audio slot. The slots are
/// as many as were asked for, but no more than some record fills.
pub proof fn lemma_row_shape(records: Seq<MediaInfoView>, vts: nat, ats: nat)
    ensures
        ({
            let v = least(vts, max_videos(records));
            let a = least(ats, max_audios(records));
            let rows = table_rows(records, vts, ats);
            &&& rows.len() == records.len()
            &&& table_lines(records, vts, ats).len() == records.len()
            &&& forall|i: int|
                0 <= i < rows.len() ==> {
                    &&& #[trigger] rows[i] == row_cells(records[i], v, a)
                    &&& rows[i].len() == 3 + 3 * v + 4 * a
                    &&& rows[i][1] == seq!['|']
                    &&& rows[i][2 + 3 * (v as int)] == seq!['|']
                }
        }),
{
    let v = least(vts, max_videos(records));
    let a = least(ats, max_audios(records));
    let rows = table_rows(records, vts, ats);
    assert forall|i: int| 0 <= i < rows.len() implies {
        &&& #[trigger] rows[i] == row_cells(records[i], v, a)
        &&& rows[i].len() == 3 + 3 * v + 4 * a
        &&& rows[i][1] == seq!['|']
        &&& rows[i][2 + 3 * (v as int)] == seq!['|']
    } by {
        lemma_cells_len(records[i].video, records[i].audio, v);
        lemma_cells_len(records[i].video, records[i].audio, a);
    }
}

/// Asking for more video slots than any record fills gives as many as the
/// fullest record has: where no record has more than `most` video tracks,
/// one has that many and at least `most` were asked for, every row has
/// exactly `most` video slots.
pub proof fn lemma_clamping(records: Seq<MediaInfoView>, vts: nat, ats: nat, most: nat)
    requires
        forall|i: int| 0 <= i < records.len() ==> (#[trigger] records[i]).video.len() <= most,
        exists|i: int| 0 <= i < records.len() && (#[trigger] records[i]).video.len() == most,
        vts >= most,
    ensures
        least(vts, max_videos(records)) == most,
        forall|i: int|
            0 <= i < records.len() ==> #[trigger] table_rows(records, vts, ats)[i] == row_cells(
                records[i],
                most,
                least(ats, max_audios(records)),
            ),
{
    lemma_max_tracks(records);
    let i = choose|i: int| 0 <= i < records.len() && (#[trigger] records[i]).video.len() == most;
    let j = choose|j: int|
        0 <= j < records.len() && (#[trigger] records[j]).video.len() == max_videos(records);
    assert(records[i].video.len() <= max_videos(records));
    assert(records[j].video.len() <= most);
    lemma_row_shape(records, vts, ats);
}

/// The width of a line of `n` columns: the widths of its columns, and two
/// spaces between each two of them.
pub open spec fn line_width(rows: Seq<Seq<Seq<char>>>, n: nat) -> nat
    decreases n,
{
    if n == 0 {
        0
    } else if n == 1 {
        column_width(rows, 0)
    } else {
        line_width(rows, (n - 1) as nat) + 2 + column_width(rows, n - 1)
    }
}

/// No cell is wider than its column.
pub proof fn lemma_width_covers(rows: Seq<Seq<Seq<char>>>, i: int, x: int)
    requires
        0 <= i < rows.len(),
        0 <= x < rows[i].len(),
    ensures
        rows[i][x].len() <= column_width(rows, x),
    decreases rows.len(),
{
    if i < rows.len() - 1 {
        lemma_width_covers(rows.drop_last(), i, x);
    }
}

/// Cells that fill their columns join to a line of the columns' width.
proof fn lemma_joined_len(cells: Seq<Seq<char>>, rows: Seq<Seq<Seq<char>>>)
    requires
        forall|x: int| 0 <= x < cells.len() ==> (#[trigger] cells[x]).len() == column_width(rows, x),
    ensures
        joined(cells).len() == line_width(rows, cells.len()),
    decreases cells.len(),
{
    if cells.len() > 1 {
        lemma_joined_len(cells.drop_last(), rows);
    }
}

/// The table is aligned: the line of a row is as wide as the columns that
/// the row has, so rows of one length give lines of one length.
pub proof fn lemma_lines_aligned(rows: Seq<Seq<Seq<char>>>, i: int)
    requires
        0 <= i < rows.len(),
    ensures
        lines_of(rows)[i].len() == line_width(rows, rows[i].len()),
{
    let cells = padded_row(rows[i], rows);
    assert forall|x: int| 0 <= x < cells.len() implies (#[trigger] cells[x]).len() == column_width(
        rows,
        x,
    ) by {
        lemma_width_covers(rows, i, x);
    }
    lemma_joined_len(cells, rows);
}

} // verus!
