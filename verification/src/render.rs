//! The `top` table as text: a header line, the column titles, a rule, and
//! one row per client (hot band first, a dotted rule before the rest), each
//! cell padded the way `format!` pads it.

use vstd::prelude::*;

use crate::ipc::ref_text;
use crate::table::{
    action_text, byte_len, cell_value, col_width, column_widths, dec_u64, format_action, format_client, format_rate,
    u64_string, unit_of, value_for_column, window_unit,
};
use crate::text::char_string;
use crate::wire::{ClientEntry, TopColumn, TopResult};

verus! {

/// `n` copies of `c` (none when `n` is not positive).
pub open spec fn reps(c: char, n: int) -> Seq<char> {
    Seq::new(if n > 0 { n as nat } else { 0 }, |_i: int| c)
}

/// Left-aligned in width `w`, filled with `c` (`{:c<w$}`).
pub open spec fn pad_r(s: Seq<char>, w: int, c: char) -> Seq<char> {
    s + reps(c, w - s.len())
}

/// Right-aligned in width `w`, filled with `c` (`{:c>w$}`).
pub open spec fn pad_l(s: Seq<char>, w: int, c: char) -> Seq<char> {
    reps(c, w - s.len()) + s
}

/// Centred in width `w` with spaces, the odd space on the right (`{:^w$}`).
pub open spec fn centered(s: Seq<char>, w: int) -> Seq<char> {
    let p = w - s.len();
    if p > 0 {
        reps(' ', p / 2) + s + reps(' ', p - p / 2)
    } else {
        s
    }
}

/// What `humantime::format_duration` shows for a duration of `ms` milliseconds.
pub uninterp spec fn humantime_text(ms: u64) -> Seq<char>;

/// `humantime::format_duration` of `ms` milliseconds, as text.
#[verifier::external_body]
fn duration_text(ms: u64) -> (r: String)
    ensures
        r@ == humantime_text(ms),
{
    humantime::format_duration(std::time::Duration::from_millis(ms)).to_string()
}

/// `n` copies of `c`.
pub fn repeat_char(c: char, n: usize) -> (r: String)
    ensures
        r@ == reps(c, n as int),
{
    let one = char_string(c);
    let mut s = String::new();
    let mut i: usize = 0;
    while i < n
        invariant
            i <= n,
            one@ == seq![c],
            s@ == reps(c, i as int),
        decreases n - i,
    {
        s.append(one.as_str());
        assert(s@ =~= reps(c, i + 1));
        i = i + 1;
    }
    s
}

/// `s` left-aligned in width `w`, filled with `c`.
pub fn pad_right(s: &str, w: usize, c: char) -> (r: String)
    ensures
        r@ == pad_r(s@, w as int, c),
{
    let n = s.unicode_len();
    let fill = if n < w {
        repeat_char(c, w - n)
    } else {
        String::new()
    };
    assert(fill@ =~= reps(c, w - s@.len()));
    let mut r = String::from_str(s);
    r.append(fill.as_str());
    r
}

/// `s` right-aligned in width `w`, filled with `c`.
pub fn pad_left(s: &str, w: usize, c: char) -> (r: String)
    ensures
        r@ == pad_l(s@, w as int, c),
{
    let n = s.unicode_len();
    let mut r = if n < w {
        repeat_char(c, w - n)
    } else {
        String::new()
    };
    assert(r@ =~= reps(c, w - s@.len()));
    r.append(s);
    r
}

/// `s` centred in width `w`.
pub fn center(s: &str, w: usize) -> (r: String)
    ensures
        r@ == centered(s@, w as int),
{
    let n = s.unicode_len();
    if n < w {
        let p = w - n;
        let mut r = repeat_char(' ', p / 2);
        r.append(s);
        let tail = repeat_char(' ', p - p / 2);
        r.append(tail.as_str());
        r
    } else {
        String::from_str(s)
    }
}

/// Width of the client column: the widest client text (in bytes), at least 6.
pub open spec fn client_width(rows: Seq<ClientEntry>, n: int) -> int
    decreases n,
{
    if n <= 0 {
        6
    } else {
        let w = client_width(rows, n - 1);
        let l = byte_len(ref_text(rows[n - 1].client));
        if l > w {
            l
        } else {
            w
        }
    }
}

/// Rows in the hot band among the first `n`.
pub open spec fn hot_count(rows: Seq<ClientEntry>, n: int) -> nat
    decreases n,
{
    if n <= 0 {
        0
    } else {
        hot_count(rows, n - 1) + if rows[n - 1].hot {
            1nat
        } else {
            0nat
        }
    }
}

/// The first line: limit, hot count and interval when live, else the hot count.
pub open spec fn head_text(live: bool, limit: usize, hot: nat, interval_ms: u64) -> Seq<char> {
    if live {
        "microwaf top  -n "@ + dec_u64(limit as nat) + "  hot="@ + dec_u64(hot) + "  interval="@ + humantime_text(
            interval_ms,
        ) + "  q/Ctrl+C quit\n"@
    } else {
        "microwaf top  hot="@ + dec_u64(hot) + "\n"@
    }
}

/// Rule-column titles, centred in their widths.
pub open spec fn cols_header(cols: Seq<TopColumn>, ws: Seq<usize>, n: int) -> Seq<char>
    decreases n,
{
    if n <= 0 {
        Seq::empty()
    } else {
        cols_header(cols, ws, n - 1) + "  "@ + centered(cols[n - 1].rule_id@, ws[n - 1] as int)
    }
}

/// Rule-column fills of `c`.
pub open spec fn cols_fill(ws: Seq<usize>, c: char, n: int) -> Seq<char>
    decreases n,
{
    if n <= 0 {
        Seq::empty()
    } else {
        cols_fill(ws, c, n - 1) + "  "@ + reps(c, ws[n - 1] as int)
    }
}

/// The title line.
pub open spec fn title_line(cw: int, aw: int, ww: int, cols: Seq<TopColumn>, ws: Seq<usize>) -> Seq<char> {
    " "@ + pad_l("#"@, 3, ' ') + "  "@ + pad_r("CLIENT"@, cw, ' ') + "  "@ + pad_r("ACTION"@, aw, ' ') + "  "@ + pad_r(
        "WOULD"@,
        ww,
        ' ',
    ) + cols_header(cols, ws, cols.len() as int) + "\n"@
}

/// A rule line of `c` across every column.
pub open spec fn rule_line(cw: int, aw: int, ww: int, ws: Seq<usize>, c: char) -> Seq<char> {
    " "@ + reps(c, 3) + "  "@ + reps(c, cw) + "  "@ + reps(c, aw) + "  "@ + reps(c, ww) + cols_fill(
        ws,
        c,
        ws.len() as int,
    ) + "\n"@
}

/// The rate cells of a row, right-aligned in their widths.
pub open spec fn cells_text(e: ClientEntry, cols: Seq<TopColumn>, ws: Seq<usize>, n: int) -> Seq<char>
    decreases n,
{
    if n <= 0 {
        Seq::empty()
    } else {
        cells_text(e, cols, ws, n - 1) + "  "@ + pad_l(
            dec_u64(cell_value(e.violations@, cols[n - 1], n - 1) as nat) + unit_of(cols[n - 1].window@),
            ws[n - 1] as int,
            ' ',
        )
    }
}

/// One row: the hot mark, the rank, client, action and would-be action, and
/// the rate cells.
pub open spec fn row_text(
    rank: nat,
    e: ClientEntry,
    cols: Seq<TopColumn>,
    ws: Seq<usize>,
    cw: int,
    aw: int,
    ww: int,
) -> Seq<char> {
    seq![if e.hot { '*' } else { ' ' }] + pad_l(dec_u64(rank), 3, ' ') + "  "@ + pad_r(ref_text(e.client), cw, ' ')
        + "  "@ + pad_r(action_text(e.action), aw, ' ') + "  "@ + pad_r(action_text(e.would_be_action), ww, ' ')
        + cells_text(e, cols, ws, cols.len() as int)
}

/// The first `i` rows are all hot.
pub open spec fn all_hot(rows: Seq<ClientEntry>, i: int) -> bool {
    forall|j: int| 0 <= j < i ==> (#[trigger] rows[j]).hot
}

/// The first `n` rows, with a dotted rule before the first row outside the
/// hot band (when it is not the first row).
pub open spec fn body_text(rows: Seq<ClientEntry>, cols: Seq<TopColumn>, ws: Seq<usize>, cw: int, n: int) -> Seq<char>
    decreases n,
{
    if n <= 0 {
        Seq::empty()
    } else {
        let i = n - 1;
        let div = if !rows[i].hot && i > 0 && all_hot(rows, i) {
            rule_line(cw, 10, 10, ws, '\u{b7}')
        } else {
            Seq::empty()
        };
        body_text(rows, cols, ws, cw, i) + div + row_text((i + 1) as nat, rows[i], cols, ws, cw, 10, 10) + "\n"@
    }
}

/// The whole `top` frame.
pub open spec fn frame_text(result: TopResult, limit: usize, interval_ms: u64, live: bool) -> Seq<char> {
    let rows = result.clients@;
    let cols = result.columns@;
    let ws = Seq::new(cols.len(), |i: int| col_width(cols, rows, i, rows.len() as int) as usize);
    let cw = client_width(rows, rows.len() as int);
    head_text(live, limit, hot_count(rows, rows.len() as int), interval_ms) + title_line(cw, 10, 10, cols, ws)
        + rule_line(cw, 10, 10, ws, '-') + if rows.len() == 0 {
        " (no known clients)\n"@
    } else {
        body_text(rows, cols, ws, cw, rows.len() as int)
    }
}

/// The rate cells of a row.
fn format_cells(entry: &ClientEntry, columns: &Vec<TopColumn>, col_widths: &Vec<usize>) -> (r: String)
    requires
        col_widths@.len() == columns@.len(),
    ensures
        r@ == cells_text(*entry, columns@, col_widths@, columns@.len() as int),
{
    let mut s = String::new();
    let mut i: usize = 0;
    while i < columns.len()
        invariant
            i <= columns@.len(),
            col_widths@.len() == columns@.len(),
            s@ == cells_text(*entry, columns@, col_widths@, i as int),
        decreases columns@.len() - i,
    {
        let col = &columns[i];
        let value = value_for_column(entry, col, i);
        let cell = format_rate(value, window_unit(col.window.as_str()));
        let padded = pad_left(cell.as_str(), col_widths[i], ' ');
        s.append("  ");
        s.append(padded.as_str());
        proof {
            reveal_strlit("  ");
        }
        assert(s@ =~= cells_text(*entry, columns@, col_widths@, i + 1));
        i = i + 1;
    }
    s
}

/// One table row.
pub fn format_row(
    rank: usize,
    entry: &ClientEntry,
    columns: &Vec<TopColumn>,
    col_widths: &Vec<usize>,
    client_w: usize,
    action_w: usize,
    would_w: usize,
) -> (r: String)
    requires
        col_widths@.len() == columns@.len(),
    ensures
        r@ == row_text(rank as nat, *entry, columns@, col_widths@, client_w as int, action_w as int, would_w as int),
{
    let mut row = char_string(if entry.hot { '*' } else { ' ' });
    let rk = pad_left(u64_string(rank as u64).as_str(), 3, ' ');
    row.append(rk.as_str());
    row.append("  ");
    let cl = pad_right(format_client(&entry.client).as_str(), client_w, ' ');
    row.append(cl.as_str());
    row.append("  ");
    let ac = pad_right(format_action(entry.action.as_ref()).as_str(), action_w, ' ');
    row.append(ac.as_str());
    row.append("  ");
    let wb = pad_right(format_action(entry.would_be_action.as_ref()).as_str(), would_w, ' ');
    row.append(wb.as_str());
    let cells = format_cells(entry, columns, col_widths);
    row.append(cells.as_str());
    proof {
        reveal_strlit("  ");
    }
    assert(row@ =~= row_text(rank as nat, *entry, columns@, col_widths@, client_w as int, action_w as int, would_w as int));
    row
}

/// A rule line of `c` across every column.
fn format_rule(client_w: usize, col_widths: &Vec<usize>, c: char) -> (r: String)
    ensures
        r@ == rule_line(client_w as int, 10, 10, col_widths@, c),
{
    let mut s = String::from_str(" ");
    let a = repeat_char(c, 3);
    s.append(a.as_str());
    s.append("  ");
    let b = repeat_char(c, client_w);
    s.append(b.as_str());
    s.append("  ");
    let d = repeat_char(c, 10);
    s.append(d.as_str());
    s.append("  ");
    s.append(d.as_str());
    let ghost pre = s@;
    let mut i: usize = 0;
    while i < col_widths.len()
        invariant
            i <= col_widths@.len(),
            s@ == pre + cols_fill(col_widths@, c, i as int),
        decreases col_widths@.len() - i,
    {
        s.append("  ");
        let f = repeat_char(c, col_widths[i]);
        s.append(f.as_str());
        proof {
            reveal_strlit("  ");
        }
        assert(s@ =~= pre + cols_fill(col_widths@, c, i + 1));
        i = i + 1;
    }
    s.append("\n");
    proof {
        reveal_strlit(" ");
        reveal_strlit("  ");
        reveal_strlit("\n");
    }
    assert(s@ =~= rule_line(client_w as int, 10, 10, col_widths@, c));
    s
}

/// The title line.
fn format_title(client_w: usize, columns: &Vec<TopColumn>, col_widths: &Vec<usize>) -> (r: String)
    requires
        col_widths@.len() == columns@.len(),
    ensures
        r@ == title_line(client_w as int, 10, 10, columns@, col_widths@),
{
    let mut s = String::from_str(" ");
    let h = pad_left("#", 3, ' ');
    s.append(h.as_str());
    s.append("  ");
    let c = pad_right("CLIENT", client_w, ' ');
    s.append(c.as_str());
    s.append("  ");
    let a = pad_right("ACTION", 10, ' ');
    s.append(a.as_str());
    s.append("  ");
    let w = pad_right("WOULD", 10, ' ');
    s.append(w.as_str());
    let ghost pre = s@;
    let mut i: usize = 0;
    while i < columns.len()
        invariant
            i <= columns@.len(),
            col_widths@.len() == columns@.len(),
            s@ == pre + cols_header(columns@, col_widths@, i as int),
        decreases columns@.len() - i,
    {
        s.append("  ");
        let t = center(columns[i].rule_id.as_str(), col_widths[i]);
        s.append(t.as_str());
        proof {
            reveal_strlit("  ");
        }
        assert(s@ =~= pre + cols_header(columns@, col_widths@, i + 1));
        i = i + 1;
    }
    s.append("\n");
    proof {
        reveal_strlit(" ");
        reveal_strlit("  ");
        reveal_strlit("\n");
    }
    assert(s@ =~= title_line(client_w as int, 10, 10, columns@, col_widths@));
    s
}

/// The `top` table for a result: `limit` and `interval_ms` show in the
/// live header.
pub fn render_frame(result: &TopResult, limit: usize, interval_ms: u64, live: bool) -> (r: String)
    ensures
        r@ == frame_text(*result, limit, interval_ms, live),
{
    let rows = &result.clients;
    let cols = &result.columns;
    let mut hot_n: usize = 0;
    let mut client_w: usize = 6;
    let mut i: usize = 0;
    while i < rows.len()
        invariant
            *rows == result.clients,
            i <= rows@.len(),
            hot_n == hot_count(rows@, i as int),
            hot_n <= i,
            client_w == client_width(rows@, i as int),
        decreases rows@.len() - i,
    {
        if rows[i].hot {
            hot_n = hot_n + 1;
        }
        let l = format_client(&rows[i].client).as_str().len();
        if l > client_w {
            client_w = l;
        }
        i = i + 1;
    }
    let widths = column_widths(cols, rows);
    let ghost ws = Seq::new(cols@.len(), |k: int| col_width(cols@, rows@, k, rows@.len() as int) as usize);
    assert(widths@ =~= ws);
    let mut buf = if live {
        let mut h = String::from_str("microwaf top  -n ");
        h.append(u64_string(limit as u64).as_str());
        h.append("  hot=");
        h.append(u64_string(hot_n as u64).as_str());
        h.append("  interval=");
        h.append(duration_text(interval_ms).as_str());
        h.append("  q/Ctrl+C quit\n");
        h
    } else {
        let mut h = String::from_str("microwaf top  hot=");
        h.append(u64_string(hot_n as u64).as_str());
        h.append("\n");
        h
    };
    assert(buf@ =~= head_text(live, limit, hot_count(rows@, rows@.len() as int), interval_ms));
    let title = format_title(client_w, cols, &widths);
    buf.append(title.as_str());
    let dashes = format_rule(client_w, &widths, '-');
    buf.append(dashes.as_str());
    let ghost pre = buf@;
    if rows.len() == 0 {
        buf.append(" (no known clients)\n");
        return buf;
    }
    let dots = format_rule(client_w, &widths, '\u{b7}');
    let mut saw_rest = false;
    let mut j: usize = 0;
    while j < rows.len()
        invariant
            *rows == result.clients,
            *cols == result.columns,
            widths@ == ws,
            ws.len() == cols@.len(),
            j <= rows@.len(),
            client_w == client_width(rows@, rows@.len() as int),
            dots@ == rule_line(client_w as int, 10, 10, ws, '\u{b7}'),
            saw_rest == !all_hot(rows@, j as int),
            buf@ == pre + body_text(rows@, cols@, ws, client_w as int, j as int),
        decreases rows@.len() - j,
    {
        let ghost b0 = buf@;
        let entry = &rows[j];
        if !entry.hot && !saw_rest {
            if j > 0 {
                buf.append(dots.as_str());
            }
            saw_rest = true;
        }
        let row = format_row(j + 1, entry, cols, &widths, client_w, 10, 10);
        buf.append(row.as_str());
        buf.append("\n");
        proof {
            reveal_strlit("\n");
            if !all_hot(rows@, j + 1) && all_hot(rows@, j as int) {
                assert(!rows@[j as int].hot);
            }
            if !all_hot(rows@, j as int) {
                let q = choose|q: int| 0 <= q < j && !(#[trigger] rows@[q]).hot;
                assert(!all_hot(rows@, j + 1) ) by {
                    assert(!rows@[q].hot);
                }
            }
        }
        assert(buf@ =~= pre + body_text(rows@, cols@, ws, client_w as int, j + 1));
        j = j + 1;
    }
    buf
}

} // verus!
