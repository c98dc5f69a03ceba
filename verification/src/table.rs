//! Cell texts of the client tables (`top`, `clients`): client refs, actions,
//! windowed rates and column widths.

use vstd::prelude::*;
use vstd::utf8::encode_utf8;

use crate::client::{hex_char, ClientId};
use crate::ipc::ref_text;
use crate::text::{concat3, text_is};
use crate::wire::{ActionWire, ClientEntry, ClientRef, TopColumn, ViolationWire};

verus! {

/// Decimal text of `n`, without leading zeros.
pub open spec fn dec_u64(n: nat) -> Seq<char>
    decreases n,
{
    if n < 10 {
        seq![hex_char(n as int)]
    } else {
        dec_u64(n / 10) + seq![hex_char((n % 10) as int)]
    }
}

/// One decimal digit as text.
fn digit(d: u64) -> (r: &'static str)
    requires
        d < 10,
    ensures
        r@ == seq![hex_char(d as int)],
{
    proof {
        reveal_strlit("0");
        reveal_strlit("1");
        reveal_strlit("2");
        reveal_strlit("3");
        reveal_strlit("4");
        reveal_strlit("5");
        reveal_strlit("6");
        reveal_strlit("7");
        reveal_strlit("8");
        reveal_strlit("9");
    }
    if d == 0 {
        "0"
    } else if d == 1 {
        "1"
    } else if d == 2 {
        "2"
    } else if d == 3 {
        "3"
    } else if d == 4 {
        "4"
    } else if d == 5 {
        "5"
    } else if d == 6 {
        "6"
    } else if d == 7 {
        "7"
    } else if d == 8 {
        "8"
    } else {
        "9"
    }
}

/// Decimal text of a number.
pub fn u64_string(n: u64) -> (r: String)
    ensures
        r@ == dec_u64(n as nat),
    decreases n,
{
    if n < 10 {
        String::from_str(digit(n))
    } else {
        let head = u64_string(n / 10);
        head.concat(digit(n % 10))
    }
}

/// Display unit of a window name: `/s` per second, `/m` per minute, none otherwise.
pub open spec fn unit_of(window: Seq<char>) -> Seq<char> {
    if window == "per-second"@ || window == "per_second"@ || window == "second"@ || window == "1s"@ {
        "/s"@
    } else if window == "per-minute"@ || window == "per_minute"@ || window == "minute"@ || window == "60s"@ {
        "/m"@
    } else {
        ""@
    }
}

/// Display unit of a window name.
pub fn window_unit(window: &str) -> (r: &'static str)
    ensures
        r@ == unit_of(window@),
{
    let w = String::from_str(window);
    if text_is(&w, "per-second") || text_is(&w, "per_second") || text_is(&w, "second") || text_is(&w, "1s") {
        "/s"
    } else if text_is(&w, "per-minute") || text_is(&w, "per_minute") || text_is(&w, "minute") || text_is(&w, "60s") {
        "/m"
    } else {
        ""
    }
}

/// A rate cell: the value followed by the unit.
pub fn format_rate(value: u64, unit: &str) -> (r: String)
    ensures
        r@ == dec_u64(value as nat) + unit@,
{
    u64_string(value).concat(unit)
}

/// A client cell: `mac@ip`, or the MAC alone.
pub fn format_client(c: &ClientRef) -> (r: String)
    ensures
        r@ == ref_text(*c),
{
    match &c.ip {
        Some(ip) => {
            proof {
                reveal_strlit("@");
            }
            let s = concat3(c.mac.as_str(), "@", ip.as_str());
            assert(s@ =~= ref_text(*c));
            s
        },
        None => c.mac.clone(),
    }
}

/// An action cell: `-` for none, `block`, or `thr N%`.
pub open spec fn action_text(a: Option<ActionWire>) -> Seq<char> {
    match a {
        None => "-"@,
        Some(ActionWire::Pass) => "-"@,
        Some(ActionWire::Block) => "block"@,
        Some(ActionWire::Throttle { drop_rate }) => "thr "@ + dec_u64(drop_rate as nat) + "%"@,
    }
}

/// An action cell.
pub fn format_action(a: Option<&ActionWire>) -> (r: String)
    ensures
        r@ == action_text(match a {
            Some(x) => Some(*x),
            None => None,
        }),
{
    match a {
        None => String::from_str("-"),
        Some(ActionWire::Pass) => String::from_str("-"),
        Some(ActionWire::Block) => String::from_str("block"),
        Some(ActionWire::Throttle { drop_rate }) => concat3("thr ", u64_string(*drop_rate as u64).as_str(), "%"),
    }
}

/// Index of the first observation of rule `id`, or -1.
pub open spec fn first_obs(v: Seq<ViolationWire>, id: Seq<char>, n: int) -> int
    decreases n,
{
    if n <= 0 {
        -1
    } else {
        let p = first_obs(v, id, n - 1);
        if p >= 0 {
            p
        } else if v[n - 1].rule_id@ == id {
            n - 1
        } else {
            -1
        }
    }
}

/// The value a row shows in column `index`: the observation at the same
/// index when it is for the column's rule, else the first observation for
/// that rule, else 0.
pub open spec fn cell_value(v: Seq<ViolationWire>, col: TopColumn, index: int) -> u64 {
    if 0 <= index < v.len() && v[index].rule_id@ == col.rule_id@ {
        v[index].value
    } else {
        let p = first_obs(v, col.rule_id@, v.len() as int);
        if p >= 0 {
            v[p].value
        } else {
            0
        }
    }
}

/// The value a row shows in a column.
pub fn value_for_column(entry: &ClientEntry, col: &TopColumn, index: usize) -> (r: u64)
    ensures
        r == cell_value(entry.violations@, *col, index as int),
{
    let v = &entry.violations;
    if index < v.len() && v[index].rule_id == col.rule_id {
        return v[index].value;
    }
    let mut i: usize = 0;
    while i < v.len()
        invariant
            *v == entry.violations,
            i <= v@.len(),
            first_obs(v@, col.rule_id@, i as int) == -1,
            !(index < v@.len() && v@[index as int].rule_id@ == col.rule_id@),
        decreases v@.len() - i,
    {
        if v[i].rule_id == col.rule_id {
            proof {
                assert(first_obs(v@, col.rule_id@, i + 1) == i);
                lemma_first_obs_stays(v@, col.rule_id@, i + 1, v@.len() as int);
            }
            return v[i].value;
        }
        i = i + 1;
    }
    0
}

/// Once found, the first observation stays the first.
proof fn lemma_first_obs_stays(v: Seq<ViolationWire>, id: Seq<char>, m: int, n: int)
    requires
        0 <= m <= n <= v.len(),
        first_obs(v, id, m) >= 0,
    ensures
        first_obs(v, id, n) == first_obs(v, id, m),
    decreases n - m,
{
    if n > m {
        lemma_first_obs_stays(v, id, m, n - 1);
    }
}

/// Length in bytes of a text.
pub open spec fn byte_len(s: Seq<char>) -> int {
    (encode_utf8(s).len() as usize) as int
}

/// Width of column `i`: its header, every row's cell, and at least 3.
pub open spec fn col_width(cols: Seq<TopColumn>, rows: Seq<ClientEntry>, i: int, n: int) -> int
    decreases n,
{
    if n <= 0 {
        let h = byte_len(cols[i].rule_id@);
        if h < 3 {
            3
        } else {
            h
        }
    } else {
        let w = col_width(cols, rows, i, n - 1);
        let cell = byte_len(
            dec_u64(cell_value(rows[n - 1].violations@, cols[i], i) as nat) + unit_of(cols[i].window@),
        );
        if cell > w {
            cell
        } else {
            w
        }
    }
}

/// Column widths for a table.
pub fn column_widths(columns: &Vec<TopColumn>, clients: &Vec<ClientEntry>) -> (r: Vec<usize>)
    ensures
        r@.len() == columns@.len(),
        forall|i: int| 0 <= i < r@.len() ==> (#[trigger] r@[i]) == col_width(columns@, clients@, i, clients@.len() as int),
{
    let mut out: Vec<usize> = Vec::new();
    let mut i: usize = 0;
    while i < columns.len()
        invariant
            i <= columns@.len(),
            out@.len() == i,
            forall|k: int| 0 <= k < i ==> (#[trigger] out@[k]) == col_width(columns@, clients@, k, clients@.len() as int),
        decreases columns@.len() - i,
    {
        let col = &columns[i];
        let unit = window_unit(col.window.as_str());
        let h = col.rule_id.as_str().len();
        assert(h == byte_len(col.rule_id@));
        let mut w: usize = if h < 3 {
            3
        } else {
            h
        };
        let mut j: usize = 0;
        while j < clients.len()
            invariant
                i < columns@.len(),
                *col == columns@[i as int],
                unit@ == unit_of(col.window@),
                j <= clients@.len(),
                w == col_width(columns@, clients@, i as int, j as int),
            decreases clients@.len() - j,
        {
            let value = value_for_column(&clients[j], col, i);
            let cell = format_rate(value, unit);
            let cl = cell.as_str().len();
            assert(cl == byte_len(cell@));
            if cl > w {
                w = cl;
            }
            j = j + 1;
        }
        out.push(w);
        i = i + 1;
    }
    out
}

} // verus!
