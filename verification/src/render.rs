//! The presenter: renders the candidate list as a fixed-width table, one
//! line per candidate, marking the row whose path equals the active-agent
//! value. Timestamps are formatted in the machine's local time zone through
//! chrono; a candidate without one shows a fixed marker instead.

use vstd::prelude::*;
use crate::Candidate;

verus! {

/// The decimal digit `d` as a character.
pub open spec fn digit_char(d: nat) -> char {
    if d == 0 {
        '0'
    } else if d == 1 {
        '1'
    } else if d == 2 {
        '2'
    } else if d == 3 {
        '3'
    } else if d == 4 {
        '4'
    } else if d == 5 {
        '5'
    } else if d == 6 {
        '6'
    } else if d == 7 {
        '7'
    } else if d == 8 {
        '8'
    } else {
        '9'
    }
}

/// `n` written in decimal, most significant digit first.
pub open spec fn dec_str(n: nat) -> Seq<char>
    decreases n,
{
    if n < 10 {
        seq![digit_char(n)]
    } else {
        dec_str(n / 10).push(digit_char(n % 10))
    }
}

/// The digit `d` as a one-character slice.
fn digit_str(d: u64) -> (r: &'static str)
    requires
        d < 10,
    ensures
        r@ == seq![digit_char(d as nat)],
{
    proof {
        reveal_strlit("0");
        reveal_strlit("1");
        reveal_strlit("2");
        reveal_strlit("3");
        reveal_strlit("4");
        reveal_strlit("5");
        reveal_strlit("6");
        reveal_strlit("7");
        reveal_strlit("8");
        reveal_strlit("9");
    }
    let r = if d == 0 {
        "0"
    } else if d == 1 {
        "1"
    } else if d == 2 {
        "2"
    } else if d == 3 {
        "3"
    } else if d == 4 {
        "4"
    } else if d == 5 {
        "5"
    } else if d == 6 {
        "6"
    } else if d == 7 {
        "7"
    } else if d == 8 {
        "8"
    } else {
        "9"
    };
    proof {
        assert(r@ =~= seq![digit_char(d as nat)]);
    }
    r
}

/// `n` rendered in decimal.
pub fn u64_to_string(n: u64) -> (r: String)
    ensures
        r@ == dec_str(n as nat),
    decreases n,
{
    if n < 10 {
        digit_str(n).to_owned()
    } else {
        let mut s = u64_to_string(n / 10);
        s.append(digit_str(n % 10));
        proof {
            assert(s@ =~= dec_str(n as nat));
        }
        s
    }
}

/// `n` spaces.
pub open spec fn spaces(n: nat) -> Seq<char> {
    Seq::new(n, |i: int| ' ')
}

/// `s` padded on the left with spaces to width `w`; a longer `s` is kept
/// whole.
pub open spec fn pad_left_spec(s: Seq<char>, w: nat) -> Seq<char> {
    if s.len() >= w {
        s
    } else {
        spaces((w - s.len()) as nat) + s
    }
}

/// `s` padded on the right with spaces to width `w`; a longer `s` is kept
/// whole.
pub open spec fn pad_right_spec(s: Seq<char>, w: nat) -> Seq<char> {
    if s.len() >= w {
        s
    } else {
        s + spaces((w - s.len()) as nat)
    }
}

/// A string of `n` spaces.
fn space_string(n: usize) -> (r: String)
    ensures
        r@ == spaces(n as nat),
{
    proof {
        reveal_strlit(" ");
    }
    let mut r = String::new();
    let mut k: usize = 0;
    while k < n
        invariant
            0 <= k <= n,
            r@ == spaces(k as nat),
        decreases n - k,
    {
        r.append(" ");
        proof {
            reveal_strlit(" ");
            assert(r@ =~= spaces((k + 1) as nat));
        }
        k += 1;
    }
    r
}

/// Right-justify `s` in a field of width `w`.
pub fn pad_left(s: String, w: usize) -> (r: String)
    ensures
        r@ == pad_left_spec(s@, w as nat),
{
    let len = s.unicode_len();
    if len >= w {
        s
    } else {
        let mut r = space_string(w - len);
        r.append(s.as_str());
        r
    }
}

/// Left-justify `s` in a field of width `w`.
pub fn pad_right(s: String, w: usize) -> (r: String)
    ensures
        r@ == pad_right_spec(s@, w as nat),
{
    let len = s.unicode_len();
    if len >= w {
        s
    } else {
        let mut r = s;
        let pad = space_string(w - len);
        r.append(pad.as_str());
        r
    }
}

/// Relies on chrono: `DateTime::from_timestamp` turns a Unix timestamp into
/// a UTC time (`None` only outside chrono's representable range),
/// `with_timezone(&chrono::Local)` moves it to the machine's local time
/// zone, and `format("%Y-%m-%d %H:%M:%S")` renders it. The text depends on
/// the machine's time zone, so nothing is stated of it.
#[verifier::external_body]
fn format_local_time(secs: u64, nanos: u32) -> (r: Option<String>)
    requires
        secs <= i64::MAX as u64,
{
    match chrono::DateTime::from_timestamp(secs as i64, nanos) {
        Some(dt) => Some(
            dt.with_timezone(&chrono::Local).format("%Y-%m-%d %H:%M:%S").to_string(),
        ),
        None => None,
    }
}

/// The marker shown in place of a missing timestamp.
pub open spec fn unknown_text() -> Seq<char> {
    "Unknown"@
}

/// The timestamp cell of one row: the modification time in local time, or
/// the fixed marker when there is no timestamp (or chrono cannot represent
/// it).
pub fn timestamp_text(modified: &Option<u64>) -> (r: String)
    ensures
        modified is None ==> r@ == unknown_text(),
{
    match modified {
        Option::None => "Unknown".to_owned(),
        Option::Some(n) => {
            let secs = *n / 1_000_000_000;
            let nanos = (*n % 1_000_000_000) as u32;
            match format_local_time(secs, nanos) {
                Option::Some(s) => s,
                Option::None => "Unknown".to_owned(),
            }
        },
    }
}

/// The status cell: a fixed-width marker on the row whose candidate is the
/// active agent, blank elsewhere.
pub open spec fn status_text(current: bool) -> Seq<char> {
    if current {
        "CURRENT"@
    } else {
        "       "@
    }
}

/// One table row: index, status, timestamp and path, in fixed-width cells.
/// A path wider than its cell is kept whole.
pub open spec fn row_text(idx: nat, current: bool, ts: Seq<char>, path: Seq<char>) -> Seq<char> {
    "│ "@ + pad_left_spec(dec_str(idx), 3) + " │ "@ + status_text(current) + " │ "@
        + pad_left_spec(ts, 19) + " │ "@ + pad_right_spec(path, 39) + " │"@
}

pub open spec fn table_top() -> Seq<char> {
    "┌─────┬─────────┬─────────────────────┬─────────────────────────────────────────┐"@
}

pub open spec fn table_head() -> Seq<char> {
    "│ Idx │ Status  │ Modified            │ Socket Path                             │"@
}

pub open spec fn table_sep() -> Seq<char> {
    "├─────┼─────────┼─────────────────────┼─────────────────────────────────────────┤"@
}

pub open spec fn table_bottom() -> Seq<char> {
    "└─────┴─────────┴─────────────────────┴─────────────────────────────────────────┘"@
}

/// The message shown when a scan found nothing.
pub open spec fn no_sockets_text() -> Seq<char> {
    "No SSH agent sockets found."@
}

pub fn no_sockets_message() -> (r: String)
    ensures
        r@ == no_sockets_text(),
{
    "No SSH agent sockets found.".to_owned()
}

/// Render one row.
pub fn render_row(idx: u64, current: bool, ts: &str, path: &str) -> (r: String)
    ensures
        r@ == row_text(idx as nat, current, ts@, path@),
{
    let mut r = "│ ".to_owned();
    let idx_s = pad_left(u64_to_string(idx), 3);
    r.append(idx_s.as_str());
    r.append(" │ ");
    if current {
        r.append("CURRENT");
    } else {
        r.append("       ");
    }
    r.append(" │ ");
    let ts_s = pad_left(ts.to_owned(), 19);
    r.append(ts_s.as_str());
    r.append(" │ ");
    let path_s = pad_right(path.to_owned(), 39);
    r.append(path_s.as_str());
    r.append(" │");
    proof {
        assert(r@ =~= row_text(idx as nat, current, ts@, path@));
    }
    r
}

/// Render the whole table, one line per entry of `r`: the borders, a header,
/// and one row per candidate, row `i` marked exactly when candidate `i`'s
/// path equals the active value. An empty candidate list renders as the
/// "no sockets" message alone.
pub fn render_table(found: &Vec<Candidate>, ts_texts: &Vec<String>, current: &String) -> (r: Vec<
    String,
>)
    requires
        ts_texts@.len() == found@.len(),
    ensures
        found@.len() == 0 ==> r@.len() == 1 && r@[0]@ == no_sockets_text(),
        found@.len() > 0 ==> {
            &&& r@.len() == found@.len() + 4
            &&& r@[0]@ == table_top()
            &&& r@[1]@ == table_head()
            &&& r@[2]@ == table_sep()
            &&& r@[r@.len() - 1]@ == table_bottom()
            &&& forall|i: int|
                0 <= i < found@.len() ==> (#[trigger] r@[i + 3])@ == row_text(
                    (i + 1) as nat,
                    found@[i].path@ == current@,
                    ts_texts@[i]@,
                    found@[i].path@,
                )
        },
{
    let mut r: Vec<String> = Vec::new();
    if found.len() == 0 {
        r.push(no_sockets_message());
        return r;
    }
    r.push("┌─────┬─────────┬─────────────────────┬─────────────────────────────────────────┐".to_owned());
    r.push("│ Idx │ Status  │ Modified            │ Socket Path                             │".to_owned());
    r.push("├─────┼─────────┼─────────────────────┼─────────────────────────────────────────┤".to_owned());
    let mut i: usize = 0;
    while i < found.len()
        invariant
            0 <= i <= found@.len(),
            ts_texts@.len() == found@.len(),
            r@.len() == i + 3,
            r@[0]@ == table_top(),
            r@[1]@ == table_head(),
            r@[2]@ == table_sep(),
            forall|k: int|
                0 <= k < i ==> (#[trigger] r@[k + 3])@ == row_text(
                    (k + 1) as nat,
                    found@[k].path@ == current@,
                    ts_texts@[k]@,
                    found@[k].path@,
                ),
        decreases found@.len() - i,
    {
        let current_here = found[i].path.eq(current);
        let row = render_row(
            (i + 1) as u64,
            current_here,
            ts_texts[i].as_str(),
            found[i].path.as_str(),
        );
        r.push(row);
        i += 1;
    }
    r.push("└─────┴─────────┴─────────────────────┴─────────────────────────────────────────┘".to_owned());
    r
}

/// A line that renders candidate `idx` (1-based) with some timestamp text:
/// the fixed marker when the candidate has no timestamp.
pub open spec fn row_matches(
    line: Seq<char>,
    idx: nat,
    current: bool,
    modified: Option<u64>,
    path: Seq<char>,
) -> bool {
    exists|ts: Seq<char>|
        line == #[trigger] row_text(idx, current, ts, path) && (modified is None ==> ts
            == unknown_text())
}

/// Render the candidate table: formats each candidate's timestamp, then
/// lays the table out. Row `i` is marked exactly when candidate `i`'s path
/// equals the active value `current`.
pub fn present(found: &Vec<Candidate>, current: &String) -> (r: Vec<String>)
    ensures
        found@.len() == 0 ==> r@.len() == 1 && r@[0]@ == no_sockets_text(),
        found@.len() > 0 ==> {
            &&& r@.len() == found@.len() + 4
            &&& r@[0]@ == table_top()
            &&& r@[1]@ == table_head()
            &&& r@[2]@ == table_sep()
            &&& r@[r@.len() - 1]@ == table_bottom()
            &&& forall|i: int|
                0 <= i < found@.len() ==> row_matches(
                    (#[trigger] r@[i + 3])@,
                    (i + 1) as nat,
                    found@[i].path@ == current@,
                    found@[i].modified,
                    found@[i].path@,
                )
        },
{
    let mut ts_texts: Vec<String> = Vec::new();
    let mut i: usize = 0;
    while i < found.len()
        invariant
            0 <= i <= found@.len(),
            ts_texts@.len() == i,
            forall|k: int|
                0 <= k < i ==> (found@[k].modified is None ==> (#[trigger] ts_texts@[k])@
                    == unknown_text()),
        decreases found@.len() - i,
    {
        ts_texts.push(timestamp_text(&found[i].modified));
        i += 1;
    }
    let r = render_table(found, &ts_texts, current);
    proof {
        if found@.len() > 0 {
            assert forall|i: int| 0 <= i < found@.len() implies row_matches(
                (#[trigger] r@[i + 3])@,
                (i + 1) as nat,
                found@[i].path@ == current@,
                found@[i].modified,
                found@[i].path@,
            ) by {
                let ts = ts_texts@[i]@;
                assert(r@[i + 3]@ == row_text(
                    (i + 1) as nat,
                    found@[i].path@ == current@,
                    ts,
                    found@[i].path@,
                ));
            }
        }
    }
    r
}

/// How many candidates carry the mark: those whose path equals the active
/// value.
pub open spec fn mark_count(found: Seq<Candidate>, current: Seq<char>) -> nat
    decreases found.len(),
{
    if found.len() == 0 {
        0
    } else {
        (if found[0].path@ == current {
            1nat
        } else {
            0nat
        }) + mark_count(found.drop_first(), current)
    }
}

/// Law: when candidate paths are pairwise distinct, exactly one row is
/// marked current if some candidate's path equals the active value, and no
/// row is marked otherwise.
pub proof fn lemma_current_marks(found: Seq<Candidate>, current: Seq<char>)
    requires
        forall|i: int, j: int|
            0 <= i < j < found.len() ==> (#[trigger] found[i]).path@ != (#[trigger] found[j]).path@,
    ensures
        (exists|i: int| 0 <= i < found.len() && (#[trigger] found[i]).path@ == current)
            ==> mark_count(found, current) == 1,
        !(exists|i: int| 0 <= i < found.len() && (#[trigger] found[i]).path@ == current)
            ==> mark_count(found, current) == 0,
    decreases found.len(),
{
    if found.len() > 0 {
        let rest = found.drop_first();
        assert(forall|k: int| 0 <= k < rest.len() ==> rest[k] == found[k + 1]);
        lemma_current_marks(rest, current);
        if found[0].path@ == current {
            assert(!(exists|i: int| 0 <= i < rest.len() && (#[trigger] rest[i]).path@ == current));
        } else {
            if exists|i: int| 0 <= i < found.len() && (#[trigger] found[i]).path@ == current {
                let i = choose|i: int|
                    0 <= i < found.len() && (#[trigger] found[i]).path@ == current;
                assert(i != 0);
                assert(rest[i - 1].path@ == current);
            }
        }
    }
}

} // verus!
