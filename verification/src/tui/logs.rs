//! The log pane: per-service colours, the label column, and which entries
//! are on screen.
use vstd::prelude::*;

use crate::text::{append_str, chars_of, pad_right, push_padded, slice_chars, str_eq, string_from};

verus! {

/// The colours of the log pane.
#[derive(Debug, Clone, Copy, PartialEq, Eq, Structural)]
pub enum LogColor {
    Cyan,
    Magenta,
    Yellow,
    Green,
    Blue,
    Red,
    White,
}

/// The palette that services take their colours from, in turn.
pub open spec fn palette(i: nat) -> LogColor {
    let j = i % 6;
    if j == 0 {
        LogColor::Cyan
    } else if j == 1 {
        LogColor::Magenta
    } else if j == 2 {
        LogColor::Yellow
    } else if j == 3 {
        LogColor::Green
    } else if j == 4 {
        LogColor::Blue
    } else {
        LogColor::Red
    }
}

/// The colour of the service at position `index`: the palette repeats
/// every six services.
pub fn service_color(index: usize) -> (c: LogColor)
    ensures
        c == palette(index as nat),
{
    let j = index % 6;
    if j == 0 {
        LogColor::Cyan
    } else if j == 1 {
        LogColor::Magenta
    } else if j == 2 {
        LogColor::Yellow
    } else if j == 3 {
        LogColor::Green
    } else if j == 4 {
        LogColor::Blue
    } else {
        LogColor::Red
    }
}

/// One line of the log pane.
#[derive(Debug)]
pub struct LogEntry {
    pub service: String,
    pub line: String,
    pub is_stderr: bool,
    pub color: LogColor,
}

/// The label column: the service name padded to 12 characters, or cut to
/// 11 and ended with an ellipsis when longer.
pub open spec fn label_text(service: Seq<char>) -> Seq<char> {
    if service.len() <= 12 {
        pad_right(service, 12)
    } else {
        service.take(11).push('\u{2026}')
    }
}

/// The prefix of a log line: `[label]`.
pub fn log_prefix(service: &str) -> (r: String)
    ensures
        r@ == seq!['['] + label_text(service@) + seq![']'],
{
    let v = chars_of(service);
    let mut out: Vec<char> = Vec::new();
    out.push('[');
    if v.len() <= 12 {
        push_padded(&mut out, &v, 12);
    } else {
        let head = slice_chars(&v, 0, 11);
        crate::text::extend_chars(&mut out, &head);
        out.push('\u{2026}');
    }
    out.push(']');
    proof {
        assert(out@ =~= seq!['['] + label_text(service@) + seq![']']);
    }
    string_from(&out)
}

/// Whether an entry passes the filter (all do without one).
pub open spec fn shown(e: LogEntry, filter: Option<Seq<char>>) -> bool {
    match filter {
        Some(f) => e.service@ == f,
        None => true,
    }
}

/// The positions of the entries that pass the filter, in order.
pub open spec fn shown_positions(entries: Seq<LogEntry>, filter: Option<Seq<char>>, n: nat) -> Seq<nat>
    decreases n,
{
    if n == 0 {
        Seq::empty()
    } else {
        let prev = shown_positions(entries, filter, (n - 1) as nat);
        if shown(entries[n - 1], filter) {
            prev.push((n - 1) as nat)
        } else {
            prev
        }
    }
}

/// `a - b`, or 0.
pub open spec fn sat_sub(a: int, b: int) -> nat {
    if a > b {
        (a - b) as nat
    } else {
        0
    }
}

/// The entries on screen in a pane `height` rows tall (two of them are
/// borders): of the entries that pass the filter, the last rows' worth,
/// moved `scroll` entries back from the end.
pub open spec fn visible_window(
    entries: Seq<LogEntry>,
    filter: Option<Seq<char>>,
    height: nat,
    scroll: nat,
) -> Seq<nat> {
    let pos = shown_positions(entries, filter, entries.len());
    let h = sat_sub(height as int, 2);
    let skip = sat_sub(sat_sub(pos.len() as int, h as int) as int, scroll as int);
    let end: int = if skip + h < pos.len() {
        (skip + h) as int
    } else {
        pos.len() as int
    };
    pos.subrange(skip as int, end)
}

/// The positions of the entries shown in a pane `height` rows tall with
/// the given filter and scroll offset.
pub fn visible_entries(entries: &Vec<LogEntry>, filter: Option<&str>, height: u16, scroll: usize) -> (r: Vec<usize>)
    ensures
        r@.map_values(|i: usize| i as nat) == visible_window(
            entries@,
            match filter {
                Some(f) => Some(f@),
                None => None,
            },
            height as nat,
            scroll as nat,
        ),
{
    let ghost fv = match filter {
        Some(f) => Some(f@),
        None => None::<Seq<char>>,
    };
    let mut pos: Vec<usize> = Vec::new();
    let mut i: usize = 0;
    while i < entries.len()
        invariant
            i <= entries.len(),
            fv == (match filter {
                Some(f) => Some(f@),
                None => None::<Seq<char>>,
            }),
            pos@.map_values(|i: usize| i as nat) == shown_positions(entries@, fv, i as nat),
            forall|j: int| 0 <= j < pos@.len() ==> pos@[j] < i,
        decreases entries.len() - i,
    {
        let keep = match filter {
            Some(f) => str_eq(entries[i].service.as_str(), f),
            None => true,
        };
        if keep {
            let ghost before = pos@;
            pos.push(i);
            proof {
                assert(pos@.map_values(|i: usize| i as nat) =~= before.map_values(
                    |i: usize| i as nat,
                ).push(i as nat));
            }
        }
        i = i + 1;
    }
    let h: usize = if height > 2 {
        (height - 2) as usize
    } else {
        0
    };
    let total = pos.len();
    let base: usize = if total > h {
        total - h
    } else {
        0
    };
    let skip: usize = if base > scroll {
        base - scroll
    } else {
        0
    };
    let end: usize = if skip + h < total {
        skip + h
    } else {
        total
    };
    let mut out: Vec<usize> = Vec::new();
    let mut k: usize = skip;
    while k < end
        invariant
            skip <= k <= end,
            end <= pos@.len(),
            out@.map_values(|i: usize| i as nat) == pos@.map_values(|i: usize| i as nat).subrange(
                skip as int,
                k as int,
            ),
        decreases end - k,
    {
        let ghost before = out@;
        out.push(pos[k]);
        proof {
            assert(out@.map_values(|i: usize| i as nat) =~= before.map_values(|i: usize| i as nat).push(
                pos@[k as int] as nat,
            ));
            assert(out@.map_values(|i: usize| i as nat) =~= pos@.map_values(
                |i: usize| i as nat,
            ).subrange(skip as int, k + 1));
        }
        k = k + 1;
    }
    out
}

/// The title of the log pane: ` Logs [service] ` with a filter, else
/// ` Logs `.
pub fn logs_title(filter: Option<&str>) -> (r: String)
    ensures
        r@ == match filter {
            Some(f) => " Logs ["@ + f@ + "] "@,
            None => " Logs "@,
        },
{
    match filter {
        Some(f) => {
            let mut s = " Logs [".to_owned();
            append_str(&mut s, f);
            append_str(&mut s, "] ");
            s
        },
        None => " Logs ".to_owned(),
    }
}

} // verus!
