//! Daemon bookkeeping: the per-instance file paths, the PID file's
//! contents, time stamps, uptimes, the log tail, and what the daemon's
//! event drain writes and when it stops.
use vstd::prelude::*;

use crate::events::{event_log_text, event_text, opt_text, DevxEvent};
use crate::text::{
    append_dec, append_str, back_ws, chars_of, contains_seq, contains_str, dec, extend_chars,
    push_chars, slice_chars, string_from, trim, trim_chars, zero_pad,
};

verus! {

/// `/tmp/devx-{id}{ext}`.
pub open spec fn instance_path(id: Seq<char>, ext: Seq<char>) -> Seq<char> {
    "/tmp/devx-"@ + id + ext
}

pub(crate) fn instance_file(id: &str, ext: &str) -> (r: String)
    ensures
        r@ == instance_path(id@, ext@),
{
    let mut s = "/tmp/devx-".to_owned();
    append_str(&mut s, id);
    append_str(&mut s, ext);
    s
}

/// The path of the instance's PID file, `/tmp/devx-{id}.pid`.
pub fn pid_path(project_name: &str) -> (r: String)
    ensures
        r@ == instance_path(project_name@, ".pid"@),
{
    instance_file(project_name, ".pid")
}

/// The path of the instance's log file, `/tmp/devx-{id}.log`.
pub fn log_path(project_name: &str) -> (r: String)
    ensures
        r@ == instance_path(project_name@, ".log"@),
{
    instance_file(project_name, ".log")
}

// ---------------------------------------------------------------------------
// The PID file
// ---------------------------------------------------------------------------

/// Whether `c` is an ASCII digit.
pub open spec fn is_digit(c: char) -> bool {
    '0' <= c <= '9'
}

/// The value of the ASCII digits `s`, most significant first.
pub open spec fn digits_value(s: Seq<char>) -> nat
    decreases s.len(),
{
    if s.len() == 0 {
        0
    } else {
        digits_value(s.drop_last()) * 10 + ((s.last() as u32) - ('0' as u32)) as nat
    }
}

/// The digits of an unsigned number as `u32::from_str` reads it: an
/// optional `+`, then at least one digit.
pub open spec fn number_body(s: Seq<char>) -> Seq<char> {
    if s.len() > 0 && s[0] == '+' {
        s.skip(1)
    } else {
        s
    }
}

/// `s` read as a `u32` (`str::parse::<u32>`): an optional `+` and one or
/// more ASCII digits whose value fits in 32 bits.
pub open spec fn parse_u32(s: Seq<char>) -> Option<u32> {
    let b = number_body(s);
    if b.len() > 0 && (forall|i: int| 0 <= i < b.len() ==> is_digit(#[trigger] b[i]))
        && digits_value(b) <= u32::MAX {
        Some(digits_value(b) as u32)
    } else {
        None
    }
}

proof fn lemma_digits_mono(s: Seq<char>, i: int)
    requires
        0 <= i <= s.len(),
        forall|k: int| 0 <= k < s.len() ==> is_digit(#[trigger] s[k]),
    ensures
        digits_value(s.take(i)) <= digits_value(s),
    decreases s.len(),
{
    if i < s.len() {
        assert(s.drop_last().take(i) =~= s.take(i));
        lemma_digits_mono(s.drop_last(), i);
    } else {
        assert(s.take(i) =~= s);
    }
}

/// Reads the number in the characters `v` as `u32::from_str` does.
pub fn parse_u32_chars(v: &Vec<char>) -> (r: Option<u32>)
    ensures
        r == parse_u32(v@),
{
    let start: usize = if v.len() > 0 && v[0] == '+' {
        1
    } else {
        0
    };
    let b = slice_chars(v, start, v.len());
    proof {
        assert(b@ =~= number_body(v@));
    }
    if b.len() == 0 {
        return None;
    }
    let mut value: u64 = 0;
    let mut i: usize = 0;
    while i < b.len()
        invariant
            b@ == number_body(v@),
            i <= b.len(),
            forall|k: int| 0 <= k < i ==> is_digit(#[trigger] b@[k]),
            value == digits_value(b@.take(i as int)),
            value <= u32::MAX,
        decreases b.len() - i,
    {
        let c = b[i];
        if !('0' <= c && c <= '9') {
            return None;
        }
        proof {
            assert(b@.take(i + 1).drop_last() =~= b@.take(i as int));
        }
        value = value * 10 + ((c as u32) - ('0' as u32)) as u64;
        if value > 4294967295 {
            proof {
                if forall|k: int| 0 <= k < b@.len() ==> is_digit(#[trigger] b@[k]) {
                    lemma_digits_mono(b@, i + 1);
                }
            }
            return None;
        }
        i = i + 1;
    }
    proof {
        assert(b@.take(b.len() as int) =~= b@);
    }
    Some(value as u32)
}

/// The PID written in a PID file's contents: the trimmed text read as a
/// `u32`, or none.
pub fn parse_pid(content: &str) -> (r: Option<u32>)
    ensures
        r == parse_u32(trim(content@)),
{
    let t = trim_chars(&chars_of(content));
    parse_u32_chars(&t)
}

// ---------------------------------------------------------------------------
// Time stamps and uptimes
// ---------------------------------------------------------------------------

/// `YYYY-MM-DD HH:MM:SS` from calendar fields (each zero-padded: the year
/// to 4 digits, the rest to 2).
pub open spec fn timestamp_text(
    year: nat,
    month: nat,
    day: nat,
    hour: nat,
    minute: nat,
    second: nat,
) -> Seq<char> {
    zero_pad(dec(year), 4) + "-"@ + zero_pad(dec(month), 2) + "-"@ + zero_pad(dec(day), 2) + " "@
        + zero_pad(dec(hour), 2) + ":"@ + zero_pad(dec(minute), 2) + ":"@ + zero_pad(
        dec(second),
        2,
    )
}

fn append_padded(s: &mut String, n: u64, w: usize)
    ensures
        final(s)@ == old(s)@ + zero_pad(dec(n as nat), w as nat),
{
    let v = crate::text::dec_zero_padded(n, w);
    push_chars(s, &v);
}

/// Formats a local calendar time (year, month 1-12, day, hour, minute,
/// second) as the daemon log's time stamp.
pub fn format_timestamp(year: u32, month: u32, day: u32, hour: u32, minute: u32, second: u32) -> (r:
    String)
    ensures
        r@ == timestamp_text(
            year as nat,
            month as nat,
            day as nat,
            hour as nat,
            minute as nat,
            second as nat,
        ),
{
    let mut s = String::new();
    append_padded(&mut s, year as u64, 4);
    append_str(&mut s, "-");
    append_padded(&mut s, month as u64, 2);
    append_str(&mut s, "-");
    append_padded(&mut s, day as u64, 2);
    append_str(&mut s, " ");
    append_padded(&mut s, hour as u64, 2);
    append_str(&mut s, ":");
    append_padded(&mut s, minute as u64, 2);
    append_str(&mut s, ":");
    append_padded(&mut s, second as u64, 2);
    proof {
        assert(s@ =~= timestamp_text(
            year as nat,
            month as nat,
            day as nat,
            hour as nat,
            minute as nat,
            second as nat,
        ));
    }
    s
}

proof fn lemma_dec_digits(n: nat)
    ensures
        dec(n).len() >= 1,
        forall|i: int| 0 <= i < dec(n).len() ==> is_digit(#[trigger] dec(n)[i]),
        n < 10 ==> dec(n).len() == 1,
        n < 100 ==> dec(n).len() <= 2,
        n < 1000 ==> dec(n).len() <= 3,
        n < 10000 ==> dec(n).len() <= 4,
    decreases n,
{
    if n >= 10 {
        lemma_dec_digits(n / 10);
        let d = dec(n / 10);
        assert forall|i: int| 0 <= i < dec(n).len() implies is_digit(#[trigger] dec(n)[i]) by {
            if i < d.len() {
                assert(dec(n)[i] == d[i]);
            }
        }
    }
}

proof fn lemma_padded_digits(n: nat, w: nat)
    requires
        (w == 2 && n < 100) || (w == 4 && n < 10000),
    ensures
        zero_pad(dec(n), w).len() == w,
        forall|i: int| 0 <= i < w ==> is_digit(#[trigger] zero_pad(dec(n), w)[i]),
{
    lemma_dec_digits(n);
    let d = dec(n);
    let z = zero_pad(d, w);
    if d.len() < w {
        let k = w - d.len();
        assert forall|i: int| 0 <= i < w implies is_digit(#[trigger] z[i]) by {
            if i >= k {
                assert(z[i] == d[i - k]);
            }
        }
    }
}

/// The daemon's time stamps have a fixed shape, `YYYY-MM-DD HH:MM:SS`: 19
/// characters, `-` at 4 and 7, a space at 10, `:` at 13 and 16, and ASCII
/// digits everywhere else, for any year up to 9999 and the other fields
/// under 100.
pub proof fn lemma_timestamp_shape(
    year: nat,
    month: nat,
    day: nat,
    hour: nat,
    minute: nat,
    second: nat,
)
    requires
        year <= 9999,
        month < 100,
        day < 100,
        hour < 100,
        minute < 100,
        second < 100,
    ensures
        timestamp_text(year, month, day, hour, minute, second).len() == 19,
        timestamp_text(year, month, day, hour, minute, second)[4] == '-',
        timestamp_text(year, month, day, hour, minute, second)[7] == '-',
        timestamp_text(year, month, day, hour, minute, second)[10] == ' ',
        timestamp_text(year, month, day, hour, minute, second)[13] == ':',
        timestamp_text(year, month, day, hour, minute, second)[16] == ':',
        forall|i: int|
            0 <= i < 19 && i != 4 && i != 7 && i != 10 && i != 13 && i != 16 ==> is_digit(
                #[trigger] timestamp_text(year, month, day, hour, minute, second)[i],
            ),
{
    reveal_strlit("-");
    reveal_strlit(" ");
    reveal_strlit(":");
    lemma_padded_digits(year, 4);
    lemma_padded_digits(month, 2);
    lemma_padded_digits(day, 2);
    lemma_padded_digits(hour, 2);
    lemma_padded_digits(minute, 2);
    lemma_padded_digits(second, 2);
    let y = zero_pad(dec(year), 4);
    let mo = zero_pad(dec(month), 2);
    let d = zero_pad(dec(day), 2);
    let h = zero_pad(dec(hour), 2);
    let mi = zero_pad(dec(minute), 2);
    let s = zero_pad(dec(second), 2);
    let t = timestamp_text(year, month, day, hour, minute, second);
    let parts = y + "-"@ + mo + "-"@ + d + " "@ + h + ":"@ + mi + ":"@ + s;
    assert(t == parts);
    assert(t =~= seq![
        y[0], y[1], y[2], y[3], '-', mo[0], mo[1], '-', d[0], d[1], ' ', h[0], h[1], ':', mi[0],
        mi[1], ':', s[0], s[1]
    ]);
    assert(is_digit(y[0]) && is_digit(y[1]) && is_digit(y[2]) && is_digit(y[3]));
    assert(is_digit(mo[0]) && is_digit(mo[1]) && is_digit(d[0]) && is_digit(d[1]));
    assert(is_digit(h[0]) && is_digit(h[1]) && is_digit(mi[0]) && is_digit(mi[1]));
    assert(is_digit(s[0]) && is_digit(s[1]));
}

/// An uptime in the status table: `Ns` under a minute, `NmNs` under an
/// hour, else `NhNm`.
pub open spec fn uptime_text(secs: nat) -> Seq<char> {
    if secs < 60 {
        dec(secs) + "s"@
    } else if secs < 3600 {
        dec(secs / 60) + "m"@ + dec(secs % 60) + "s"@
    } else {
        dec(secs / 3600) + "h"@ + dec((secs % 3600) / 60) + "m"@
    }
}

/// Formats an uptime given in seconds.
pub fn format_uptime(secs: u64) -> (r: String)
    ensures
        r@ == uptime_text(secs as nat),
{
    let mut s = String::new();
    if secs < 60 {
        append_dec(&mut s, secs);
        append_str(&mut s, "s");
    } else if secs < 3600 {
        append_dec(&mut s, secs / 60);
        append_str(&mut s, "m");
        append_dec(&mut s, secs % 60);
        append_str(&mut s, "s");
    } else {
        append_dec(&mut s, secs / 3600);
        append_str(&mut s, "h");
        append_dec(&mut s, (secs % 3600) / 60);
        append_str(&mut s, "m");
    }
    proof {
        assert(s@ =~= uptime_text(secs as nat));
    }
    s
}

// ---------------------------------------------------------------------------
// The log tail
// ---------------------------------------------------------------------------

/// The lines a `logs` request keeps: those that mention `[service]` when a
/// service is given, else all of them, in order.
pub open spec fn kept_lines(lines: Seq<Seq<char>>, service: Option<Seq<char>>) -> Seq<Seq<char>> {
    match service {
        Some(svc) => lines.filter(|l: Seq<char>| contains_seq(l, "["@ + svc + "]"@)),
        None => lines,
    }
}

/// The last `n` of `s` (all of them when there are fewer).
pub open spec fn last_n<A>(s: Seq<A>, n: nat) -> Seq<A> {
    if s.len() <= n {
        s
    } else {
        s.subrange(s.len() - n, s.len() as int)
    }
}

fn service_pattern(svc: &str) -> (r: String)
    ensures
        r@ == "["@ + svc@ + "]"@,
{
    let mut p = "[".to_owned();
    append_str(&mut p, svc);
    append_str(&mut p, "]");
    p
}

/// The lines that `logs -n n [-s service]` prints from the log: the last
/// `n` of those that mention `[service]` (of all lines without a service).
pub fn tail_lines(lines: &Vec<String>, service: Option<&str>, n: usize) -> (r: Vec<String>)
    ensures
        crate::text::views(r@) == last_n(
            kept_lines(
                crate::text::views(lines@),
                match service {
                    Some(s) => Some(s@),
                    None => None,
                },
            ),
            n as nat,
        ),
{
    let ghost all = crate::text::views(lines@);
    let ghost svc = match service {
        Some(s) => Some(s@),
        None => None::<Seq<char>>,
    };
    let mut kept: Vec<String> = Vec::new();
    let mut i: usize = 0;
    while i < lines.len()
        invariant
            i <= lines.len(),
            all == crate::text::views(lines@),
            svc == (match service {
                Some(s) => Some(s@),
                None => None::<Seq<char>>,
            }),
            crate::text::views(kept@) == kept_lines(all.take(i as int), svc),
        decreases lines.len() - i,
    {
        let keep = match service {
            Some(s) => {
                let p = service_pattern(s);
                contains_str(lines[i].as_str(), p.as_str())
            },
            None => true,
        };
        let ghost before = kept@;
        if keep {
            kept.push(lines[i].clone());
        }
        proof {
            assert(all.take(i + 1).drop_last() =~= all.take(i as int));
            match svc {
                Some(sv) => {
                    let f = |l: Seq<char>| contains_seq(l, "["@ + sv + "]"@);
                    assert(all.take(i + 1) =~= all.take(i as int).push(all[i as int]));
                    all.take(i as int).lemma_filter_push(all[i as int], f);
                    if keep {
                        assert(crate::text::views(kept@) =~= crate::text::views(before).push(
                            all[i as int],
                        ));
                    }
                },
                None => {
                    assert(crate::text::views(kept@) =~= crate::text::views(before).push(
                        all[i as int],
                    ));
                },
            }
            assert(crate::text::views(kept@) =~= kept_lines(all.take(i + 1), svc));
        }
        i = i + 1;
    }
    proof {
        assert(all.take(lines.len() as int) =~= all);
    }
    let start: usize = if kept.len() <= n {
        0
    } else {
        kept.len() - n
    };
    let mut out: Vec<String> = Vec::new();
    let mut j: usize = start;
    while j < kept.len()
        invariant
            start <= j <= kept.len(),
            crate::text::views(out@) == crate::text::views(kept@).subrange(start as int, j as int),
        decreases kept.len() - j,
    {
        let ghost before = out@;
        out.push(kept[j].clone());
        proof {
            assert(crate::text::views(out@) =~= crate::text::views(before).push(kept@[j as int]@));
            assert(crate::text::views(out@) =~= crate::text::views(kept@).subrange(
                start as int,
                j + 1,
            ));
        }
        j = j + 1;
    }
    proof {
        if kept.len() <= n {
            assert(crate::text::views(kept@).subrange(0, kept.len() as int) =~= crate::text::views(
                kept@,
            ));
        }
    }
    out
}

/// `s` without trailing white space (`str::trim_end`).
pub open spec fn trim_end(s: Seq<char>) -> Seq<char> {
    s.subrange(0, back_ws(s, s.len()) as int)
}

/// What follow mode prints for a line newly read from the log: the line
/// without trailing white space, if it mentions `[service]` (or no service
/// was given).
pub open spec fn followed_line(line: Seq<char>, service: Option<Seq<char>>) -> Option<Seq<char>> {
    match service {
        Some(svc) => if contains_seq(trim_end(line), "["@ + svc + "]"@) {
            Some(trim_end(line))
        } else {
            None
        },
        None => Some(trim_end(line)),
    }
}

proof fn lemma_back_ws_le(s: Seq<char>, j: nat)
    requires
        j <= s.len(),
    ensures
        back_ws(s, j) <= j,
    decreases j,
{
    if j > 0 && crate::text::is_ws(s[j - 1]) {
        lemma_back_ws_le(s, (j - 1) as nat);
    }
}

/// The line that follow mode prints for `line`, if any.
pub fn follow_line(line: &str, service: Option<&str>) -> (r: Option<String>)
    ensures
        opt_text(r) == followed_line(
            line@,
            match service {
                Some(s) => Some(s@),
                None => None,
            },
        ),
{
    let v = chars_of(line);
    let mut b: usize = v.len();
    while b > 0 && crate::text::is_whitespace(v[b - 1])
        invariant
            b <= v.len(),
            back_ws(v@, b as nat) == back_ws(v@, v@.len()),
        decreases b,
    {
        b = b - 1;
    }
    let t = slice_chars(&v, 0, b);
    let text = string_from(&t);
    match service {
        Some(s) => {
            let p = service_pattern(s);
            if contains_str(text.as_str(), p.as_str()) {
                Some(text)
            } else {
                None
            }
        },
        None => Some(text),
    }
}

// ---------------------------------------------------------------------------
// The daemon's event drain
// ---------------------------------------------------------------------------

/// What the daemon's drain loop receives next.
#[derive(Debug)]
pub enum DrainInput {
    Event(DevxEvent),
    ChannelClosed,
    Terminate,
}

/// What the drain loop does with one input: the log texts to write (each
/// stamped by the caller), the service whose restart to pass on to the
/// orchestrator (if any), and whether to stop (asking the orchestrator to
/// shut down).
#[derive(Debug)]
pub struct DrainStep {
    pub texts: Vec<String>,
    pub restart: Option<String>,
    pub stop: bool,
}

/// The service whose restart a drain input asks for: a control restart's.
pub open spec fn drain_restart(input: DrainInput) -> Option<Seq<char>> {
    match input {
        DrainInput::Event(DevxEvent::ControlRestart { service }) => Some(service@),
        _ => None,
    }
}

/// The drain loop's reaction to `input`: an event's log text (if it has
/// one); a shutdown request also writes `[devx] received shutdown command`
/// and stops; a terminate signal writes
/// `[devx] received SIGTERM, shutting down` and stops; a closed channel
/// stops silently.
pub open spec fn drain_texts(input: DrainInput) -> Seq<Seq<char>> {
    match input {
        DrainInput::Event(e) => match e {
            DevxEvent::ControlShutdown => seq!["[devx] received shutdown command"@],
            _ => match event_text(e) {
                Some(t) => seq![t],
                None => Seq::empty(),
            },
        },
        DrainInput::ChannelClosed => Seq::empty(),
        DrainInput::Terminate => seq!["[devx] received SIGTERM, shutting down"@],
    }
}

/// Whether the drain loop stops after `input`.
pub open spec fn drain_stops(input: DrainInput) -> bool {
    match input {
        DrainInput::Event(e) => e is ControlShutdown,
        _ => true,
    }
}

/// One step of the daemon's drain loop.
pub fn drain_step(input: &DrainInput) -> (r: DrainStep)
    ensures
        crate::text::views(r.texts@) == drain_texts(*input),
        r.stop == drain_stops(*input),
        match r.restart {
            Some(n) => drain_restart(*input) == Some(n@),
            None => drain_restart(*input) is None,
        },
{
    let mut texts: Vec<String> = Vec::new();
    match input {
        DrainInput::Event(e) => {
            match e {
                DevxEvent::ControlShutdown => {
                    texts.push("[devx] received shutdown command".to_owned());
                    proof {
                        assert(crate::text::views(texts@) =~= drain_texts(*input));
                    }
                    DrainStep { texts, restart: None, stop: true }
                },
                _ => {
                    match event_log_text(e) {
                        Some(t) => {
                            texts.push(t);
                        },
                        None => {},
                    }
                    proof {
                        assert(crate::text::views(texts@) =~= drain_texts(*input));
                    }
                    let restart = match e {
                        DevxEvent::ControlRestart { service } => Some(service.clone()),
                        _ => None,
                    };
                    DrainStep { texts, restart, stop: false }
                },
            }
        },
        DrainInput::ChannelClosed => {
            proof {
                assert(crate::text::views(texts@) =~= drain_texts(*input));
            }
            DrainStep { texts, restart: None, stop: true }
        },
        DrainInput::Terminate => {
            texts.push("[devx] received SIGTERM, shutting down".to_owned());
            proof {
                assert(crate::text::views(texts@) =~= drain_texts(*input));
            }
            DrainStep { texts, restart: None, stop: true }
        },
    }
}

/// The last line the daemon writes to its log, after its drain loop stopped.
pub fn stopped_text() -> (r: &'static str)
    ensures
        r@ == "[devx] daemon stopped"@,
{
    "[devx] daemon stopped"
}

/// The first line the daemon writes to its log: `[devx] daemon started (pid N)`.
pub fn started_text(pid: u32) -> (r: String)
    ensures
        r@ == "[devx] daemon started (pid "@ + dec(pid as nat) + ")"@,
{
    let mut s = "[devx] daemon started (pid ".to_owned();
    append_dec(&mut s, pid as u64);
    append_str(&mut s, ")");
    s
}

/// One line of the `devx status` table: name, state, port and proxy
/// padded to 20, 12, 8 and 12 characters, then the uptime.
pub open spec fn status_row_text(
    name: Seq<char>,
    state: Seq<char>,
    port: Seq<char>,
    proxy: Seq<char>,
    uptime: Seq<char>,
) -> Seq<char> {
    crate::text::pad_right(name, 20) + seq![' '] + crate::text::pad_right(state, 12) + seq![' ']
        + crate::text::pad_right(port, 8) + seq![' '] + crate::text::pad_right(proxy, 12) + seq![
        ' ',
    ] + uptime
}

/// Formats a line of the `devx status` table.
pub fn status_row(name: &str, state: &str, port: &str, proxy: &str, uptime: &str) -> (r: String)
    ensures
        r@ == status_row_text(name@, state@, port@, proxy@, uptime@),
{
    let mut out: Vec<char> = Vec::new();
    crate::text::push_padded(&mut out, &chars_of(name), 20);
    out.push(' ');
    crate::text::push_padded(&mut out, &chars_of(state), 12);
    out.push(' ');
    crate::text::push_padded(&mut out, &chars_of(port), 8);
    out.push(' ');
    crate::text::push_padded(&mut out, &chars_of(proxy), 12);
    out.push(' ');
    extend_chars(&mut out, &chars_of(uptime));
    proof {
        assert(out@ =~= status_row_text(name@, state@, port@, proxy@, uptime@));
    }
    string_from(&out)
}

} // verus!
