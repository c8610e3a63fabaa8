//! The status table of the dashboard.
use vstd::prelude::*;

use crate::events::{state_label, state_symbol, ServiceState};
use crate::text::{append_str, dec, dec_string};

verus! {

/// One row of the status table.
#[derive(Debug)]
pub struct ServiceInfo {
    pub name: String,
    pub domain: Option<String>,
    pub state: ServiceState,
    pub actual_port: Option<u16>,
    pub proxy_port: Option<u16>,
    pub uptime: Option<String>,
}

/// The colours of the status column.
#[derive(Debug, Clone, Copy, PartialEq, Eq, Structural)]
pub enum StateColor {
    Green,
    Yellow,
    Red,
    DarkGray,
}

/// Green when healthy, yellow while pending or starting, red when failed
/// or unhealthy, grey when stopped.
pub open spec fn color_of(s: ServiceState) -> StateColor {
    match s {
        ServiceState::Healthy => StateColor::Green,
        ServiceState::Starting => StateColor::Yellow,
        ServiceState::Pending => StateColor::Yellow,
        ServiceState::Failed(_) => StateColor::Red,
        ServiceState::Unhealthy => StateColor::Red,
        ServiceState::Stopped => StateColor::DarkGray,
    }
}

/// The colour of a state in the status column.
pub fn state_color(s: &ServiceState) -> (c: StateColor)
    ensures
        c == color_of(*s),
{
    match s {
        ServiceState::Healthy => StateColor::Green,
        ServiceState::Starting | ServiceState::Pending => StateColor::Yellow,
        ServiceState::Failed(_) | ServiceState::Unhealthy => StateColor::Red,
        ServiceState::Stopped => StateColor::DarkGray,
    }
}

/// The column headers.
pub open spec fn headers() -> Seq<Seq<char>> {
    seq!["SERVICE"@, "DOMAIN"@, "STATUS"@, "PORT"@, "PROXY"@, "TIME"@]
}

/// The column headers of the status table.
pub fn header_cells() -> (r: Vec<String>)
    ensures
        crate::text::views(r@) == headers(),
{
    let r = vec![
        "SERVICE".to_owned(),
        "DOMAIN".to_owned(),
        "STATUS".to_owned(),
        "PORT".to_owned(),
        "PROXY".to_owned(),
        "TIME".to_owned(),
    ];
    proof {
        assert(crate::text::views(r@) =~= headers());
    }
    r
}

/// A port cell: the number, or empty.
pub open spec fn port_cell(p: Option<u16>) -> Seq<char> {
    match p {
        Some(n) => dec(n as nat),
        None => Seq::empty(),
    }
}

/// The text of an optional string, empty when absent.
pub open spec fn text_or_empty(o: Option<String>) -> Seq<char> {
    match o {
        Some(s) => s@,
        None => Seq::empty(),
    }
}

/// The cells of a row: name, domain, `symbol label`, port, proxy port,
/// uptime (absent values are empty).
pub open spec fn row_text(info: ServiceInfo) -> Seq<Seq<char>> {
    seq![
        info.name@,
        text_or_empty(info.domain),
        state_symbol(info.state) + " "@ + state_label(info.state),
        port_cell(info.actual_port),
        port_cell(info.proxy_port),
        text_or_empty(info.uptime),
    ]
}

fn port_text(p: Option<u16>) -> (r: String)
    ensures
        r@ == port_cell(p),
{
    match p {
        Some(n) => dec_string(n as u64),
        None => String::new(),
    }
}

fn text_of(o: &Option<String>) -> (r: String)
    ensures
        r@ == text_or_empty(*o),
{
    match o {
        Some(s) => s.clone(),
        None => String::new(),
    }
}

/// The cells of the row for `info`.
pub fn row_cells(info: &ServiceInfo) -> (r: Vec<String>)
    ensures
        crate::text::views(r@) == row_text(*info),
{
    let mut status = info.state.symbol().to_owned();
    append_str(&mut status, " ");
    append_str(&mut status, info.state.label());
    let r = vec![
        info.name.clone(),
        text_of(&info.domain),
        status,
        port_text(info.actual_port),
        port_text(info.proxy_port),
        text_of(&info.uptime),
    ];
    proof {
        assert(crate::text::views(r@) =~= row_text(*info));
    }
    r
}

} // verus!
