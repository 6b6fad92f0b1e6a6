//! Application events sent by the served pages, the rows they become in
//! the store, and the aggregations the analytics endpoints serve.

use vstd::prelude::*;

use crate::error::QpacktError;
use crate::fingerprint::create_from_init;
use crate::fingerprint::visitor_hash_of;
use crate::fingerprint::VisitorHash;
use crate::pipeline::Visit;
use crate::text::dec_rep;
use crate::text::dec_rep_i;
use crate::text::format_i64;
use crate::text::format_u64;
use crate::version::VersionName;

verus! {

/// One application event as the pipeline carries it; the payload is kept
/// as its JSON text.
#[derive(Debug)]
pub struct EventData {
    pub time: u64,
    pub visitor: VisitorHash,
    pub version: String,
    pub name: String,
    pub params: String,
    pub path: String,
    pub payload: String,
}

impl Clone for EventData {
    fn clone(&self) -> (r: Self)
        ensures
            r.time == self.time,
            r.visitor == self.visitor,
            r.version@ == self.version@,
            r.name@ == self.name@,
            r.params@ == self.params@,
            r.path@ == self.path@,
            r.payload@ == self.payload@,
    {
        EventData {
            time: self.time,
            visitor: self.visitor,
            version: self.version.clone(),
            name: self.name.clone(),
            params: self.params.clone(),
            path: self.path.clone(),
            payload: self.payload.clone(),
        }
    }
}

/// An event as read back from the store, with its row id.
#[derive(Debug)]
pub struct SavedEventData {
    pub id: i64,
    pub event: EventData,
}

/// Builds the stored event for one collected request: a browser that
/// already knows its visitor hash keeps it; otherwise the hash is
/// computed from the peer address and User-Agent under the current seed.
pub fn build_event(
    name: String,
    version: String,
    params: String,
    path: String,
    payload: String,
    provided_visitor: Option<VisitorHash>,
    ip: &Vec<u8>,
    user_agent: &Vec<u8>,
    init: u64,
    now: u64,
) -> (r: EventData)
    ensures
        r.time == now,
        r.visitor == match provided_visitor {
            Some(v) => v,
            None => VisitorHash(visitor_hash_of(init, ip@, user_agent@)),
        },
        r.version@ == version@,
        r.name@ == name@,
        r.params@ == params@,
        r.path@ == path@,
        r.payload@ == payload@,
{
    let visitor = match provided_visitor {
        Some(v) => v,
        None => create_from_init(ip, user_agent, init),
    };
    EventData { time: now, visitor, version, name, params, path, payload }
}

/// Decodes one stored event row handed over as plain column values; a
/// missing column is a store error.
pub fn saved_event_from_row(
    id: Option<i64>,
    time: Option<i64>,
    visitor: Option<i64>,
    version: Option<String>,
    name: Option<String>,
    params: Option<String>,
    path: Option<String>,
    payload: Option<String>,
) -> (r: Result<SavedEventData, QpacktError>)
    ensures
        match r {
            Ok(e) => {
                &&& id matches Some(i) && e.id == i
                &&& time matches Some(t) && e.event.time == t as u64
                &&& visitor matches Some(v) && e.event.visitor == VisitorHash(v as u64)
                &&& version matches Some(ref s) && e.event.version@ == s@
                &&& name matches Some(ref s) && e.event.name@ == s@
                &&& params matches Some(ref s) && e.event.params@ == s@
                &&& path matches Some(ref s) && e.event.path@ == s@
                &&& payload matches Some(ref s) && e.event.payload@ == s@
            },
            Err(e) => {
                &&& e is DatabaseError
                &&& (id is None || time is None || visitor is None || version is None
                    || name is None || params is None || path is None || payload is None)
            },
        },
{
    let id = match id {
        Some(v) => v,
        None => {
            return Err(QpacktError::DatabaseError(String::from_str("no id column")));
        },
    };
    let time = match time {
        Some(v) => v,
        None => {
            return Err(QpacktError::DatabaseError(String::from_str("no time column")));
        },
    };
    let visitor = match visitor {
        Some(v) => v,
        None => {
            return Err(QpacktError::DatabaseError(String::from_str("no visitor column")));
        },
    };
    let version = match version {
        Some(v) => v,
        None => {
            return Err(QpacktError::DatabaseError(String::from_str("no version column")));
        },
    };
    let name = match name {
        Some(v) => v,
        None => {
            return Err(QpacktError::DatabaseError(String::from_str("no name column")));
        },
    };
    let params = match params {
        Some(v) => v,
        None => {
            return Err(QpacktError::DatabaseError(String::from_str("no params column")));
        },
    };
    let path = match path {
        Some(v) => v,
        None => {
            return Err(QpacktError::DatabaseError(String::from_str("no path column")));
        },
    };
    let payload = match payload {
        Some(v) => v,
        None => {
            return Err(QpacktError::DatabaseError(String::from_str("no payload column")));
        },
    };
    Ok(
        SavedEventData {
            id,
            event: EventData {
                time: time as u64,
                visitor: VisitorHash(visitor as u64),
                version,
                name,
                params,
                path,
                payload,
            },
        },
    )
}

/// Decodes one stored visit row handed over as plain column values; a
/// missing column is a store error.
pub fn visit_from_row(
    first_request_time: Option<i64>,
    last_request_time: Option<i64>,
    request_count: Option<u32>,
    visitor: Option<i64>,
    version: Option<String>,
) -> (r: Result<Visit, QpacktError>)
    ensures
        match r {
            Ok(v) => {
                &&& first_request_time matches Some(f) && v.first_request_time == f as u64
                &&& last_request_time matches Some(l) && v.last_request_time == l as u64
                &&& request_count matches Some(c) && v.request_count == c
                &&& visitor matches Some(h) && v.visitor == VisitorHash(h as u64)
                &&& version matches Some(ref s) && v.version@ == s@
            },
            Err(e) => {
                &&& e is DatabaseError
                &&& (first_request_time is None || last_request_time is None
                    || request_count is None || visitor is None || version is None)
            },
        },
{
    let first = match first_request_time {
        Some(v) => v,
        None => {
            return Err(
                QpacktError::DatabaseError(String::from_str("no first_request_time column")),
            );
        },
    };
    let last = match last_request_time {
        Some(v) => v,
        None => {
            return Err(QpacktError::DatabaseError(String::from_str("no last_request_time column")));
        },
    };
    let count = match request_count {
        Some(v) => v,
        None => {
            return Err(QpacktError::DatabaseError(String::from_str("no request_count column")));
        },
    };
    let visitor = match visitor {
        Some(v) => v,
        None => {
            return Err(QpacktError::DatabaseError(String::from_str("no visitor column")));
        },
    };
    let version = match version {
        Some(v) => v,
        None => {
            return Err(QpacktError::DatabaseError(String::from_str("no version column")));
        },
    };
    Ok(
        Visit {
            first_request_time: first as u64,
            last_request_time: last as u64,
            request_count: count,
            visitor: VisitorHash(visitor as u64),
            version: VersionName::new(version),
        },
    )
}

/// One line of the events download: the comma-separated row fields under
/// a CRLF ending. The time is handed in already formatted.
pub open spec fn csv_line_text(id: int, time_text: Seq<char>, e: EventData) -> Seq<char> {
    dec_rep_i(id) + ","@ + time_text + ","@ + e.name@ + ","@ + e.version@ + ","@ + dec_rep(
        e.visitor.0 as nat,
    ) + ","@ + e.params@ + ","@ + e.path@ + ","@ + e.payload@ + "\r\n"@
}

/// Writes one line of the events download.
pub fn csv_line(id: i64, time_text: &str, e: &EventData) -> (r: String)
    ensures
        r@ == csv_line_text(id as int, time_text@, *e),
{
    let mut out = format_i64(id);
    out.append(",");
    out.append(time_text);
    out.append(",");
    out.append(e.name.as_str());
    out.append(",");
    out.append(e.version.as_str());
    out.append(",");
    let visitor_digits = format_u64(e.visitor.0);
    out.append(visitor_digits.as_str());
    out.append(",");
    out.append(e.params.as_str());
    out.append(",");
    out.append(e.path.as_str());
    out.append(",");
    out.append(e.payload.as_str());
    out.append("\r\n");
    proof {
        assert(out@ =~= csv_line_text(id as int, time_text@, *e));
    }
    out
}

/// The header line of the events download.
pub fn csv_header() -> (r: &'static str)
    ensures
        r@ == "id,time,event,version,visitor,params,path,payload\r\n"@,
{
    "id,time,event,version,visitor,params,path,payload\r\n"
}

} // verus!
