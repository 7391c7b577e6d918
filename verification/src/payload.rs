//! The state reports that hooks send: small flat JSON objects.

use vstd::prelude::*;

use crate::ids::{group_views, opt_view};
use crate::text::{
    chars_of, find, first_index, found, lemma_until, parse_u32, parsed, slice_of, trim,
    trim_left, trim_start, trimmed, until,
};

verus! {

broadcast use group_views;

/// One report.
#[derive(Debug)]
pub struct StatusPayload {
    pub pane_id: u32,
    pub event: String,
    pub agent: String,
    /// Why a session started.
    pub source: Option<String>,
    pub cwd: Option<String>,
    pub detail: Option<String>,
}

#[verifier::ext_equal]
pub struct StatusPayloadV {
    pub pane_id: u32,
    pub event: Seq<char>,
    pub agent: Seq<char>,
    pub source: Option<Seq<char>>,
    pub cwd: Option<Seq<char>>,
    pub detail: Option<Seq<char>>,
}

impl View for StatusPayload {
    type V = StatusPayloadV;

    open spec fn view(&self) -> StatusPayloadV {
        StatusPayloadV {
            pane_id: self.pane_id,
            event: self.event@,
            agent: self.agent@,
            source: opt_view(self.source),
            cwd: opt_view(self.cwd),
            detail: opt_view(self.detail),
        }
    }
}

/// A key as it stands in front of its value.
pub open spec fn quoted_key(key: Seq<char>) -> Seq<char> {
    seq!['"'] + key + seq!['"', ':']
}

/// The value at the start of a text: a string up to its closing quote, or anything else up
/// to the next comma or closing brace. A value that does not end is none.
pub open spec fn leading_value(rest: Seq<char>) -> Option<Seq<char>> {
    if rest.len() > 0 && rest[0] == '"' {
        let inner = rest.drop_first();
        let end = until(inner, '"');
        if end < inner.len() {
            Some(inner.take(end as int))
        } else {
            None
        }
    } else {
        let comma = until(rest, ',');
        let brace = until(rest, '}');
        let end = if comma < brace {
            comma
        } else {
            brace
        };
        if end < rest.len() {
            Some(trimmed(rest.take(end as int)))
        } else {
            None
        }
    }
}

/// The value behind the first occurrence of the key.
pub open spec fn value_of(raw: Seq<char>, key: Seq<char>) -> Option<Seq<char>> {
    match found(raw, quoted_key(key)) {
        Some(n) => leading_value(trim_start(raw.skip(n as int + quoted_key(key).len() as int))),
        None => None,
    }
}

impl StatusPayloadV {
    /// The report in a text. It needs a pane id and an event; a report without an agent's
    /// name is from an unknown one.
    pub open spec fn read(raw: Seq<char>) -> Option<StatusPayloadV> {
        match (value_of(raw, "pane_id"@), value_of(raw, "event"@)) {
            (Some(id), Some(event)) => match parsed(id, u32::MAX as nat) {
                Some(pane_id) => Some(
                    StatusPayloadV {
                        pane_id: pane_id as u32,
                        event,
                        agent: match value_of(raw, "agent"@) {
                            Some(agent) => agent,
                            None => "unknown"@,
                        },
                        source: value_of(raw, "source"@),
                        cwd: value_of(raw, "cwd"@),
                        detail: value_of(raw, "detail"@),
                    },
                ),
                None => None,
            },
            _ => None,
        }
    }
}

fn read_leading(rest: &Vec<char>) -> (r: Option<String>)
    ensures
        opt_view(r) == leading_value(rest@),
{
    proof {
        lemma_until(rest@, ',');
        lemma_until(rest@, '}');
    }
    if rest.len() > 0 && rest[0] == '"' {
        let body = slice_of(rest, 1, rest.len());
        let inner = chars_of(body.as_str());
        assert(inner@ =~= rest@.drop_first());
        proof {
            lemma_until(inner@, '"');
        }
        let end = first_index(&inner, '"');
        if end < inner.len() {
            let value = slice_of(&inner, 0, end);
            assert(value@ =~= inner@.take(end as int));
            Some(value)
        } else {
            None
        }
    } else {
        let comma = first_index(rest, ',');
        let brace = first_index(rest, '}');
        let end = if comma < brace {
            comma
        } else {
            brace
        };
        if end < rest.len() {
            let value = slice_of(rest, 0, end);
            assert(value@ =~= rest@.take(end as int));
            Some(trim(value.as_str()))
        } else {
            None
        }
    }
}

fn read_value(raw: &Vec<char>, key: &str) -> (r: Option<String>)
    ensures
        opt_view(r) == value_of(raw@, key@),
{
    let mut pattern: Vec<char> = Vec::new();
    pattern.push('"');
    let mut name = chars_of(key);
    pattern.append(&mut name);
    pattern.push('"');
    pattern.push(':');
    assert(pattern@ =~= quoted_key(key@));
    match find(raw, &pattern) {
        Some(at) => {
            let tail = slice_of(raw, at + pattern.len(), raw.len());
            assert(tail@ =~= raw@.skip(at as int + pattern.len() as int));
            let rest = trim_left(tail.as_str());
            read_leading(&rest)
        },
        None => None,
    }
}

impl StatusPayload {
    /// Reads a report.
    pub fn parse(raw: &str) -> (r: Option<StatusPayload>)
        ensures
            opt_view(r) == StatusPayloadV::read(raw@),
    {
        let chars = chars_of(raw);
        let id = match read_value(&chars, "pane_id") {
            Some(id) => id,
            None => {
                return None;
            },
        };
        let event = match read_value(&chars, "event") {
            Some(event) => event,
            None => {
                return None;
            },
        };
        let pane_id = match parse_u32(id.as_str()) {
            Some(pane_id) => pane_id,
            None => {
                return None;
            },
        };
        let agent = match read_value(&chars, "agent") {
            Some(agent) => agent,
            None => "unknown".to_owned(),
        };
        let source = read_value(&chars, "source");
        let cwd = read_value(&chars, "cwd");
        let detail = read_value(&chars, "detail");
        Some(StatusPayload { pane_id, event, agent, source, cwd, detail })
    }
}

} // verus!
