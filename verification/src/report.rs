//! The Upstream Reporter: the endpoint that receives count events and the
//! exact JSON payload of one event. The payload is rendered here so that
//! its bytes are pinned down; the host only authenticates and dispatches
//! it, fire-and-forget.

use crate::cdn::{trim_end_slashes, trim_trailing_slashes};
use crate::text::push_char;
use vstd::prelude::*;

verus! {

/// A hexadecimal digit below sixteen, as lower-case text.
pub open spec fn hex_digit_seq(d: nat) -> Seq<char> {
    if d == 0 {
        "0"@
    } else if d == 1 {
        "1"@
    } else if d == 2 {
        "2"@
    } else if d == 3 {
        "3"@
    } else if d == 4 {
        "4"@
    } else if d == 5 {
        "5"@
    } else if d == 6 {
        "6"@
    } else if d == 7 {
        "7"@
    } else if d == 8 {
        "8"@
    } else if d == 9 {
        "9"@
    } else if d == 10 {
        "a"@
    } else if d == 11 {
        "b"@
    } else if d == 12 {
        "c"@
    } else if d == 13 {
        "d"@
    } else if d == 14 {
        "e"@
    } else {
        "f"@
    }
}

fn hex_digit_str(d: u32) -> (r: &'static str)
    requires
        d <= 15,
    ensures
        r@ == hex_digit_seq(d as nat),
{
    match d {
        0 => "0",
        1 => "1",
        2 => "2",
        3 => "3",
        4 => "4",
        5 => "5",
        6 => "6",
        7 => "7",
        8 => "8",
        9 => "9",
        10 => "a",
        11 => "b",
        12 => "c",
        13 => "d",
        14 => "e",
        _ => "f",
    }
}

/// The escape of one character inside a JSON string literal: the short
/// escapes for the quote, the backslash and the usual control shorthands,
/// a `\u00..` escape for the remaining control characters, and the
/// character itself otherwise.
pub open spec fn json_escape_char(c: char) -> Seq<char> {
    if c == '"' {
        "\\\""@
    } else if c == '\\' {
        "\\\\"@
    } else if c == '\u{8}' {
        "\\b"@
    } else if c == '\u{c}' {
        "\\f"@
    } else if c == '\n' {
        "\\n"@
    } else if c == '\r' {
        "\\r"@
    } else if c == '\t' {
        "\\t"@
    } else if (c as u32) < 32 {
        "\\u00"@ + hex_digit_seq((c as u32 / 16) as nat) + hex_digit_seq((c as u32 % 16) as nat)
    } else {
        seq![c]
    }
}

/// The body of the JSON string literal for the text `s`.
pub open spec fn json_escape(s: Seq<char>) -> Seq<char>
    decreases s.len(),
{
    if s.len() == 0 {
        Seq::<char>::empty()
    } else {
        json_escape(s.drop_last()) + json_escape_char(s.last())
    }
}

/// The JSON string literal for the text `s`.
pub open spec fn json_string(s: Seq<char>) -> Seq<char> {
    "\""@ + json_escape(s) + "\""@
}

/// Appends the JSON string literal for `s`, exactly as `json_string`
/// states.
fn append_json_string(out: &mut String, s: &str)
    ensures
        final(out)@ == old(out)@ + json_string(s@),
{
    out.append("\"");
    let ghost pre = out@;
    let len = s.unicode_len();
    let mut i: usize = 0;
    while i < len
        invariant
            i <= len,
            len == s@.len(),
            pre == old(out)@ + "\""@,
            out@ == pre + json_escape(s@.subrange(0, i as int)),
        decreases len - i,
    {
        let c = s.get_char(i);
        proof {
            assert(s@.subrange(0, i + 1).drop_last() =~= s@.subrange(0, i as int));
            assert(s@.subrange(0, i + 1).last() == s@[i as int]);
        }
        if c == '"' {
            out.append("\\\"");
        } else if c == '\\' {
            out.append("\\\\");
        } else if c == '\u{8}' {
            out.append("\\b");
        } else if c == '\u{c}' {
            out.append("\\f");
        } else if c == '\n' {
            out.append("\\n");
        } else if c == '\r' {
            out.append("\\r");
        } else if c == '\t' {
            out.append("\\t");
        } else {
            let v = c as u32;
            if v < 32 {
                out.append("\\u00");
                out.append(hex_digit_str(v / 16));
                out.append(hex_digit_str(v % 16));
            } else {
                push_char(out, c);
                proof {
                    assert(json_escape_char(s@[i as int]) =~= seq![s@[i as int]]);
                }
            }
        }
        proof {
            assert(out@ =~= pre + json_escape(s@.subrange(0, i + 1)));
        }
        i = i + 1;
    }
    proof {
        assert(s@.subrange(0, len as int) =~= s@);
    }
    out.append("\"");
    proof {
        assert(out@ =~= old(out)@ + json_string(s@));
    }
}

/// One `"name":"value"` member of a JSON object.
pub open spec fn json_member(k: Seq<char>, v: Seq<char>) -> Seq<char> {
    json_string(k) + ":"@ + json_string(v)
}

/// The members of the headers object, comma-separated, in given order.
pub open spec fn json_members(h: Seq<(String, String)>) -> Seq<char>
    decreases h.len(),
{
    if h.len() == 0 {
        Seq::<char>::empty()
    } else if h.len() == 1 {
        json_member(h[0].0@, h[0].1@)
    } else {
        json_members(h.drop_last()) + ","@ + json_member(h.last().0@, h.last().1@)
    }
}

/// Renders the members of the headers object, exactly as `json_members`
/// states.
fn render_header_members(h: &Vec<(String, String)>) -> (out: String)
    ensures
        out@ == json_members(h@),
{
    let mut out = String::new();
    let len = h.len();
    let mut i: usize = 0;
    while i < len
        invariant
            i <= len,
            len == h@.len(),
            out@ == json_members(h@.subrange(0, i as int)),
        decreases len - i,
    {
        proof {
            assert(h@.subrange(0, i + 1).drop_last() =~= h@.subrange(0, i as int));
            assert(h@.subrange(0, i + 1).last() == h@[i as int]);
        }
        if i > 0 {
            out.append(",");
        }
        let pair = &h[i];
        append_json_string(&mut out, pair.0.as_str());
        out.append(":");
        append_json_string(&mut out, pair.1.as_str());
        proof {
            assert(out@ =~= json_members(h@.subrange(0, i + 1)));
        }
        i = i + 1;
    }
    proof {
        assert(h@.subrange(0, len as int) =~= h@);
    }
    out
}

/// A report of one countable download, as handed to the host for
/// dispatch.
pub struct DownloadReport {
    /// The originating request URL.
    pub url: String,
    /// The artifact identifier (the project hash).
    pub project_id: String,
    /// The version identifier.
    pub version_name: String,
    /// The declared source address, verbatim as received.
    pub ip: String,
    /// A snapshot of the request headers, in a fixed order.
    pub headers: Vec<(String, String)>,
}

/// The exact JSON payload of a report.
pub open spec fn spec_report_json(r: DownloadReport) -> Seq<char> {
    "{\"url\":"@ + json_string(r.url@) + ",\"project_id\":"@ + json_string(r.project_id@)
        + ",\"version_name\":"@ + json_string(r.version_name@) + ",\"ip\":"@ + json_string(r.ip@)
        + ",\"headers\":{"@ + json_members(r.headers@) + "}}"@
}

/// Renders the payload of a report, exactly as `spec_report_json`
/// states.
pub fn render_report(r: &DownloadReport) -> (out: String)
    ensures
        out@ == spec_report_json(*r),
{
    let mut out = String::new();
    out.append("{\"url\":");
    append_json_string(&mut out, r.url.as_str());
    out.append(",\"project_id\":");
    append_json_string(&mut out, r.project_id.as_str());
    out.append(",\"version_name\":");
    append_json_string(&mut out, r.version_name.as_str());
    out.append(",\"ip\":");
    append_json_string(&mut out, r.ip.as_str());
    out.append(",\"headers\":{");
    let members = render_header_members(&r.headers);
    out.append(members.as_str());
    out.append("}}");
    proof {
        assert(out@ =~= spec_report_json(*r));
    }
    out
}

/// The upstream endpoint that receives count reports, under the
/// configured accounting base URL.
pub open spec fn spec_report_endpoint(base: Seq<char>) -> Seq<char> {
    trim_end_slashes(base) + "/v2/admin/_count-download"@
}

/// Builds the endpoint URL for count reports, exactly as
/// `spec_report_endpoint` states.
pub fn report_endpoint(base: &str) -> (r: String)
    ensures
        r@ == spec_report_endpoint(base@),
{
    let head = trim_trailing_slashes(base);
    let mut out = head.to_owned();
    out.append("/v2/admin/_count-download");
    proof {
        assert(out@ =~= spec_report_endpoint(base@));
    }
    out
}

/// Whether an upstream status code counts as success. A non-success
/// response to a report is only logged, never retried and never
/// surfaced.
pub fn is_success_status(code: u16) -> (r: bool)
    ensures
        r == (200 <= code && code < 300),
{
    200 <= code && code < 300
}

} // verus!
