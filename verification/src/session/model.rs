//! The display model: one [`Entry`] per captured event.

use vstd::prelude::*;

use crate::protocol::pdu::{ParsedModel, ParsedPdu};
use crate::time::Timestamp;

verus! {

broadcast use vstd::string::group_string_axioms;

/// Block tag: the bracketed label at the start of a line (`[REQUEST ]` etc.).
#[derive(Debug, Clone, Copy, PartialEq, Eq, Structural)]
pub enum Tag {
    Request,
    Response,
    Orphan,
    Parse,
}

/// The label of a tag.
pub open spec fn label_text(tag: Tag) -> Seq<char> {
    match tag {
        Tag::Request => "REQUEST "@,
        Tag::Response => "RESPONSE"@,
        Tag::Orphan => "ORPHAN  "@,
        Tag::Parse => "PARSE   "@,
    }
}

impl Tag {
    /// The fixed-width (8 char) label shown inside the brackets.
    pub fn label(self) -> (r: &'static str)
        ensures
            r@ == label_text(self),
            r@.len() == 8,
    {
        proof {
            reveal_strlit("REQUEST ");
            reveal_strlit("RESPONSE");
            reveal_strlit("ORPHAN  ");
            reveal_strlit("PARSE   ");
        }
        match self {
            Tag::Request => "REQUEST ",
            Tag::Response => "RESPONSE",
            Tag::Orphan => "ORPHAN  ",
            Tag::Parse => "PARSE   ",
        }
    }
}

/// What kind of content an entry carries.
#[derive(Debug)]
pub enum EntryBody {
    /// A normally-parsed frame (request or response).
    Frame { slave: u8, parsed: ParsedPdu },
    /// Synthetic timeout response: no raw bytes, just `  Error: Timeout`.
    /// Emitted by the sweeper when `response_timeout` has elapsed.
    Timeout,
    /// No response: a new request arrived (RTU is half-duplex, so the master
    /// has moved on to the next transaction) before this request was answered.
    /// Like [`EntryBody::Timeout`] but indicates the wait was cut short by bus
    /// turn-around rather than the configured timeout elapsing. No raw bytes.
    NoResponse,
    /// A response that arrived after its request already timed out.
    /// `late` is the late response (its raw bytes are the entry's `raw`);
    /// `orig` is the original request, echoed for context.
    Orphan { slave: u8, late: ParsedPdu, orig: ParsedPdu },
    /// A response with no matching request on record.
    Unsolicited { slave: u8, parsed: ParsedPdu },
    /// A frame that failed to parse (bad CRC, truncated, ...).
    ParseFailure { reason: String },
}

/// One display block. The UI renders a list of these; export writes them
/// sequentially as plain text.
#[derive(Debug)]
pub struct Entry {
    pub tag: Tag,
    pub ts: Timestamp,
    pub counter: u64,
    /// Raw bytes shown on the hex line (empty for [`EntryBody::Timeout`]).
    pub raw: Vec<u8>,
    pub body: EntryBody,
}

/// What an [`EntryBody`] holds.
#[verifier::ext_equal]
pub enum BodyModel {
    Frame { slave: u8, parsed: ParsedModel },
    Timeout,
    NoResponse,
    Orphan { slave: u8, late: ParsedModel, orig: ParsedModel },
    Unsolicited { slave: u8, parsed: ParsedModel },
    ParseFailure { reason: Seq<char> },
}

/// What an [`Entry`] holds.
#[verifier::ext_equal]
pub struct EntryModel {
    pub tag: Tag,
    pub ts: Timestamp,
    pub counter: u64,
    pub raw: Seq<u8>,
    pub body: BodyModel,
}

impl View for EntryBody {
    type V = BodyModel;

    open spec fn view(&self) -> BodyModel {
        match *self {
            EntryBody::Frame { slave, parsed } => BodyModel::Frame { slave, parsed: parsed@ },
            EntryBody::Timeout => BodyModel::Timeout,
            EntryBody::NoResponse => BodyModel::NoResponse,
            EntryBody::Orphan { slave, late, orig } => BodyModel::Orphan {
                slave,
                late: late@,
                orig: orig@,
            },
            EntryBody::Unsolicited { slave, parsed } => BodyModel::Unsolicited {
                slave,
                parsed: parsed@,
            },
            EntryBody::ParseFailure { reason } => BodyModel::ParseFailure { reason: reason@ },
        }
    }
}

impl View for Entry {
    type V = EntryModel;

    open spec fn view(&self) -> EntryModel {
        EntryModel {
            tag: self.tag,
            ts: self.ts,
            counter: self.counter,
            raw: self.raw@,
            body: self.body@,
        }
    }
}

impl Clone for EntryBody {
    fn clone(&self) -> (r: Self)
        ensures
            r@ == self@,
    {
        match self {
            EntryBody::Frame { slave, parsed } => EntryBody::Frame {
                slave: *slave,
                parsed: parsed.clone(),
            },
            EntryBody::Timeout => EntryBody::Timeout,
            EntryBody::NoResponse => EntryBody::NoResponse,
            EntryBody::Orphan { slave, late, orig } => EntryBody::Orphan {
                slave: *slave,
                late: late.clone(),
                orig: orig.clone(),
            },
            EntryBody::Unsolicited { slave, parsed } => EntryBody::Unsolicited {
                slave: *slave,
                parsed: parsed.clone(),
            },
            EntryBody::ParseFailure { reason } => EntryBody::ParseFailure {
                reason: reason.clone(),
            },
        }
    }
}

impl Clone for Entry {
    fn clone(&self) -> (r: Self)
        ensures
            r@ == self@,
    {
        let raw = self.raw.clone();
        assert(raw@ =~= self.raw@);
        Entry { tag: self.tag, ts: self.ts, counter: self.counter, raw, body: self.body.clone() }
    }
}

/// The entries of a list.
pub open spec fn entry_views(entries: Seq<Entry>) -> Seq<EntryModel> {
    Seq::new(entries.len(), |i: int| entries[i]@)
}

/// The entry of a request.
pub open spec fn request_entry(
    ts: Timestamp,
    counter: u64,
    raw: Seq<u8>,
    slave: u8,
    parsed: ParsedModel,
) -> EntryModel {
    EntryModel { tag: Tag::Request, ts, counter, raw, body: BodyModel::Frame { slave, parsed } }
}

/// The entry of a response to the request with the same counter.
pub open spec fn response_entry(
    ts: Timestamp,
    counter: u64,
    raw: Seq<u8>,
    slave: u8,
    parsed: ParsedModel,
) -> EntryModel {
    EntryModel { tag: Tag::Response, ts, counter, raw, body: BodyModel::Frame { slave, parsed } }
}

/// The entry that stands in for a response that did not come in time.
pub open spec fn timeout_entry(ts: Timestamp, counter: u64) -> EntryModel {
    EntryModel { tag: Tag::Response, ts, counter, raw: Seq::empty(), body: BodyModel::Timeout }
}

/// The entry that stands in for a response that can no longer come.
pub open spec fn no_response_entry(ts: Timestamp, counter: u64) -> EntryModel {
    EntryModel { tag: Tag::Response, ts, counter, raw: Seq::empty(), body: BodyModel::NoResponse }
}

/// The entry of a late response.
pub open spec fn orphan_entry(
    ts: Timestamp,
    counter: u64,
    raw: Seq<u8>,
    slave: u8,
    late: ParsedModel,
    orig: ParsedModel,
) -> EntryModel {
    EntryModel { tag: Tag::Orphan, ts, counter, raw, body: BodyModel::Orphan { slave, late, orig } }
}

/// The entry of a response that nobody asked for.
pub open spec fn unsolicited_entry(
    ts: Timestamp,
    counter: u64,
    raw: Seq<u8>,
    slave: u8,
    parsed: ParsedModel,
) -> EntryModel {
    EntryModel {
        tag: Tag::Orphan,
        ts,
        counter,
        raw,
        body: BodyModel::Unsolicited { slave, parsed },
    }
}

/// The entry of bytes that are no frame.
pub open spec fn parse_failure_entry(
    ts: Timestamp,
    counter: u64,
    raw: Seq<u8>,
    reason: Seq<char>,
) -> EntryModel {
    EntryModel { tag: Tag::Parse, ts, counter, raw, body: BodyModel::ParseFailure { reason } }
}

/// The slave that an entry names.
pub open spec fn entry_slave(e: EntryModel) -> Option<u8> {
    match e.body {
        BodyModel::Frame { slave, .. } => Some(slave),
        BodyModel::Orphan { slave, .. } => Some(slave),
        BodyModel::Unsolicited { slave, .. } => Some(slave),
        BodyModel::ParseFailure { .. } => if e.raw.len() > 0 {
            Some(e.raw[0])
        } else {
            None
        },
        BodyModel::Timeout | BodyModel::NoResponse => None,
    }
}

impl Entry {
    /// A request.
    pub fn request(
        ts: Timestamp,
        counter: u64,
        raw: Vec<u8>,
        slave: u8,
        parsed: ParsedPdu,
    ) -> (r: Self)
        ensures
            r@ == request_entry(ts, counter, raw@, slave, parsed@),
    {
        Entry { tag: Tag::Request, ts, counter, raw, body: EntryBody::Frame { slave, parsed } }
    }

    /// A response in time.
    pub fn response(
        ts: Timestamp,
        counter: u64,
        raw: Vec<u8>,
        slave: u8,
        parsed: ParsedPdu,
    ) -> (r: Self)
        ensures
            r@ == response_entry(ts, counter, raw@, slave, parsed@),
    {
        Entry { tag: Tag::Response, ts, counter, raw, body: EntryBody::Frame { slave, parsed } }
    }

    /// A response that did not come in time.
    pub fn timeout(ts: Timestamp, counter: u64) -> (r: Self)
        ensures
            r@ == timeout_entry(ts, counter),
    {
        Entry { tag: Tag::Response, ts, counter, raw: Vec::new(), body: EntryBody::Timeout }
    }

    /// A request that got no response because a newer request arrived (RTU
    /// half-duplex turn-around) before it was answered.
    pub fn no_response(ts: Timestamp, counter: u64) -> (r: Self)
        ensures
            r@ == no_response_entry(ts, counter),
    {
        Entry { tag: Tag::Response, ts, counter, raw: Vec::new(), body: EntryBody::NoResponse }
    }

    /// A late response, with the request it answers.
    pub fn orphan(
        ts: Timestamp,
        counter: u64,
        raw: Vec<u8>,
        slave: u8,
        late: ParsedPdu,
        orig: ParsedPdu,
    ) -> (r: Self)
        ensures
            r@ == orphan_entry(ts, counter, raw@, slave, late@, orig@),
    {
        Entry { tag: Tag::Orphan, ts, counter, raw, body: EntryBody::Orphan { slave, late, orig } }
    }

    /// A response that nobody asked for.
    pub fn unsolicited(
        ts: Timestamp,
        counter: u64,
        raw: Vec<u8>,
        slave: u8,
        parsed: ParsedPdu,
    ) -> (r: Self)
        ensures
            r@ == unsolicited_entry(ts, counter, raw@, slave, parsed@),
    {
        Entry { tag: Tag::Orphan, ts, counter, raw, body: EntryBody::Unsolicited { slave, parsed } }
    }

    /// Bytes that are no frame.
    pub fn parse_failure(ts: Timestamp, counter: u64, raw: Vec<u8>, reason: String) -> (r: Self)
        ensures
            r@ == parse_failure_entry(ts, counter, raw@, reason@),
    {
        Entry { tag: Tag::Parse, ts, counter, raw, body: EntryBody::ParseFailure { reason } }
    }

    /// The slave address this entry belongs to, if it can be determined from
    /// the entry alone. `None` for [`EntryBody::Timeout`] / [`EntryBody::NoResponse`]
    /// (they carry no slave field; the caller resolves them via a
    /// counter→slave map keyed by the matching request).
    pub fn slave(&self) -> (r: Option<u8>)
        ensures
            r == entry_slave(self@),
    {
        match &self.body {
            EntryBody::Frame { slave, .. } => Some(*slave),
            EntryBody::Orphan { slave, .. } => Some(*slave),
            EntryBody::Unsolicited { slave, .. } => Some(*slave),
            EntryBody::ParseFailure { .. } => if self.raw.len() > 0 {
                Some(self.raw[0])
            } else {
                None
            },
            EntryBody::Timeout => None,
            EntryBody::NoResponse => None,
        }
    }
}

// --- laws --------------------------------------------------------------------

/// Each kind of entry carries its time, its counter and its contents, under the
/// tag of its kind; what stands in for a missing response has no bytes.
pub proof fn entries_hold_what_they_are_made_of(
    ts: Timestamp,
    counter: u64,
    raw: Seq<u8>,
    slave: u8,
    parsed: ParsedModel,
    orig: ParsedModel,
    reason: Seq<char>,
)
    ensures
        request_entry(ts, counter, raw, slave, parsed) == (EntryModel {
            tag: Tag::Request,
            ts,
            counter,
            raw,
            body: BodyModel::Frame { slave, parsed },
        }),
        response_entry(ts, counter, raw, slave, parsed) == (EntryModel {
            tag: Tag::Response,
            ts,
            counter,
            raw,
            body: BodyModel::Frame { slave, parsed },
        }),
        timeout_entry(ts, counter) == (EntryModel {
            tag: Tag::Response,
            ts,
            counter,
            raw: Seq::empty(),
            body: BodyModel::Timeout,
        }),
        no_response_entry(ts, counter) == (EntryModel {
            tag: Tag::Response,
            ts,
            counter,
            raw: Seq::empty(),
            body: BodyModel::NoResponse,
        }),
        orphan_entry(ts, counter, raw, slave, parsed, orig) == (EntryModel {
            tag: Tag::Orphan,
            ts,
            counter,
            raw,
            body: BodyModel::Orphan { slave, late: parsed, orig },
        }),
        unsolicited_entry(ts, counter, raw, slave, parsed) == (EntryModel {
            tag: Tag::Orphan,
            ts,
            counter,
            raw,
            body: BodyModel::Unsolicited { slave, parsed },
        }),
        parse_failure_entry(ts, counter, raw, reason) == (EntryModel {
            tag: Tag::Parse,
            ts,
            counter,
            raw,
            body: BodyModel::ParseFailure { reason },
        }),
{
}

/// The slave of an entry: the one that a frame came from or went to, or for bytes
/// that are no frame the first of them; what stands in for a missing response
/// names none.
pub proof fn entries_name_their_slave(e: EntryModel)
    ensures
        match e.body {
            BodyModel::Frame { slave, .. } => entry_slave(e) == Some(slave),
            BodyModel::Orphan { slave, .. } => entry_slave(e) == Some(slave),
            BodyModel::Unsolicited { slave, .. } => entry_slave(e) == Some(slave),
            BodyModel::ParseFailure { .. } => if e.raw.len() > 0 {
                entry_slave(e) == Some(e.raw[0])
            } else {
                entry_slave(e) is None
            },
            BodyModel::Timeout => entry_slave(e) is None,
            BodyModel::NoResponse => entry_slave(e) is None,
        },
{
}

/// A model holds every field of its entry.
pub proof fn nothing_is_left_out(e: Entry)
    ensures
        e@.tag == e.tag,
        e@.ts == e.ts,
        e@.counter == e.counter,
        e@.raw == e.raw@,
        e@.body == e.body@,
        match e.body {
            EntryBody::Frame { slave, parsed } => e@.body == (BodyModel::Frame {
                slave,
                parsed: parsed@,
            }),
            EntryBody::Timeout => e@.body is Timeout,
            EntryBody::NoResponse => e@.body is NoResponse,
            EntryBody::Orphan { slave, late, orig } => e@.body == (BodyModel::Orphan {
                slave,
                late: late@,
                orig: orig@,
            }),
            EntryBody::Unsolicited { slave, parsed } => e@.body == (BodyModel::Unsolicited {
                slave,
                parsed: parsed@,
            }),
            EntryBody::ParseFailure { reason } => e@.body == (BodyModel::ParseFailure {
                reason: reason@,
            }),
        },
{
}

} // verus!
