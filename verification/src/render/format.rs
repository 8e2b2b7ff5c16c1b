//! Shared text formatting for display entries. Produces structured
//! [`Line`]s (a list of [`Span`]s) so the UI can colorize by [`SpanRole`]
//! while the exporter writes the same text without color.
//!
//! This is the single source of truth for the on-screen / on-disk layout.

use std::collections::{HashMap, HashSet, VecDeque};

use vstd::prelude::*;

use crate::protocol::pdu;
use crate::protocol::pdu::{
    exception_text, function_name, ParsedModel, ParsedPdu, PduDetails, PduModel,
};
use crate::session::model;
use crate::session::model::{BodyModel, Entry, EntryBody, EntryModel, Tag};
use crate::session::pairing;
use crate::session::pairing::PairingModel;
use crate::text;
use crate::time::Timestamp;

verus! {

broadcast use {vstd::string::group_string_axioms, vstd::std_specs::hash::group_hash_axioms};

/// The role a span plays in rendering: maps to a color in the UI, and is
/// ignored by the plain-text exporter.
#[derive(Debug, Clone, Copy, PartialEq, Eq, Structural)]
pub enum SpanRole {
    Tag,
    Timestamp,
    Hex,
    Label,
    Address,
    Value,
    Error,
    Plain,
}

/// A piece of text in one role.
#[derive(Debug)]
pub struct Span {
    pub text: String,
    pub role: SpanRole,
}

/// One line of an entry's block.
#[derive(Debug)]
pub struct Line(pub Vec<Span>);

/// What a [`Span`] holds.
#[verifier::ext_equal]
pub struct SpanModel {
    pub text: Seq<char>,
    pub role: SpanRole,
}

/// What a [`Line`] holds.
#[verifier::ext_equal]
pub struct LineModel(pub Seq<SpanModel>);

impl View for Span {
    type V = SpanModel;

    open spec fn view(&self) -> SpanModel {
        SpanModel { text: self.text@, role: self.role }
    }
}

/// The spans of a list.
pub open spec fn span_views(spans: Seq<Span>) -> Seq<SpanModel> {
    Seq::new(spans.len(), |i: int| spans[i]@)
}

impl View for Line {
    type V = LineModel;

    open spec fn view(&self) -> LineModel {
        LineModel(span_views(self.0@))
    }
}

/// The lines of a list.
pub open spec fn line_views(lines: Seq<Line>) -> Seq<LineModel> {
    Seq::new(lines.len(), |i: int| lines[i]@)
}

impl Clone for Span {
    fn clone(&self) -> (r: Self)
        ensures
            r@ == self@,
    {
        Span { text: self.text.clone(), role: self.role }
    }
}

impl Clone for Line {
    fn clone(&self) -> (r: Self)
        ensures
            r@ == self@,
    {
        let mut line = Line::plain();
        let mut i: usize = 0;
        while i < self.0.len()
            invariant
                i <= self.0.len(),
                line@.0 == span_views(self.0@).take(i as int),
            decreases self.0.len() - i,
        {
            line = line.push(self.0[i].text.as_str(), self.0[i].role);
            i = i + 1;
            assert(line@.0 =~= span_views(self.0@).take(i as int));
        }
        assert(line@.0 =~= span_views(self.0@));
        line
    }
}

/// One span.
pub open spec fn span(text: Seq<char>, role: SpanRole) -> SpanModel {
    SpanModel { text, role }
}

impl Line {
    /// A line without spans.
    fn plain() -> (r: Self)
        ensures
            r@ == LineModel(Seq::empty()),
    {
        let r = Line(Vec::new());
        assert(r@.0 =~= Seq::empty());
        r
    }

    /// The line with one more span.
    fn push(self, text: &str, role: SpanRole) -> (r: Self)
        ensures
            r@ == LineModel(self@.0.push(span(text@, role))),
    {
        let mut spans = self.0;
        let ghost before = span_views(spans@);
        spans.push(Span { text: String::from_str(text), role });
        let r = Line(spans);
        assert(r@.0 =~= before.push(span(text@, role)));
        r
    }
}

// --- lines -------------------------------------------------------------------

/// Bytes as pairs of lower-case hexadecimal digits with a space between them.
pub open spec fn hex_text(bytes: Seq<u8>) -> Seq<char> {
    text::join_text(Seq::new(bytes.len(), |i: int| text::hex_byte(bytes[i])), " "@)
}

/// The first line: tag, time, counter and, where there are any, the bytes.
pub open spec fn header(tag: Tag, ts: Timestamp, counter: u64, raw: Seq<u8>) -> LineModel {
    let front = seq![
        span("["@ + model::label_text(tag) + "]"@, SpanRole::Tag),
        span(
            "["@ + ts.clock() + "("@ + text::right_aligned(text::dec_text(counter as nat), 7)
                + ")]"@,
            SpanRole::Timestamp,
        ),
    ];
    LineModel(
        if raw.len() > 0 {
            front.push(span(" "@ + hex_text(raw), SpanRole::Hex))
        } else {
            front
        },
    )
}

/// The line that names the slave.
pub open spec fn slave_naming(slave: u8) -> LineModel {
    LineModel(
        seq![
            span("  Slave:   "@, SpanRole::Label),
            span(text::dec_text(slave as nat), SpanRole::Value),
            span("(0x"@ + text::hex_fixed(slave as nat, 2) + ")"@, SpanRole::Address),
        ],
    )
}

/// A line that tells an error.
pub open spec fn error(msg: Seq<char>) -> LineModel {
    LineModel(seq![span("  Error: "@, SpanRole::Label), span(msg, SpanRole::Error)])
}

/// A line that tells a detail.
pub open spec fn detail(what: Seq<char>) -> LineModel {
    LineModel(seq![span("  "@ + what, SpanRole::Label)])
}

/// The line of one register or coil.
pub open spec fn register(addr: u16, value: u16) -> LineModel {
    LineModel(
        seq![
            span("    0x"@, SpanRole::Label),
            span(text::hex_fixed(addr as nat, 4), SpanRole::Address),
            span(": 0x"@, SpanRole::Label),
            span(text::hex_fixed(value as nat, 4), SpanRole::Value),
            span("("@ + text::dec_text(value as nat) + ")"@, SpanRole::Plain),
        ],
    )
}

/// One line for each value, at addresses that count up from `start` and go on
/// at zero behind the last one.
pub open spec fn registers(start: u16, values: Seq<u16>) -> Seq<LineModel> {
    Seq::new(values.len(), |i: int| register(((start + i) % 0x10000) as u16, values[i]))
}

/// Coils as values: 1 for on, 0 for off.
pub open spec fn bit_values(bits: Seq<bool>) -> Seq<u16> {
    Seq::new(
        bits.len(),
        |i: int|
            if bits[i] {
                1u16
            } else {
                0u16
            },
    )
}

/// The state of a coil.
pub open spec fn on_off(on: bool) -> Seq<char> {
    if on {
        "ON"@
    } else {
        "OFF"@
    }
}

/// The bytes as they stand on a header line.
pub fn hex_str(bytes: &[u8]) -> (r: String)
    ensures
        r@ == hex_text(bytes@),
{
    let mut parts: Vec<String> = Vec::new();
    let mut i: usize = 0;
    while i < bytes.len()
        invariant
            i <= bytes.len(),
            text::texts(parts@) == Seq::new(i as nat, |k: int| text::hex_byte(bytes@[k])),
        decreases bytes.len() - i,
    {
        let ghost before = text::texts(parts@);
        parts.push(text::hex2_lower(bytes[i]));
        i = i + 1;
        assert(text::texts(parts@) =~= before.push(text::hex_byte(bytes@[i - 1])));
        assert(text::texts(parts@) =~= Seq::new(i as nat, |k: int| text::hex_byte(bytes@[k])));
    }
    text::join(&parts, " ")
}

fn header_line(tag: Tag, ts: Timestamp, counter: u64, raw: &[u8]) -> (r: Line)
    ensures
        r@ == header(tag, ts, counter, raw@),
{
    let label = String::from_str("[").concat(tag.label()).concat("]");
    let time = String::from_str("[").concat(ts.clock_time().as_str()).concat("(").concat(
        text::dec_right_aligned(counter, 7).as_str(),
    ).concat(")]");
    let mut line = Line::plain().push(label.as_str(), SpanRole::Tag).push(
        time.as_str(),
        SpanRole::Timestamp,
    );
    if raw.len() > 0 {
        let hex = String::from_str(" ").concat(hex_str(raw).as_str());
        line = line.push(hex.as_str(), SpanRole::Hex);
    }
    assert(line@ =~= header(tag, ts, counter, raw@));
    line
}

fn slave_line(slave: u8) -> (r: Line)
    ensures
        r@ == slave_naming(slave),
{
    let hex = String::from_str("(0x").concat(text::hex2(slave).as_str()).concat(")");
    let line = Line::plain().push("  Slave:   ", SpanRole::Label).push(
        text::dec(slave as u64).as_str(),
        SpanRole::Value,
    ).push(hex.as_str(), SpanRole::Address);
    assert(line@ =~= slave_naming(slave));
    line
}

fn error_line(msg: &str) -> (r: Line)
    ensures
        r@ == error(msg@),
{
    let line = Line::plain().push("  Error: ", SpanRole::Label).push(msg, SpanRole::Error);
    assert(line@ =~= error(msg@));
    line
}

fn detail_line(what: String) -> (r: Line)
    ensures
        r@ == detail(what@),
{
    let line = Line::plain().push(
        String::from_str("  ").concat(what.as_str()).as_str(),
        SpanRole::Label,
    );
    assert(line@ =~= detail(what@));
    line
}

fn reg_line(addr: u16, value: u16) -> (r: Line)
    ensures
        r@ == register(addr, value),
{
    let plain = String::from_str("(").concat(text::dec(value as u64).as_str()).concat(")");
    let line = Line::plain().push("    0x", SpanRole::Label).push(
        text::hex4(addr).as_str(),
        SpanRole::Address,
    ).push(": 0x", SpanRole::Label).push(text::hex4(value).as_str(), SpanRole::Value).push(
        plain.as_str(),
        SpanRole::Plain,
    );
    assert(line@ =~= register(addr, value));
    line
}

/// Append a line for each value.
fn push_registers(out: &mut Vec<Line>, start: u16, values: &Vec<u16>)
    ensures
        line_views(final(out)@) == line_views(old(out)@) + registers(start, values@),
{
    let ghost before = line_views(out@);
    let mut addr: u16 = start;
    let mut i: usize = 0;
    assert(line_views(out@) =~= before + registers(start, values@.take(0)));
    while i < values.len()
        invariant
            i <= values.len(),
            addr == (start + i) % 0x10000,
            line_views(out@) == before + registers(start, values@.take(i as int)),
        decreases values.len() - i,
    {
        let ghost so_far = line_views(out@);
        out.push(reg_line(addr, values[i]));
        addr = addr.wrapping_add(1);
        i = i + 1;
        assert(line_views(out@) =~= so_far.push(out@.last()@));
        assert(line_views(out@) =~= before + registers(start, values@.take(i as int)));
    }
    assert(values@.take(i as int) =~= values@);
}

/// Coils as values.
fn bits_as_values(bits: &Vec<bool>) -> (r: Vec<u16>)
    ensures
        r@ == bit_values(bits@),
{
    let mut out: Vec<u16> = Vec::new();
    let mut i: usize = 0;
    while i < bits.len()
        invariant
            i <= bits.len(),
            out@ == bit_values(bits@).take(i as int),
        decreases bits.len() - i,
    {
        out.push(
            if bits[i] {
                1
            } else {
                0
            },
        );
        i = i + 1;
        assert(out@ =~= bit_values(bits@).take(i as int));
    }
    assert(out@ =~= bit_values(bits@));
    out
}

// --- per-PDU detail lines ----------------------------------------------------

/// A function's name and where it starts for how many.
pub open spec fn range_text(fc: u8, start: u16, count: u16) -> Seq<char> {
    pdu::function_name_text(fc) + ": from 0x"@ + text::hex_fixed(start as nat, 4) + ", count "@
        + text::dec_text(count as nat)
}

/// A function's name and the coil that it switches.
pub open spec fn coil_text(fc: u8, addr: u16, on: bool) -> Seq<char> {
    pdu::function_name_text(fc) + ": addr 0x"@ + text::hex_fixed(addr as nat, 4) + ", "@ + on_off(
        on,
    )
}

/// A function's name and the register that it sets.
pub open spec fn value_text(fc: u8, addr: u16, value: u16) -> Seq<char> {
    pdu::function_name_text(fc) + ": addr 0x"@ + text::hex_fixed(addr as nat, 4) + ", value 0x"@
        + text::hex_fixed(value as nat, 4) + "("@ + text::dec_text(value as nat) + ")"@
}

/// A function's name and the register that it masks.
pub open spec fn mask_text(fc: u8, addr: u16, and_mask: u16, or_mask: u16) -> Seq<char> {
    pdu::function_name_text(fc) + ": addr 0x"@ + text::hex_fixed(addr as nat, 4) + ", and 0x"@
        + text::hex_fixed(and_mask as nat, 4) + ", or 0x"@ + text::hex_fixed(or_mask as nat, 4)
}

/// A function's name and how much came back.
pub open spec fn amount_text(fc: u8, amount: nat, unit: Seq<char>) -> Seq<char> {
    pdu::function_name_text(fc) + ": "@ + text::dec_text(amount) + unit
}

/// A function's name, a code behind `label`, and the number of data bytes.
pub open spec fn data_text(fc: u8, label: Seq<char>, code: Seq<char>, amount: nat) -> Seq<char> {
    pdu::function_name_text(fc) + label + code + ", "@ + text::dec_text(amount) + " data bytes"@
}

/// A function's name and both halves of a combined read and write.
pub open spec fn read_write_text(
    fc: u8,
    read_start: u16,
    read_count: u16,
    write_start: u16,
    write_count: u16,
) -> Seq<char> {
    pdu::function_name_text(fc) + ": read 0x"@ + text::hex_fixed(read_start as nat, 4) + "/"@
        + text::dec_text(read_count as nat) + ", write 0x"@ + text::hex_fixed(
        write_start as nat,
        4,
    ) + "/"@ + text::dec_text(write_count as nat)
}

fn range_line(fc: u8, start: u16, count: u16) -> (r: Line)
    ensures
        r@ == detail(range_text(fc, start, count)),
{
    detail_line(
        String::from_str(function_name(fc)).concat(": from 0x").concat(
            text::hex4(start).as_str(),
        ).concat(", count ").concat(text::dec(count as u64).as_str()),
    )
}

fn coil_line(fc: u8, addr: u16, on: bool) -> (r: Line)
    ensures
        r@ == detail(coil_text(fc, addr, on)),
{
    let state = if on {
        "ON"
    } else {
        "OFF"
    };
    detail_line(
        String::from_str(function_name(fc)).concat(": addr 0x").concat(
            text::hex4(addr).as_str(),
        ).concat(", ").concat(state),
    )
}

fn value_line(fc: u8, addr: u16, value: u16) -> (r: Line)
    ensures
        r@ == detail(value_text(fc, addr, value)),
{
    detail_line(
        String::from_str(function_name(fc)).concat(": addr 0x").concat(
            text::hex4(addr).as_str(),
        ).concat(", value 0x").concat(text::hex4(value).as_str()).concat("(").concat(
            text::dec(value as u64).as_str(),
        ).concat(")"),
    )
}

fn mask_line(fc: u8, addr: u16, and_mask: u16, or_mask: u16) -> (r: Line)
    ensures
        r@ == detail(mask_text(fc, addr, and_mask, or_mask)),
{
    detail_line(
        String::from_str(function_name(fc)).concat(": addr 0x").concat(
            text::hex4(addr).as_str(),
        ).concat(", and 0x").concat(text::hex4(and_mask).as_str()).concat(", or 0x").concat(
            text::hex4(or_mask).as_str(),
        ),
    )
}

fn amount_line(fc: u8, amount: usize, unit: &str) -> (r: Line)
    ensures
        r@ == detail(amount_text(fc, amount as nat, unit@)),
{
    detail_line(
        String::from_str(function_name(fc)).concat(": ").concat(
            text::dec(amount as u64).as_str(),
        ).concat(unit),
    )
}

fn data_line(fc: u8, label: &str, code: String, amount: usize) -> (r: Line)
    ensures
        r@ == detail(data_text(fc, label@, code@, amount as nat)),
{
    detail_line(
        String::from_str(function_name(fc)).concat(label).concat(code.as_str()).concat(
            ", ",
        ).concat(text::dec(amount as u64).as_str()).concat(" data bytes"),
    )
}

fn read_write_line(
    fc: u8,
    read_start: u16,
    read_count: u16,
    write_start: u16,
    write_count: u16,
) -> (r: Line)
    ensures
        r@ == detail(read_write_text(fc, read_start, read_count, write_start, write_count)),
{
    detail_line(
        String::from_str(function_name(fc)).concat(": read 0x").concat(
            text::hex4(read_start).as_str(),
        ).concat("/").concat(text::dec(read_count as u64).as_str()).concat(", write 0x").concat(
            text::hex4(write_start).as_str(),
        ).concat("/").concat(text::dec(write_count as u64).as_str()),
    )
}

/// The lines that describe a request.
pub open spec fn request_details(p: ParsedModel) -> Seq<LineModel> {
    let fc = p.function;
    match p.details {
        PduModel::ReadCoilsReq { start, count } => seq![detail(range_text(fc, start, count))],
        PduModel::ReadRegsReq { start, count } => seq![detail(range_text(fc, start, count))],
        PduModel::WriteSingleCoilReq { addr, on } => seq![detail(coil_text(fc, addr, on))],
        PduModel::WriteSingleRegReq { addr, value } => seq![detail(value_text(fc, addr, value))],
        PduModel::WriteMultipleCoilsReq { start, count, bits } => seq![
            detail(range_text(fc, start, count)),
        ] + registers(start, bit_values(bits)),
        PduModel::WriteMultipleRegsReq { start, count, values } => seq![
            detail(range_text(fc, start, count)),
        ] + registers(start, values),
        PduModel::MaskWriteRegReq { addr, and_mask, or_mask } => seq![
            detail(mask_text(fc, addr, and_mask, or_mask)),
        ],
        PduModel::ReadWriteMultipleRegsReq {
            read_start,
            read_count,
            write_start,
            write_count,
            write_values,
        } => seq![
            detail(read_write_text(fc, read_start, read_count, write_start, write_count)),
        ] + registers(write_start, write_values),
        PduModel::Diagnostic { sub, data } => seq![
            detail(data_text(fc, ": sub 0x"@, text::hex_fixed(sub as nat, 4), data.len())),
        ],
        PduModel::EncapsulatedInterface { mei_type, data } => seq![
            detail(data_text(fc, ": MEI 0x"@, text::hex_fixed(mei_type as nat, 2), data.len())),
        ],
        PduModel::Raw { reason } => seq![error(reason)],
        _ => seq![detail(pdu::function_name_text(fc) + " (request view unavailable)"@)],
    }
}

/// Lines describing a request PDU (e.g. `  Write Holding Registers: from
/// 0x0000, count 2` plus per-register value lines).
fn request_detail_lines(parsed: &ParsedPdu) -> (r: Vec<Line>)
    ensures
        line_views(r@) == request_details(parsed@),
{
    let fc = parsed.function;
    let mut out: Vec<Line> = Vec::new();
    match &parsed.details {
        PduDetails::ReadCoilsReq { start, count } => {
            out.push(range_line(fc, *start, *count));
        },
        PduDetails::ReadRegsReq { start, count } => {
            out.push(range_line(fc, *start, *count));
        },
        PduDetails::WriteSingleCoilReq { addr, on } => {
            out.push(coil_line(fc, *addr, *on));
        },
        PduDetails::WriteSingleRegReq { addr, value } => {
            out.push(value_line(fc, *addr, *value));
        },
        PduDetails::WriteMultipleCoilsReq { start, count, bits } => {
            out.push(range_line(fc, *start, *count));
            push_registers(&mut out, *start, &bits_as_values(bits));
        },
        PduDetails::WriteMultipleRegsReq { start, count, values } => {
            out.push(range_line(fc, *start, *count));
            push_registers(&mut out, *start, values);
        },
        PduDetails::MaskWriteRegReq { addr, and_mask, or_mask } => {
            out.push(mask_line(fc, *addr, *and_mask, *or_mask));
        },
        PduDetails::ReadWriteMultipleRegsReq {
            read_start,
            read_count,
            write_start,
            write_count,
            write_values,
        } => {
            out.push(read_write_line(fc, *read_start, *read_count, *write_start, *write_count));
            push_registers(&mut out, *write_start, write_values);
        },
        PduDetails::Diagnostic { sub, data } => {
            out.push(data_line(fc, ": sub 0x", text::hex4(*sub), data.len()));
        },
        PduDetails::EncapsulatedInterface { mei_type, data } => {
            out.push(data_line(fc, ": MEI 0x", text::hex2(*mei_type), data.len()));
        },
        PduDetails::Raw { reason } => {
            out.push(error_line(reason.as_str()));
        },
        // Responses / uncommon variants: show a generic one-liner.
        _ => {
            out.push(
                detail_line(
                    String::from_str(function_name(fc)).concat(" (request view unavailable)"),
                ),
            );
        },
    }
    assert(line_views(out@) =~= request_details(parsed@));
    out
}

/// The lines that describe a response.
pub open spec fn response_details(p: ParsedModel) -> Seq<LineModel> {
    let fc = p.function;
    match p.details {
        PduModel::Exception { code } => seq![
            detail(pdu::function_name_text(fc & 0x7F) + ": Exception"@),
            error(
                pdu::exception_name_text(code) + " (code "@ + text::dec_text(code as nat) + ")"@,
            ),
        ],
        PduModel::ReadCoilsResp { bits } => seq![detail(amount_text(fc, bits.len(), " bits"@))],
        PduModel::ReadRegsResp { values } => seq![
            detail(amount_text(fc, values.len(), " registers"@)),
        ] + registers(0, values),
        PduModel::WriteSingleCoilResp { addr, on } => seq![detail(coil_text(fc, addr, on))],
        PduModel::WriteSingleRegResp { addr, value } => seq![detail(value_text(fc, addr, value))],
        PduModel::WriteMultipleCoilsResp { start, count } => seq![
            detail(range_text(fc, start, count)),
        ],
        PduModel::WriteMultipleRegsResp { start, count } => seq![
            detail(range_text(fc, start, count)),
        ],
        PduModel::MaskWriteRegResp { addr, and_mask, or_mask } => seq![
            detail(mask_text(fc, addr, and_mask, or_mask)),
        ],
        PduModel::ReadWriteMultipleRegsResp { read_values } => seq![
            detail(amount_text(fc, read_values.len(), " registers"@)),
        ] + registers(0, read_values),
        PduModel::ReadExceptionStatusResp { status } => seq![
            detail(
                pdu::function_name_text(fc) + ": status 0x"@ + text::hex_fixed(status as nat, 2),
            ),
        ],
        PduModel::CommEventCounterResp { status, event_count } => seq![
            detail(
                pdu::function_name_text(fc) + ": status "@ + text::dec_text(status as nat)
                    + ", events "@ + text::dec_text(event_count as nat),
            ),
        ],
        PduModel::Raw { reason } => seq![error(reason)],
        _ => seq![detail(pdu::function_name_text(fc & 0x7F))],
    }
}

/// Lines describing a response PDU. Uses the same function-name-first style
/// as request lines (no redundant `Function: Response` prefix). Modbus
/// exception responses get a dedicated two-line layout with the exception
/// code and text highlighted as `Error`.
fn response_detail_lines(parsed: &ParsedPdu) -> (r: Vec<Line>)
    ensures
        line_views(r@) == response_details(parsed@),
{
    let fc = parsed.function;
    let mut out: Vec<Line> = Vec::new();
    match &parsed.details {
        PduDetails::Exception { code } => {
            out.push(
                detail_line(String::from_str(function_name(fc & 0x7F)).concat(": Exception")),
            );
            let msg = String::from_str(exception_text(*code)).concat(" (code ").concat(
                text::dec(*code as u64).as_str(),
            ).concat(")");
            out.push(error_line(msg.as_str()));
        },
        PduDetails::ReadCoilsResp { bits } => {
            out.push(amount_line(fc, bits.len(), " bits"));
        },
        PduDetails::ReadRegsResp { values } => {
            out.push(amount_line(fc, values.len(), " registers"));
            // Also show the returned values.
            push_registers(&mut out, 0, values);
        },
        PduDetails::WriteSingleCoilResp { addr, on } => {
            out.push(coil_line(fc, *addr, *on));
        },
        PduDetails::WriteSingleRegResp { addr, value } => {
            out.push(value_line(fc, *addr, *value));
        },
        PduDetails::WriteMultipleCoilsResp { start, count } => {
            out.push(range_line(fc, *start, *count));
        },
        PduDetails::WriteMultipleRegsResp { start, count } => {
            out.push(range_line(fc, *start, *count));
        },
        PduDetails::MaskWriteRegResp { addr, and_mask, or_mask } => {
            out.push(mask_line(fc, *addr, *and_mask, *or_mask));
        },
        PduDetails::ReadWriteMultipleRegsResp { read_values } => {
            out.push(amount_line(fc, read_values.len(), " registers"));
            push_registers(&mut out, 0, read_values);
        },
        PduDetails::ReadExceptionStatusResp { status } => {
            out.push(
                detail_line(
                    String::from_str(function_name(fc)).concat(": status 0x").concat(
                        text::hex2(*status).as_str(),
                    ),
                ),
            );
        },
        PduDetails::CommEventCounterResp { status, event_count } => {
            out.push(
                detail_line(
                    String::from_str(function_name(fc)).concat(": status ").concat(
                        text::dec(*status as u64).as_str(),
                    ).concat(", events ").concat(text::dec(*event_count as u64).as_str()),
                ),
            );
        },
        PduDetails::Raw { reason } => {
            out.push(error_line(reason.as_str()));
        },
        _ => {
            out.push(detail_line(String::from_str(function_name(fc & 0x7F))));
        },
    }
    assert(line_views(out@) =~= response_details(parsed@));
    out
}

// --- entries -----------------------------------------------------------------

/// The lines below the first one.
pub open spec fn body_lines(tag: Tag, body: BodyModel) -> Seq<LineModel> {
    match body {
        BodyModel::Frame { slave, parsed } => match tag {
            Tag::Request => seq![slave_naming(slave)] + request_details(parsed),
            Tag::Response => seq![slave_naming(slave)] + response_details(parsed),
            _ => Seq::empty(),
        },
        BodyModel::Timeout => seq![error("Timeout"@)],
        BodyModel::NoResponse => seq![error("No Response"@)],
        BodyModel::Orphan { slave, orig, .. } => seq![
            slave_naming(slave),
            error("Response Timeout"@),
        ] + request_details(orig),
        BodyModel::Unsolicited { slave, parsed } => seq![
            slave_naming(slave),
            error("No matching request"@),
        ] + response_details(parsed),
        BodyModel::ParseFailure { reason } => seq![error(reason)],
    }
}

/// The lines of an entry's block.
pub open spec fn entry_lines(e: EntryModel) -> Seq<LineModel> {
    seq![header(e.tag, e.ts, e.counter, e.raw)] + body_lines(e.tag, e.body)
}

/// Render an entry to its display lines.
pub fn format_entry(entry: &Entry) -> (r: Vec<Line>)
    ensures
        line_views(r@) == entry_lines(entry@),
{
    let mut lines: Vec<Line> = Vec::new();
    lines.push(header_line(entry.tag, entry.ts, entry.counter, entry.raw.as_slice()));
    match &entry.body {
        EntryBody::Frame { slave, parsed } => match entry.tag {
            Tag::Request => {
                lines.push(slave_line(*slave));
                let details = request_detail_lines(parsed);
                append_lines(&mut lines, details);
            },
            Tag::Response => {
                lines.push(slave_line(*slave));
                let details = response_detail_lines(parsed);
                append_lines(&mut lines, details);
            },
            _ => {},
        },
        EntryBody::Timeout => {
            lines.push(error_line("Timeout"));
        },
        EntryBody::NoResponse => {
            lines.push(error_line("No Response"));
        },
        EntryBody::Orphan { slave, orig, .. } => {
            lines.push(slave_line(*slave));
            lines.push(error_line("Response Timeout"));
            let details = request_detail_lines(orig);
            append_lines(&mut lines, details);
        },
        EntryBody::Unsolicited { slave, parsed } => {
            lines.push(slave_line(*slave));
            lines.push(error_line("No matching request"));
            let details = response_detail_lines(parsed);
            append_lines(&mut lines, details);
        },
        EntryBody::ParseFailure { reason } => {
            lines.push(error_line(reason.as_str()));
        },
    }
    assert(line_views(lines@) =~= entry_lines(entry@));
    lines
}

/// Append lines to lines.
fn append_lines(lines: &mut Vec<Line>, more: Vec<Line>)
    ensures
        line_views(final(lines)@) == line_views(old(lines)@) + line_views(more@),
{
    let mut more = more;
    let ghost before = lines@;
    let ghost added = more@;
    lines.append(&mut more);
    assert(lines@ =~= before + added);
    assert(line_views(lines@) =~= line_views(before) + line_views(added));
}

/// The texts of spans, one after another.
pub open spec fn spans_text(spans: Seq<SpanModel>) -> Seq<char>
    decreases spans.len(),
{
    if spans.len() == 0 {
        Seq::empty()
    } else {
        spans_text(spans.drop_last()) + spans.last().text
    }
}

/// The texts of lines, one line below the other.
pub open spec fn plain_text(lines: Seq<LineModel>) -> Seq<char> {
    text::join_text(Seq::new(lines.len(), |i: int| spans_text(lines[i].0)), "\n"@)
}

/// The text of a line.
fn line_to_plain(line: &Line) -> (r: String)
    ensures
        r@ == spans_text(line@.0),
{
    let mut out = String::new();
    let ghost spans = line@.0;
    let mut i: usize = 0;
    while i < line.0.len()
        invariant
            i <= line.0.len(),
            spans == line@.0,
            out@ == spans_text(spans.take(i as int)),
        decreases line.0.len() - i,
    {
        out.append(line.0[i].text.as_str());
        proof {
            assert(spans.take(i + 1).drop_last() =~= spans.take(i as int));
            assert(spans.take(i + 1).last() == line.0[i as int]@);
        }
        i = i + 1;
    }
    assert(spans.take(i as int) =~= spans);
    out
}

/// Flatten lines to plain text (no color), separated by newlines.
pub fn lines_to_plain(lines: &[Line]) -> (r: String)
    ensures
        r@ == plain_text(line_views(lines@)),
{
    let mut parts: Vec<String> = Vec::new();
    let ghost all = Seq::new(lines@.len(), |i: int| spans_text(line_views(lines@)[i].0));
    let mut i: usize = 0;
    assert(text::texts(parts@) =~= all.take(0));
    while i < lines.len()
        invariant
            i <= lines.len(),
            all == Seq::new(lines@.len(), |i: int| spans_text(line_views(lines@)[i].0)),
            text::texts(parts@) == all.take(i as int),
        decreases lines.len() - i,
    {
        let ghost before = text::texts(parts@);
        parts.push(line_to_plain(&lines[i]));
        i = i + 1;
        assert(text::texts(parts@) =~= before.push(all[i - 1]));
        assert(text::texts(parts@) =~= all.take(i as int));
    }
    assert(all.take(i as int) =~= all);
    assert(all =~= Seq::new(
        line_views(lines@).len(),
        |i: int| spans_text(line_views(lines@)[i].0),
    ));
    text::join(&parts, "\n")
}

/// Convenience: format an entry straight to plain text.
pub fn entry_to_plain(entry: &Entry) -> (r: String)
    ensures
        r@ == plain_text(entry_lines(entry@)),
{
    lines_to_plain(format_entry(entry).as_slice())
}

/// Whether an entry is set apart from the one before it.
pub open spec fn is_separated(prev_counter: Option<u64>, counter: u64, tag: Tag) -> bool {
    ||| prev_counter is Some && prev_counter->0 != counter
    ||| tag == Tag::Orphan
    ||| tag == Tag::Parse
}

/// Decide whether a visual separator should be inserted before an entry.
///
/// Separator rules:
/// - Different transaction (counter changed): always separate
/// - Orphan / Parse entry: cannot belong to a normal session, so separate
///   it even if the counter happens to match
pub fn should_separate(prev_counter: Option<u64>, current_counter: u64, tag: Tag) -> (r: bool)
    ensures
        r == is_separated(prev_counter, current_counter, tag),
{
    let counter_changed = match prev_counter {
        Some(pc) => pc != current_counter,
        None => false,
    };
    let is_standalone = match tag {
        Tag::Orphan => true,
        Tag::Parse => true,
        _ => false,
    };
    counter_changed || is_standalone
}

// --- filtering by slave ------------------------------------------------------

/// Which slave the request with each counter went to; the last such request
/// counts.
pub open spec fn slave_map(entries: Seq<EntryModel>) -> Map<u64, u8>
    decreases entries.len(),
{
    if entries.len() == 0 {
        Map::empty()
    } else {
        let before = slave_map(entries.drop_last());
        let e = entries.last();
        match e.body {
            BodyModel::Frame { slave, .. } => if e.tag == Tag::Request {
                before.insert(e.counter, slave)
            } else {
                before
            },
            _ => before,
        }
    }
}

/// Whether an entry passes a filter. An entry that names no slave goes with the
/// request of the same counter; one whose slave cannot be told passes no
/// filter.
pub open spec fn is_shown(e: EntryModel, slaves: Map<u64, u8>, filter: Option<Set<u8>>) -> bool {
    match filter {
        None => true,
        Some(set) => match model::entry_slave(e) {
            Some(s) => set.contains(s),
            None => slaves.contains_key(e.counter) && set.contains(slaves[e.counter]),
        },
    }
}

/// The set of a filter.
pub open spec fn filter_set(show_set: Option<&HashSet<u8>>) -> Option<Set<u8>> {
    match show_set {
        Some(s) => Some(s@),
        None => None,
    }
}

/// Map each counter to the slave that its request went to, so that entries
/// without a slave of their own (timeouts) can be filtered with their request.
pub fn counter_slave_map(entries: &VecDeque<Entry>) -> (r: HashMap<u64, u8>)
    ensures
        r@ == slave_map(model::entry_views(entries@)),
{
    let mut map: HashMap<u64, u8> = HashMap::new();
    let ghost all = model::entry_views(entries@);
    let mut i: usize = 0;
    while i < entries.len()
        invariant
            i <= entries.len(),
            all == model::entry_views(entries@),
            map@ == slave_map(all.take(i as int)),
        decreases entries.len() - i,
    {
        proof {
            assert(all.take(i + 1).drop_last() =~= all.take(i as int));
            assert(all.take(i + 1).last() == entries@[i as int]@);
        }
        let entry = &entries[i];
        if let EntryBody::Frame { slave, .. } = &entry.body {
            if entry.tag == Tag::Request {
                map.insert(entry.counter, *slave);
            }
        }
        i = i + 1;
    }
    assert(all.take(i as int) =~= all);
    map
}

/// Decide whether an entry passes the show-slaves filter (`None` = show all).
/// A session is shown or hidden as a whole: entries without a slave of their
/// own follow the request with the same counter.
pub fn should_show(
    entry: &Entry,
    slave_map: &HashMap<u64, u8>,
    show_set: Option<&HashSet<u8>>,
) -> (r: bool)
    ensures
        r == is_shown(entry@, slave_map@, filter_set(show_set)),
{
    match show_set {
        None => true,
        Some(set) => match entry.slave() {
            Some(s) => set.contains(&s),
            None => match slave_map.get(&entry.counter) {
                Some(s) => set.contains(s),
                None => false,
            },
        },
    }
}

// --- laws --------------------------------------------------------------------

/// The map finds the slave of a request, as long as no later request with its
/// counter went to another slave.
pub proof fn slave_map_finds_the_request(
    entries: Seq<EntryModel>,
    i: int,
    counter: u64,
    slave: u8,
)
    requires
        0 <= i < entries.len(),
        pairing::requests(entries[i], counter, slave),
        forall|k: int, s: u8|
            i < k < entries.len() && #[trigger] pairing::requests(entries[k], counter, s) ==> s == slave,
    ensures
        slave_map(entries).contains_key(counter),
        slave_map(entries)[counter] == slave,
    decreases entries.len(),
{
    let e = entries.last();
    if i < entries.len() - 1 {
        assert forall|k: int, s: u8|
            i < k < entries.drop_last().len() && #[trigger] pairing::requests(
                entries.drop_last()[k],
                counter,
                s,
            ) implies s == slave by {
            assert(pairing::requests(entries[k], counter, s));
        }
        slave_map_finds_the_request(entries.drop_last(), i, counter, slave);
        if let BodyModel::Frame { slave: s, .. } = e.body {
            if e.tag == Tag::Request && e.counter == counter {
                assert(pairing::requests(entries[entries.len() - 1], counter, s));
            }
        }
    }
}

/// In any list of entries, of several captures too, and whatever the filter, a
/// timeout or no-response entry is shown exactly if the request with its counter
/// is (the last one, where a counter was used for several slaves).
pub proof fn closing_entries_follow_their_request(
    entries: Seq<EntryModel>,
    i: int,
    slave: u8,
    e: EntryModel,
    filter: Option<Set<u8>>,
)
    requires
        0 <= i < entries.len(),
        pairing::requests(entries[i], e.counter, slave),
        forall|k: int, s: u8|
            i < k < entries.len() && #[trigger] pairing::requests(entries[k], e.counter, s) ==> s == slave,
        e.body is Timeout || e.body is NoResponse,
    ensures
        is_shown(e, slave_map(entries), filter) == is_shown(
            entries[i],
            slave_map(entries),
            filter,
        ),
{
    slave_map_finds_the_request(entries, i, e.counter, slave);
}

/// A session is shown or hidden as a whole: whatever the filter, each entry of a
/// capture that answers a request or closes it (a response, a timeout, a
/// no-response or a late response) has its request among the entries, and is
/// shown exactly if any request with its counter is.
pub proof fn session_is_filtered_as_a_whole(
    entries: Seq<EntryModel>,
    m: PairingModel,
    j: int,
    filter: Option<Set<u8>>,
)
    requires
        pairing::on_file(entries, m),
        0 <= j < entries.len(),
        pairing::answers(entries[j]),
    ensures
        exists|slave: u8| #[trigger] pairing::has_request(entries, entries[j].counter, slave),
        forall|i: int, slave: u8|
            0 <= i < entries.len() && #[trigger] pairing::requests(
                entries[i],
                entries[j].counter,
                slave,
            ) ==> is_shown(entries[j], slave_map(entries), filter) == is_shown(
                entries[i],
                slave_map(entries),
                filter,
            ),
{
    let counter = entries[j].counter;
    assert(pairing::has_its_request(entries, entries[j]));
    assert forall|i: int, slave: u8|
        0 <= i < entries.len() && #[trigger] pairing::requests(
            entries[i],
            counter,
            slave,
        ) implies is_shown(entries[j], slave_map(entries), filter) == is_shown(
        entries[i],
        slave_map(entries),
        filter,
    ) by {
        assert(pairing::has_request(entries, counter, slave));
        assert forall|k: int, s: u8|
            i < k < entries.len() && #[trigger] pairing::requests(
                entries[k],
                counter,
                s,
            ) implies s == slave by {
            assert(pairing::has_request(entries, counter, s));
        }
        slave_map_finds_the_request(entries, i, counter, slave);
    }
}

/// A session stands together: the direct response to a request, a timeout or a
/// no-response among them, is not set apart from it, and whatever carries
/// another counter is.
pub proof fn session_stands_together(request: EntryModel, next: EntryModel)
    ensures
        next.tag == Tag::Response && next.counter == request.counter ==> !is_separated(
            Some(request.counter),
            next.counter,
            next.tag,
        ),
        next.counter != request.counter ==> is_separated(
            Some(request.counter),
            next.counter,
            next.tag,
        ),
        next.tag == Tag::Orphan || next.tag == Tag::Parse ==> is_separated(
            Some(request.counter),
            next.counter,
            next.tag,
        ),
{
}

// --- what is shown -----------------------------------------------------------

proof fn lemma_hex_text_grows(bytes: Seq<u8>, b: u8)
    ensures
        bytes.len() > 0 ==> hex_text(bytes.push(b)) == hex_text(bytes) + " "@ + text::hex_byte(b),
        bytes.len() == 0 ==> hex_text(bytes.push(b)) == text::hex_byte(b),
{
    let parts = Seq::new(bytes.len(), |i: int| text::hex_byte(bytes[i]));
    let more = bytes.push(b);
    assert(Seq::new(more.len(), |i: int| text::hex_byte(more[i])) =~= parts.push(
        text::hex_byte(b),
    ));
    text::joining_appends(parts, text::hex_byte(b), " "@);
    if bytes.len() == 0 {
        assert(parts.push(text::hex_byte(b)) =~= seq![text::hex_byte(b)]);
    }
}

/// The hex text holds every byte, each in its place: two digits that denote it,
/// no letter of upper case, and one space between neighbours.
pub proof fn hex_text_holds_every_byte(bytes: Seq<u8>)
    ensures
        hex_text(bytes).len() == if bytes.len() == 0 {
            0
        } else {
            3 * bytes.len() - 1
        },
        forall|i: int|
            0 <= i < bytes.len() ==> text::hex_value(
                hex_text(bytes).subrange(3 * i, 3 * i + 2),
            ) == #[trigger] bytes[i],
        forall|i: int|
            0 <= i < hex_text(bytes).len() ==> if i % 3 == 2 {
                #[trigger] hex_text(bytes)[i] == ' '
            } else {
                text::is_digit(hex_text(bytes)[i]) || 'a' <= hex_text(bytes)[i] <= 'f'
            },
    decreases bytes.len(),
{
    let t = hex_text(bytes);
    reveal_strlit(" ");
    if bytes.len() == 0 {
        text::joining_appends(Seq::empty(), Seq::empty(), " "@);
        assert(Seq::new(bytes.len(), |i: int| text::hex_byte(bytes[i])) =~= Seq::empty());
    } else {
        let front = bytes.drop_last();
        let b = bytes.last();
        let before = hex_text(front);
        let n = bytes.len() as int;
        hex_text_holds_every_byte(front);
        assert(front.push(b) =~= bytes);
        lemma_hex_text_grows(front, b);
        text::lower_case_denotes_its_byte(b);
        assert(t.subrange(3 * (n - 1), 3 * (n - 1) + 2) =~= text::hex_byte(b));
        assert forall|i: int| 0 <= i < n implies text::hex_value(t.subrange(3 * i, 3 * i + 2))
            == #[trigger] bytes[i] by {
            if i < n - 1 {
                assert(t.subrange(3 * i, 3 * i + 2) =~= before.subrange(3 * i, 3 * i + 2));
                assert(front[i] == bytes[i]);
            }
        }
        assert forall|i: int| 0 <= i < t.len() implies if i % 3 == 2 {
            #[trigger] t[i] == ' '
        } else {
            text::is_digit(t[i]) || 'a' <= t[i] <= 'f'
        } by {
            if i < before.len() {
                assert(t[i] == before[i]);
            } else if i >= 3 * (n - 1) {
                assert(t[i] == text::hex_byte(b)[i - 3 * (n - 1)]);
            }
        }
    }
}

/// Different bytes have different hex texts.
pub proof fn hex_text_tells_bytes_apart(a: Seq<u8>, b: Seq<u8>)
    requires
        hex_text(a) == hex_text(b),
    ensures
        a == b,
{
    hex_text_holds_every_byte(a);
    hex_text_holds_every_byte(b);
    assert(a.len() == b.len());
    assert forall|i: int| 0 <= i < a.len() implies a[i] == b[i] by {
        assert(text::hex_value(hex_text(a).subrange(3 * i, 3 * i + 2)) == a[i]);
        assert(text::hex_value(hex_text(b).subrange(3 * i, 3 * i + 2)) == b[i]);
    }
    assert(a =~= b);
}

/// The text of one line.
pub open spec fn line_text(line: LineModel) -> Seq<char> {
    spans_text(line.0)
}

/// The text of a line is the texts of its spans one after another, whatever
/// their roles, and the text of lines is their texts with line ends in between.
pub proof fn texts_follow_each_other(spans: Seq<SpanModel>, s: SpanModel, lines: Seq<LineModel>, l: LineModel)
    ensures
        spans_text(Seq::<SpanModel>::empty()) == Seq::<char>::empty(),
        spans_text(spans.push(s)) == spans_text(spans) + s.text,
        plain_text(Seq::<LineModel>::empty()) == Seq::<char>::empty(),
        plain_text(seq![l]) == line_text(l),
        lines.len() > 0 ==> plain_text(lines.push(l)) == plain_text(lines) + seq!['\n'] + line_text(l),
{
    assert(spans.push(s).drop_last() =~= spans);
    let none = Seq::<LineModel>::empty();
    assert(Seq::new(none.len(), |i: int| spans_text(none[i].0)) =~= Seq::empty());
    let one = seq![l];
    assert(Seq::new(one.len(), |i: int| spans_text(one[i].0)) =~= seq![line_text(l)]);
    let parts = Seq::new(lines.len(), |i: int| spans_text(lines[i].0));
    let more = lines.push(l);
    assert(Seq::new(more.len(), |i: int| spans_text(more[i].0)) =~= parts.push(line_text(l)));
    reveal_strlit("\n");
    assert("\n"@ =~= seq!['\n']);
    text::joining_appends(parts, line_text(l), "\n"@);
}

proof fn lemma_spans(a: SpanModel, b: SpanModel, c: SpanModel, d: SpanModel, e: SpanModel)
    ensures
        spans_text(seq![a]) == a.text,
        spans_text(seq![a, b]) == a.text + b.text,
        spans_text(seq![a, b, c]) == a.text + b.text + c.text,
        spans_text(seq![a, b, c, d, e]) == a.text + b.text + c.text + d.text + e.text,
{
    assert(seq![a].drop_last() =~= Seq::empty());
    assert(seq![a, b].drop_last() =~= seq![a]);
    assert(seq![a, b, c].drop_last() =~= seq![a, b]);
    assert(seq![a, b, c, d].drop_last() =~= seq![a, b, c]);
    assert(seq![a, b, c, d, e].drop_last() =~= seq![a, b, c, d]);
    reveal_with_fuel(spans_text, 6);
    assert(Seq::<char>::empty() + a.text =~= a.text);
}

/// The header line: the tag in brackets, and in brackets the time and, behind
/// it, the counter in at least seven columns; then, where there are bytes, all
/// of them.
pub proof fn header_tells_tag_time_counter_and_bytes(
    tag: Tag,
    ts: Timestamp,
    counter: u64,
    raw: Seq<u8>,
)
    ensures
        ({
            let line = header(tag, ts, counter, raw);
            let column = text::right_aligned(text::dec_text(counter as nat), 7);
            &&& line_text(line) == seq!['['] + model::label_text(tag) + seq![']', '[']
                + ts.clock() + seq!['('] + column + seq![')', ']'] + if raw.len() == 0 {
                Seq::empty()
            } else {
                seq![' '] + hex_text(raw)
            }
            &&& column.len() >= 7
            &&& text::number_text(text::trim_text(column), u64::MAX as nat) == Some(counter as nat)
            &&& line.0[0].role == SpanRole::Tag
            &&& line.0[1].role == SpanRole::Timestamp
            &&& raw.len() > 0 ==> line.0.len() == 3 && line.0[2].role == SpanRole::Hex
            &&& raw.len() == 0 ==> line.0.len() == 2
        }),
{
    let line = header(tag, ts, counter, raw);
    let digits = text::dec_text(counter as nat);
    let column = text::right_aligned(digits, 7);
    reveal_strlit("[");
    reveal_strlit("]");
    reveal_strlit("(");
    reveal_strlit(")]");
    reveal_strlit(" ");
    let a = line.0[0];
    let b = line.0[1];
    if raw.len() > 0 {
        let c = line.0[2];
        assert(line.0 =~= seq![a, b, c]);
        lemma_spans(a, b, c, a, a);
    } else {
        assert(line.0 =~= seq![a, b]);
        lemma_spans(a, b, a, a, a);
    }
    assert(line_text(line) =~= seq!['['] + model::label_text(tag) + seq![']', '['] + ts.clock()
        + seq!['('] + column + seq![')', ']'] + if raw.len() == 0 {
        Seq::empty()
    } else {
        seq![' '] + hex_text(raw)
    });
    text::alignment_only_adds_spaces(digits, 7);
    lemma_column(digits, counter as nat);
}

/// A numeral is read back out of its column.
proof fn lemma_column(digits: Seq<char>, n: nat)
    requires
        digits == text::dec_text(n),
        n <= u64::MAX,
    ensures
        text::number_text(text::trim_text(text::right_aligned(digits, 7)), u64::MAX as nat) == Some(
            n,
        ),
{
    let column = text::right_aligned(digits, 7);
    let pad = column.len() - digits.len();
    text::numeral_denotes_its_number(n);
    text::numeral_is_read_back(n, u64::MAX as nat);
    text::alignment_only_adds_spaces(digits, 7);
    assert(column.skip(pad) =~= digits);
    lemma_leading_spaces(column, pad);
    assert(text::is_digit(digits[0]));
    assert(text::is_digit(digits[digits.len() - 1]));
    assert(text::trim_end_text(digits) == digits);
}

proof fn lemma_leading_spaces(s: Seq<char>, n: int)
    requires
        0 <= n < s.len(),
        forall|i: int| 0 <= i < n ==> #[trigger] s[i] == ' ',
        !text::is_white_space(s[n]),
    ensures
        text::trim_start_text(s) == s.skip(n),
    decreases n,
{
    if n > 0 {
        assert(s[0] == ' ');
        assert forall|i: int| 0 <= i < n - 1 implies #[trigger] s.skip(1)[i] == ' ' by {
            assert(s[i + 1] == ' ');
        }
        lemma_leading_spaces(s.skip(1), n - 1);
        assert(s.skip(1).skip(n - 1) =~= s.skip(n));
    } else {
        assert(s.skip(0) =~= s);
    }
}

/// The line of a slave names its address in decimal and in hexadecimal, an error
/// line ends in what went wrong, and a detail line is indented; what stands for a
/// value, an address or an error is marked as such.
pub proof fn single_lines_tell_their_content(slave: u8, what: Seq<char>)
    ensures
        line_text(slave_naming(slave)) == "  Slave:   "@ + text::dec_text(slave as nat) + "(0x"@
            + text::hex_fixed(slave as nat, 2) + ")"@,
        slave_naming(slave).0.len() == 3,
        slave_naming(slave).0[1] == span(text::dec_text(slave as nat), SpanRole::Value),
        slave_naming(slave).0[2].role == SpanRole::Address,
        line_text(error(what)) == "  Error: "@ + what,
        error(what).0.len() == 2,
        error(what).0[0].role == SpanRole::Label,
        error(what).0[1] == span(what, SpanRole::Error),
        line_text(detail(what)) == "  "@ + what,
        detail(what).0.len() == 1,
        detail(what).0[0].role == SpanRole::Label,
{
    let l = slave_naming(slave);
    lemma_spans(l.0[0], l.0[1], l.0[2], l.0[0], l.0[0]);
    assert(line_text(l) =~= "  Slave:   "@ + text::dec_text(slave as nat) + "(0x"@
        + text::hex_fixed(slave as nat, 2) + ")"@);
    let e = error(what);
    lemma_spans(e.0[0], e.0[1], e.0[0], e.0[0], e.0[0]);
    let d = detail(what);
    lemma_spans(d.0[0], d.0[0], d.0[0], d.0[0], d.0[0]);
}

/// Each value has its own line, in order: its address, counted up from the start
/// around the end of the address space, and the value in hexadecimal and in
/// decimal.
pub proof fn every_value_has_its_line(start: u16, values: Seq<u16>)
    ensures
        registers(start, values).len() == values.len(),
        forall|i: int|
            0 <= i < values.len() ==> shows_value(
                #[trigger] registers(start, values)[i],
                ((start + i) % 65536) as u16,
                values[i],
            ),
{
    assert forall|i: int| 0 <= i < values.len() implies shows_value(
        #[trigger] registers(start, values)[i],
        ((start + i) % 65536) as u16,
        values[i],
    ) by {
        let addr = ((start + i) % 65536) as u16;
        let line = registers(start, values)[i];
        lemma_spans(line.0[0], line.0[1], line.0[2], line.0[3], line.0[4]);
        assert(line_text(line) =~= "    0x"@ + text::hex_fixed(addr as nat, 4) + ": 0x"@
            + text::hex_fixed(values[i] as nat, 4) + "("@ + text::dec_text(values[i] as nat)
            + ")"@);
    }
}

/// Whether a line shows a value at an address.
pub open spec fn shows_value(line: LineModel, addr: u16, value: u16) -> bool {
    &&& line_text(line) == "    0x"@ + text::hex_fixed(addr as nat, 4) + ": 0x"@ + text::hex_fixed(
        value as nat,
        4,
    ) + "("@ + text::dec_text(value as nat) + ")"@
    &&& line.0.len() == 5
    &&& line.0[1].role == SpanRole::Address
    &&& line.0[3].role == SpanRole::Value
}

/// A coil that is on is shown as 1, one that is off as 0, each in its place.
pub proof fn coils_are_shown_as_one_and_zero(bits: Seq<bool>)
    ensures
        bit_values(bits).len() == bits.len(),
        forall|i: int|
            0 <= i < bits.len() ==> (#[trigger] bit_values(bits)[i] == 1 <==> bits[i]) && (
            bit_values(bits)[i] == 0 <==> !bits[i]),
{
}

/// The first line about a request tells, behind the function's name, all numbers
/// that the request holds; the values to be written follow, a line each, from the
/// address where they are written.
pub proof fn requests_are_described(p: ParsedModel)
    ensures
        ({
            let lines = request_details(p);
            let first = line_text(lines[0]);
            let name = pdu::function_name_text(p.function);
            &&& lines.len() > 0
            &&& match p.details {
                PduModel::ReadCoilsReq { start, count } => lines.len() == 1 && first == "  "@ + (name
                    + ": from 0x"@ + text::hex_fixed(start as nat, 4) + ", count "@
                    + text::dec_text(count as nat)),
                PduModel::ReadRegsReq { start, count } => lines.len() == 1 && first == "  "@ + (name
                    + ": from 0x"@ + text::hex_fixed(start as nat, 4) + ", count "@
                    + text::dec_text(count as nat)),
                PduModel::WriteSingleCoilReq { addr, on } => lines.len() == 1 && first == "  "@ + (name
                    + ": addr 0x"@ + text::hex_fixed(addr as nat, 4) + ", "@ + if on {
                    "ON"@
                } else {
                    "OFF"@
                }),
                PduModel::WriteSingleRegReq { addr, value } => lines.len() == 1 && first == "  "@ + (name
                    + ": addr 0x"@ + text::hex_fixed(addr as nat, 4) + ", value 0x"@
                    + text::hex_fixed(value as nat, 4) + "("@ + text::dec_text(value as nat)
                    + ")"@),
                PduModel::WriteMultipleCoilsReq { start, count, bits } => first == "  "@ + (name
                    + ": from 0x"@ + text::hex_fixed(start as nat, 4) + ", count "@
                    + text::dec_text(count as nat)) && lines.len() == 1 + bits.len() && (forall|
                    i: int,
                |
                    0 <= i < bits.len() ==> shows_value(
                        #[trigger] lines[1 + i],
                        ((start + i) % 65536) as u16,
                        if bits[i] {
                            1
                        } else {
                            0
                        },
                    )),
                PduModel::WriteMultipleRegsReq { start, count, values } => first == "  "@ + (name
                    + ": from 0x"@ + text::hex_fixed(start as nat, 4) + ", count "@
                    + text::dec_text(count as nat)) && lines.len() == 1 + values.len() && (forall|
                    i: int,
                |
                    0 <= i < values.len() ==> shows_value(
                        #[trigger] lines[1 + i],
                        ((start + i) % 65536) as u16,
                        values[i],
                    )),
                PduModel::MaskWriteRegReq { addr, and_mask, or_mask } => lines.len() == 1 && first
                    == "  "@ + (name + ": addr 0x"@ + text::hex_fixed(addr as nat, 4) + ", and 0x"@
                    + text::hex_fixed(and_mask as nat, 4) + ", or 0x"@ + text::hex_fixed(
                    or_mask as nat,
                    4,
                )),
                PduModel::ReadWriteMultipleRegsReq {
                    read_start,
                    read_count,
                    write_start,
                    write_count,
                    write_values,
                } => first == "  "@ + (name + ": read 0x"@ + text::hex_fixed(read_start as nat, 4) + "/"@
                    + text::dec_text(read_count as nat) + ", write 0x"@ + text::hex_fixed(
                    write_start as nat,
                    4,
                ) + "/"@ + text::dec_text(write_count as nat)) && lines.len() == 1
                    + write_values.len() && (forall|i: int|
                    0 <= i < write_values.len() ==> shows_value(
                        #[trigger] lines[1 + i],
                        ((write_start + i) % 65536) as u16,
                        write_values[i],
                    )),
                PduModel::Diagnostic { sub, data } => lines.len() == 1 && first == "  "@ + (name
                    + ": sub 0x"@ + text::hex_fixed(sub as nat, 4) + ", "@ + text::dec_text(
                    data.len(),
                ) + " data bytes"@),
                PduModel::EncapsulatedInterface { mei_type, data } => lines.len() == 1 && first
                    == "  "@ + (name + ": MEI 0x"@ + text::hex_fixed(mei_type as nat, 2) + ", "@
                    + text::dec_text(data.len()) + " data bytes"@),
                PduModel::Raw { reason } => lines.len() == 1 && first == "  Error: "@ + reason
                    && lines[0].0.last().role == SpanRole::Error,
                _ => lines.len() == 1 && first == "  "@ + (name + " (request view unavailable)"@),
            }
        }),
{
    lemma_description(request_details(p)[0]);
    let lines = request_details(p);
    match p.details {
        PduModel::WriteMultipleCoilsReq { start, count, bits } => {
            every_value_has_its_line(start, bit_values(bits));
            assert(forall|i: int|
                0 <= i < bits.len() ==> #[trigger] lines[1 + i] == registers(
                    start,
                    bit_values(bits),
                )[i]);
        },
        PduModel::WriteMultipleRegsReq { start, count, values } => {
            every_value_has_its_line(start, values);
            assert(forall|i: int|
                0 <= i < values.len() ==> #[trigger] lines[1 + i] == registers(start, values)[i]);
        },
        PduModel::ReadWriteMultipleRegsReq {
            read_start,
            read_count,
            write_start,
            write_count,
            write_values,
        } => {
            every_value_has_its_line(write_start, write_values);
            assert(forall|i: int|
                0 <= i < write_values.len() ==> #[trigger] lines[1 + i] == registers(
                    write_start,
                    write_values,
                )[i]);
        },
        _ => {},
    }
}

/// A line of one span or of two has their texts.
proof fn lemma_description(line: LineModel)
    ensures
        line.0.len() == 1 ==> line_text(line) == line.0[0].text,
        line.0.len() == 2 ==> line_text(line) == line.0[0].text + line.0[1].text,
{
    if line.0.len() == 1 {
        assert(line.0 =~= seq![line.0[0]]);
        lemma_spans(line.0[0], line.0[0], line.0[0], line.0[0], line.0[0]);
    } else if line.0.len() == 2 {
        assert(line.0 =~= seq![line.0[0], line.0[1]]);
        lemma_spans(line.0[0], line.0[1], line.0[0], line.0[0], line.0[0]);
    }
}

/// The first line about a response tells, behind the function's name, all numbers
/// that the response holds, or how many values; registers follow, a line each. An
/// exception is shown with its text and its code.
pub proof fn responses_are_described(p: ParsedModel)
    ensures
        ({
            let lines = response_details(p);
            let first = line_text(lines[0]);
            let name = pdu::function_name_text(p.function);
            let bare = pdu::function_name_text(p.function & 0x7F);
            &&& lines.len() > 0
            &&& match p.details {
                PduModel::Exception { code } => lines.len() == 2 && first == "  "@ + (bare
                    + ": Exception"@) && line_text(lines[1]) == "  Error: "@ + (
                    pdu::exception_name_text(code) + " (code "@ + text::dec_text(code as nat)
                    + ")"@) && lines[1].0.last().role == SpanRole::Error,
                PduModel::ReadCoilsResp { bits } => lines.len() == 1 && first == "  "@ + (name + ": "@
                    + text::dec_text(bits.len()) + " bits"@),
                PduModel::ReadRegsResp { values } => first == "  "@ + (name + ": "@ + text::dec_text(
                    values.len(),
                ) + " registers"@) && lines.len() == 1 + values.len() && (forall|i: int|
                    0 <= i < values.len() ==> shows_value(
                        #[trigger] lines[1 + i],
                        (i % 65536) as u16,
                        values[i],
                    )),
                PduModel::WriteSingleCoilResp { addr, on } => lines.len() == 1 && first == "  "@ + (name
                    + ": addr 0x"@ + text::hex_fixed(addr as nat, 4) + ", "@ + if on {
                    "ON"@
                } else {
                    "OFF"@
                }),
                PduModel::WriteSingleRegResp { addr, value } => lines.len() == 1 && first == "  "@ + (name
                    + ": addr 0x"@ + text::hex_fixed(addr as nat, 4) + ", value 0x"@
                    + text::hex_fixed(value as nat, 4) + "("@ + text::dec_text(value as nat)
                    + ")"@),
                PduModel::WriteMultipleCoilsResp { start, count } => lines.len() == 1 && first
                    == "  "@ + (name + ": from 0x"@ + text::hex_fixed(start as nat, 4) + ", count "@
                    + text::dec_text(count as nat)),
                PduModel::WriteMultipleRegsResp { start, count } => lines.len() == 1 && first
                    == "  "@ + (name + ": from 0x"@ + text::hex_fixed(start as nat, 4) + ", count "@
                    + text::dec_text(count as nat)),
                PduModel::MaskWriteRegResp { addr, and_mask, or_mask } => lines.len() == 1 && first
                    == "  "@ + (name + ": addr 0x"@ + text::hex_fixed(addr as nat, 4) + ", and 0x"@
                    + text::hex_fixed(and_mask as nat, 4) + ", or 0x"@ + text::hex_fixed(
                    or_mask as nat,
                    4,
                )),
                PduModel::ReadWriteMultipleRegsResp { read_values } => first == "  "@ + (name + ": "@
                    + text::dec_text(read_values.len()) + " registers"@) && lines.len() == 1
                    + read_values.len() && (forall|i: int|
                    0 <= i < read_values.len() ==> shows_value(
                        #[trigger] lines[1 + i],
                        (i % 65536) as u16,
                        read_values[i],
                    )),
                PduModel::ReadExceptionStatusResp { status } => lines.len() == 1 && first == "  "@ + (name
                    + ": status 0x"@ + text::hex_fixed(status as nat, 2)),
                PduModel::CommEventCounterResp { status, event_count } => lines.len() == 1 && first
                    == "  "@ + (name + ": status "@ + text::dec_text(status as nat) + ", events "@
                    + text::dec_text(event_count as nat)),
                PduModel::Raw { reason } => lines.len() == 1 && first == "  Error: "@ + reason
                    && lines[0].0.last().role == SpanRole::Error,
                _ => lines.len() == 1 && first == "  "@ + (bare),
            }
        }),
{
    let lines = response_details(p);
    lemma_description(lines[0]);
    match p.details {
        PduModel::Exception { code } => {
            lemma_description(lines[1]);
        },
        PduModel::ReadRegsResp { values } => {
            every_value_has_its_line(0, values);
            assert(forall|i: int|
                0 <= i < values.len() ==> #[trigger] lines[1 + i] == registers(0, values)[i]);
        },
        PduModel::ReadWriteMultipleRegsResp { read_values } => {
            every_value_has_its_line(0, read_values);
            assert(forall|i: int|
                0 <= i < read_values.len() ==> #[trigger] lines[1 + i] == registers(
                    0,
                    read_values,
                )[i]);
        },
        _ => {},
    }
}

/// A block starts with its header and goes on with what the entry is: a request
/// or a response names its slave and is described as such; a timeout and a
/// no-response say so; a late response names its slave, says that it is late, and
/// describes the request that it answers; a response without a request names its
/// slave, says so, and is described itself; bytes that are no frame give the
/// reason.
pub proof fn blocks_tell_what_happened(e: EntryModel)
    ensures
        ({
            let lines = entry_lines(e);
            let rest = lines.skip(1);
            &&& lines.len() > 0
            &&& lines[0] == header(e.tag, e.ts, e.counter, e.raw)
            &&& match e.body {
                BodyModel::Frame { slave, parsed } => (e.tag == Tag::Request ==> rest == seq![
                    slave_naming(slave),
                ] + request_details(parsed)) && (e.tag == Tag::Response ==> rest == seq![
                    slave_naming(slave),
                ] + response_details(parsed)) && (e.tag != Tag::Request && e.tag != Tag::Response
                    ==> rest.len() == 0),
                BodyModel::Timeout => rest == seq![error("Timeout"@)],
                BodyModel::NoResponse => rest == seq![error("No Response"@)],
                BodyModel::Orphan { slave, late, orig } => rest == seq![
                    slave_naming(slave),
                    error("Response Timeout"@),
                ] + request_details(orig),
                BodyModel::Unsolicited { slave, parsed } => rest == seq![
                    slave_naming(slave),
                    error("No matching request"@),
                ] + response_details(parsed),
                BodyModel::ParseFailure { reason } => rest == seq![error(reason)],
            }
        }),
{
    assert(entry_lines(e).skip(1) =~= body_lines(e.tag, e.body));
}

/// The first block of a list is set apart only if it can belong to no session.
pub proof fn first_block_stands_alone(counter: u64, tag: Tag)
    ensures
        is_separated(None, counter, tag) <==> tag == Tag::Orphan || tag == Tag::Parse,
        is_separated(Some(counter), counter, tag) <==> tag == Tag::Orphan || tag == Tag::Parse,
{
}

/// The map knows a counter only from a request that carries it, and then the
/// slave of such a request.
pub proof fn slave_map_knows_only_requests(entries: Seq<EntryModel>, counter: u64)
    ensures
        slave_map(entries).contains_key(counter) ==> pairing::has_request(
            entries,
            counter,
            slave_map(entries)[counter],
        ),
    decreases entries.len(),
{
    if entries.len() > 0 {
        let front = entries.drop_last();
        let e = entries.last();
        slave_map_knows_only_requests(front, counter);
        let slave = slave_map(entries)[counter];
        if slave_map(entries).contains_key(counter) {
            if pairing::requests(e, counter, slave) {
                assert(pairing::requests(entries[entries.len() - 1], counter, slave));
            } else {
                let i = choose|i: int|
                    0 <= i < front.len() && pairing::requests(#[trigger] front[i], counter, slave);
                assert(pairing::requests(entries[i], counter, slave));
            }
        }
    }
}

/// A filter lets through what names one of its slaves, and nothing that names
/// another; without a filter everything is shown.
pub proof fn filter_goes_by_the_slave(
    e: EntryModel,
    slaves: Map<u64, u8>,
    set: Set<u8>,
    slave: u8,
)
    ensures
        is_shown(e, slaves, None),
        (e.body matches BodyModel::Frame { slave: s, .. } && s == slave) || (e.body matches BodyModel::Orphan {
            slave: s,
            ..
        } && s == slave) || (e.body matches BodyModel::Unsolicited { slave: s, .. } && s == slave)
            || (e.body is ParseFailure && e.raw.len() > 0 && e.raw[0] == slave) ==> (is_shown(
            e,
            slaves,
            Some(set),
        ) <==> set.contains(slave)),
        e.body is Timeout || e.body is NoResponse || (e.body is ParseFailure && e.raw.len() == 0)
            ==> (is_shown(e, slaves, Some(set)) <==> slaves.contains_key(e.counter) && set.contains(
            slaves[e.counter],
        )),
{
}

} // verus!
