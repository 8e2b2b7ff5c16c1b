//! Modbus PDU (Protocol Data Unit) decoding for all standard function codes.
//!
//! The PDU is the function-code byte plus its data bytes (i.e. the RTU frame
//! without the slave address and without the CRC). Modbus is big-endian on
//! the wire.

use vstd::prelude::*;

use crate::text;

verus! {

broadcast use vstd::string::group_string_axioms;

/// Whether a frame is a request, a response, or (before classification)
/// unknown.
#[derive(Debug, Clone, Copy, PartialEq, Eq, Structural)]
pub enum Role {
    Request,
    Response,
    Unknown,
}

/// A sub-request within Read/Write File Records (FC 0x14/0x15).
#[derive(Debug, Clone, Copy, PartialEq, Eq, Structural)]
pub struct FileSubRequest {
    pub reference_type: u8,
    pub file_number: u16,
    pub record_number: u16,
    pub record_length: u16,
}

/// Parsed contents of a PDU. Variants are FC-specific; `Raw` covers any
/// structural mismatch (bad length, unknown FC, ...).
#[derive(Debug, PartialEq, Eq)]
#[allow(inconsistent_fields)]
pub enum PduDetails {
    // 0x01 / 0x02
    ReadCoilsReq { start: u16, count: u16 },
    ReadCoilsResp { bits: Vec<bool> },
    // 0x03 / 0x04
    ReadRegsReq { start: u16, count: u16 },
    ReadRegsResp { values: Vec<u16> },
    // 0x05
    WriteSingleCoilReq { addr: u16, on: bool },
    WriteSingleCoilResp { addr: u16, on: bool },
    // 0x06
    WriteSingleRegReq { addr: u16, value: u16 },
    WriteSingleRegResp { addr: u16, value: u16 },
    // 0x07
    ReadExceptionStatusResp { status: u8 },
    // 0x08
    Diagnostic { sub: u16, data: Vec<u8> },
    // 0x0B
    CommEventCounterResp { status: u16, event_count: u16 },
    // 0x0C
    CommEventLogResp { status: u16, event_count: u16, message_count: u16, events: Vec<u8> },
    // 0x0F
    WriteMultipleCoilsReq { start: u16, count: u16, bits: Vec<bool> },
    WriteMultipleCoilsResp { start: u16, count: u16 },
    // 0x10
    WriteMultipleRegsReq { start: u16, count: u16, values: Vec<u16> },
    WriteMultipleRegsResp { start: u16, count: u16 },
    // 0x11
    ReportSlaveIdResp { slave_id: Vec<u8>, run_indicator: u8 },
    // 0x14 / 0x15 (the sub-data of all but read requests is kept as it is)
    ReadFileRecordsReq { sub_requests: Vec<FileSubRequest> },
    ReadFileRecordsResp { byte_count: u8, data: Vec<u8> },
    WriteFileRecords { byte_count: u8, data: Vec<u8> },
    // 0x16
    MaskWriteRegReq { addr: u16, and_mask: u16, or_mask: u16 },
    MaskWriteRegResp { addr: u16, and_mask: u16, or_mask: u16 },
    // 0x17
    ReadWriteMultipleRegsReq {
        read_start: u16,
        read_count: u16,
        write_start: u16,
        write_count: u16,
        write_values: Vec<u16>,
    },
    ReadWriteMultipleRegsResp { read_values: Vec<u16> },
    // 0x18
    ReadFifoQueueResp { fifo_count: u16, values: Vec<u16> },
    // 0x2B
    EncapsulatedInterface { mei_type: u8, data: Vec<u8> },
    // Exception response (function | 0x80)
    Exception { code: u8 },
    /// Structural parse failure. `reason` is shown in the `  Error:` line.
    Raw { reason: String },
}

/// A parsed PDU together with the (possibly inferred) role.
#[derive(Debug, PartialEq, Eq)]
pub struct ParsedPdu {
    pub function: u8,
    pub role: Role,
    pub details: PduDetails,
}

// --- models ------------------------------------------------------------------

/// What a [`PduDetails`] holds, with sequences for vectors and texts.
#[verifier::ext_equal]
#[allow(inconsistent_fields)]
pub enum PduModel {
    ReadCoilsReq { start: u16, count: u16 },
    ReadCoilsResp { bits: Seq<bool> },
    ReadRegsReq { start: u16, count: u16 },
    ReadRegsResp { values: Seq<u16> },
    WriteSingleCoilReq { addr: u16, on: bool },
    WriteSingleCoilResp { addr: u16, on: bool },
    WriteSingleRegReq { addr: u16, value: u16 },
    WriteSingleRegResp { addr: u16, value: u16 },
    ReadExceptionStatusResp { status: u8 },
    Diagnostic { sub: u16, data: Seq<u8> },
    CommEventCounterResp { status: u16, event_count: u16 },
    CommEventLogResp { status: u16, event_count: u16, message_count: u16, events: Seq<u8> },
    WriteMultipleCoilsReq { start: u16, count: u16, bits: Seq<bool> },
    WriteMultipleCoilsResp { start: u16, count: u16 },
    WriteMultipleRegsReq { start: u16, count: u16, values: Seq<u16> },
    WriteMultipleRegsResp { start: u16, count: u16 },
    ReportSlaveIdResp { slave_id: Seq<u8>, run_indicator: u8 },
    ReadFileRecordsReq { sub_requests: Seq<FileSubRequest> },
    ReadFileRecordsResp { byte_count: u8, data: Seq<u8> },
    WriteFileRecords { byte_count: u8, data: Seq<u8> },
    MaskWriteRegReq { addr: u16, and_mask: u16, or_mask: u16 },
    MaskWriteRegResp { addr: u16, and_mask: u16, or_mask: u16 },
    ReadWriteMultipleRegsReq {
        read_start: u16,
        read_count: u16,
        write_start: u16,
        write_count: u16,
        write_values: Seq<u16>,
    },
    ReadWriteMultipleRegsResp { read_values: Seq<u16> },
    ReadFifoQueueResp { fifo_count: u16, values: Seq<u16> },
    EncapsulatedInterface { mei_type: u8, data: Seq<u8> },
    Exception { code: u8 },
    Raw { reason: Seq<char> },
}

/// What a [`ParsedPdu`] holds.
#[verifier::ext_equal]
pub struct ParsedModel {
    pub function: u8,
    pub role: Role,
    pub details: PduModel,
}

impl View for PduDetails {
    type V = PduModel;

    open spec fn view(&self) -> PduModel {
        match *self {
            PduDetails::ReadCoilsReq { start, count } => PduModel::ReadCoilsReq { start, count },
            PduDetails::ReadCoilsResp { bits } => PduModel::ReadCoilsResp { bits: bits@ },
            PduDetails::ReadRegsReq { start, count } => PduModel::ReadRegsReq { start, count },
            PduDetails::ReadRegsResp { values } => PduModel::ReadRegsResp { values: values@ },
            PduDetails::WriteSingleCoilReq { addr, on } => PduModel::WriteSingleCoilReq {
                addr,
                on,
            },
            PduDetails::WriteSingleCoilResp { addr, on } => PduModel::WriteSingleCoilResp {
                addr,
                on,
            },
            PduDetails::WriteSingleRegReq { addr, value } => PduModel::WriteSingleRegReq {
                addr,
                value,
            },
            PduDetails::WriteSingleRegResp { addr, value } => PduModel::WriteSingleRegResp {
                addr,
                value,
            },
            PduDetails::ReadExceptionStatusResp { status } => PduModel::ReadExceptionStatusResp {
                status,
            },
            PduDetails::Diagnostic { sub, data } => PduModel::Diagnostic { sub, data: data@ },
            PduDetails::CommEventCounterResp {
                status,
                event_count,
            } => PduModel::CommEventCounterResp {
                status,
                event_count,
            },
            PduDetails::CommEventLogResp {
                status,
                event_count,
                message_count,
                events,
            } => PduModel::CommEventLogResp {
                status,
                event_count,
                message_count,
                events: events@,
            },
            PduDetails::WriteMultipleCoilsReq {
                start,
                count,
                bits,
            } => PduModel::WriteMultipleCoilsReq {
                start,
                count,
                bits: bits@,
            },
            PduDetails::WriteMultipleCoilsResp {
                start,
                count,
            } => PduModel::WriteMultipleCoilsResp {
                start,
                count,
            },
            PduDetails::WriteMultipleRegsReq {
                start,
                count,
                values,
            } => PduModel::WriteMultipleRegsReq {
                start,
                count,
                values: values@,
            },
            PduDetails::WriteMultipleRegsResp { start, count } => PduModel::WriteMultipleRegsResp {
                start,
                count,
            },
            PduDetails::ReportSlaveIdResp {
                slave_id,
                run_indicator,
            } => PduModel::ReportSlaveIdResp {
                slave_id: slave_id@,
                run_indicator,
            },
            PduDetails::ReadFileRecordsReq { sub_requests } => PduModel::ReadFileRecordsReq {
                sub_requests: sub_requests@,
            },
            PduDetails::ReadFileRecordsResp { byte_count, data } => PduModel::ReadFileRecordsResp {
                byte_count,
                data: data@,
            },
            PduDetails::WriteFileRecords { byte_count, data } => PduModel::WriteFileRecords {
                byte_count,
                data: data@,
            },
            PduDetails::MaskWriteRegReq { addr, and_mask, or_mask } => PduModel::MaskWriteRegReq {
                addr,
                and_mask,
                or_mask,
            },
            PduDetails::MaskWriteRegResp { addr, and_mask, or_mask } => PduModel::MaskWriteRegResp {
                addr,
                and_mask,
                or_mask,
            },
            PduDetails::ReadWriteMultipleRegsReq {
                read_start,
                read_count,
                write_start,
                write_count,
                write_values,
            } => PduModel::ReadWriteMultipleRegsReq {
                read_start,
                read_count,
                write_start,
                write_count,
                write_values: write_values@,
            },
            PduDetails::ReadWriteMultipleRegsResp {
                read_values,
            } => PduModel::ReadWriteMultipleRegsResp {
                read_values: read_values@,
            },
            PduDetails::ReadFifoQueueResp { fifo_count, values } => PduModel::ReadFifoQueueResp {
                fifo_count,
                values: values@,
            },
            PduDetails::EncapsulatedInterface {
                mei_type,
                data,
            } => PduModel::EncapsulatedInterface {
                mei_type,
                data: data@,
            },
            PduDetails::Exception { code } => PduModel::Exception { code },
            PduDetails::Raw { reason } => PduModel::Raw { reason: reason@ },
        }
    }
}

impl View for ParsedPdu {
    type V = ParsedModel;

    open spec fn view(&self) -> ParsedModel {
        ParsedModel { function: self.function, role: self.role, details: self.details@ }
    }
}

impl Clone for PduDetails {
    fn clone(&self) -> (r: Self)
        ensures
            r@ == self@,
    {
        match self {
            PduDetails::ReadCoilsReq { start, count } => {
                PduDetails::ReadCoilsReq { start: *start, count: *count }
            },
            PduDetails::ReadCoilsResp { bits } => {
                let copy = bits.clone();
                assert(copy@ =~= bits@);
                PduDetails::ReadCoilsResp { bits: copy }
            },
            PduDetails::ReadRegsReq { start, count } => {
                PduDetails::ReadRegsReq { start: *start, count: *count }
            },
            PduDetails::ReadRegsResp { values } => {
                let copy = values.clone();
                assert(copy@ =~= values@);
                PduDetails::ReadRegsResp { values: copy }
            },
            PduDetails::WriteSingleCoilReq { addr, on } => {
                PduDetails::WriteSingleCoilReq { addr: *addr, on: *on }
            },
            PduDetails::WriteSingleCoilResp { addr, on } => {
                PduDetails::WriteSingleCoilResp { addr: *addr, on: *on }
            },
            PduDetails::WriteSingleRegReq { addr, value } => {
                PduDetails::WriteSingleRegReq { addr: *addr, value: *value }
            },
            PduDetails::WriteSingleRegResp { addr, value } => {
                PduDetails::WriteSingleRegResp { addr: *addr, value: *value }
            },
            PduDetails::ReadExceptionStatusResp { status } => {
                PduDetails::ReadExceptionStatusResp { status: *status }
            },
            PduDetails::Diagnostic { sub, data } => {
                let copy = data.clone();
                assert(copy@ =~= data@);
                PduDetails::Diagnostic { sub: *sub, data: copy }
            },
            PduDetails::CommEventCounterResp { status, event_count } => {
                PduDetails::CommEventCounterResp { status: *status, event_count: *event_count }
            },
            PduDetails::CommEventLogResp { status, event_count, message_count, events } => {
                let copy = events.clone();
                assert(copy@ =~= events@);
                PduDetails::CommEventLogResp {
                    status: *status,
                    event_count: *event_count,
                    message_count: *message_count,
                    events: copy,
                }
            },
            PduDetails::WriteMultipleCoilsReq { start, count, bits } => {
                let copy = bits.clone();
                assert(copy@ =~= bits@);
                PduDetails::WriteMultipleCoilsReq { start: *start, count: *count, bits: copy }
            },
            PduDetails::WriteMultipleCoilsResp { start, count } => {
                PduDetails::WriteMultipleCoilsResp { start: *start, count: *count }
            },
            PduDetails::WriteMultipleRegsReq { start, count, values } => {
                let copy = values.clone();
                assert(copy@ =~= values@);
                PduDetails::WriteMultipleRegsReq { start: *start, count: *count, values: copy }
            },
            PduDetails::WriteMultipleRegsResp { start, count } => {
                PduDetails::WriteMultipleRegsResp { start: *start, count: *count }
            },
            PduDetails::ReportSlaveIdResp { slave_id, run_indicator } => {
                let copy = slave_id.clone();
                assert(copy@ =~= slave_id@);
                PduDetails::ReportSlaveIdResp { slave_id: copy, run_indicator: *run_indicator }
            },
            PduDetails::ReadFileRecordsReq { sub_requests } => {
                let copy = sub_requests.clone();
                assert(copy@ =~= sub_requests@);
                PduDetails::ReadFileRecordsReq { sub_requests: copy }
            },
            PduDetails::ReadFileRecordsResp { byte_count, data } => {
                let copy = data.clone();
                assert(copy@ =~= data@);
                PduDetails::ReadFileRecordsResp { byte_count: *byte_count, data: copy }
            },
            PduDetails::WriteFileRecords { byte_count, data } => {
                let copy = data.clone();
                assert(copy@ =~= data@);
                PduDetails::WriteFileRecords { byte_count: *byte_count, data: copy }
            },
            PduDetails::MaskWriteRegReq { addr, and_mask, or_mask } => {
                PduDetails::MaskWriteRegReq { addr: *addr, and_mask: *and_mask, or_mask: *or_mask }
            },
            PduDetails::MaskWriteRegResp { addr, and_mask, or_mask } => {
                PduDetails::MaskWriteRegResp { addr: *addr, and_mask: *and_mask, or_mask: *or_mask }
            },
            PduDetails::ReadWriteMultipleRegsReq {
                read_start,
                read_count,
                write_start,
                write_count,
                write_values,
            } => {
                let copy = write_values.clone();
                assert(copy@ =~= write_values@);
                PduDetails::ReadWriteMultipleRegsReq {
                    read_start: *read_start,
                    read_count: *read_count,
                    write_start: *write_start,
                    write_count: *write_count,
                    write_values: copy,
                }
            },
            PduDetails::ReadWriteMultipleRegsResp { read_values } => {
                let copy = read_values.clone();
                assert(copy@ =~= read_values@);
                PduDetails::ReadWriteMultipleRegsResp { read_values: copy }
            },
            PduDetails::ReadFifoQueueResp { fifo_count, values } => {
                let copy = values.clone();
                assert(copy@ =~= values@);
                PduDetails::ReadFifoQueueResp { fifo_count: *fifo_count, values: copy }
            },
            PduDetails::EncapsulatedInterface { mei_type, data } => {
                let copy = data.clone();
                assert(copy@ =~= data@);
                PduDetails::EncapsulatedInterface { mei_type: *mei_type, data: copy }
            },
            PduDetails::Exception { code } => {
                PduDetails::Exception { code: *code }
            },
            PduDetails::Raw { reason } => {
                PduDetails::Raw { reason: reason.clone() }
            },
        }
    }
}

impl Clone for ParsedPdu {
    fn clone(&self) -> (r: Self)
        ensures
            r@ == self@,
    {
        ParsedPdu { function: self.function, role: self.role, details: self.details.clone() }
    }
}

// --- names -------------------------------------------------------------------

/// The name of a function code.
pub open spec fn function_name_text(fc: u8) -> Seq<char> {
    match fc {
        0x01 => "Read Coils"@,
        0x02 => "Read Discrete Inputs"@,
        0x03 => "Read Holding Registers"@,
        0x04 => "Read Input Registers"@,
        0x05 => "Write Single Coil"@,
        0x06 => "Write Single Register"@,
        0x07 => "Read Exception Status"@,
        0x08 => "Diagnostics"@,
        0x0B => "Get Comm Event Counter"@,
        0x0C => "Get Comm Event Log"@,
        0x0F => "Write Multiple Coils"@,
        0x10 => "Write Holding Registers"@,
        0x11 => "Report Slave ID"@,
        0x14 => "Read File Records"@,
        0x15 => "Write File Records"@,
        0x16 => "Mask Write Register"@,
        0x17 => "Read/Write Multiple Registers"@,
        0x18 => "Read FIFO Queue"@,
        0x2B => "Encapsulated Interface Transport"@,
        _ => "Unknown Function"@,
    }
}

/// Human-readable name for a function code (used by the format layer).
pub fn function_name(fc: u8) -> (r: &'static str)
    ensures
        r@ == function_name_text(fc),
{
    match fc {
        0x01 => "Read Coils",
        0x02 => "Read Discrete Inputs",
        0x03 => "Read Holding Registers",
        0x04 => "Read Input Registers",
        0x05 => "Write Single Coil",
        0x06 => "Write Single Register",
        0x07 => "Read Exception Status",
        0x08 => "Diagnostics",
        0x0B => "Get Comm Event Counter",
        0x0C => "Get Comm Event Log",
        0x0F => "Write Multiple Coils",
        0x10 => "Write Holding Registers",
        0x11 => "Report Slave ID",
        0x14 => "Read File Records",
        0x15 => "Write File Records",
        0x16 => "Mask Write Register",
        0x17 => "Read/Write Multiple Registers",
        0x18 => "Read FIFO Queue",
        0x2B => "Encapsulated Interface Transport",
        _ => "Unknown Function",
    }
}

/// The text of a Modbus exception code.
pub open spec fn exception_name_text(code: u8) -> Seq<char> {
    match code {
        1 => "Illegal Function"@,
        2 => "Illegal Data Address"@,
        3 => "Illegal Data Value"@,
        4 => "Slave Device Failure"@,
        5 => "Acknowledge"@,
        6 => "Slave Device Busy"@,
        8 => "Memory Parity Error"@,
        10 => "Gateway Path Unavailable"@,
        11 => "Gateway Target No Response"@,
        _ => "Unknown Exception"@,
    }
}

/// Translate a Modbus exception code to text.
pub fn exception_text(code: u8) -> (r: &'static str)
    ensures
        r@ == exception_name_text(code),
{
    match code {
        1 => "Illegal Function",
        2 => "Illegal Data Address",
        3 => "Illegal Data Value",
        4 => "Slave Device Failure",
        5 => "Acknowledge",
        6 => "Slave Device Busy",
        8 => "Memory Parity Error",
        10 => "Gateway Path Unavailable",
        11 => "Gateway Target No Response",
        _ => "Unknown Exception",
    }
}

// --- fields of a PDU ---------------------------------------------------------

/// The big-endian word at `i`.
pub open spec fn be16(d: Seq<u8>, i: int) -> u16 {
    (256 * d[i] + d[i + 1]) as u16
}

/// `n` big-endian words from `from` on.
pub open spec fn words(d: Seq<u8>, from: int, n: nat) -> Seq<u16> {
    Seq::new(n, |k: int| be16(d, from + 2 * k))
}

/// The first `n` bits from byte `from` on, lowest bit of each byte first.
pub open spec fn bit_run(d: Seq<u8>, from: int, n: nat) -> Seq<bool> {
    Seq::new(n, |i: int| d[from + i / 8] & (1u8 << ((i % 8) as u8)) != 0)
}

/// The sub-request of seven bytes at `i`.
pub open spec fn sub_request(d: Seq<u8>, i: int) -> FileSubRequest {
    FileSubRequest {
        reference_type: d[i],
        file_number: be16(d, i + 1),
        record_number: be16(d, i + 3),
        record_length: be16(d, i + 5),
    }
}

/// The word at `i`, if both of its bytes are there.
fn u16be(d: &[u8], i: usize) -> (r: Option<u16>)
    requires
        i < usize::MAX,
    ensures
        r == if i + 1 < d@.len() {
            Some(be16(d@, i as int))
        } else {
            None
        },
{
    if i + 1 < d.len() {
        Some(256 * (d[i] as u16) + (d[i + 1] as u16))
    } else {
        None
    }
}

/// `n` words from `from` on, if all of them are there.
fn read_regs(d: &[u8], from: usize, n: usize) -> (r: Option<Vec<u16>>)
    requires
        from + 2 * n <= usize::MAX,
    ensures
        match r {
            Some(v) => from + 2 * n <= d@.len() && v@ == words(d@, from as int, n as nat),
            None => d@.len() < from + 2 * n,
        },
{
    let len: usize = d.len();
    if len < from + 2 * n {
        return None;
    }
    let mut out: Vec<u16> = Vec::new();
    let mut k: usize = 0;
    while k < n
        invariant
            k <= n,
            from + 2 * n <= len,
            len == d@.len(),
            out@ == words(d@, from as int, k as nat),
        decreases n - k,
    {
        out.push(256 * (d[from + 2 * k] as u16) + (d[from + 2 * k + 1] as u16));
        k = k + 1;
        assert(out@ =~= words(d@, from as int, k as nat));
    }
    Some(out)
}

/// The first `count` bits from byte `from` on.
fn bytes_to_bits(d: &[u8], from: usize, count: usize) -> (r: Vec<bool>)
    requires
        count <= 8 * (d@.len() - from),
        from <= d@.len(),
    ensures
        r@ == bit_run(d@, from as int, count as nat),
{
    let len: usize = d.len();
    let mut out: Vec<bool> = Vec::new();
    let mut i: usize = 0;
    while i < count
        invariant
            i <= count,
            len == d@.len(),
            count <= 8 * (d@.len() - from),
            from <= d@.len(),
            out@ == bit_run(d@, from as int, i as nat),
        decreases count - i,
    {
        let shift = (i % 8) as u8;
        out.push(d[from + i / 8] & (1u8 << shift) != 0);
        i = i + 1;
        assert(out@ =~= bit_run(d@, from as int, i as nat));
    }
    out
}

/// The bytes from `from` up to `to`.
fn bytes_between(d: &[u8], from: usize, to: usize) -> (r: Vec<u8>)
    requires
        from <= to <= d@.len(),
    ensures
        r@ == d@.subrange(from as int, to as int),
{
    vstd::slice::slice_to_vec(vstd::slice::slice_subrange(d, from, to))
}

// --- reasons -----------------------------------------------------------------

/// A failure with the given reason.
pub open spec fn failure(reason: Seq<char>) -> PduModel {
    PduModel::Raw { reason }
}

fn raw(reason: String) -> (r: PduDetails)
    ensures
        r@ == failure(reason@),
{
    PduDetails::Raw { reason }
}

fn raw_text(reason: &str) -> (r: PduDetails)
    ensures
        r@ == failure(reason@),
{
    raw(String::from_str(reason))
}

/// `what` followed by a number.
fn raw_count(what: &str, n: usize) -> (r: PduDetails)
    ensures
        r@ == failure(what@ + text::dec_text(n as nat)),
{
    raw(String::from_str(what).concat(text::dec(n as u64).as_str()))
}

/// Two numbers, each with a text before it, and a text after the second.
fn raw_counts(what: &str, n: usize, between: &str, m: usize, after: &str) -> (r: PduDetails)
    ensures
        r@ == failure(
            what@ + text::dec_text(n as nat) + between@ + text::dec_text(m as nat) + after@,
        ),
{
    raw(
        String::from_str(what).concat(text::dec(n as u64).as_str()).concat(between).concat(
            text::dec(m as u64).as_str(),
        ).concat(after),
    )
}

/// The function's name followed by `what`.
fn raw_named(fc: u8, what: &str) -> (r: PduDetails)
    ensures
        r@ == failure(function_name_text(fc) + what@),
{
    raw(String::from_str(function_name(fc)).concat(what))
}

/// The function's name followed by `what` and a number.
fn raw_named_count(fc: u8, what: &str, n: usize) -> (r: PduDetails)
    ensures
        r@ == failure(function_name_text(fc) + what@ + text::dec_text(n as nat)),
{
    raw(String::from_str(function_name(fc)).concat(what).concat(text::dec(n as u64).as_str()))
}

/// The function's name followed by two numbers with their texts.
fn raw_named_counts(
    fc: u8,
    what: &str,
    n: usize,
    between: &str,
    m: usize,
    after: &str,
) -> (r: PduDetails)
    ensures
        r@ == failure(
            function_name_text(fc) + what@ + text::dec_text(n as nat) + between@ + text::dec_text(
                m as nat,
            ) + after@,
        ),
{
    raw(
        String::from_str(function_name(fc)).concat(what).concat(
            text::dec(n as u64).as_str(),
        ).concat(between).concat(text::dec(m as u64).as_str()).concat(after),
    )
}

// --- roles -------------------------------------------------------------------

/// Whether `d` is a byte count and that many bytes.
pub open spec fn is_counted(d: Seq<u8>) -> bool {
    d.len() > 0 && d.len() == 1 + d[0]
}

/// Whether `d` has the layout of a request with this function code.
pub open spec fn fits_request(fc: u8, d: Seq<u8>) -> bool {
    match fc {
        0x01 | 0x02 | 0x03 | 0x04 => d.len() == 4,
        0x05 => d.len() == 4 && (be16(d, 2) == 0xFF00 || be16(d, 2) == 0x0000),
        0x06 => d.len() == 4,
        0x07 | 0x0B | 0x0C | 0x11 => d.len() == 0,
        0x08 => d.len() >= 2,
        0x0F => d.len() >= 5 && d.len() == 5 + d[4] && be16(d, 2) <= 8 * d[4],
        0x10 => d.len() >= 5 && d.len() == 5 + d[4] && d[4] == 2 * be16(d, 2),
        0x14 | 0x15 => is_counted(d),
        0x16 => d.len() == 6,
        0x17 => d.len() >= 9 && d.len() == 9 + d[8] && d[8] == 2 * be16(d, 6),
        0x18 => d.len() == 2,
        0x2B => d.len() >= 1,
        _ => false,
    }
}

/// Whether `d` has the layout of a response with this function code.
pub open spec fn fits_response(fc: u8, d: Seq<u8>) -> bool {
    if fc & 0x80 != 0 {
        d.len() == 1
    } else {
        match fc {
            0x01 | 0x02 => is_counted(d),
            0x03 | 0x04 | 0x17 => is_counted(d) && d[0] % 2 == 0,
            0x05 => d.len() == 4 && (be16(d, 2) == 0xFF00 || be16(d, 2) == 0x0000),
            0x06 | 0x0B | 0x0F | 0x10 => d.len() == 4,
            0x07 => d.len() == 1,
            0x08 => d.len() >= 2,
            0x0C => d.len() >= 7 && is_counted(d),
            0x11 => is_counted(d) && d[0] > 0,
            0x14 | 0x15 => is_counted(d),
            0x16 => d.len() == 6,
            0x18 => d.len() >= 4 && d.len() == 2 + be16(d, 0) && d.len() == 4 + 2 * be16(d, 2),
            0x2B => d.len() >= 1,
            _ => false,
        }
    }
}

/// The role that the layout of a PDU shows. It shows none where it fits both
/// roles or neither; a function code with its highest bit set stands for a
/// response by itself.
pub open spec fn layout_role(fc: u8, d: Seq<u8>) -> Role {
    if fc & 0x80 != 0 {
        Role::Response
    } else if fits_request(fc, d) && !fits_response(fc, d) {
        Role::Request
    } else if fits_response(fc, d) && !fits_request(fc, d) {
        Role::Response
    } else {
        Role::Unknown
    }
}

/// Whether `d` fits two different layouts, the one of a request and the one of a
/// response. (A function code whose requests and responses are laid out alike
/// has only one.)
pub open spec fn fits_two_layouts(fc: u8, d: Seq<u8>) -> bool {
    (fc == 0x01 || fc == 0x02 || fc == 0x17) && fits_request(fc, d) && fits_response(fc, d)
}

/// Whether the data is a byte count and that many bytes.
fn counted(data: &[u8]) -> (r: bool)
    ensures
        r == is_counted(data@),
{
    !data.is_empty() && data.len() == 1 + data[0] as usize
}

/// Whether the data is a coil address and a coil value.
fn coil_value(data: &[u8]) -> (r: bool)
    ensures
        r == (data@.len() == 4 && (be16(data@, 2) == 0xFF00 || be16(data@, 2) == 0x0000)),
{
    match u16be(data, 2) {
        Some(value) => data.len() == 4 && (value == 0xFF00 || value == 0x0000),
        None => false,
    }
}

/// Whether the data has the layout of a request.
fn request_layout(fc: u8, data: &[u8]) -> (r: bool)
    ensures
        r == fits_request(fc, data@),
{
    let len: usize = data.len();
    match fc {
        0x01 | 0x02 | 0x03 | 0x04 | 0x06 => len == 4,
        0x05 => coil_value(data),
        0x07 | 0x0B | 0x0C | 0x11 => len == 0,
        0x08 => len >= 2,
        0x0F => match u16be(data, 2) {
            Some(count) => len >= 5 && len == 5 + data[4] as usize && count as usize <= 8 * (
            data[4] as usize),
            None => false,
        },
        0x10 => match u16be(data, 2) {
            Some(count) => len >= 5 && len == 5 + data[4] as usize && data[4] as usize == 2 * (
            count as usize),
            None => false,
        },
        0x14 | 0x15 => counted(data),
        0x16 => len == 6,
        0x17 => match u16be(data, 6) {
            Some(count) => len >= 9 && len == 9 + data[8] as usize && data[8] as usize == 2 * (
            count as usize),
            None => false,
        },
        0x18 => len == 2,
        0x2B => len >= 1,
        _ => false,
    }
}

/// Whether the data has the layout of a response.
fn response_layout(fc: u8, data: &[u8]) -> (r: bool)
    ensures
        r == fits_response(fc, data@),
{
    let len: usize = data.len();
    if fc & 0x80 != 0 {
        return len == 1;
    }
    match fc {
        0x01 | 0x02 | 0x14 | 0x15 => counted(data),
        0x03 | 0x04 | 0x17 => counted(data) && data[0] % 2 == 0,
        0x05 => coil_value(data),
        0x06 | 0x0B | 0x0F | 0x10 => len == 4,
        0x07 => len == 1,
        0x08 => len >= 2,
        0x0C => len >= 7 && counted(data),
        0x11 => counted(data) && data[0] > 0,
        0x16 => len == 6,
        0x18 => match (u16be(data, 0), u16be(data, 2)) {
            (Some(bytes), Some(count)) => len == 2 + bytes as usize && len == 4 + 2 * (
            count as usize),
            _ => false,
        },
        0x2B => len >= 1,
        _ => false,
    }
}

/// Whether the data could be a request and, in another layout, a response.
pub fn has_two_readings(fc: u8, data: &[u8]) -> (r: bool)
    ensures
        r == fits_two_layouts(fc, data@),
{
    (fc == 0x01 || fc == 0x02 || fc == 0x17) && request_layout(fc, data) && response_layout(
        fc,
        data,
    )
}

/// Infer the role of a frame from its PDU layout when the caller has no
/// context. Returns `Unknown` if the layout is ambiguous or malformed.
pub fn infer_role(fc: u8, data: &[u8]) -> (r: Role)
    ensures
        r == layout_role(fc, data@),
{
    if fc & 0x80 != 0 {
        return Role::Response;
    }
    match (request_layout(fc, data), response_layout(fc, data)) {
        (true, false) => Role::Request,
        (false, true) => Role::Response,
        _ => Role::Unknown,
    }
}

// --- decoding, one function code after another -------------------------------

/// FC 0x01 and 0x02.
pub open spec fn read_bits(fc: u8, role: Role, d: Seq<u8>) -> PduModel {
    if role == Role::Request {
        if d.len() != 4 {
            failure(
                function_name_text(fc) + " request: expected 4 bytes, got "@ + text::dec_text(
                    d.len(),
                ),
            )
        } else {
            PduModel::ReadCoilsReq { start: be16(d, 0), count: be16(d, 2) }
        }
    } else if d.len() == 0 {
        failure(function_name_text(fc) + " response: empty"@)
    } else if d.len() != 1 + d[0] {
        failure(
            function_name_text(fc) + " response: byte count "@ + text::dec_text(d[0] as nat)
                + " but "@ + text::dec_text((d.len() - 1) as nat) + " data bytes"@,
        )
    } else {
        PduModel::ReadCoilsResp { bits: bit_run(d, 1, 8 * d[0] as nat) }
    }
}

fn parse_read_bits(fc: u8, role: Role, d: &[u8]) -> (r: PduDetails)
    ensures
        r@ == read_bits(fc, role, d@),
{
    match role {
        Role::Request => {
            if d.len() != 4 {
                return raw_named_count(fc, " request: expected 4 bytes, got ", d.len());
            }
            PduDetails::ReadCoilsReq { start: u16be(d, 0).unwrap(), count: u16be(d, 2).unwrap() }
        },
        _ => {
            if d.is_empty() {
                return raw_named(fc, " response: empty");
            }
            let bc = d[0] as usize;
            if d.len() != 1 + bc {
                return raw_named_counts(
                    fc,
                    " response: byte count ",
                    bc,
                    " but ",
                    d.len() - 1,
                    " data bytes",
                );
            }
            PduDetails::ReadCoilsResp { bits: bytes_to_bits(d, 1, bc * 8) }
        },
    }
}

/// FC 0x03 and 0x04.
pub open spec fn read_registers(fc: u8, role: Role, d: Seq<u8>) -> PduModel {
    if role == Role::Request {
        if d.len() != 4 {
            failure(
                function_name_text(fc) + " request: expected 4 bytes, got "@ + text::dec_text(
                    d.len(),
                ),
            )
        } else {
            PduModel::ReadRegsReq { start: be16(d, 0), count: be16(d, 2) }
        }
    } else if d.len() == 0 {
        failure(function_name_text(fc) + " response: empty"@)
    } else if d.len() != 1 + d[0] || d[0] % 2 != 0 {
        failure(
            function_name_text(fc) + " response: bad byte count "@ + text::dec_text(d[0] as nat)
                + " for "@ + text::dec_text((d.len() - 1) as nat) + " data bytes"@,
        )
    } else {
        PduModel::ReadRegsResp { values: words(d, 1, (d[0] / 2) as nat) }
    }
}

fn parse_read_regs(fc: u8, role: Role, d: &[u8]) -> (r: PduDetails)
    ensures
        r@ == read_registers(fc, role, d@),
{
    match role {
        Role::Request => {
            if d.len() != 4 {
                return raw_named_count(fc, " request: expected 4 bytes, got ", d.len());
            }
            PduDetails::ReadRegsReq { start: u16be(d, 0).unwrap(), count: u16be(d, 2).unwrap() }
        },
        _ => {
            if d.is_empty() {
                return raw_named(fc, " response: empty");
            }
            let bc = d[0] as usize;
            if d.len() != 1 + bc || bc % 2 != 0 {
                return raw_named_counts(
                    fc,
                    " response: bad byte count ",
                    bc,
                    " for ",
                    d.len() - 1,
                    " data bytes",
                );
            }
            PduDetails::ReadRegsResp { values: read_regs(d, 1, bc / 2).unwrap_or_default() }
        },
    }
}

/// FC 0x05.
pub open spec fn write_single_coil(role: Role, d: Seq<u8>) -> PduModel {
    if d.len() != 4 {
        failure("Write Single Coil: expected 4 bytes, got "@ + text::dec_text(d.len()))
    } else if be16(d, 2) != 0xFF00 && be16(d, 2) != 0x0000 {
        failure("Write Single Coil: invalid value 0x"@ + text::hex_fixed(be16(d, 2) as nat, 4))
    } else if role == Role::Request {
        PduModel::WriteSingleCoilReq { addr: be16(d, 0), on: be16(d, 2) == 0xFF00 }
    } else {
        PduModel::WriteSingleCoilResp { addr: be16(d, 0), on: be16(d, 2) == 0xFF00 }
    }
}

fn parse_write_single_coil(role: Role, d: &[u8]) -> (r: PduDetails)
    ensures
        r@ == write_single_coil(role, d@),
{
    if d.len() != 4 {
        return raw_count("Write Single Coil: expected 4 bytes, got ", d.len());
    }
    let addr = u16be(d, 0).unwrap();
    let value = u16be(d, 2).unwrap();
    let on = match value {
        0xFF00 => true,
        0x0000 => false,
        _ => {
            return raw(
                String::from_str("Write Single Coil: invalid value 0x").concat(
                    text::hex4(value).as_str(),
                ),
            );
        },
    };
    match role {
        Role::Request => PduDetails::WriteSingleCoilReq { addr, on },
        _ => PduDetails::WriteSingleCoilResp { addr, on },
    }
}

/// FC 0x06.
pub open spec fn write_single_register(role: Role, d: Seq<u8>) -> PduModel {
    if d.len() != 4 {
        failure("Write Single Register: expected 4 bytes, got "@ + text::dec_text(d.len()))
    } else if role == Role::Request {
        PduModel::WriteSingleRegReq { addr: be16(d, 0), value: be16(d, 2) }
    } else {
        PduModel::WriteSingleRegResp { addr: be16(d, 0), value: be16(d, 2) }
    }
}

fn parse_write_single_reg(role: Role, d: &[u8]) -> (r: PduDetails)
    ensures
        r@ == write_single_register(role, d@),
{
    if d.len() != 4 {
        return raw_count("Write Single Register: expected 4 bytes, got ", d.len());
    }
    let addr = u16be(d, 0).unwrap();
    let value = u16be(d, 2).unwrap();
    match role {
        Role::Request => PduDetails::WriteSingleRegReq { addr, value },
        _ => PduDetails::WriteSingleRegResp { addr, value },
    }
}

/// FC 0x07.
pub open spec fn read_exception_status(role: Role, d: Seq<u8>) -> PduModel {
    if role == Role::Request {
        if d.len() != 0 {
            failure(
                "Read Exception Status request: expected 0 bytes, got "@ + text::dec_text(d.len()),
            )
        } else {
            failure("Read Exception Status (request, no data)"@)
        }
    } else if d.len() != 1 {
        failure("Read Exception Status response: expected 1 byte, got "@ + text::dec_text(d.len()))
    } else {
        PduModel::ReadExceptionStatusResp { status: d[0] }
    }
}

fn parse_read_exception_status(role: Role, d: &[u8]) -> (r: PduDetails)
    ensures
        r@ == read_exception_status(role, d@),
{
    match role {
        Role::Request => {
            if !d.is_empty() {
                return raw_count(
                    "Read Exception Status request: expected 0 bytes, got ",
                    d.len(),
                );
            }
            raw_text("Read Exception Status (request, no data)")
        },
        _ => {
            if d.len() != 1 {
                return raw_count(
                    "Read Exception Status response: expected 1 byte, got ",
                    d.len(),
                );
            }
            PduDetails::ReadExceptionStatusResp { status: d[0] }
        },
    }
}

/// FC 0x08.
pub open spec fn diagnostic(d: Seq<u8>) -> PduModel {
    if d.len() < 2 {
        failure("Diagnostics: expected ≥2 bytes, got "@ + text::dec_text(d.len()))
    } else {
        PduModel::Diagnostic { sub: be16(d, 0), data: d.skip(2) }
    }
}

fn parse_diagnostic(d: &[u8]) -> (r: PduDetails)
    ensures
        r@ == diagnostic(d@),
{
    if d.len() < 2 {
        return raw_count("Diagnostics: expected ≥2 bytes, got ", d.len());
    }
    PduDetails::Diagnostic { sub: u16be(d, 0).unwrap(), data: bytes_between(d, 2, d.len()) }
}

/// FC 0x0B.
pub open spec fn comm_event_counter(role: Role, d: Seq<u8>) -> PduModel {
    if role == Role::Request {
        if d.len() != 0 {
            failure(
                "Get Comm Event Counter request: expected 0 bytes, got "@ + text::dec_text(d.len()),
            )
        } else {
            failure("Get Comm Event Counter (request, no data)"@)
        }
    } else if d.len() != 4 {
        failure(
            "Get Comm Event Counter response: expected 4 bytes, got "@ + text::dec_text(d.len()),
        )
    } else {
        PduModel::CommEventCounterResp { status: be16(d, 0), event_count: be16(d, 2) }
    }
}

fn parse_comm_event_counter(role: Role, d: &[u8]) -> (r: PduDetails)
    ensures
        r@ == comm_event_counter(role, d@),
{
    match role {
        Role::Request => {
            if !d.is_empty() {
                return raw_count(
                    "Get Comm Event Counter request: expected 0 bytes, got ",
                    d.len(),
                );
            }
            raw_text("Get Comm Event Counter (request, no data)")
        },
        _ => {
            if d.len() != 4 {
                return raw_count(
                    "Get Comm Event Counter response: expected 4 bytes, got ",
                    d.len(),
                );
            }
            PduDetails::CommEventCounterResp {
                status: u16be(d, 0).unwrap(),
                event_count: u16be(d, 2).unwrap(),
            }
        },
    }
}

/// FC 0x0C.
pub open spec fn comm_event_log(role: Role, d: Seq<u8>) -> PduModel {
    if role == Role::Request {
        if d.len() != 0 {
            failure(
                "Get Comm Event Log request: expected 0 bytes, got "@ + text::dec_text(d.len()),
            )
        } else {
            failure("Get Comm Event Log (request, no data)"@)
        }
    } else if d.len() < 7 {
        failure("Get Comm Event Log response: expected ≥7 bytes, got "@ + text::dec_text(d.len()))
    } else if d.len() != 1 + d[0] {
        failure(
            "Get Comm Event Log: byte count "@ + text::dec_text(d[0] as nat) + " but "@
                + text::dec_text((d.len() - 1) as nat) + " data bytes"@,
        )
    } else {
        PduModel::CommEventLogResp {
            status: be16(d, 1),
            event_count: be16(d, 3),
            message_count: be16(d, 5),
            events: d.skip(7),
        }
    }
}

fn parse_comm_event_log(role: Role, d: &[u8]) -> (r: PduDetails)
    ensures
        r@ == comm_event_log(role, d@),
{
    match role {
        Role::Request => {
            if !d.is_empty() {
                return raw_count("Get Comm Event Log request: expected 0 bytes, got ", d.len());
            }
            raw_text("Get Comm Event Log (request, no data)")
        },
        _ => {
            if d.len() < 7 {
                return raw_count("Get Comm Event Log response: expected ≥7 bytes, got ", d.len());
            }
            let bc = d[0] as usize;
            if d.len() != 1 + bc {
                return raw_counts(
                    "Get Comm Event Log: byte count ",
                    bc,
                    " but ",
                    d.len() - 1,
                    " data bytes",
                );
            }
            PduDetails::CommEventLogResp {
                status: u16be(d, 1).unwrap(),
                event_count: u16be(d, 3).unwrap(),
                message_count: u16be(d, 5).unwrap(),
                events: bytes_between(d, 7, d.len()),
            }
        },
    }
}

/// FC 0x0F. The byte count must hold at least as many bits as are counted.
pub open spec fn write_multiple_coils(role: Role, d: Seq<u8>) -> PduModel {
    if role == Role::Response {
        if d.len() != 4 {
            failure(
                "Write Multiple Coils response: expected 4 bytes, got "@ + text::dec_text(d.len()),
            )
        } else {
            PduModel::WriteMultipleCoilsResp { start: be16(d, 0), count: be16(d, 2) }
        }
    } else if d.len() < 5 {
        failure(
            "Write Multiple Coils request: expected ≥5 bytes, got "@ + text::dec_text(d.len()),
        )
    } else if d.len() != 5 + d[4] {
        failure(
            "Write Multiple Coils: byte count "@ + text::dec_text(d[4] as nat) + " but "@
                + text::dec_text((d.len() - 5) as nat) + " bytes"@,
        )
    } else if be16(d, 2) > 8 * d[4] {
        failure(
            "Write Multiple Coils: "@ + text::dec_text(be16(d, 2) as nat)
                + " coils do not fit in "@ + text::dec_text(d[4] as nat) + " bytes"@,
        )
    } else {
        PduModel::WriteMultipleCoilsReq {
            start: be16(d, 0),
            count: be16(d, 2),
            bits: bit_run(d, 5, be16(d, 2) as nat),
        }
    }
}

fn parse_write_multiple_coils(role: Role, d: &[u8]) -> (r: PduDetails)
    ensures
        r@ == write_multiple_coils(role, d@),
{
    match role {
        Role::Response => {
            if d.len() != 4 {
                return raw_count(
                    "Write Multiple Coils response: expected 4 bytes, got ",
                    d.len(),
                );
            }
            PduDetails::WriteMultipleCoilsResp {
                start: u16be(d, 0).unwrap(),
                count: u16be(d, 2).unwrap(),
            }
        },
        _ => {
            if d.len() < 5 {
                return raw_count(
                    "Write Multiple Coils request: expected ≥5 bytes, got ",
                    d.len(),
                );
            }
            let start = u16be(d, 0).unwrap();
            let count = u16be(d, 2).unwrap();
            let bc = d[4] as usize;
            if d.len() != 5 + bc {
                return raw_counts(
                    "Write Multiple Coils: byte count ",
                    bc,
                    " but ",
                    d.len() - 5,
                    " bytes",
                );
            }
            if count as usize > 8 * bc {
                return raw_counts(
                    "Write Multiple Coils: ",
                    count as usize,
                    " coils do not fit in ",
                    bc,
                    " bytes",
                );
            }
            PduDetails::WriteMultipleCoilsReq {
                start,
                count,
                bits: bytes_to_bits(d, 5, count as usize),
            }
        },
    }
}

/// FC 0x10.
pub open spec fn write_multiple_registers(role: Role, d: Seq<u8>) -> PduModel {
    if role == Role::Response {
        if d.len() != 4 {
            failure(
                "Write Holding Registers response: expected 4 bytes, got "@ + text::dec_text(
                    d.len(),
                ),
            )
        } else {
            PduModel::WriteMultipleRegsResp { start: be16(d, 0), count: be16(d, 2) }
        }
    } else if d.len() < 5 {
        failure(
            "Write Holding Registers request: expected ≥5 bytes, got "@ + text::dec_text(d.len()),
        )
    } else if d.len() != 5 + d[4] || d[4] != 2 * be16(d, 2) {
        failure(
            "Write Holding Registers: inconsistent count "@ + text::dec_text(be16(d, 2) as nat)
                + " / byte count "@ + text::dec_text(d[4] as nat) + " / "@ + text::dec_text(
                (d.len() - 5) as nat,
            ) + " bytes"@,
        )
    } else {
        PduModel::WriteMultipleRegsReq {
            start: be16(d, 0),
            count: be16(d, 2),
            values: words(d, 5, be16(d, 2) as nat),
        }
    }
}

fn parse_write_multiple_regs(role: Role, d: &[u8]) -> (r: PduDetails)
    ensures
        r@ == write_multiple_registers(role, d@),
{
    match role {
        Role::Response => {
            if d.len() != 4 {
                return raw_count(
                    "Write Holding Registers response: expected 4 bytes, got ",
                    d.len(),
                );
            }
            PduDetails::WriteMultipleRegsResp {
                start: u16be(d, 0).unwrap(),
                count: u16be(d, 2).unwrap(),
            }
        },
        _ => {
            if d.len() < 5 {
                return raw_count(
                    "Write Holding Registers request: expected ≥5 bytes, got ",
                    d.len(),
                );
            }
            let start = u16be(d, 0).unwrap();
            let count = u16be(d, 2).unwrap();
            let bc = d[4] as usize;
            if d.len() != 5 + bc || bc % 2 != 0 || bc / 2 != count as usize {
                return raw(
                    String::from_str("Write Holding Registers: inconsistent count ").concat(
                        text::dec(count as u64).as_str(),
                    ).concat(" / byte count ").concat(text::dec(bc as u64).as_str()).concat(
                        " / ",
                    ).concat(text::dec((d.len() - 5) as u64).as_str()).concat(" bytes"),
                );
            }
            PduDetails::WriteMultipleRegsReq {
                start,
                count,
                values: read_regs(d, 5, count as usize).unwrap_or_default(),
            }
        },
    }
}

/// FC 0x11.
pub open spec fn report_slave_id(role: Role, d: Seq<u8>) -> PduModel {
    if role == Role::Request {
        if d.len() != 0 {
            failure("Report Slave ID request: expected 0 bytes, got "@ + text::dec_text(d.len()))
        } else {
            failure("Report Slave ID (request, no data)"@)
        }
    } else if d.len() == 0 {
        failure("Report Slave ID response: empty"@)
    } else if d.len() != 1 + d[0] || d[0] == 0 {
        failure(
            "Report Slave ID: byte count "@ + text::dec_text(d[0] as nat) + " but "@
                + text::dec_text((d.len() - 1) as nat) + " data bytes"@,
        )
    } else {
        PduModel::ReportSlaveIdResp {
            slave_id: d.subrange(1, d.len() - 1),
            run_indicator: d.last(),
        }
    }
}

fn parse_report_slave_id(role: Role, d: &[u8]) -> (r: PduDetails)
    ensures
        r@ == report_slave_id(role, d@),
{
    match role {
        Role::Request => {
            if !d.is_empty() {
                return raw_count("Report Slave ID request: expected 0 bytes, got ", d.len());
            }
            raw_text("Report Slave ID (request, no data)")
        },
        _ => {
            if d.is_empty() {
                return raw_text("Report Slave ID response: empty");
            }
            let bc = d[0] as usize;
            if d.len() != 1 + bc || bc == 0 {
                return raw_counts(
                    "Report Slave ID: byte count ",
                    bc,
                    " but ",
                    d.len() - 1,
                    " data bytes",
                );
            }
            PduDetails::ReportSlaveIdResp {
                slave_id: bytes_between(d, 1, d.len() - 1),
                run_indicator: d[d.len() - 1],
            }
        },
    }
}

/// FC 0x14 and 0x15. A read request is a run of sub-requests of seven bytes
/// each; a rest that is too short for one is left out.
pub open spec fn file_records(fc: u8, role: Role, d: Seq<u8>) -> PduModel {
    if d.len() == 0 {
        failure(function_name_text(fc) + ": empty"@)
    } else if d.len() != 1 + d[0] {
        failure(
            function_name_text(fc) + ": byte count "@ + text::dec_text(d[0] as nat) + " but "@
                + text::dec_text((d.len() - 1) as nat) + " data bytes"@,
        )
    } else if fc == 0x14 && role == Role::Request {
        PduModel::ReadFileRecordsReq {
            sub_requests: Seq::new((d[0] / 7) as nat, |k: int| sub_request(d, 1 + 7 * k)),
        }
    } else if fc == 0x14 {
        PduModel::ReadFileRecordsResp { byte_count: d[0], data: d.skip(1) }
    } else {
        PduModel::WriteFileRecords { byte_count: d[0], data: d.skip(1) }
    }
}

fn parse_file_records(fc: u8, role: Role, d: &[u8]) -> (r: PduDetails)
    ensures
        r@ == file_records(fc, role, d@),
{
    if d.is_empty() {
        return raw_named(fc, ": empty");
    }
    let bc = d[0] as usize;
    if d.len() != 1 + bc {
        return raw_named_counts(fc, ": byte count ", bc, " but ", d.len() - 1, " data bytes");
    }
    if fc == 0x14 && role == Role::Request {
        let mut subs: Vec<FileSubRequest> = Vec::new();
        let mut i: usize = 1;
        while i + 7 <= d.len()
            invariant
                d@.len() == 1 + d@[0],
                1 <= i <= d@.len(),
                i == 1 + 7 * subs@.len(),
                subs@ == Seq::new(subs@.len(), |k: int| sub_request(d@, 1 + 7 * k)),
            decreases d@.len() - i,
        {
            let sub = FileSubRequest {
                reference_type: d[i],
                file_number: u16be(d, i + 1).unwrap(),
                record_number: u16be(d, i + 3).unwrap(),
                record_length: u16be(d, i + 5).unwrap(),
            };
            assert(sub == sub_request(d@, i as int));
            subs.push(sub);
            i = i + 7;
            assert(subs@ =~= Seq::new(subs@.len(), |k: int| sub_request(d@, 1 + 7 * k)));
        }
        assert(subs@.len() == d@[0] / 7);
        PduDetails::ReadFileRecordsReq { sub_requests: subs }
    } else if fc == 0x14 {
        PduDetails::ReadFileRecordsResp { byte_count: d[0], data: bytes_between(d, 1, d.len()) }
    } else {
        PduDetails::WriteFileRecords { byte_count: d[0], data: bytes_between(d, 1, d.len()) }
    }
}

/// FC 0x16. Request and response share the same layout; role does not change it.
pub open spec fn mask_write_register(d: Seq<u8>) -> PduModel {
    if d.len() != 6 {
        failure("Mask Write Register: expected 6 bytes, got "@ + text::dec_text(d.len()))
    } else {
        PduModel::MaskWriteRegReq { addr: be16(d, 0), and_mask: be16(d, 2), or_mask: be16(d, 4) }
    }
}

fn parse_mask_write_reg(d: &[u8]) -> (r: PduDetails)
    ensures
        r@ == mask_write_register(d@),
{
    if d.len() != 6 {
        return raw_count("Mask Write Register: expected 6 bytes, got ", d.len());
    }
    PduDetails::MaskWriteRegReq {
        addr: u16be(d, 0).unwrap(),
        and_mask: u16be(d, 2).unwrap(),
        or_mask: u16be(d, 4).unwrap(),
    }
}

/// FC 0x17.
pub open spec fn read_write_multiple_registers(role: Role, d: Seq<u8>) -> PduModel {
    if role == Role::Response {
        if d.len() == 0 {
            failure("Read/Write Multiple Registers response: empty"@)
        } else if d.len() != 1 + d[0] || d[0] % 2 != 0 {
            failure(
                "Read/Write Multiple Registers response: bad byte count "@ + text::dec_text(
                    d[0] as nat,
                ),
            )
        } else {
            PduModel::ReadWriteMultipleRegsResp { read_values: words(d, 1, (d[0] / 2) as nat) }
        }
    } else if d.len() < 9 {
        failure(
            "Read/Write Multiple Registers request: expected ≥9 bytes, got "@ + text::dec_text(
                d.len(),
            ),
        )
    } else if d.len() != 9 + d[8] || d[8] != 2 * be16(d, 6) {
        failure("Read/Write Multiple Registers request: inconsistent write count"@)
    } else {
        PduModel::ReadWriteMultipleRegsReq {
            read_start: be16(d, 0),
            read_count: be16(d, 2),
            write_start: be16(d, 4),
            write_count: be16(d, 6),
            write_values: words(d, 9, be16(d, 6) as nat),
        }
    }
}

fn parse_read_write_multiple_regs(role: Role, d: &[u8]) -> (r: PduDetails)
    ensures
        r@ == read_write_multiple_registers(role, d@),
{
    match role {
        Role::Response => {
            if d.is_empty() {
                return raw_text("Read/Write Multiple Registers response: empty");
            }
            let bc = d[0] as usize;
            if d.len() != 1 + bc || bc % 2 != 0 {
                return raw_count("Read/Write Multiple Registers response: bad byte count ", bc);
            }
            PduDetails::ReadWriteMultipleRegsResp {
                read_values: read_regs(d, 1, bc / 2).unwrap_or_default(),
            }
        },
        _ => {
            if d.len() < 9 {
                return raw_count(
                    "Read/Write Multiple Registers request: expected ≥9 bytes, got ",
                    d.len(),
                );
            }
            let write_count = u16be(d, 6).unwrap();
            let bc = d[8] as usize;
            if d.len() != 9 + bc || bc % 2 != 0 || bc / 2 != write_count as usize {
                return raw_text(
                    "Read/Write Multiple Registers request: inconsistent write count",
                );
            }
            PduDetails::ReadWriteMultipleRegsReq {
                read_start: u16be(d, 0).unwrap(),
                read_count: u16be(d, 2).unwrap(),
                write_start: u16be(d, 4).unwrap(),
                write_count,
                write_values: read_regs(d, 9, write_count as usize).unwrap_or_default(),
            }
        },
    }
}

/// FC 0x18.
pub open spec fn read_fifo_queue(role: Role, d: Seq<u8>) -> PduModel {
    if role == Role::Request {
        if d.len() != 2 {
            failure("Read FIFO Queue request: expected 2 bytes, got "@ + text::dec_text(d.len()))
        } else {
            failure(
                "Read FIFO Queue (request, addr 0x"@ + text::hex_fixed(be16(d, 0) as nat, 4)
                    + ")"@,
            )
        }
    } else if d.len() < 4 {
        failure("Read FIFO Queue response: expected ≥4 bytes, got "@ + text::dec_text(d.len()))
    } else if d.len() != 2 + be16(d, 0) {
        failure(
            "Read FIFO Queue response: byte count "@ + text::dec_text(be16(d, 0) as nat) + " but "@
                + text::dec_text((d.len() - 2) as nat) + " bytes"@,
        )
    } else if d.len() != 4 + 2 * be16(d, 2) {
        failure(
            "Read FIFO Queue response: queue count "@ + text::dec_text(be16(d, 2) as nat)
                + " but "@ + text::dec_text((d.len() - 4) as nat) + " value bytes"@,
        )
    } else {
        PduModel::ReadFifoQueueResp {
            fifo_count: be16(d, 2),
            values: words(d, 4, be16(d, 2) as nat),
        }
    }
}

fn parse_read_fifo_queue(role: Role, d: &[u8]) -> (r: PduDetails)
    ensures
        r@ == read_fifo_queue(role, d@),
{
    match role {
        Role::Request => {
            if d.len() != 2 {
                return raw_count("Read FIFO Queue request: expected 2 bytes, got ", d.len());
            }
            raw(
                String::from_str("Read FIFO Queue (request, addr 0x").concat(
                    text::hex4(u16be(d, 0).unwrap()).as_str(),
                ).concat(")"),
            )
        },
        _ => {
            if d.len() < 4 {
                return raw_count("Read FIFO Queue response: expected ≥4 bytes, got ", d.len());
            }
            let bc = u16be(d, 0).unwrap() as usize;
            if d.len() != 2 + bc {
                return raw_counts(
                    "Read FIFO Queue response: byte count ",
                    bc,
                    " but ",
                    d.len() - 2,
                    " bytes",
                );
            }
            let fifo_count = u16be(d, 2).unwrap();
            if d.len() != 4 + 2 * (fifo_count as usize) {
                return raw_counts(
                    "Read FIFO Queue response: queue count ",
                    fifo_count as usize,
                    " but ",
                    d.len() - 4,
                    " value bytes",
                );
            }
            PduDetails::ReadFifoQueueResp {
                fifo_count,
                values: read_regs(d, 4, fifo_count as usize).unwrap_or_default(),
            }
        },
    }
}

/// FC 0x2B.
pub open spec fn encapsulated_interface(d: Seq<u8>) -> PduModel {
    if d.len() == 0 {
        failure("Encapsulated Interface Transport: empty"@)
    } else {
        PduModel::EncapsulatedInterface { mei_type: d[0], data: d.skip(1) }
    }
}

fn parse_encapsulated_interface(d: &[u8]) -> (r: PduDetails)
    ensures
        r@ == encapsulated_interface(d@),
{
    if d.is_empty() {
        return raw_text("Encapsulated Interface Transport: empty");
    }
    PduDetails::EncapsulatedInterface { mei_type: d[0], data: bytes_between(d, 1, d.len()) }
}

/// An exception response: the function code has its highest bit set.
pub open spec fn exception_response(function: u8, d: Seq<u8>) -> PduModel {
    if d.len() == 0 {
        failure("Exception response missing exception code"@)
    } else if d.len() == 1 {
        PduModel::Exception { code: d[0] }
    } else {
        failure(
            "Exception response for "@ + function_name_text(function & 0x7F)
                + " has extra bytes (expected 1, got "@ + text::dec_text(d.len()) + ")"@,
        )
    }
}

fn parse_exception_response(function: u8, d: &[u8]) -> (r: PduDetails)
    ensures
        r@ == exception_response(function, d@),
{
    if d.is_empty() {
        raw_text("Exception response missing exception code")
    } else if d.len() == 1 {
        PduDetails::Exception { code: d[0] }
    } else {
        raw(
            String::from_str("Exception response for ").concat(
                function_name(function & 0x7F),
            ).concat(" has extra bytes (expected 1, got ").concat(
                text::dec(d.len() as u64).as_str(),
            ).concat(")"),
        )
    }
}

// --- the whole PDU -----------------------------------------------------------

/// The contents of a PDU of a role that is settled.
pub open spec fn decode(role: Role, function: u8, d: Seq<u8>) -> PduModel {
    if function & 0x80 != 0 {
        exception_response(function, d)
    } else {
        match function {
            0x01 | 0x02 => read_bits(function, role, d),
            0x03 | 0x04 => read_registers(function, role, d),
            0x05 => write_single_coil(role, d),
            0x06 => write_single_register(role, d),
            0x07 => read_exception_status(role, d),
            0x08 => diagnostic(d),
            0x0B => comm_event_counter(role, d),
            0x0C => comm_event_log(role, d),
            0x0F => write_multiple_coils(role, d),
            0x10 => write_multiple_registers(role, d),
            0x11 => report_slave_id(role, d),
            0x14 | 0x15 => file_records(function, role, d),
            0x16 => mask_write_register(d),
            0x17 => read_write_multiple_registers(role, d),
            0x18 => read_fifo_queue(role, d),
            0x2B => encapsulated_interface(d),
            _ => failure("Unknown Function 0x"@ + text::hex_fixed(function as nat, 2)),
        }
    }
}

/// The role a PDU is read in: an exception is a response, a hint is taken as
/// it is, and without a hint the layout decides.
pub open spec fn settled_role(role_hint: Role, function: u8, d: Seq<u8>) -> Role {
    if function & 0x80 != 0 {
        Role::Response
    } else if role_hint == Role::Unknown {
        layout_role(function, d)
    } else {
        role_hint
    }
}

/// A PDU as read under a role hint.
pub open spec fn decode_pdu(role_hint: Role, function: u8, d: Seq<u8>) -> ParsedModel {
    let role = settled_role(role_hint, function, d);
    ParsedModel { function, role, details: decode(role, function, d) }
}

/// Parse a PDU given a role hint. If the hint is `Unknown`, the role is
/// inferred from the layout and stored on the result.
pub fn parse_pdu(role_hint: Role, function: u8, data: &[u8]) -> (r: ParsedPdu)
    ensures
        r@ == decode_pdu(role_hint, function, data@),
{
    if function & 0x80 != 0 {
        return ParsedPdu {
            function,
            role: Role::Response,
            details: parse_exception_response(function, data),
        };
    }
    let role = match role_hint {
        Role::Unknown => infer_role(function, data),
        other => other,
    };
    let details = match function {
        0x01 | 0x02 => parse_read_bits(function, role, data),
        0x03 | 0x04 => parse_read_regs(function, role, data),
        0x05 => parse_write_single_coil(role, data),
        0x06 => parse_write_single_reg(role, data),
        0x07 => parse_read_exception_status(role, data),
        0x08 => parse_diagnostic(data),
        0x0B => parse_comm_event_counter(role, data),
        0x0C => parse_comm_event_log(role, data),
        0x0F => parse_write_multiple_coils(role, data),
        0x10 => parse_write_multiple_regs(role, data),
        0x11 => parse_report_slave_id(role, data),
        0x14 | 0x15 => parse_file_records(function, role, data),
        0x16 => parse_mask_write_reg(data),
        0x17 => parse_read_write_multiple_regs(role, data),
        0x18 => parse_read_fifo_queue(role, data),
        0x2B => parse_encapsulated_interface(data),
        _ => raw(String::from_str("Unknown Function 0x").concat(text::hex2(function).as_str())),
    };
    ParsedPdu { function, role, details }
}

// --- laws --------------------------------------------------------------------

/// Whether `d` is the data of a request that consists of nothing but its
/// function code, or of a single address.
pub open spec fn is_bare_request(fc: u8, d: Seq<u8>) -> bool {
    ||| (fc == 0x07 || fc == 0x0B || fc == 0x0C || fc == 0x11) && d.len() == 0
    ||| fc == 0x18 && d.len() == 2
}

/// Layouts are what the decoder accepts: data fits a role exactly if it decodes
/// in that role, or is a request without values.
pub proof fn layouts_are_what_decodes(fc: u8, d: Seq<u8>)
    ensures
        fc & 0x80 == 0 ==> (fits_request(fc, d) <==> !(decode(Role::Request, fc, d) is Raw)
            || is_bare_request(fc, d)),
        fits_response(fc, d) <==> !(decode(Role::Response, fc, d) is Raw),
{
    assert(0x01u8 & 0x80 == 0 && 0x02u8 & 0x80 == 0 && 0x03u8 & 0x80 == 0 && 0x04u8 & 0x80 == 0
        && 0x05u8 & 0x80 == 0 && 0x06u8 & 0x80 == 0 && 0x07u8 & 0x80 == 0 && 0x08u8 & 0x80 == 0
        && 0x0Bu8 & 0x80 == 0 && 0x0Cu8 & 0x80 == 0 && 0x0Fu8 & 0x80 == 0 && 0x10u8 & 0x80 == 0
        && 0x11u8 & 0x80 == 0 && 0x14u8 & 0x80 == 0 && 0x15u8 & 0x80 == 0 && 0x16u8 & 0x80 == 0
        && 0x17u8 & 0x80 == 0 && 0x18u8 & 0x80 == 0 && 0x2Bu8 & 0x80 == 0) by (bit_vector);
}

/// A role inferred without a hint is one that the data decodes in and the other
/// role is not; where the layout is ambiguous or malformed none is inferred. An
/// exception response is a response whatever it holds.
pub proof fn inferred_role_is_the_only_one(fc: u8, d: Seq<u8>)
    requires
        fc & 0x80 == 0,
    ensures
        ({
            let asks = !(decode(Role::Request, fc, d) is Raw) || is_bare_request(fc, d);
            let answers = !(decode(Role::Response, fc, d) is Raw);
            &&& decode_pdu(Role::Unknown, fc, d).role == Role::Request <==> asks && !answers
            &&& decode_pdu(Role::Unknown, fc, d).role == Role::Response <==> answers && !asks
            &&& decode_pdu(Role::Unknown, fc, d).role == Role::Unknown <==> asks == answers
        }),
{
    layouts_are_what_decodes(fc, d);
}

/// A model holds every field of its PDU.
pub proof fn nothing_is_left_out(p: ParsedPdu)
    ensures
        p@.function == p.function,
        p@.role == p.role,
        p@.details == p.details@,
        match p.details {
            PduDetails::ReadCoilsReq { start, count } => p.details@ == (
            PduModel::ReadCoilsReq { start, count }),
            PduDetails::ReadCoilsResp { bits } => p.details@ == (
            PduModel::ReadCoilsResp { bits: bits@ }),
            PduDetails::ReadRegsReq { start, count } => p.details@ == (
            PduModel::ReadRegsReq { start, count }),
            PduDetails::ReadRegsResp { values } => p.details@ == (
            PduModel::ReadRegsResp { values: values@ }),
            PduDetails::WriteSingleCoilReq { addr, on } => p.details@ == (
            PduModel::WriteSingleCoilReq { addr, on }),
            PduDetails::WriteSingleCoilResp { addr, on } => p.details@ == (
            PduModel::WriteSingleCoilResp { addr, on }),
            PduDetails::WriteSingleRegReq { addr, value } => p.details@ == (
            PduModel::WriteSingleRegReq { addr, value }),
            PduDetails::WriteSingleRegResp { addr, value } => p.details@ == (
            PduModel::WriteSingleRegResp { addr, value }),
            PduDetails::ReadExceptionStatusResp { status } => p.details@ == (
            PduModel::ReadExceptionStatusResp { status }),
            PduDetails::Diagnostic { sub, data } => p.details@ == (
            PduModel::Diagnostic { sub, data: data@ }),
            PduDetails::CommEventCounterResp { status, event_count } => p.details@ == (
            PduModel::CommEventCounterResp { status, event_count }),
            PduDetails::CommEventLogResp { status, event_count, message_count, events } => p.details@ == (
            PduModel::CommEventLogResp { status, event_count, message_count, events: events@ }),
            PduDetails::WriteMultipleCoilsReq { start, count, bits } => p.details@ == (
            PduModel::WriteMultipleCoilsReq { start, count, bits: bits@ }),
            PduDetails::WriteMultipleCoilsResp { start, count } => p.details@ == (
            PduModel::WriteMultipleCoilsResp { start, count }),
            PduDetails::WriteMultipleRegsReq { start, count, values } => p.details@ == (
            PduModel::WriteMultipleRegsReq { start, count, values: values@ }),
            PduDetails::WriteMultipleRegsResp { start, count } => p.details@ == (
            PduModel::WriteMultipleRegsResp { start, count }),
            PduDetails::ReportSlaveIdResp { slave_id, run_indicator } => p.details@ == (
            PduModel::ReportSlaveIdResp { slave_id: slave_id@, run_indicator }),
            PduDetails::ReadFileRecordsReq { sub_requests } => p.details@ == (
            PduModel::ReadFileRecordsReq { sub_requests: sub_requests@ }),
            PduDetails::ReadFileRecordsResp { byte_count, data } => p.details@ == (
            PduModel::ReadFileRecordsResp { byte_count, data: data@ }),
            PduDetails::WriteFileRecords { byte_count, data } => p.details@ == (
            PduModel::WriteFileRecords { byte_count, data: data@ }),
            PduDetails::MaskWriteRegReq { addr, and_mask, or_mask } => p.details@ == (
            PduModel::MaskWriteRegReq { addr, and_mask, or_mask }),
            PduDetails::MaskWriteRegResp { addr, and_mask, or_mask } => p.details@ == (
            PduModel::MaskWriteRegResp { addr, and_mask, or_mask }),
            PduDetails::ReadWriteMultipleRegsReq {
                read_start,
                read_count,
                write_start,
                write_count,
                write_values,
            } => p.details@ == (PduModel::ReadWriteMultipleRegsReq {
                    read_start,
                    read_count,
                    write_start,
                    write_count,
                    write_values: write_values@,
                }),
            PduDetails::ReadWriteMultipleRegsResp { read_values } => p.details@ == (
            PduModel::ReadWriteMultipleRegsResp { read_values: read_values@ }),
            PduDetails::ReadFifoQueueResp { fifo_count, values } => p.details@ == (
            PduModel::ReadFifoQueueResp { fifo_count, values: values@ }),
            PduDetails::EncapsulatedInterface { mei_type, data } => p.details@ == (
            PduModel::EncapsulatedInterface { mei_type, data: data@ }),
            PduDetails::Exception { code } => p.details@ == (PduModel::Exception { code }),
            PduDetails::Raw { reason } => p.details@ == (PduModel::Raw { reason: reason@ }),
        },
{
}

} // verus!
