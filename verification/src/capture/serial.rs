//! Serial port and timing settings.

use vstd::prelude::*;

verus! {

broadcast use vstd::string::group_string_axioms;

/// Number of data bits in a character.
#[derive(Debug, Clone, Copy, PartialEq, Eq, Structural)]
pub enum DataBits {
    Five,
    Six,
    Seven,
    Eight,
}

/// Parity checking mode.
#[derive(Debug, Clone, Copy, PartialEq, Eq, Structural)]
pub enum Parity {
    NoParity,
    Odd,
    Even,
}

/// Number of stop bits behind a character.
#[derive(Debug, Clone, Copy, PartialEq, Eq, Structural)]
pub enum StopBits {
    One,
    Two,
}

/// Flow control mode.
#[derive(Debug, Clone, Copy, PartialEq, Eq, Structural)]
pub enum FlowControl {
    NoFlowControl,
    Software,
    Hardware,
}

/// Serial port + timing configuration chosen in the settings panel.
#[derive(Debug)]
pub struct SerialConfig {
    pub port: String,
    pub baud: u32,
    pub data_bits: DataBits,
    pub parity: Parity,
    pub stop_bits: StopBits,
    pub flow_control: FlowControl,
    /// How long to wait, in milliseconds, for a response before declaring
    /// timeout (and moving the request to the timed-out pool so a late reply
    /// becomes an ORPHAN).
    pub response_timeout: u64,
}

/// What a [`SerialConfig`] holds.
#[verifier::ext_equal]
pub struct SerialModel {
    pub port: Seq<char>,
    pub baud: u32,
    pub data_bits: DataBits,
    pub parity: Parity,
    pub stop_bits: StopBits,
    pub flow_control: FlowControl,
    pub response_timeout: u64,
}

impl View for SerialConfig {
    type V = SerialModel;

    open spec fn view(&self) -> SerialModel {
        SerialModel {
            port: self.port@,
            baud: self.baud,
            data_bits: self.data_bits,
            parity: self.parity,
            stop_bits: self.stop_bits,
            flow_control: self.flow_control,
            response_timeout: self.response_timeout,
        }
    }
}

impl Clone for SerialConfig {
    fn clone(&self) -> (r: Self)
        ensures
            r@ == self@,
    {
        SerialConfig {
            port: self.port.clone(),
            baud: self.baud,
            data_bits: self.data_bits,
            parity: self.parity,
            stop_bits: self.stop_bits,
            flow_control: self.flow_control,
            response_timeout: self.response_timeout,
        }
    }
}

impl Default for SerialConfig {
    /// 9600 baud, 8N1, no flow control, half a second for a response.
    fn default() -> (r: Self)
        ensures
            r@ == (SerialModel {
                port: Seq::empty(),
                baud: 9600,
                data_bits: DataBits::Eight,
                parity: Parity::NoParity,
                stop_bits: StopBits::One,
                flow_control: FlowControl::NoFlowControl,
                response_timeout: 500,
            }),
    {
        SerialConfig {
            port: String::new(),
            baud: 9600,
            data_bits: DataBits::Eight,
            parity: Parity::NoParity,
            stop_bits: StopBits::One,
            flow_control: FlowControl::NoFlowControl,
            response_timeout: 500,
        }
    }
}

/// A model holds every field of its configuration.
pub proof fn nothing_is_left_out(c: SerialConfig)
    ensures
        c@.port == c.port@,
        c@.baud == c.baud,
        c@.data_bits == c.data_bits,
        c@.parity == c.parity,
        c@.stop_bits == c.stop_bits,
        c@.flow_control == c.flow_control,
        c@.response_timeout == c.response_timeout,
{
}

} // verus!
