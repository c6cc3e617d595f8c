//! The serial port.

use vstd::prelude::*;

verus! {

/// Why a serial port could not be set up.
#[derive(Debug, Clone, Copy, PartialEq, Eq, Structural)]
pub enum SerialError {
    /// The port did not send back what was sent to it.
    SelfTestFailed,
}

/// Data can be read.
pub const DATA_READY: u8 = 0x01;

/// Data was lost.
pub const OVERRUN_ERROR: u8 = 0x02;

/// A parity error was seen.
pub const PARITY_ERROR: u8 = 0x04;

/// A stop bit was missing.
pub const FRAMING_ERROR: u8 = 0x08;

/// The line was held low.
pub const BREAK_INTERRUPT: u8 = 0x10;

/// Data can be written.
pub const TRANSMITTER_HOLDING_REGISTER_EMPTY: u8 = 0x20;

/// The byte that the self test sends.
pub const TEST_BYTE: u8 = 0xAE;

/// The status of the line.
#[derive(Debug, Clone, Copy, PartialEq, Eq, Structural)]
pub struct LineStatus {
    /// The flags, each at its bit.
    pub bits: u8,
}

impl LineStatus {
    /// The flags among `bits`; bits that are no flag are dropped.
    pub fn from_bits_truncate(bits: u8) -> (r: Self)
        ensures
            r.bits == bits & 0x3F,
    {
        Self { bits: bits & 0x3F }
    }

    /// Whether every flag of `other` is set.
    pub fn contains(&self, other: LineStatus) -> (r: bool)
        ensures
            r == (self.bits & other.bits == other.bits),
    {
        self.bits & other.bits == other.bits
    }
}

/// A write of a byte to a port.
#[derive(Debug, Clone, Copy, PartialEq, Eq, Structural)]
pub struct PortWrite {
    /// The port.
    pub port: u16,
    /// The byte.
    pub value: u8,
}

/// A serial port, by the first of its eight ports.
#[derive(Debug, Clone, Copy, PartialEq, Eq, Structural)]
pub struct SerialPort(pub u16);

impl SerialPort {
    /// The serial port whose ports start at `port`.
    pub fn new(port: u16) -> (r: Self)
        ensures
            r.0 == port,
    {
        Self(port)
    }

    /// The writes that set the port up and start its self test, in their
    /// order: interrupts off, the divisor 3 for 38400 baud, 8 bits without
    /// parity and one stop bit, the buffers on and cleared, loopback mode,
    /// and the test byte.
    pub open spec fn setup(self) -> Seq<PortWrite> {
        seq![
            PortWrite { port: (self.0 + 1) as u16, value: 0x00 },
            PortWrite { port: (self.0 + 3) as u16, value: 0x80 },
            PortWrite { port: self.0, value: 0x03 },
            PortWrite { port: (self.0 + 1) as u16, value: 0x00 },
            PortWrite { port: (self.0 + 3) as u16, value: 0x03 },
            PortWrite { port: (self.0 + 2) as u16, value: 0xC7 },
            PortWrite { port: (self.0 + 4) as u16, value: 0x0B },
            PortWrite { port: (self.0 + 4) as u16, value: 0x1E },
            PortWrite { port: self.0, value: 0xAE },
        ]
    }

    /// The writes that set the port up and start its self test.
    pub fn init_writes(&self) -> (r: Vec<PortWrite>)
        requires
            self.0 <= 0xFFF8,
        ensures
            r@ == self.setup(),
    {
        let r = vec![
            PortWrite { port: self.0 + 1, value: 0x00 },
            PortWrite { port: self.0 + 3, value: 0x80 },
            PortWrite { port: self.0, value: 0x03 },
            PortWrite { port: self.0 + 1, value: 0x00 },
            PortWrite { port: self.0 + 3, value: 0x03 },
            PortWrite { port: self.0 + 2, value: 0xC7 },
            PortWrite { port: self.0 + 4, value: 0x0B },
            PortWrite { port: self.0 + 4, value: 0x1E },
            PortWrite { port: self.0, value: 0xAE },
        ];
        assert(r@ =~= self.setup());
        r
    }

    /// What follows the self test: `echo` is the byte that the port sent
    /// back. If it is the test byte, the port is set to normal operation
    /// with the write that is returned.
    pub fn init(self, echo: u8) -> (r: Result<PortWrite, SerialError>)
        requires
            self.0 <= 0xFFF8,
        ensures
            r == (if echo == TEST_BYTE {
                Ok::<PortWrite, SerialError>(PortWrite { port: (self.0 + 4) as u16, value: 0x0F })
            } else {
                Err::<PortWrite, SerialError>(SerialError::SelfTestFailed)
            }),
    {
        if echo != TEST_BYTE {
            return Err(SerialError::SelfTestFailed);
        }
        Ok(PortWrite { port: self.0 + 4, value: 0x0F })
    }

    /// The port from which the status of the line is read.
    pub fn status_port(&self) -> (r: u16)
        requires
            self.0 <= 0xFFF8,
        ensures
            r == self.0 + 5,
    {
        self.0 + 5
    }

    /// Whether the line has the status: `line` is the byte that was read
    /// from the status port.
    pub fn wait_for_status(&self, line: u8, status: LineStatus) -> (r: bool)
        ensures
            r == ((line & 0x3F) & status.bits == status.bits),
    {
        LineStatus::from_bits_truncate(line).contains(status)
    }
}

} // verus!
