//! Driver of the console: an NS16550A-compatible UART behind memory-mapped
//! registers.
//!
//! The driver decides which registers are accessed, with which values and in
//! which order. It performs none of the accesses: each function hands back
//! the volatile stores and loads that its caller has to carry out. The
//! caller holds the handle exclusively for as long as it carries them out.

use vstd::prelude::*;
use vstd::string::StringSliceAdditionalSpecFns;

verus! {

/// Address of the first register of the UART.
pub const UART_BASE: usize = 0x1000_0000;

/// Offset of the data register: a load gives the byte received, a store
/// transmits a byte.
pub const DATA: usize = 0;

/// Offset of the interrupt-enable register.
pub const INTERRUPT_ENABLE: usize = 1;

/// Offset of the FIFO-control register.
pub const FIFO_CONTROL: usize = 2;

/// Offset of the line-control register.
pub const LINE_CONTROL: usize = 3;

/// Offset of the line-status register.
pub const LINE_STATUS: usize = 5;

/// Line-control value that selects characters of 8 bits.
pub const WORD_LENGTH_8: u8 = 0b11;

/// FIFO-control value that enables the receive and transmit FIFO.
pub const FIFO_ENABLE: u8 = 0b1;

/// Interrupt-enable value that enables the receiver-ready interrupt.
pub const RECEIVER_READY: u8 = 0b1;

/// Bit of the line status that is set while a received byte waits in the
/// data register.
pub const DATA_READY: u8 = 0b1;

/// A volatile store of one byte.
#[derive(Clone, Copy, Debug, PartialEq, Eq, Structural)]
pub struct Store {
    pub address: usize,
    pub value: u8,
}

/// A volatile load of one byte.
#[derive(Clone, Copy, Debug, PartialEq, Eq, Structural)]
pub struct Load {
    pub address: usize,
}

/// The store that transmits the byte `byte`.
pub open spec fn transmit(byte: u8) -> Store {
    Store { address: (UART_BASE + DATA) as usize, value: byte }
}

/// Whether a line status says that a received byte waits in the data
/// register.
pub open spec fn data_ready(line_status: u8) -> bool {
    line_status & DATA_READY != 0
}

/// Handle of the console device: the address of its first register.
pub struct Uart {
    buffer_address: usize,
}

impl Uart {
    /// Address of the first register of the device.
    pub closed spec fn base(&self) -> usize {
        self.buffer_address
    }

    #[verifier::type_invariant]
    spec fn inv(&self) -> bool {
        self.buffer_address == UART_BASE
    }

    /// The handle of the UART at [`UART_BASE`].
    pub fn new() -> (uart: Uart)
        ensures
            uart.base() == UART_BASE,
    {
        Uart { buffer_address: UART_BASE }
    }

    /// The store of `value` to the register at `offset`.
    pub fn write_at_offset(&mut self, offset: usize, value: u8) -> (store: Store)
        requires
            UART_BASE + offset <= usize::MAX,
        ensures
            store == (Store { address: (UART_BASE + offset) as usize, value }),
            *final(self) == *old(self),
    {
        proof {
            use_type_invariant(&*self);
        }
        Store { address: self.buffer_address + offset, value }
    }

    /// The load from the register at `offset`.
    pub fn read_at_offset(&mut self, offset: usize) -> (load: Load)
        requires
            UART_BASE + offset <= usize::MAX,
        ensures
            load == (Load { address: (UART_BASE + offset) as usize }),
            *final(self) == *old(self),
    {
        proof {
            use_type_invariant(&*self);
        }
        Load { address: self.buffer_address + offset }
    }

    /// The stores that set the device up, in the order in which they are
    /// made: characters of 8 bits, FIFO on, receiver-ready interrupt on.
    pub fn init(&mut self) -> (stores: Vec<Store>)
        ensures
            stores@ == seq![
                Store { address: (UART_BASE + LINE_CONTROL) as usize, value: WORD_LENGTH_8 },
                Store { address: (UART_BASE + FIFO_CONTROL) as usize, value: FIFO_ENABLE },
                Store { address: (UART_BASE + INTERRUPT_ENABLE) as usize, value: RECEIVER_READY },
            ],
            *final(self) == *old(self),
    {
        let mut stores: Vec<Store> = Vec::new();
        stores.push(self.write_at_offset(LINE_CONTROL, WORD_LENGTH_8));
        stores.push(self.write_at_offset(FIFO_CONTROL, FIFO_ENABLE));
        stores.push(self.write_at_offset(INTERRUPT_ENABLE, RECEIVER_READY));
        stores
    }

    /// The store that transmits `c`: one store to the data register. The
    /// driver does not ask whether the device is ready for it.
    pub fn mmio_write(&mut self, c: u8) -> (store: Store)
        ensures
            store == transmit(c),
            *final(self) == *old(self),
    {
        self.write_at_offset(DATA, c)
    }

    /// The stores that transmit the text `out`: one store to the data
    /// register for each byte of it, in the order of the bytes.
    pub fn write_str(&mut self, out: &str) -> (stores: Vec<Store>)
        ensures
            stores@ == out.spec_bytes().map_values(|byte: u8| transmit(byte)),
            *final(self) == *old(self),
    {
        self.write_bytes(out.as_bytes())
    }

    /// The stores that transmit `bytes`: one store to the data register for
    /// each byte, in the order of the bytes.
    pub fn write_bytes(&mut self, bytes: &[u8]) -> (stores: Vec<Store>)
        ensures
            stores@ == bytes@.map_values(|byte: u8| transmit(byte)),
            *final(self) == *old(self),
    {
        let mut stores: Vec<Store> = Vec::new();
        let mut i: usize = 0;
        while i < bytes.len()
            invariant
                i <= bytes@.len(),
                *self == *old(self),
                stores@ == bytes@.take(i as int).map_values(|byte: u8| transmit(byte)),
            decreases bytes@.len() - i,
        {
            let store = self.mmio_write(bytes[i]);
            stores.push(store);
            i += 1;
            assert(stores@ =~= bytes@.take(i as int).map_values(|byte: u8| transmit(byte)));
        }
        assert(bytes@.take(i as int) =~= bytes@);
        stores
    }

    /// The load that fetches the line status, with which a read begins.
    pub fn line_status(&mut self) -> (load: Load)
        ensures
            load == (Load { address: (UART_BASE + LINE_STATUS) as usize }),
            *final(self) == *old(self),
    {
        self.read_at_offset(LINE_STATUS)
    }

    /// What a read does once the line status is known. Where the status
    /// says that no byte waits, the read is over and has no value: `None`.
    /// Where a byte waits, the read ends with one load from the data
    /// register, and the byte loaded is its value. The status is looked at
    /// once and never asked for again.
    pub fn mmio_read(&mut self, line_status: u8) -> (load: Option<Load>)
        ensures
            load == if data_ready(line_status) {
                Some(Load { address: (UART_BASE + DATA) as usize })
            } else {
                None
            },
            *final(self) == *old(self),
    {
        if line_status & DATA_READY == 0 {
            None
        } else {
            Some(self.read_at_offset(DATA))
        }
    }
}

} // verus!
