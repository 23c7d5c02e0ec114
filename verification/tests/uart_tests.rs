use rustyriscy::uart::{
    Load, Store, Uart, DATA, FIFO_CONTROL, INTERRUPT_ENABLE, LINE_CONTROL, LINE_STATUS, UART_BASE,
};
use rustyriscy::{qemu_exit_fail, qemu_exit_success, ExitRequest, ExitStatus, QEMU_EXIT_ADDRESS};

#[test]
fn register_map() {
    assert_eq!(UART_BASE, 0x1000_0000);
    assert_eq!(DATA, 0);
    assert_eq!(INTERRUPT_ENABLE, 1);
    assert_eq!(FIFO_CONTROL, 2);
    assert_eq!(LINE_CONTROL, 3);
    assert_eq!(LINE_STATUS, 5);
}

#[test]
fn init_programs_three_registers_in_order() {
    let mut uart = Uart::new();
    assert_eq!(
        uart.init(),
        vec![
            Store { address: 0x1000_0003, value: 0b11 },
            Store { address: 0x1000_0002, value: 0b1 },
            Store { address: 0x1000_0001, value: 0b1 },
        ]
    );
}

#[test]
fn register_accesses_add_the_offset() {
    let mut uart = Uart::new();
    assert_eq!(uart.write_at_offset(3, 0x5a), Store { address: 0x1000_0003, value: 0x5a });
    assert_eq!(uart.write_at_offset(0, 0), Store { address: 0x1000_0000, value: 0 });
    assert_eq!(uart.read_at_offset(5), Load { address: 0x1000_0005 });
    assert_eq!(uart.read_at_offset(0), Load { address: 0x1000_0000 });
}

#[test]
fn mmio_write_stores_to_the_data_register() {
    let mut uart = Uart::new();
    assert_eq!(uart.mmio_write(b'A'), Store { address: 0x1000_0000, value: 0x41 });
    assert_eq!(uart.mmio_write(0), Store { address: 0x1000_0000, value: 0 });
    assert_eq!(uart.mmio_write(255), Store { address: 0x1000_0000, value: 255 });
}

#[test]
fn write_str_stores_each_byte_in_order() {
    let mut uart = Uart::new();
    let stores = uart.write_str("Hello, world!\n");
    let bytes: Vec<u8> = stores.iter().map(|store| store.value).collect();
    assert_eq!(bytes, b"Hello, world!\n".to_vec());
    assert!(stores.iter().all(|store| store.address == 0x1000_0000));
}

#[test]
fn write_str_of_nothing_stores_nothing() {
    let mut uart = Uart::new();
    assert_eq!(uart.write_str(""), Vec::<Store>::new());
    assert_eq!(uart.write_bytes(&[]), Vec::<Store>::new());
}

#[test]
fn write_str_stores_the_bytes_of_utf8() {
    let mut uart = Uart::new();
    let stores = uart.write_str("é\t");
    assert_eq!(
        stores,
        vec![
            Store { address: 0x1000_0000, value: 0xc3 },
            Store { address: 0x1000_0000, value: 0xa9 },
            Store { address: 0x1000_0000, value: 0x09 },
        ]
    );
}

#[test]
fn write_bytes_stores_each_byte_in_order() {
    let mut uart = Uart::new();
    assert_eq!(
        uart.write_bytes(&[3, 1, 2, 1]),
        vec![
            Store { address: 0x1000_0000, value: 3 },
            Store { address: 0x1000_0000, value: 1 },
            Store { address: 0x1000_0000, value: 2 },
            Store { address: 0x1000_0000, value: 1 },
        ]
    );
}

#[test]
fn a_read_begins_with_the_line_status() {
    let mut uart = Uart::new();
    assert_eq!(uart.line_status(), Load { address: 0x1000_0005 });
}

#[test]
fn mmio_read_without_data_ends_at_once() {
    let mut uart = Uart::new();
    assert_eq!(uart.mmio_read(0), None);
    assert_eq!(uart.mmio_read(0b0110_0000), None);
    assert_eq!(uart.mmio_read(0xfe), None);
}

#[test]
fn mmio_read_with_data_loads_the_data_register() {
    let mut uart = Uart::new();
    assert_eq!(uart.mmio_read(1), Some(Load { address: 0x1000_0000 }));
    assert_eq!(uart.mmio_read(0b0110_0001), Some(Load { address: 0x1000_0000 }));
    assert_eq!(uart.mmio_read(0xff), Some(Load { address: 0x1000_0000 }));
}

#[test]
fn exit_requests_name_the_test_device() {
    assert_eq!(QEMU_EXIT_ADDRESS, 0x10_0000);
    assert_eq!(
        qemu_exit_fail(),
        ExitRequest { address: 0x10_0000, status: ExitStatus::Failure }
    );
    assert_eq!(
        qemu_exit_success(),
        ExitRequest { address: 0x10_0000, status: ExitStatus::Success }
    );
}
