//! Bit-exact scenarios for the channel addressing, the contract-violation
//! guard, the commit protocol and the error reporting.

use tlc59xxx::bits::pack;
use tlc59xxx::error::Error;
use tlc59xxx::interface::{RecordingBus, RecordingPin};
use tlc59xxx::{TLC5947, TLC59711};

fn fresh_5947(chain_size: usize) -> TLC5947<RecordingBus, RecordingPin> {
    TLC5947::new(RecordingBus::new(false), RecordingPin::new(false, false), chain_size)
}

fn fresh_711(chain_size: usize) -> TLC59711<RecordingBus, RecordingPin> {
    TLC59711::new(RecordingBus::new(false), RecordingPin::new(false, false), chain_size)
}

fn image_of(d: &TLC5947<RecordingBus, RecordingPin>) -> Vec<bool> {
    (0..d.bit_len()).map(|i| d.get_bit(i)).collect()
}

#[test]
fn image_zero_filled_at_construction() {
    let d = fresh_5947(2);
    assert_eq!(d.bit_len(), 576);
    assert!((0..576).all(|i| !d.get_bit(i)));

    let d = fresh_711(3);
    assert_eq!(d.bit_len(), 576);
    assert!((0..576).all(|i| !d.get_bit(i)));
}

#[test]
fn pwm_readback_returns_value_written() {
    let mut d = fresh_5947(2);
    d.set_pwm(0, 4095);
    d.set_pwm(1, 0);
    d.set_pwm(17, 1234);
    d.set_pwm(47, 77);
    assert_eq!(d.get_pwm(0), 4095);
    assert_eq!(d.get_pwm(1), 0);
    assert_eq!(d.get_pwm(17), 1234);
    assert_eq!(d.get_pwm(47), 77);

    let mut d = fresh_711(1);
    d.set_pwm(5, 0xBEEF);
    assert_eq!(d.get_pwm(5), 0xBEEF);
    assert_eq!(d.get_pwm(4), 0);
}

#[test]
fn repeated_write_overwrites_channel() {
    let mut d = fresh_5947(1);
    d.set_pwm(3, 99);
    d.set_pwm(3, 4000);
    assert_eq!(d.get_pwm(3), 4000);
}

#[test]
fn write_order_does_not_matter() {
    let mut a = fresh_5947(1);
    a.set_pwm(0, 11);
    a.set_pwm(5, 222);
    a.set_pwm(23, 3333);

    let mut b = fresh_5947(1);
    b.set_pwm(23, 3333);
    b.set_pwm(0, 11);
    b.set_pwm(5, 222);

    assert_eq!(image_of(&a), image_of(&b));
}

#[test]
fn rgb_equals_three_pwm_writes() {
    let mut a = fresh_5947(1);
    a.set_rgb(1, (4095, 128, 2048));

    let mut b = fresh_5947(1);
    b.set_pwm(3, 4095);
    b.set_pwm(4, 128);
    b.set_pwm(5, 2048);

    assert_eq!(image_of(&a), image_of(&b));
}

#[test]
fn oversized_value_is_refused_without_mutation() {
    let mut d = fresh_5947(1);
    d.set_pwm(3, 100);
    let before = image_of(&d);
    assert!(!d.try_set_pwm(0, 4096));
    assert_eq!(image_of(&d), before);
    assert!(d.try_set_pwm(0, 4095));
    assert_eq!(d.get_pwm(0), 4095);
}

#[test]
fn out_of_range_channel_is_refused_without_mutation() {
    let mut d = fresh_5947(1);
    d.set_pwm(23, 55);
    let before = image_of(&d);
    assert!(!d.try_set_pwm(24, 1));
    assert_eq!(image_of(&d), before);
}

#[test]
fn twelve_bit_word_refuses_bit_twelve() {
    let mut d = fresh_5947(1);
    d.set_pwm(1, 7);
    let before = image_of(&d);
    assert!(!d.try_set_pwm(2, 0x1000));
    assert_eq!(image_of(&d), before);
}

#[test]
fn full_scale_channel_zero_occupies_final_word() {
    let mut d = fresh_5947(1);
    d.set_pwm(0, 4095);
    let r = d.write();
    assert!(r.is_ok());

    assert_eq!(d.bit_len(), 288);
    assert!((0..276).all(|i| !d.get_bit(i)));
    assert!((276..288).all(|i| d.get_bit(i)));

    let (bus, pin) = d.destroy();
    let mut expected = vec![0u8; 36];
    expected[34] = 0x0F;
    expected[35] = 0xFF;
    assert_eq!(bus.writes, vec![expected]);
    assert_eq!(pin.transitions, vec![true, false]);
}

#[test]
fn final_channel_of_chain_occupies_first_word() {
    // The last channel in the logical numbering owns exactly one 16-bit
    // word, the one shifted out first, bound for the most distant device;
    // the other 368 bits of the 384-bit image stay zero.
    let mut d = fresh_711(2);
    d.set_pwm(23, 65535);
    assert_eq!(d.bit_len(), 384);
    assert!((0..16).all(|i| d.get_bit(i)));
    assert!((16..384).all(|i| !d.get_bit(i)));
}

#[test]
fn each_write_issues_one_bus_write_then_one_latch_pulse() {
    let mut d = fresh_5947(1);
    assert!(d.write().is_ok());
    assert!(d.write().is_ok());
    let (bus, pin) = d.destroy();
    assert_eq!(bus.writes.len(), 2);
    assert_eq!(bus.writes[0], vec![0u8; 36]);
    assert_eq!(bus.writes[1], vec![0u8; 36]);
    assert_eq!(pin.transitions, vec![true, false, true, false]);
}

#[test]
fn bus_failure_reports_spi_and_leaves_latch_alone() {
    let mut d = TLC5947::new(RecordingBus::new(true), RecordingPin::new(false, false), 1);
    assert_eq!(d.write(), Err(Error::Spi));
    let (bus, pin) = d.destroy();
    assert_eq!(bus.writes.len(), 1);
    assert!(pin.transitions.is_empty());
}

#[test]
fn latch_high_failure_reports_lat_but_completes_pulse() {
    let mut d = TLC5947::new(RecordingBus::new(false), RecordingPin::new(true, false), 1);
    assert_eq!(d.write(), Err(Error::Lat));
    let (bus, pin) = d.destroy();
    assert_eq!(bus.writes.len(), 1);
    assert_eq!(pin.transitions, vec![true, false]);
}

#[test]
fn latch_low_failure_reports_lat() {
    let mut d = TLC5947::new(RecordingBus::new(false), RecordingPin::new(false, true), 1);
    assert_eq!(d.write(), Err(Error::Lat));
    let (bus, pin) = d.destroy();
    assert_eq!(pin.transitions, vec![true, false]);
    assert_eq!(bus.writes.len(), 1);
}

#[test]
fn destroy_returns_owned_handles() {
    let d = fresh_5947(1);
    let (bus, pin) = d.destroy();
    assert!(bus.writes.is_empty());
    assert!(!bus.fail);
    assert!(pin.transitions.is_empty());
}

#[test]
fn pack_pads_partial_byte_with_zeros() {
    let bits = vec![true; 9];
    assert_eq!(pack(&bits), vec![0xFF, 0x80]);

    let empty: Vec<bool> = Vec::new();
    assert_eq!(pack(&empty), Vec::<u8>::new());

    let mut one_high = vec![false; 12];
    one_high[8] = true;
    assert_eq!(pack(&one_high), vec![0x00, 0x80]);
}

#[test]
fn empty_chain_commits_empty_stream() {
    let mut d = fresh_5947(0);
    assert_eq!(d.bit_len(), 0);
    assert!(d.write().is_ok());
    let (bus, pin) = d.destroy();
    assert_eq!(bus.writes, vec![Vec::<u8>::new()]);
    assert_eq!(pin.transitions, vec![true, false]);
}

#[test]
fn error_text() {
    assert_eq!(Error::Lat.description(), "Error writing to latch.");
    assert_eq!(Error::Spi.description(), "Error writing to SPI.");
    assert_eq!(Error::Lat.message(), "Latch Write Error");
    assert_eq!(Error::Spi.message(), "SPI Write Error");
    assert_ne!(Error::Lat, Error::Spi);
}
