use crc_any::CRCu8;

const CHECK_INPUT: &[u8] = b"123456789";

#[test]
fn print_lookup_table() {
    let crc = CRCu8::crc4interlaken();

    let mut s = String::new();

    for n in crc.lookup_table().iter().take(255) {
        s.push_str(&format!("{}u8, ", n));
    }

    s.push_str(&format!("{}u8", crc.lookup_table()[255]));

    println!("let lookup_table = [{}];", s);
}

// Concrete scenarios: the standard check values for the ASCII bytes
// "123456789".

#[test]
fn scenario_width8_normal() {
    let mut crc = CRCu8::create_crc(0x07, 8, 0x00, 0x00, false);
    crc.digest(CHECK_INPUT);
    assert_eq!(crc.get_crc(), 0xF4);
}

#[test]
fn scenario_width8_seeded() {
    let mut crc = CRCu8::create_crc(0x1D, 8, 0xFD, 0x00, false);
    crc.digest(CHECK_INPUT);
    assert_eq!(crc.get_crc(), 0x7E);
}

#[test]
fn scenario_width8_reflected() {
    let mut crc = CRCu8::create_crc(0x9C, 8, 0x00, 0x00, true);
    crc.digest(CHECK_INPUT);
    assert_eq!(crc.get_crc(), 0x15);
}

#[test]
fn scenario_width3_empty_input() {
    let crc = CRCu8::create_crc(0x03, 3, 0x00, 0x07, false);
    assert_eq!(crc.get_crc(), 0x07);
}

// Determinism: the same parameters and the same input always give the same
// table and the same checksum.

#[test]
fn determinism_table() {
    let a = CRCu8::create_crc(0x9C, 8, 0x00, 0x00, true);
    let b = CRCu8::create_crc(0x9C, 8, 0x00, 0x00, true);
    assert_eq!(a.lookup_table(), b.lookup_table());
}

#[test]
fn determinism_digest() {
    let mut a = CRCu8::create_crc(0x09, 5, 0x00, 0x00, false);
    let mut b = CRCu8::create_crc(0x09, 5, 0x00, 0x00, false);
    a.digest(CHECK_INPUT);
    b.digest(CHECK_INPUT);
    assert_eq!(a.get_crc(), b.get_crc());
}

// Incremental equivalence: digesting a split input in two calls equals
// digesting the concatenation in one.

#[test]
fn incremental_equivalence_table() {
    let mut split = CRCu8::create_crc(0x1D, 8, 0xFD, 0x00, false);
    split.digest(b"1234");
    split.digest(b"56789");
    let mut whole = CRCu8::create_crc(0x1D, 8, 0xFD, 0x00, false);
    whole.digest(CHECK_INPUT);
    assert_eq!(split.get_crc(), whole.get_crc());
}

#[test]
fn incremental_equivalence_bitwise() {
    let mut split = CRCu8::create_crc(0x14, 5, 0x1F, 0x1F, true);
    split.digest(b"123");
    split.digest(b"");
    split.digest(b"456789");
    let mut whole = CRCu8::create_crc(0x14, 5, 0x1F, 0x1F, true);
    whole.digest(CHECK_INPUT);
    assert_eq!(split.get_crc(), whole.get_crc());
}

// Reset round-trip: a reset restores the checksum observed right after
// construction, also for a reflected engine with an asymmetric seed.

#[test]
fn reset_round_trip() {
    let mut crc = CRCu8::create_crc(0x0C, 4, 0x0A, 0x00, true);
    let fresh = crc.get_crc();
    crc.digest(CHECK_INPUT);
    crc.digest(b"more");
    crc.reset();
    assert_eq!(crc.get_crc(), fresh);
}

#[test]
fn reset_is_idempotent() {
    let mut crc = CRCu8::crc6gsm();
    crc.digest(CHECK_INPUT);
    crc.reset();
    let once = crc.get_crc();
    crc.reset();
    assert_eq!(crc.get_crc(), once);
}

// Masking: the checksum never carries bits above the engine's width.

#[test]
fn masking_width3() {
    let mut crc = CRCu8::crc3gsm();
    crc.digest(CHECK_INPUT);
    assert_eq!(crc.get_crc() & !0x07, 0);
}

#[test]
fn masking_width5() {
    let mut crc = CRCu8::crc5usb();
    crc.digest(b"\xFF\xFF\xFF\xFF");
    assert_eq!(crc.get_crc() & !0x1F, 0);
}

// Reflection involution: mirroring twice under the same high bit gives the
// value back, for every width.

#[test]
fn reflection_involution() {
    assert_eq!(CRCu8::reflect_function(0x80, 0x35), 0xAC);
    assert_eq!(CRCu8::reflect_function(0x80, CRCu8::reflect_function(0x80, 0x35)), 0x35);
    assert_eq!(CRCu8::reflect_function(0x01, 0x01), 0x01);
    for n in 0u8..0x08 {
        assert_eq!(CRCu8::reflect_function(0x04, CRCu8::reflect_function(0x04, n)), n);
    }
}

#[test]
fn reflection_of_one() {
    assert_eq!(CRCu8::reflect_function(0x80, 0x01), 0x80);
    assert_eq!(CRCu8::reflect_function(0x10, 0x01), 0x10);
}

// A reflected engine shows its own seed back when nothing was digested and
// nothing is XORed in: the readout reflection undoes the seed reflection.

#[test]
fn reflected_seed_reads_back() {
    let crc = CRCu8::create_crc(0x0C, 4, 0x0A, 0x00, true);
    assert_eq!(crc.get_crc(), 0x0A);
}

// A synthesized table and the same table handed in from outside build
// engines that agree byte for byte.

#[test]
fn supplied_table_matches_synthesized() {
    let table = CRCu8::crc_table(0x07);
    let mut supplied = CRCu8::create_crc_with_exists_lookup_table(table, 8, 0x00, 0x00, false);
    let mut synthesized = CRCu8::create_crc(0x07, 8, 0x00, 0x00, false);
    supplied.digest(CHECK_INPUT);
    synthesized.digest(CHECK_INPUT);
    assert_eq!(supplied.get_crc(), synthesized.get_crc());
    assert_eq!(supplied.get_crc(), 0xF4);
}

#[test]
fn supplied_reflect_table_matches_synthesized() {
    let table = CRCu8::crc_reflect_table(0x9C);
    let mut supplied = CRCu8::create_crc_with_exists_lookup_table(table, 8, 0x00, 0x00, true);
    supplied.digest(CHECK_INPUT);
    assert_eq!(supplied.get_crc(), 0x15);
}

// Reading the checksum does not disturb the running register.

#[test]
fn get_crc_keeps_digesting() {
    let mut crc = CRCu8::crc8();
    crc.digest(b"1234");
    let _ = crc.get_crc();
    let _ = crc.get_crc();
    crc.digest(b"56789");
    assert_eq!(crc.get_crc(), 0xF4);
}

// The named standards against their check values.

#[test]
fn preset_crc3gsm() {
    let mut crc = CRCu8::crc3gsm();
    crc.digest(CHECK_INPUT);
    assert_eq!(crc.get_crc(), 0x04);
}

#[test]
fn preset_crc4itu() {
    let mut crc = CRCu8::crc4itu();
    crc.digest(CHECK_INPUT);
    assert_eq!(crc.get_crc(), 0x07);
}

#[test]
fn preset_crc4interlaken() {
    let mut crc = CRCu8::crc4interlaken();
    crc.digest(CHECK_INPUT);
    assert_eq!(crc.get_crc(), 0x0B);
}

#[test]
fn preset_crc5epc() {
    let mut crc = CRCu8::crc5epc();
    crc.digest(CHECK_INPUT);
    assert_eq!(crc.get_crc(), 0x06);
}

#[test]
fn preset_crc5itu() {
    let mut crc = CRCu8::crc5itu();
    crc.digest(CHECK_INPUT);
    assert_eq!(crc.get_crc(), 0x07);
}

#[test]
fn preset_crc5usb() {
    let mut crc = CRCu8::crc5usb();
    crc.digest(CHECK_INPUT);
    assert_eq!(crc.get_crc(), 0x19);
}

#[test]
fn preset_crc6cdma2000_a() {
    let mut crc = CRCu8::crc6cdma2000_a();
    crc.digest(CHECK_INPUT);
    assert_eq!(crc.get_crc(), 0x0D);
}

#[test]
fn preset_crc6cdma2000_b() {
    let mut crc = CRCu8::crc6cdma2000_b();
    crc.digest(CHECK_INPUT);
    assert_eq!(crc.get_crc(), 0x3B);
}

#[test]
fn preset_crc6darc() {
    let mut crc = CRCu8::crc6darc();
    crc.digest(CHECK_INPUT);
    assert_eq!(crc.get_crc(), 0x26);
}

#[test]
fn preset_crc6gsm() {
    let mut crc = CRCu8::crc6gsm();
    crc.digest(CHECK_INPUT);
    assert_eq!(crc.get_crc(), 0x13);
}

#[test]
fn preset_crc6itu() {
    let mut crc = CRCu8::crc6itu();
    crc.digest(CHECK_INPUT);
    assert_eq!(crc.get_crc(), 0x06);
}

#[test]
fn preset_crc7() {
    let mut crc = CRCu8::crc7();
    crc.digest(CHECK_INPUT);
    assert_eq!(crc.get_crc(), 0x75);
}

#[test]
fn preset_crc7umts() {
    let mut crc = CRCu8::crc7umts();
    crc.digest(CHECK_INPUT);
    assert_eq!(crc.get_crc(), 0x61);
}

#[test]
fn preset_crc8() {
    let mut crc = CRCu8::crc8();
    crc.digest(CHECK_INPUT);
    assert_eq!(crc.get_crc(), 0xF4);
}

#[test]
fn preset_crc8cdma2000() {
    let mut crc = CRCu8::crc8cdma2000();
    crc.digest(CHECK_INPUT);
    assert_eq!(crc.get_crc(), 0xDA);
}

#[test]
fn preset_crc8darc() {
    let mut crc = CRCu8::crc8darc();
    crc.digest(CHECK_INPUT);
    assert_eq!(crc.get_crc(), 0x15);
}

#[test]
fn preset_crc8dvb_s2() {
    let mut crc = CRCu8::crc8dvb_s2();
    crc.digest(CHECK_INPUT);
    assert_eq!(crc.get_crc(), 0xBC);
}

#[test]
fn preset_crc8ebu() {
    let mut crc = CRCu8::crc8ebu();
    crc.digest(CHECK_INPUT);
    assert_eq!(crc.get_crc(), 0x97);
}

#[test]
fn preset_crc8icode() {
    let mut crc = CRCu8::crc8icode();
    crc.digest(CHECK_INPUT);
    assert_eq!(crc.get_crc(), 0x7E);
}

#[test]
fn preset_crc8itu() {
    let mut crc = CRCu8::crc8itu();
    crc.digest(CHECK_INPUT);
    assert_eq!(crc.get_crc(), 0xA1);
}

#[test]
fn preset_crc8maxim() {
    let mut crc = CRCu8::crc8maxim();
    crc.digest(CHECK_INPUT);
    assert_eq!(crc.get_crc(), 0xA1);
}

#[test]
fn preset_crc8rohc() {
    let mut crc = CRCu8::crc8rohc();
    crc.digest(CHECK_INPUT);
    assert_eq!(crc.get_crc(), 0xD0);
}

#[test]
fn preset_crc8wcdma() {
    let mut crc = CRCu8::crc8wcdma();
    crc.digest(CHECK_INPUT);
    assert_eq!(crc.get_crc(), 0x25);
}
