//! Constructors for named standard CRC variants.
//!
//! Each shorthand fixes the polynomial, width, initial value, final XOR and
//! reflection of one published standard.  For the reflected variants the
//! polynomial constant is given in its reflected form, as those standards
//! list it.  The widths that are a multiple of 8 synthesize their lookup
//! table at construction; the table is a pure function of the polynomial, so
//! this is interchangeable with any correctly precomputed table.

use crate::engine::CRCu8;
use crate::model::create_model;
use vstd::prelude::*;

verus! {

impl CRCu8 {
    /// CRC-3/GSM.
    pub fn crc3gsm() -> (r: CRCu8)
        ensures
            r@ == create_model(0x03, 3, 0x00, 0x07, false),
            r@.well_formed(),
    {
        Self::create_crc(0x03, 3, 0x00, 0x07, false)
    }

    /// CRC-4/ITU.
    pub fn crc4itu() -> (r: CRCu8)
        ensures
            r@ == create_model(0x0C, 4, 0x00, 0x00, true),
            r@.well_formed(),
    {
        Self::create_crc(0x0C, 4, 0x00, 0x00, true)
    }

    /// CRC-4/INTERLAKEN.
    pub fn crc4interlaken() -> (r: CRCu8)
        ensures
            r@ == create_model(0x03, 4, 0x0F, 0x0F, false),
            r@.well_formed(),
    {
        Self::create_crc(0x03, 4, 0x0F, 0x0F, false)
    }

    /// CRC-5/EPC.
    pub fn crc5epc() -> (r: CRCu8)
        ensures
            r@ == create_model(0x09, 5, 0x00, 0x00, false),
            r@.well_formed(),
    {
        Self::create_crc(0x09, 5, 0x00, 0x00, false)
    }

    /// CRC-5/ITU.
    pub fn crc5itu() -> (r: CRCu8)
        ensures
            r@ == create_model(0x15, 5, 0x00, 0x00, true),
            r@.well_formed(),
    {
        Self::create_crc(0x15, 5, 0x00, 0x00, true)
    }

    /// CRC-5/USB.
    pub fn crc5usb() -> (r: CRCu8)
        ensures
            r@ == create_model(0x14, 5, 0x1F, 0x1F, true),
            r@.well_formed(),
    {
        Self::create_crc(0x14, 5, 0x1F, 0x1F, true)
    }

    /// CRC-6/CDMA2000-A.
    pub fn crc6cdma2000_a() -> (r: CRCu8)
        ensures
            r@ == create_model(0x27, 6, 0x3F, 0x00, false),
            r@.well_formed(),
    {
        Self::create_crc(0x27, 6, 0x3f, 0x00, false)
    }

    /// CRC-6/CDMA2000-B.
    pub fn crc6cdma2000_b() -> (r: CRCu8)
        ensures
            r@ == create_model(0x07, 6, 0x3F, 0x00, false),
            r@.well_formed(),
    {
        Self::create_crc(0x07, 6, 0x3f, 0x00, false)
    }

    /// CRC-6/DARC.
    pub fn crc6darc() -> (r: CRCu8)
        ensures
            r@ == create_model(0x26, 6, 0x00, 0x00, true),
            r@.well_formed(),
    {
        Self::create_crc(0x26, 6, 0x00, 0x00, true)
    }

    /// CRC-6/GSM.
    pub fn crc6gsm() -> (r: CRCu8)
        ensures
            r@ == create_model(0x2F, 6, 0x00, 0x3F, false),
            r@.well_formed(),
    {
        Self::create_crc(0x2F, 6, 0x00, 0x3F, false)
    }

    /// CRC-6/ITU.
    pub fn crc6itu() -> (r: CRCu8)
        ensures
            r@ == create_model(0x30, 6, 0x00, 0x00, true),
            r@.well_formed(),
    {
        Self::create_crc(0x30, 6, 0x00, 0x00, true)
    }

    /// CRC-7.
    pub fn crc7() -> (r: CRCu8)
        ensures
            r@ == create_model(0x09, 7, 0x00, 0x00, false),
            r@.well_formed(),
    {
        Self::create_crc(0x09, 7, 0x00, 0x00, false)
    }

    /// CRC-7/UMTS.
    pub fn crc7umts() -> (r: CRCu8)
        ensures
            r@ == create_model(0x45, 7, 0x00, 0x00, false),
            r@.well_formed(),
    {
        Self::create_crc(0x45, 7, 0x00, 0x00, false)
    }

    /// CRC-8.
    pub fn crc8() -> (r: CRCu8)
        ensures
            r@ == create_model(0x07, 8, 0x00, 0x00, false),
            r@.well_formed(),
    {
        Self::create_crc(0x07, 8, 0x00, 0x00, false)
    }

    /// CRC-8/CDMA2000.
    pub fn crc8cdma2000() -> (r: CRCu8)
        ensures
            r@ == create_model(0x9B, 8, 0xFF, 0x00, false),
            r@.well_formed(),
    {
        Self::create_crc(0x9B, 8, 0xFF, 0x00, false)
    }

    /// CRC-8/DARC.
    pub fn crc8darc() -> (r: CRCu8)
        ensures
            r@ == create_model(0x9C, 8, 0x00, 0x00, true),
            r@.well_formed(),
    {
        Self::create_crc(0x9C, 8, 0x00, 0x00, true)
    }

    /// CRC-8/DVB-S2.
    pub fn crc8dvb_s2() -> (r: CRCu8)
        ensures
            r@ == create_model(0xD5, 8, 0x00, 0x00, false),
            r@.well_formed(),
    {
        Self::create_crc(0xD5, 8, 0x00, 0x00, false)
    }

    /// CRC-8/EBU.
    pub fn crc8ebu() -> (r: CRCu8)
        ensures
            r@ == create_model(0xB8, 8, 0xFF, 0x00, true),
            r@.well_formed(),
    {
        Self::create_crc(0xB8, 8, 0xFF, 0x00, true)
    }

    /// CRC-8/I-CODE.
    pub fn crc8icode() -> (r: CRCu8)
        ensures
            r@ == create_model(0x1D, 8, 0xFD, 0x00, false),
            r@.well_formed(),
    {
        Self::create_crc(0x1D, 8, 0xFD, 0x00, false)
    }

    /// CRC-8/ITU.
    pub fn crc8itu() -> (r: CRCu8)
        ensures
            r@ == create_model(0x07, 8, 0x00, 0x55, false),
            r@.well_formed(),
    {
        Self::create_crc(0x07, 8, 0x00, 0x55, false)
    }

    /// CRC-8/MAXIM.
    pub fn crc8maxim() -> (r: CRCu8)
        ensures
            r@ == create_model(0x8C, 8, 0x00, 0x00, true),
            r@.well_formed(),
    {
        Self::create_crc(0x8C, 8, 0x00, 0x00, true)
    }

    /// CRC-8/ROHC.
    pub fn crc8rohc() -> (r: CRCu8)
        ensures
            r@ == create_model(0xE0, 8, 0xFF, 0x00, true),
            r@.well_formed(),
    {
        Self::create_crc(0xE0, 8, 0xFF, 0x00, true)
    }

    /// CRC-8/WCDMA.
    pub fn crc8wcdma() -> (r: CRCu8)
        ensures
            r@ == create_model(0xD9, 8, 0x00, 0x00, true),
            r@.well_formed(),
    {
        Self::create_crc(0xD9, 8, 0x00, 0x00, true)
    }
}

} // verus!
