use vstd::prelude::*;
use nobcd::{BcdError, BcdNumber};

verus! {

/// Why a value has no BCD form, or a byte is not BCD.
#[derive(Debug, PartialEq, Eq)]
pub enum BcdFault {
    /// The value needs more than two decimal digits.
    Overflow,
    /// The byte holds this nibble, which is no decimal digit.
    InvalidDigit(u8),
}

/// The BCD byte of a value below 100: its tens in the high nibble, its
/// ones in the low one.
pub open spec fn bcd_byte(value: u8) -> u8 {
    ((value / 10) * 16 + value % 10) as u8
}

/// The BCD byte of `value`, or why it has none.
pub open spec fn bcd_encoding(value: u8) -> Result<u8, BcdFault> {
    if value <= 99 {
        Ok(bcd_byte(value))
    } else {
        Err(BcdFault::Overflow)
    }
}

/// The value of the BCD byte `byte`, or the first of its nibbles, high
/// then low, that is no decimal digit.
pub open spec fn bcd_value(byte: u8) -> Result<u8, BcdFault> {
    let high: u8 = byte / 16;
    let low: u8 = byte % 16;
    if high > 9 {
        Err(BcdFault::InvalidDigit(high))
    } else if low > 9 {
        Err(BcdFault::InvalidDigit(low))
    } else {
        Ok((high * 10 + low) as u8)
    }
}

/// Encodes `value` as a one-byte BCD number with `nobcd::BcdNumber::<1>::new`
/// and takes that number's byte with `BcdNumber::bcd_bytes`. The contract
/// claims what nobcd's source shows: the byte holds the tens in its high
/// nibble and the ones in its low nibble, and values above 99 are refused as
/// an overflow.
#[verifier::external_body]
fn encode_bcd(value: u8) -> (r: Result<u8, BcdFault>)
    ensures
        r == bcd_encoding(value),
{
    match BcdNumber::<1>::new(value) {
        Ok(number) => Ok(number.bcd_bytes()[0]),
        Err(BcdError::Overflow) => Err(BcdFault::Overflow),
        Err(BcdError::InvalidDigit(d)) => Err(BcdFault::InvalidDigit(d)),
    }
}

/// Reads `byte` as a one-byte BCD number with
/// `nobcd::BcdNumber::<1>::from_bcd_bytes` and takes its value with
/// `BcdNumber::value::<u8>`. The contract claims what nobcd's source shows:
/// a byte whose nibbles are both decimal digits has the value tens times ten
/// plus ones, and otherwise the first nibble, high then low, that is no
/// digit is reported.
#[verifier::external_body]
fn decode_bcd(byte: u8) -> (r: Result<u8, BcdFault>)
    ensures
        r == bcd_value(byte),
{
    match BcdNumber::<1>::from_bcd_bytes([byte]) {
        Ok(number) => Ok(number.value::<u8>()),
        Err(BcdError::Overflow) => Err(BcdFault::Overflow),
        Err(BcdError::InvalidDigit(d)) => Err(BcdFault::InvalidDigit(d)),
    }
}

/// The I2C address of the DS1307 real-time clock.
pub const DS1307_ADDRESS: u8 = 0x68;

/// The I2C payload that sets the clock's register `register` to `value`:
/// the register's number, then the value's BCD byte. Values above 99 have
/// no BCD byte.
pub fn register_write(register: u8, value: u8) -> (r: Result<[u8; 2], BcdFault>)
    ensures
        value <= 99 ==> (r matches Ok(payload) && payload@ == seq![register, bcd_byte(value)]),
        value > 99 ==> r == Err::<[u8; 2], BcdFault>(BcdFault::Overflow),
{
    match encode_bcd(value) {
        Ok(byte) => {
            let payload = [register, byte];
            assert(payload@ =~= seq![register, bcd_byte(value)]);
            Ok(payload)
        },
        Err(e) => Err(e),
    }
}

/// The start time that the bare-metal clock program sets.
pub struct DateTime {
    pub seconds: u8,
    pub minutes: u8,
    pub hours: u8,
    pub day: u8,
    pub month: u8,
    pub year: u8,
    pub day_of_week: u8,
}

impl DateTime {
    /// The values of the clock's registers 0 to 6, in the order the program
    /// writes them: seconds, minutes, hours, day, day of the week, month,
    /// year.
    pub fn register_values(&self) -> (values: [u8; 7])
        ensures
            values@ == seq![
                self.seconds,
                self.minutes,
                self.hours,
                self.day,
                self.day_of_week,
                self.month,
                self.year,
            ],
    {
        let values = [
            self.seconds,
            self.minutes,
            self.hours,
            self.day,
            self.day_of_week,
            self.month,
            self.year,
        ];
        assert(values@ =~= seq![
            self.seconds,
            self.minutes,
            self.hours,
            self.day,
            self.day_of_week,
            self.month,
            self.year,
        ]);
        values
    }
}

/// The time of day read back from the clock.
#[derive(Debug, PartialEq, Eq)]
pub struct ClockReading {
    pub hours: u8,
    pub minutes: u8,
    pub seconds: u8,
}

/// The time of day that the clock's registers hold: seconds, minutes and
/// hours in registers 0, 1 and 2, each a BCD byte; or the fault of the
/// first of them, in that order, that is not BCD.
pub open spec fn clock_reading(registers: Seq<u8>) -> Result<ClockReading, BcdFault> {
    match bcd_value(registers[0]) {
        Err(e) => Err(e),
        Ok(seconds) => match bcd_value(registers[1]) {
            Err(e) => Err(e),
            Ok(minutes) => match bcd_value(registers[2]) {
                Err(e) => Err(e),
                Ok(hours) => Ok(ClockReading { hours, minutes, seconds }),
            },
        },
    }
}

/// Decodes the time of day from the clock's first seven registers, as read
/// from register 0 on.
pub fn read_clock(registers: &[u8; 7]) -> (r: Result<ClockReading, BcdFault>)
    ensures
        r == clock_reading(registers@),
{
    let seconds: u8 = match decode_bcd(registers[0]) {
        Ok(v) => v,
        Err(e) => return Err(e),
    };
    let minutes: u8 = match decode_bcd(registers[1]) {
        Ok(v) => v,
        Err(e) => return Err(e),
    };
    let hours: u8 = match decode_bcd(registers[2]) {
        Ok(v) => v,
        Err(e) => return Err(e),
    };
    Ok(ClockReading { hours, minutes, seconds })
}

/// Reading a BCD byte gives back the value it encodes.
pub proof fn lemma_bcd_round_trip(value: u8)
    requires
        value <= 99,
    ensures
        bcd_value(bcd_byte(value)) == Ok::<u8, BcdFault>(value),
{
    let t: u8 = value / 10;
    let o: u8 = value % 10;
    assert(bcd_byte(value) == t * 16 + o);
    assert((t * 16 + o) / 16 == t);
    assert((t * 16 + o) % 16 == o);
}

/// Every byte that reads as BCD is the BCD byte of the value it reads as.
pub proof fn lemma_bcd_bytes_are_encodings(byte: u8)
    requires
        bcd_value(byte) is Ok,
    ensures
        bcd_value(byte) matches Ok(v) && v <= 99 && bcd_byte(v) == byte,
{
    let high: u8 = byte / 16;
    let low: u8 = byte % 16;
    let v: u8 = (high * 10 + low) as u8;
    assert(v / 10 == high);
    assert(v % 10 == low);
}

/// A time written to the clock's registers reads back as that time.
pub proof fn lemma_clock_reads_back(registers: Seq<u8>, hours: u8, minutes: u8, seconds: u8)
    requires
        registers.len() >= 3,
        hours <= 99,
        minutes <= 99,
        seconds <= 99,
        registers[0] == bcd_byte(seconds),
        registers[1] == bcd_byte(minutes),
        registers[2] == bcd_byte(hours),
    ensures
        clock_reading(registers) == Ok::<ClockReading, BcdFault>(
            ClockReading { hours, minutes, seconds },
        ),
{
    lemma_bcd_round_trip(seconds);
    lemma_bcd_round_trip(minutes);
    lemma_bcd_round_trip(hours);
}

} // verus!
