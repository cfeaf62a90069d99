//! Intel HEX records: their fields, their checksum and their text form.

use crate::checksum::{byte_sum, checksum, checksum_of, field_sum, lemma_checksum_cancels};
use crate::hex::{
    hex_byte, hex_bytes, lemma_hex_byte_ascii, lemma_hex_bytes_ascii, lemma_hex_bytes_len,
    push_hex_byte, push_hex_bytes,
};
use simple_error::SimpleError;
use vstd::prelude::*;
use vstd::slice::slice_to_vec;
use vstd::std_specs::convert::FromSpecImpl;
use vstd::string::*;
use vstd::utf8::is_ascii_chars;

verus! {

/// The three kinds of record that this format knows.
#[derive(Copy, Clone, Debug, PartialEq, Eq, Structural)]
pub enum CommandType {
    Data,
    EOF,
    ExtendedAddress,
}

impl CommandType {
    /// The type byte that stands for this kind in a record.
    pub open spec fn code(self) -> u8 {
        match self {
            CommandType::Data => 0x00,
            CommandType::EOF => 0x01,
            CommandType::ExtendedAddress => 0x04,
        }
    }
}

impl From<CommandType> for u8 {
    fn from(command_type: CommandType) -> (code: u8) {
        match command_type {
            CommandType::ExtendedAddress => 0x04,
            CommandType::Data => 0x00,
            CommandType::EOF => 0x01,
        }
    }
}

impl FromSpecImpl<CommandType> for u8 {
    open spec fn obeys_from_spec() -> bool {
        true
    }

    open spec fn from_spec(command_type: CommandType) -> u8 {
        command_type.code()
    }
}

/// What a record is, mathematically: its kind, its 16-bit address and its
/// payload.  Length and checksum are derived from these.
pub struct Record {
    pub command_type: CommandType,
    pub address: u16,
    pub data: Seq<u8>,
}

impl Record {
    /// A record can carry at most 255 bytes, since its length is one byte.
    pub open spec fn valid(self) -> bool {
        self.data.len() <= 255
    }

    /// The length byte.
    pub open spec fn length(self) -> u8
        recommends
            self.valid(),
    {
        self.data.len() as u8
    }

    /// The checksum byte.
    pub open spec fn checksum(self) -> u8
        recommends
            self.valid(),
    {
        checksum_of(self.length(), self.address, self.command_type.code(), self.data)
    }

    /// The sum of every byte of the record before its checksum.
    pub open spec fn covered_sum(self) -> int
        recommends
            self.valid(),
    {
        field_sum(self.length(), self.address, self.command_type.code(), self.data)
    }

    /// The record as text: a colon, then in upper-case hexadecimal the length,
    /// the address with its high byte first, the type, the payload and the
    /// checksum.
    pub open spec fn line(self) -> Seq<char>
        recommends
            self.valid(),
    {
        seq![':'] + hex_byte(self.length()) + hex_byte((self.address / 256) as u8) + hex_byte(
            (self.address % 256) as u8,
        ) + hex_byte(self.command_type.code()) + hex_bytes(self.data) + hex_byte(self.checksum())
    }

    /// A record without payload at address 0.
    pub open spec fn empty(command_type: CommandType) -> Record {
        Record { command_type, address: 0, data: Seq::empty() }
    }

    /// A data record that places `data` at `address` within the current bank.
    pub open spec fn data(address: u16, data: Seq<u8>) -> Record {
        Record { command_type: CommandType::Data, address, data }
    }

    /// The record that selects `bank` as the upper 16 bits of the addresses
    /// that follow: the bank is its payload, high byte first.
    pub open spec fn extended_address(bank: u16) -> Record {
        Record {
            command_type: CommandType::ExtendedAddress,
            address: 0,
            data: seq![(bank / 256) as u8, (bank % 256) as u8],
        }
    }

    /// The record that ends a sequence.
    pub open spec fn eof() -> Record {
        Record::empty(CommandType::EOF)
    }

    /// This record with one more payload byte.
    pub open spec fn with_byte(self, byte: u8) -> Record {
        Record { data: self.data.push(byte), ..self }
    }

    /// Whether this record selects a bank in the regular way: type
    /// extended-address, address 0 and a payload of two bytes.
    pub open spec fn is_bank_record(self) -> bool {
        &&& self.command_type == CommandType::ExtendedAddress
        &&& self.address == 0
        &&& self.data.len() == 2
    }

    /// Whether this record has the form that an encoder gives it: a data
    /// record holds from 1 to 255 bytes that all lie in one bank, an
    /// extended-address record is a bank record, and an end-of-file record is
    /// empty.
    pub open spec fn regular(self) -> bool {
        match self.command_type {
            CommandType::Data => 0 < self.data.len() <= 255 && self.address + self.data.len()
                <= 0x1_0000,
            CommandType::ExtendedAddress => self.is_bank_record(),
            CommandType::EOF => self == Record::eof(),
        }
    }

    /// The bank that a bank record selects.
    pub open spec fn selected_bank(self) -> int
        recommends
            self.is_bank_record(),
    {
        self.data[0] as int * 256 + self.data[1] as int
    }
}

/// A bank record is determined by the bank it selects, and
/// `Record::extended_address` selects the bank it is given.
pub proof fn lemma_bank_record(record: Record, bank: u16)
    ensures
        Record::extended_address(bank).is_bank_record(),
        Record::extended_address(bank).selected_bank() == bank,
        Record::extended_address(bank).valid(),
        record.is_bank_record() ==> 0 <= record.selected_bank() < 0x1_0000 && record
            == Record::extended_address(record.selected_bank() as u16),
{
    if record.is_bank_record() {
        let selected: u16 = record.selected_bank() as u16;
        assert(record.data =~= Record::extended_address(selected).data);
    }
}

/// Checksum validity.  The length, the two address bytes, the type, the
/// payload bytes and the checksum of every valid record add up to a multiple
/// of 256.
pub proof fn lemma_record_checksum_valid(record: Record)
    requires
        record.valid(),
    ensures
        (record.length() as int + (record.address as int) / 256 + (record.address as int) % 256
            + record.command_type.code() as int + byte_sum(record.data)
            + record.checksum() as int) % 256 == 0,
{
    lemma_checksum_cancels(
        record.length(),
        record.address,
        record.command_type.code(),
        record.data,
    );
}

/// A record's line has eleven characters and two more for each payload byte.
pub proof fn lemma_line_len(record: Record)
    ensures
        record.line().len() == 11 + 2 * record.data.len(),
{
    lemma_hex_bytes_len(record.data);
}

/// A record's line holds ASCII characters only, so that it has as many bytes
/// as characters.
pub proof fn lemma_line_is_ascii(record: Record)
    requires
        record.valid(),
    ensures
        is_ascii_chars(record.line()),
{
    lemma_hex_bytes_ascii(record.data);
    lemma_hex_byte_ascii(record.length());
    lemma_hex_byte_ascii((record.address / 256) as u8);
    lemma_hex_byte_ascii((record.address % 256) as u8);
    lemma_hex_byte_ascii(record.command_type.code());
    lemma_hex_byte_ascii(record.checksum());
    lemma_hex_bytes_len(record.data);
    let line = record.line();
    assert forall|i: int| 0 <= i < line.len() implies '\0' <= #[trigger] line[i] <= '\u{7f}' by {
        if 9 <= i < 9 + 2 * record.data.len() {
            assert(line[i] == hex_bytes(record.data)[i - 9]);
        }
    }
}

/// `simple_error::SimpleError`, an error that is a message and nothing else.
#[verifier::external_type_specification]
#[verifier::external_body]
pub struct ExSimpleError(SimpleError);

/// The message that a `SimpleError` carries.
pub uninterp spec fn error_text(error: SimpleError) -> Seq<char>;

/// `SimpleError::new`, which stores the given string as the error's message.
/// Trusted: the new error carries exactly `message`.
#[verifier::external_body]
fn new_error(message: &str) -> (error: SimpleError)
    ensures
        error_text(error) == message@,
{
    SimpleError::new(message)
}

/// One record, ready to be written as a line.
pub struct IntelHex {
    data: Vec<u8>,
    command_type: CommandType,
    address: u16,
}

impl View for IntelHex {
    type V = Record;

    closed spec fn view(&self) -> Record {
        Record { command_type: self.command_type, address: self.address, data: self.data@ }
    }
}

impl IntelHex {
    #[verifier::type_invariant]
    spec fn fits_length_byte(self) -> bool {
        self.data@.len() <= 255
    }

    /// A record of the given kind with no payload, at address 0.
    pub fn new(command_type: CommandType) -> (hex: IntelHex)
        ensures
            hex@ == Record::empty(command_type),
    {
        IntelHex { data: Vec::new(), command_type, address: 0 }
    }

    /// The record that announces `addr` as the upper 16 bits of the addresses
    /// of the data records after it.
    pub fn extended_address_command(addr: u16) -> (hex: IntelHex)
        ensures
            hex@ == Record::extended_address(addr),
    {
        let mut hex: IntelHex = IntelHex::new(CommandType::ExtendedAddress);
        let high: u8 = ((addr >> 8) & 0xFF) as u8;
        let low: u8 = (addr & 0xFF) as u8;
        assert(high == (addr / 256) as u8 && low == (addr % 256) as u8) by {
            assert(((addr >> 8) & 0xFF) == addr / 256 && (addr >> 8) & 0xFF < 256 && (addr & 0xFF)
                == addr % 256) by (bit_vector);
        }
        hex.push_byte(high);
        hex.push_byte(low);
        assert(hex@.data =~= Record::extended_address(addr).data);
        hex
    }

    /// The record that ends a sequence.
    pub fn eof() -> (hex: IntelHex)
        ensures
            hex@ == Record::eof(),
    {
        IntelHex::new(CommandType::EOF)
    }

    /// A data record for `data` at `base_addr`, or an error when `data` is
    /// longer than the 255 bytes a record can carry.
    pub fn data_command(base_addr: u16, data: &[u8]) -> (result: Result<IntelHex, SimpleError>)
        ensures
            data@.len() <= 255 ==> result is Ok && result->Ok_0@ == Record::data(base_addr, data@),
            data@.len() > 255 ==> result is Err && error_text(result->Err_0)
                == "data exceed max length (255 bytes)"@,
    {
        if data.len() > 0xFF {
            return Err(new_error("data exceed max length (255 bytes)"));
        }
        Ok(IntelHex { data: slice_to_vec(data), command_type: CommandType::Data, address: base_addr })
    }

    /// Appends one byte to the payload, which must have room for it.
    pub fn push_byte(&mut self, byte: u8)
        requires
            old(self)@.data.len() < 255,
        ensures
            final(self)@ == old(self)@.with_byte(byte),
    {
        let mut data: Vec<u8> = Vec::new();
        std::mem::swap(&mut data, &mut self.data);
        data.push(byte);
        self.data = data;
    }

    /// The kind of this record.
    pub fn command_type(&self) -> (command_type: CommandType)
        ensures
            command_type == self@.command_type,
    {
        self.command_type
    }

    /// The 16-bit address field.
    pub fn address(&self) -> (address: u16)
        ensures
            address == self@.address,
    {
        self.address
    }

    /// The payload.
    pub fn data(&self) -> (data: &[u8])
        ensures
            data@ == self@.data,
            self@.valid(),
    {
        proof {
            use_type_invariant(self);
        }
        self.data.as_slice()
    }

    /// The number of payload bytes, which always fits the length byte.
    pub fn len(&self) -> (len: usize)
        ensures
            len == self@.data.len(),
            self@.valid(),
    {
        proof {
            use_type_invariant(self);
        }
        self.data.len()
    }

    /// The checksum of this record.
    pub fn compute_checksum(&self) -> (sum: u8)
        ensures
            sum == self@.checksum(),
            (self@.covered_sum() + sum as int) % 256 == 0,
    {
        proof {
            use_type_invariant(self);
        }
        checksum(
            self.data.len() as u8,
            self.address,
            self.command_type.into(),
            self.data.as_slice(),
        )
    }

    /// The record as the line that goes over the wire, with no terminator.
    pub fn to_string(&self) -> (line: String)
        ensures
            line@ == self@.line(),
            line@.len() == 11 + 2 * self@.data.len(),
            is_ascii_chars(line@),
    {
        proof {
            use_type_invariant(self);
            reveal_strlit(":");
            lemma_line_len(self@);
            lemma_line_is_ascii(self@);
        }
        let high: u8 = (self.address >> 8) as u8;
        let low: u8 = (self.address & 0xFF) as u8;
        assert(high == (self.address / 256) as u8 && low == (self.address % 256) as u8) by {
            let a: u16 = self.address;
            assert((a >> 8) == a / 256 && (a >> 8) < 256 && (a & 0xFF) == a % 256)
                by (bit_vector);
        }
        let mut line: String = String::from_str(":");
        assert(line@ =~= seq![':']);
        push_hex_byte(&mut line, self.data.len() as u8);
        push_hex_byte(&mut line, high);
        push_hex_byte(&mut line, low);
        push_hex_byte(&mut line, self.command_type.into());
        push_hex_bytes(&mut line, self.data.as_slice());
        push_hex_byte(&mut line, self.compute_checksum());
        line
    }
}

impl From<IntelHex> for String {
    /// The record's line, as `to_string` gives it.
    fn from(hex: IntelHex) -> (line: String)
        ensures
            line@ == hex@.line(),
    {
        hex.to_string()
    }
}

/// A `String` is known by its view alone, so no `String` can be named as the
/// result of the conversion: what it holds is stated on `from` itself.
impl FromSpecImpl<IntelHex> for String {
    open spec fn obeys_from_spec() -> bool {
        false
    }

    open spec fn from_spec(hex: IntelHex) -> String {
        arbitrary()
    }
}

} // verus!
