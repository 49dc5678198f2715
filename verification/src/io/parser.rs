//! The reader: a cursor over the input that recognises one part of the
//! container after the other.
//!
//! Each step either recognises a part, hands it out and moves the cursor
//! behind it, or refuses the input and leaves the cursor where it stood.
//! What a step recognises and when it refuses is [`crate::wire::decode`].
use vstd::prelude::*;
use crate::cipher::{CipherRegistry, CipherRegistryView, DecryptFn, EncryptFn};
use crate::entity::swd::Swd;
use crate::hash::{HashFunction, HashFunctionRegistry};
use crate::entity::collection::{
    Collection, COLLECTION_ENDER_BYTE, COLLECTION_STARTER_BYTE, collections_view, CollectionView,
    records_view,
};
use crate::entity::entries::{Entries, EntryView};
use crate::entity::header::{Header, HeaderView, VERSION_BYTES_LENGTH};
use crate::entity::record::{Record, RECORD_STARTER_BYTE, RecordView};
use crate::entity::value::{SECRET_VALUE_STARTER_BYTE, Value, VALUE_STARTER_BYTE, ValueView};
use crate::error::{ParseError, ParseErrorView};
use crate::util::MAGIC_NUMBER;
use crate::wire::decode;
use crate::wire::decode::MAX_DEPTH;

verus! {

/// What a step of the reader gives: the part it recognised, or the reason
/// why the input is refused.
pub type ParseResult<T> = Result<T, ParseError>;

/// A cursor over the bytes of a container.
pub struct Parser<'a> {
    remaining_input: &'a [u8],
}

impl<'a> View for Parser<'a> {
    type V = Seq<u8>;

    /// The bytes that are still to be read.
    closed spec fn view(&self) -> Seq<u8> {
        self.remaining_input@
    }
}

impl<'a> Parser<'a> {
    /// A reader with nothing to read.
    pub fn new() -> (parser: Self)
        ensures
            parser@ == Seq::<u8>::empty(),
    {
        let parser = Self { remaining_input: &[] };
        assert(parser@ =~= Seq::<u8>::empty());
        parser
    }

    /// Reads the container that `input` stands for: the magic number, the
    /// header, the root collection. The container comes locked, with the
    /// registries that know `aes-gcm` and `sha3-256`. What follows the root
    /// collection is not looked at: the cursor stays in front of it. An
    /// input that is refused leaves the cursor at its first byte.
    pub fn parse(&mut self, input: &'a [u8]) -> (parsed: ParseResult<Swd>)
        ensures
            match parsed {
                Ok(swd) => decode::parse_container(input@) == Ok::<
                    ((HeaderView, CollectionView), Seq<u8>),
                    ParseErrorView,
                >(((swd@.header, swd@.root), final(self)@)) && swd@.header.key is None
                    && swd@.cipher_registry == (CipherRegistryView {
                    encrypt_functions: seq![("aes-gcm"@, EncryptFn::AesGcm)],
                    decrypt_functions: seq![("aes-gcm"@, DecryptFn::AesGcm)],
                }) && swd@.hash_function_registry == seq![("sha3-256"@, HashFunction::Sha3_256)],
                Err(e) => decode::parse_container(input@) == Err::<
                    ((HeaderView, CollectionView), Seq<u8>),
                    ParseErrorView,
                >(e@) && final(self)@ == input@,
            },
    {
        self.remaining_input = input;
        match self.ensure_magic_number() {
            Ok(()) => {},
            Err(e) => {
                return Err(e);
            },
        }
        proof {
            decode::lemma_parsed_header_is_locked(self@);
        }
        let header = match self.parse_header() {
            Ok(header) => header,
            Err(e) => {
                self.remaining_input = input;
                return Err(e);
            },
        };
        let collection = match self.parse_collection() {
            Ok(collection) => collection,
            Err(e) => {
                self.remaining_input = input;
                return Err(e);
            },
        };
        Ok(
            Swd::from_root(
                header,
                collection,
                CipherRegistry::default(),
                HashFunctionRegistry::default(),
            ),
        )
    }

    /// Gives the reader `input` to read, from its first byte.
    pub fn inject_input(&mut self, input: &'a [u8])
        ensures
            final(self)@ == input@,
    {
        self.remaining_input = input;
    }

    /// Whether `magic_number` opens with the magic number.
    pub fn check_magic_number(magic_number: &[u8]) -> (matches: bool)
        ensures
            matches == (magic_number@.len() >= 8 && magic_number@.subrange(0, 8) == MAGIC_NUMBER@),
    {
        if magic_number.len() < MAGIC_NUMBER.len() {
            return false;
        }
        let mut i: usize = 0;
        while i < MAGIC_NUMBER.len()
            invariant
                0 <= i <= 8,
                magic_number@.len() >= 8,
                forall|j: int| 0 <= j < i ==> magic_number@[j] == MAGIC_NUMBER@[j],
            decreases 8 - i,
        {
            if magic_number[i] != MAGIC_NUMBER[i] {
                assert(magic_number@.subrange(0, 8)[i as int] != MAGIC_NUMBER@[i as int]);
                return false;
            }
            i += 1;
        }
        assert(magic_number@.subrange(0, 8) =~= MAGIC_NUMBER@);
        true
    }

    /// Refuses an input that has come to its end.
    pub fn ensure_remaining_input(&self) -> (checked: ParseResult<()>)
        ensures
            match checked {
                Ok(_) => self@.len() > 0,
                Err(e) => self@.len() == 0 && e@ == ParseErrorView::UnexpectedEndOfFile,
            },
    {
        if self.remaining_input.len() == 0 {
            return Err(ParseError::UnexpectedEndOfFile);
        }
        Ok(())
    }

    /// Refuses an input with fewer than `length` bytes left, naming how many
    /// are left and how many were needed.
    pub fn ensure_remaining_length(&self, length: usize) -> (checked: ParseResult<()>)
        ensures
            match checked {
                Ok(_) => self@.len() >= length,
                Err(e) => self@.len() < length && e@ == ParseErrorView::UnexpectedEndOfValue(
                    self@.len() as int,
                    length as int,
                ),
            },
    {
        if self.remaining_input.len() < length {
            return Err(ParseError::UnexpectedEndOfValue(self.remaining_input.len(), length));
        }
        Ok(())
    }

    /// Refuses an input with fewer than `length` bytes left, with `err`.
    pub fn ensure_remaining_length_or(&self, length: usize, err: ParseError) -> (checked:
        ParseResult<()>)
        ensures
            match checked {
                Ok(_) => self@.len() >= length,
                Err(e) => self@.len() < length && e == err,
            },
    {
        if self.remaining_input.len() < length {
            return Err(err);
        }
        Ok(())
    }

    /// The next `length` bytes, with the cursor moved behind them. An input
    /// with fewer bytes left is refused, naming how many are left and how
    /// many were needed.
    pub fn take_bytes(&mut self, length: usize) -> (taken: ParseResult<&'a [u8]>)
        ensures
            match taken {
                Ok(bytes) => old(self)@.len() >= length && bytes@ == old(self)@.subrange(
                    0,
                    length as int,
                ) && final(self)@ == old(self)@.skip(length as int),
                Err(e) => old(self)@.len() < length && e@ == ParseErrorView::UnexpectedEndOfValue(
                    old(self)@.len() as int,
                    length as int,
                ) && final(self)@ == old(self)@,
            },
    {
        match self.ensure_remaining_length(length) {
            Ok(()) => {},
            Err(e) => {
                return Err(e);
            },
        }
        let input: &'a [u8] = self.remaining_input;
        let bytes: &'a [u8] = &input[0..length];
        self.remaining_input = &input[length..input.len()];
        Ok(bytes)
    }

    /// The next `length` bytes, with the cursor moved behind them. An input
    /// with fewer bytes left is refused with `err`.
    pub fn take_bytes_or(&mut self, length: usize, err: ParseError) -> (taken: ParseResult<
        &'a [u8],
    >)
        ensures
            match taken {
                Ok(bytes) => old(self)@.len() >= length && bytes@ == old(self)@.subrange(
                    0,
                    length as int,
                ) && final(self)@ == old(self)@.skip(length as int),
                Err(e) => old(self)@.len() < length && e == err && final(self)@ == old(self)@,
            },
    {
        match self.ensure_remaining_length_or(length, err) {
            Ok(()) => {},
            Err(e) => {
                return Err(e);
            },
        }
        let input: &'a [u8] = self.remaining_input;
        let bytes: &'a [u8] = &input[0..length];
        self.remaining_input = &input[length..input.len()];
        Ok(bytes)
    }

    /// The next byte, which the cursor stays in front of.
    pub fn peek_starter_byte(&self) -> (peeked: ParseResult<u8>)
        ensures
            match peeked {
                Ok(byte) => self@.len() > 0 && byte == self@[0],
                Err(e) => self@.len() == 0 && e@ == ParseErrorView::UnexpectedEndOfFile,
            },
    {
        match self.ensure_remaining_input() {
            Ok(()) => {},
            Err(e) => {
                return Err(e);
            },
        }
        Ok(self.remaining_input[0])
    }

    /// Moves the cursor behind the next byte if that is `starter_byte`.
    pub fn ensure_starter_byte(&mut self, starter_byte: u8) -> (found: ParseResult<u8>)
        ensures
            match found {
                Ok(byte) => old(self)@.len() > 0 && old(self)@[0] == starter_byte && byte
                    == starter_byte && final(self)@ == old(self)@.skip(1),
                Err(e) => final(self)@ == old(self)@ && if old(self)@.len() == 0 {
                    e@ == ParseErrorView::UnexpectedEndOfFile
                } else {
                    old(self)@[0] != starter_byte && e@ == ParseErrorView::UnexpectedStarterByte
                },
            },
    {
        match self.ensure_remaining_input() {
            Ok(()) => {},
            Err(e) => {
                return Err(e);
            },
        }
        if self.remaining_input[0] != starter_byte {
            return Err(ParseError::UnexpectedStarterByte);
        }
        let input: &'a [u8] = self.remaining_input;
        self.remaining_input = &input[1..input.len()];
        Ok(starter_byte)
    }

    /// Moves the cursor behind the next byte if that is one of
    /// `starter_bytes`, and says which it was.
    pub fn ensure_starter_byte_in(&mut self, starter_bytes: &[u8]) -> (found: ParseResult<u8>)
        ensures
            match found {
                Ok(byte) => old(self)@.len() > 0 && old(self)@[0] == byte
                    && starter_bytes@.contains(byte) && final(self)@ == old(self)@.skip(1),
                Err(e) => final(self)@ == old(self)@ && if old(self)@.len() == 0 {
                    e@ == ParseErrorView::UnexpectedEndOfFile
                } else {
                    !starter_bytes@.contains(old(self)@[0]) && e@
                        == ParseErrorView::UnexpectedStarterByte
                },
            },
    {
        match self.ensure_remaining_input() {
            Ok(()) => {},
            Err(e) => {
                return Err(e);
            },
        }
        let input: &'a [u8] = self.remaining_input;
        let mut i: usize = 0;
        while i < starter_bytes.len()
            invariant
                0 <= i <= starter_bytes@.len(),
                input@.len() > 0,
                input@ == self@,
                self@ == old(self)@,
                forall|j: int| 0 <= j < i ==> starter_bytes@[j] != input@[0],
            decreases starter_bytes@.len() - i,
        {
            if input[0] == starter_bytes[i] {
                self.remaining_input = &input[1..input.len()];
                return Ok(starter_bytes[i]);
            }
            i += 1;
        }
        Err(ParseError::UnexpectedStarterByte)
    }

    /// Reads the magic number.
    pub fn ensure_magic_number(&mut self) -> (checked: ParseResult<()>)
        ensures
            match checked {
                Ok(_) => decode::parse_magic_number(old(self)@) == Ok::<
                    ((), Seq<u8>),
                    ParseErrorView,
                >(((), final(self)@)),
                Err(e) => decode::parse_magic_number(old(self)@) == Err::<
                    ((), Seq<u8>),
                    ParseErrorView,
                >(e@) && final(self)@ == old(self)@,
            },
    {
        let start: &'a [u8] = self.remaining_input;
        let magic_number = match self.take_bytes_or(
            MAGIC_NUMBER.len(),
            ParseError::UnexpectedEndOfFile,
        ) {
            Ok(bytes) => bytes,
            Err(e) => {
                return Err(e);
            },
        };
        assert(magic_number@.subrange(0, 8) =~= magic_number@);
        if !Parser::check_magic_number(magic_number) {
            self.remaining_input = start;
            return Err(ParseError::InvalidMagicNumber);
        }
        Ok(())
    }

    /// Reads the version: four bytes, big-endian.
    pub fn parse_version(&mut self) -> (parsed: ParseResult<u32>)
        ensures
            match parsed {
                Ok(version) => decode::parse_version(old(self)@) == Ok::<
                    (u32, Seq<u8>),
                    ParseErrorView,
                >((version, final(self)@)),
                Err(e) => decode::parse_version(old(self)@) == Err::<
                    (u32, Seq<u8>),
                    ParseErrorView,
                >(e@) && final(self)@ == old(self)@,
            },
    {
        let bytes = match self.take_bytes_or(
            VERSION_BYTES_LENGTH,
            ParseError::UnexpectedEndOfFile,
        ) {
            Ok(bytes) => bytes,
            Err(e) => {
                return Err(e);
            },
        };
        let version: u32 = (bytes[0] as u32) * 0x100_0000 + (bytes[1] as u32) * 0x1_0000 + (
        bytes[2] as u32) * 0x100 + (bytes[3] as u32);
        Ok(version)
    }

    /// Reads a value whose starter byte says that it is secret, if
    /// `is_secret`, or that it is public, if not.
    pub fn parse_value(&mut self, is_secret: bool) -> (parsed: ParseResult<Value>)
        ensures
            match parsed {
                Ok(value) => decode::parse_value(old(self)@, is_secret) == Ok::<
                    (ValueView, Seq<u8>),
                    ParseErrorView,
                >((value@, final(self)@)),
                Err(e) => decode::parse_value(old(self)@, is_secret) == Err::<
                    (ValueView, Seq<u8>),
                    ParseErrorView,
                >(e@) && final(self)@ == old(self)@,
            },
    {
        let start: &'a [u8] = self.remaining_input;
        let starter_byte = if is_secret {
            SECRET_VALUE_STARTER_BYTE
        } else {
            VALUE_STARTER_BYTE
        };
        match self.ensure_starter_byte(starter_byte) {
            Ok(_) => {},
            Err(e) => {
                return Err(e);
            },
        }
        let length_bytes = match self.take_bytes_or(2, ParseError::UnexpectedEndOfFile) {
            Ok(bytes) => bytes,
            Err(e) => {
                self.remaining_input = start;
                return Err(e);
            },
        };
        let length: usize = (length_bytes[0] as usize) * 256 + (length_bytes[1] as usize);
        let value_bytes = match self.take_bytes(length) {
            Ok(bytes) => bytes,
            Err(e) => {
                self.remaining_input = start;
                return Err(e);
            },
        };
        proof {
            assert(value_bytes@ =~= start@.subrange(3, 3 + length));
            assert(self@ =~= start@.skip(3 + length));
        }
        Ok(Value::new(value_bytes, is_secret))
    }

    /// Reads a key and its value. The key is a public value that holds
    /// text; the value says by its starter byte whether it is secret.
    pub fn parse_key_value(&mut self) -> (parsed: ParseResult<(String, Value)>)
        ensures
            match parsed {
                Ok(pair) => decode::parse_key_value(old(self)@) == Ok::<
                    (EntryView, Seq<u8>),
                    ParseErrorView,
                >((EntryView { key: pair.0@, value: pair.1@ }, final(self)@)),
                Err(e) => decode::parse_key_value(old(self)@) == Err::<
                    (EntryView, Seq<u8>),
                    ParseErrorView,
                >(e@) && final(self)@ == old(self)@,
            },
    {
        let start: &'a [u8] = self.remaining_input;
        let key = match self.parse_value(false) {
            Ok(key) => key,
            Err(e) => {
                return Err(e);
            },
        };
        let key = match key.parse_string() {
            Ok(key) => key,
            Err(e) => {
                self.remaining_input = start;
                return Err(e);
            },
        };
        let starter_byte = match self.peek_starter_byte() {
            Ok(byte) => byte,
            Err(e) => {
                self.remaining_input = start;
                return Err(e);
            },
        };
        let is_secret_value = starter_byte == SECRET_VALUE_STARTER_BYTE;
        let value = match self.parse_value(is_secret_value) {
            Ok(value) => value,
            Err(e) => {
                self.remaining_input = start;
                return Err(e);
            },
        };
        Ok((key, value))
    }

    /// Reads entries up to the first byte that does not open a key. Where
    /// the input ends instead, the entries end too if `may_end`, and the
    /// input is refused if not.
    pub fn parse_entries(&mut self, may_end: bool) -> (parsed: ParseResult<Entries>)
        ensures
            match parsed {
                Ok(entries) => decode::parse_entries(old(self)@, Seq::empty(), may_end) == Ok::<
                    (Seq<EntryView>, Seq<u8>),
                    ParseErrorView,
                >((entries@, final(self)@)),
                Err(e) => decode::parse_entries(old(self)@, Seq::empty(), may_end) == Err::<
                    (Seq<EntryView>, Seq<u8>),
                    ParseErrorView,
                >(e@) && final(self)@ == old(self)@,
            },
    {
        let start: &'a [u8] = self.remaining_input;
        let mut found = Entries::new();
        loop
            invariant
                start@ == old(self)@,
                decode::parse_entries(self@, found@, may_end) == decode::parse_entries(
                    start@,
                    Seq::empty(),
                    may_end,
                ),
            decreases self@.len(),
        {
            if self.remaining_input.len() == 0 {
                if may_end {
                    return Ok(found);
                }
                self.remaining_input = start;
                return Err(ParseError::UnexpectedEndOfFile);
            }
            if self.remaining_input[0] != VALUE_STARTER_BYTE {
                return Ok(found);
            }
            proof {
                decode::lemma_parse_key_value_consumes(self@);
            }
            match self.parse_key_value() {
                Ok((key, value)) => {
                    found.insert(key, value);
                },
                Err(e) => {
                    self.remaining_input = start;
                    return Err(e);
                },
            }
        }
    }

    /// Reads a record: its starter byte, then its entries.
    pub fn parse_record(&mut self) -> (parsed: ParseResult<Record>)
        ensures
            match parsed {
                Ok(record) => decode::parse_record(old(self)@) == Ok::<
                    (RecordView, Seq<u8>),
                    ParseErrorView,
                >((record@, final(self)@)),
                Err(e) => decode::parse_record(old(self)@) == Err::<
                    (RecordView, Seq<u8>),
                    ParseErrorView,
                >(e@) && final(self)@ == old(self)@,
            },
    {
        proof {
            reveal(decode::parse_record);
        }
        let start: &'a [u8] = self.remaining_input;
        match self.ensure_starter_byte(RECORD_STARTER_BYTE) {
            Ok(_) => {},
            Err(e) => {
                return Err(e);
            },
        }
        match self.ensure_remaining_input() {
            Ok(()) => {},
            Err(e) => {
                self.remaining_input = start;
                return Err(e);
            },
        }
        let raw_record = match self.parse_entries(true) {
            Ok(entries) => entries,
            Err(e) => {
                self.remaining_input = start;
                return Err(e);
            },
        };
        match Record::try_from(raw_record) {
            Ok(record) => Ok(record),
            Err(e) => {
                self.remaining_input = start;
                Err(e)
            },
        }
    }

    /// Reads a header: the version, then the entries up to the first byte
    /// that does not open a key.
    pub fn parse_header(&mut self) -> (parsed: ParseResult<Header>)
        ensures
            match parsed {
                Ok(header) => decode::parse_header(old(self)@) == Ok::<
                    (HeaderView, Seq<u8>),
                    ParseErrorView,
                >((header@, final(self)@)),
                Err(e) => decode::parse_header(old(self)@) == Err::<
                    (HeaderView, Seq<u8>),
                    ParseErrorView,
                >(e@) && final(self)@ == old(self)@,
            },
    {
        proof {
            reveal(decode::parse_header);
        }
        let start: &'a [u8] = self.remaining_input;
        let version = match self.parse_version() {
            Ok(version) => version,
            Err(e) => {
                return Err(e);
            },
        };
        let raw_header = match self.parse_entries(false) {
            Ok(entries) => entries,
            Err(e) => {
                self.remaining_input = start;
                return Err(e);
            },
        };
        match Header::try_from(raw_header) {
            Ok(header) => {
                let mut header = header;
                header.set_version(version);
                Ok(header)
            },
            Err(e) => {
                self.remaining_input = start;
                Err(e)
            },
        }
    }

    /// Reads a collection: its starter byte, its members, its ender byte.
    /// At most [`MAX_DEPTH`] collections may stand inside one another.
    pub fn parse_collection(&mut self) -> (parsed: ParseResult<Collection>)
        ensures
            match parsed {
                Ok(collection) => decode::parse_collection(old(self)@, MAX_DEPTH as nat) == Ok::<
                    (CollectionView, Seq<u8>),
                    ParseErrorView,
                >((collection@, final(self)@)),
                Err(e) => decode::parse_collection(old(self)@, MAX_DEPTH as nat) == Err::<
                    (CollectionView, Seq<u8>),
                    ParseErrorView,
                >(e@) && final(self)@ == old(self)@,
            },
    {
        self.parse_collection_within(MAX_DEPTH)
    }

    /// Reads a collection in which at most `depth` collections stand inside
    /// one another, the collection itself counted.
    pub fn parse_collection_within(&mut self, depth: usize) -> (parsed: ParseResult<Collection>)
        ensures
            match parsed {
                Ok(collection) => decode::parse_collection(old(self)@, depth as nat) == Ok::<
                    (CollectionView, Seq<u8>),
                    ParseErrorView,
                >((collection@, final(self)@)),
                Err(e) => decode::parse_collection(old(self)@, depth as nat) == Err::<
                    (CollectionView, Seq<u8>),
                    ParseErrorView,
                >(e@) && final(self)@ == old(self)@,
            },
        decreases old(self)@.len(),
    {
        proof {
            reveal(decode::parse_collection);
            reveal(decode::parse_members);
        }
        let start: &'a [u8] = self.remaining_input;
        match self.ensure_starter_byte(COLLECTION_STARTER_BYTE) {
            Ok(_) => {},
            Err(e) => {
                return Err(e);
            },
        }
        if depth == 0 {
            self.remaining_input = start;
            return Err(ParseError::UnexpectedStarterByte);
        }
        let mut extras = Entries::new();
        let mut records: Vec<Record> = Vec::new();
        let mut children: Vec<Collection> = Vec::new();
        proof {
            assert(collections_view(children@) =~= Seq::empty());
            assert(records_view(records@) =~= Seq::empty());
        }
        loop
            invariant
                start@ == old(self)@,
                depth > 0,
                self@.len() < start@.len(),
                decode::parse_members(
                    self@,
                    (depth - 1) as nat,
                    collections_view(children@),
                    records_view(records@),
                    extras@,
                ) == decode::parse_collection(start@, depth as nat),
            ensures
                self@.len() > 0,
                self@[0] == COLLECTION_ENDER_BYTE,
            decreases self@.len(),
        {
            proof {
                reveal(decode::parse_collection);
                reveal(decode::parse_members);
            }
            let ghost here = self@;
            let ghost children_before = collections_view(children@);
            let ghost records_before = records_view(records@);
            let starter_byte = match self.peek_starter_byte() {
                Ok(byte) => byte,
                Err(e) => {
                    self.remaining_input = start;
                    return Err(e);
                },
            };
            if starter_byte == COLLECTION_ENDER_BYTE {
                break ;
            } else if starter_byte == VALUE_STARTER_BYTE {
                proof {
                    decode::lemma_parse_key_value_consumes(here);
                }
                match self.parse_key_value() {
                    Ok((key, value)) => {
                        extras.insert(key, value);
                    },
                    Err(e) => {
                        self.remaining_input = start;
                        return Err(e);
                    },
                }
            } else if starter_byte == COLLECTION_STARTER_BYTE {
                proof {
                    decode::lemma_parse_collection_consumes(here, (depth - 1) as nat);
                }
                match self.parse_collection_within(depth - 1) {
                    Ok(collection) => {
                        children.push(collection);
                        proof {
                            assert(collections_view(children@) =~= children_before.push(
                                collection@,
                            ));
                        }
                    },
                    Err(e) => {
                        self.remaining_input = start;
                        return Err(e);
                    },
                }
            } else if starter_byte == RECORD_STARTER_BYTE {
                proof {
                    decode::lemma_parse_record_consumes(here);
                }
                match self.parse_record() {
                    Ok(record) => {
                        records.push(record);
                        proof {
                            assert(records_view(records@) =~= records_before.push(record@));
                        }
                    },
                    Err(e) => {
                        self.remaining_input = start;
                        return Err(e);
                    },
                }
            } else {
                self.remaining_input = start;
                return Err(ParseError::UnexpectedStarterByte);
            }
        }
        let input: &'a [u8] = self.remaining_input;
        self.remaining_input = &input[1..input.len()];
        match Collection::try_from((children, records, extras)) {
            Ok(collection) => Ok(collection),
            Err(e) => {
                self.remaining_input = start;
                Err(e)
            },
        }
    }
}

} // verus!
