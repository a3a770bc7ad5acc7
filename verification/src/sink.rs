//! The output of a scan: one line for each target.
//!
//! Every line is a record of three fields, the target's address, its
//! metadata and the creator's address, set in comma-separated form. A target
//! without a known creator has `n/a` in the third field. The sink keeps the
//! text that it has produced and hands each new line back, so that the caller
//! can write it out at once.

use crate::address::{hex_text, Address};
use crate::registry::Target;
use vstd::prelude::*;

verus! {

/// What is written for one target.
#[derive(Clone, Debug, PartialEq, Eq)]
pub struct ResolutionRecord {
    pub target_address: Address,
    pub metadata: String,
    /// The creator, or `None` where no creation event was found or its
    /// sender could not be had.
    pub creator: Option<Address>,
}

/// The comma-separated form of one record, line end included, or `None`
/// where the encoder reports an error.
pub uninterp spec fn csv_line(fields: Seq<Seq<char>>) -> Option<Seq<u8>>;

/// Writes one record with a `csv::Writer` over an empty buffer, built as
/// `csv::WriterBuilder::new().has_headers(true)` builds it, and takes the
/// buffer back. The bytes are taken to be a function of the fields alone;
/// nothing else is claimed of them.
#[verifier::external_body]
pub(crate) fn encode_line(fields: &Vec<String>) -> (line: Option<Vec<u8>>)
    ensures
        match line {
            Some(bytes) => csv_line(fields.deep_view()) == Some(bytes@),
            None => csv_line(fields.deep_view()) is None,
        },
{
    let mut writer = csv::WriterBuilder::new().has_headers(true).from_writer(Vec::new());
    match writer.write_record(fields) {
        Ok(()) => writer.into_inner().ok(),
        Err(_) => None,
    }
}

/// The fields of the header line.
pub open spec fn header_fields() -> Seq<Seq<char>> {
    seq!["smart_account_address"@, "usr_ops_cnt"@, "eoa"@]
}

/// The third field of a record: the creator's address, or `n/a`.
pub open spec fn creator_field(creator: Option<Address>) -> Seq<char> {
    match creator {
        Some(address) => hex_text(address.bytes@),
        None => "n/a"@,
    }
}

/// The fields of the line for `record`.
pub open spec fn record_fields(record: ResolutionRecord) -> Seq<Seq<char>> {
    seq![hex_text(record.target_address.bytes@), record.metadata@, creator_field(record.creator)]
}

/// The record of a target for which no creation event was found.
pub open spec fn unresolved_record(target: Target) -> ResolutionRecord {
    ResolutionRecord { target_address: target.address, metadata: target.metadata, creator: None }
}

impl ResolutionRecord {
    /// The record of a target that the scan did not find.
    pub fn not_found(target: &Target) -> (record: ResolutionRecord)
        ensures
            record == unresolved_record(*target),
    {
        ResolutionRecord {
            target_address: target.address,
            metadata: target.metadata.clone(),
            creator: None,
        }
    }

    /// The three fields of the record's line.
    pub fn fields(&self) -> (fields: Vec<String>)
        ensures
            fields.deep_view() == record_fields(*self),
    {
        let mut fields: Vec<String> = Vec::new();
        fields.push(self.target_address.to_hex());
        fields.push(self.metadata.clone());
        match self.creator {
            Some(address) => fields.push(address.to_hex()),
            None => fields.push("n/a".to_owned()),
        }
        assert(fields.deep_view() =~= record_fields(*self));
        fields
    }

    /// The record's line, or `None` where the encoder reports an error.
    pub fn line(&self) -> (line: Option<Vec<u8>>)
        ensures
            match line {
                Some(bytes) => csv_line(record_fields(*self)) == Some(bytes@),
                None => csv_line(record_fields(*self)) is None,
            },
    {
        let fields = self.fields();
        encode_line(&fields)
    }
}

/// The header line, or `None` where the encoder reports an error.
pub fn header_line() -> (line: Option<Vec<u8>>)
    ensures
        match line {
            Some(bytes) => csv_line(header_fields()) == Some(bytes@),
            None => csv_line(header_fields()) is None,
        },
{
    let mut fields: Vec<String> = Vec::new();
    fields.push("smart_account_address".to_owned());
    fields.push("usr_ops_cnt".to_owned());
    fields.push("eoa".to_owned());
    assert(fields.deep_view() =~= header_fields());
    encode_line(&fields)
}

/// The text produced so far. It only ever grows, a line at a time.
#[derive(Clone, Debug)]
pub struct ResultSink {
    output: Vec<u8>,
}

impl View for ResultSink {
    type V = Seq<u8>;

    closed spec fn view(&self) -> Seq<u8> {
        self.output@
    }
}

impl ResultSink {
    /// A sink that holds the header line and nothing else, or `None` where
    /// the encoder reports an error.
    pub fn new() -> (made: Option<ResultSink>)
        ensures
            match made {
                Some(sink) => csv_line(header_fields()) == Some(sink@),
                None => csv_line(header_fields()) is None,
            },
    {
        match header_line() {
            Some(output) => Some(ResultSink { output }),
            None => None,
        }
    }

    /// Appends the line of `record` and returns it for the caller to write
    /// out. Where the encoder reports an error nothing is appended and the
    /// result is `None`.
    pub fn record(&mut self, record: &ResolutionRecord) -> (line: Option<Vec<u8>>)
        ensures
            match line {
                Some(bytes) => csv_line(record_fields(*record)) == Some(bytes@) && final(self)@
                    == old(self)@ + bytes@,
                None => csv_line(record_fields(*record)) is None && final(self)@ == old(self)@,
            },
    {
        match record.line() {
            Some(bytes) => {
                self.append(&bytes);
                Some(bytes)
            },
            None => None,
        }
    }

    /// Appends the line of a target that the scan did not find, with `n/a`
    /// for the creator, and returns it.
    pub fn record_unresolved(&mut self, target: &Target) -> (line: Option<Vec<u8>>)
        ensures
            match line {
                Some(bytes) => csv_line(record_fields(unresolved_record(*target))) == Some(bytes@)
                    && final(self)@ == old(self)@ + bytes@,
                None => csv_line(record_fields(unresolved_record(*target))) is None && final(self)@
                    == old(self)@,
            },
    {
        let record = ResolutionRecord::not_found(target);
        self.record(&record)
    }

    /// A copy of the text produced so far.
    pub fn output(&self) -> (text: Vec<u8>)
        ensures
            text@ == self@,
    {
        let mut text: Vec<u8> = Vec::new();
        let mut i: usize = 0;
        while i < self.output.len()
            invariant
                i <= self.output.len(),
                text@ == self.output@.take(i as int),
            decreases self.output.len() - i,
        {
            text.push(self.output[i]);
            assert(text@ =~= self.output@.take(i + 1));
            i += 1;
        }
        assert(self.output@.take(self.output.len() as int) =~= self.output@);
        text
    }

    fn append(&mut self, bytes: &Vec<u8>)
        ensures
            final(self)@ == old(self)@ + bytes@,
    {
        let ghost before = self.output@;
        let mut i: usize = 0;
        while i < bytes.len()
            invariant
                i <= bytes.len(),
                self.output@ == before + bytes@.take(i as int),
            decreases bytes.len() - i,
        {
            self.output.push(bytes[i]);
            assert(self.output@ =~= before + bytes@.take(i + 1));
            i += 1;
        }
        assert(bytes@.take(bytes.len() as int) =~= bytes@);
    }
}

} // verus!
