//! Chunks and their records: length, type code, payload, checksum.

use vstd::prelude::*;
use vstd::slice::{slice_subrange, slice_to_vec};
use vstd::utf8::{decode_utf8, valid_utf8};
use crate::checksum::{checksum, crc32_iso_hdlc};
use crate::chunk_type::{is_type_code, ChunkType};
use crate::endian::{be32_bytes, be32_value, push_be32, read_be32};
use crate::endian::{lemma_be32_bytes_of_value, lemma_be32_value_of_bytes};
use crate::error::Error;
use crate::text::{ascii_text, decimal, push_decimal, text_of_utf8};
use vstd::string::StringExecFns;

verus! {

/// What a chunk is: a type code and a payload. The length and the checksum
/// that a chunk carries are functions of these two.
pub struct ChunkView {
    pub chunk_type: Seq<u8>,
    pub data: Seq<u8>,
}

impl ChunkView {
    /// The type code is four ASCII letters and the payload's length fits
    /// the 32-bit length field.
    pub open spec fn wf(self) -> bool {
        &&& is_type_code(self.chunk_type)
        &&& self.data.len() <= u32::MAX
    }

    /// The number of payload bytes.
    pub open spec fn length(self) -> nat {
        self.data.len()
    }

    /// The checksum over the type code followed by the payload.
    pub open spec fn crc(self) -> u32 {
        crc32_iso_hdlc(self.chunk_type + self.data)
    }

    /// A summary for a reader: length, type code, size of the payload and
    /// checksum, one to a line, the numbers in decimal notation.
    pub open spec fn summary(self) -> Seq<char> {
        "Chunk {\n"@ + "   Length: "@ + decimal(self.data.len()) + "\n"@ + "   Type: "@
            + ascii_text(self.chunk_type) + "\n"@ + "   Data: "@ + decimal(self.data.len())
            + " bytes\n"@ + "   Crc: "@ + decimal(self.crc() as nat) + "\n"@ + "}\n"@
    }

    /// The record as it stands in a file: length, type code, payload,
    /// checksum, the two numbers in big-endian order.
    pub open spec fn wire(self) -> Seq<u8> {
        be32_bytes(self.data.len() as u32) + self.chunk_type + self.data + be32_bytes(self.crc())
    }
}

/// The fields of the record at the start of `bytes`, before any checksum is
/// looked at: type code, payload and stored checksum. Bytes behind the
/// record are left alone.
pub open spec fn chunk_fields(bytes: Seq<u8>) -> Result<(Seq<u8>, Seq<u8>, u32), Error> {
    if bytes.len() < 12 {
        Err(Error::MalformedInput)
    } else if !is_type_code(bytes.subrange(4, 8)) {
        Err(Error::InvalidFormat)
    } else {
        let n = be32_value(bytes.subrange(0, 4)) as int;
        if bytes.len() < 12 + n {
            Err(Error::MalformedInput)
        } else {
            Ok(
                (
                    bytes.subrange(4, 8),
                    bytes.subrange(8, 8 + n),
                    be32_value(bytes.subrange(8 + n, 12 + n)),
                ),
            )
        }
    }
}

/// The chunk that the record at the start of `bytes` holds, or the reason
/// why there is none.
pub open spec fn decode_chunk(bytes: Seq<u8>) -> Result<ChunkView, Error> {
    match chunk_fields(bytes) {
        Err(e) => Err(e),
        Ok((chunk_type, data, stored)) => {
            if stored == crc32_iso_hdlc(chunk_type + data) {
                Ok(ChunkView { chunk_type, data })
            } else {
                Err(Error::IntegrityError)
            }
        },
    }
}

/// A chunk: a type code, a payload, the payload's length and the checksum
/// over type code and payload.
#[derive(Debug)]
pub struct Chunk {
    length: u32,
    chunk_type: ChunkType,
    data: Vec<u8>,
    crc: u32,
}

impl View for Chunk {
    type V = ChunkView;

    closed spec fn view(&self) -> ChunkView {
        ChunkView { chunk_type: self.chunk_type@, data: self.data@ }
    }
}

/// The checksum over a type code followed by a payload.
fn content_checksum(chunk_type: &ChunkType, data: &Vec<u8>) -> (sum: u32)
    ensures
        sum == crc32_iso_hdlc(chunk_type@ + data@),
{
    let code = chunk_type.bytes();
    let mut content: Vec<u8> = Vec::new();
    content.push(code[0]);
    content.push(code[1]);
    content.push(code[2]);
    content.push(code[3]);
    let mut i: usize = 0;
    while i < data.len()
        invariant
            i <= data@.len(),
            content@ == chunk_type@ + data@.subrange(0, i as int),
        decreases data@.len() - i,
    {
        content.push(data[i]);
        i += 1;
    }
    assert(data@.subrange(0, i as int) == data@);
    checksum(content.as_slice())
}

impl Chunk {
    /// Every chunk holds its payload's length and the checksum of its content.
    #[verifier::type_invariant]
    pub closed spec fn wf(self) -> bool {
        &&& self.chunk_type.wf()
        &&& self.length == self.data@.len()
        &&& self.crc == crc32_iso_hdlc(self.chunk_type@ + self.data@)
    }

    /// The view of a well-formed chunk is well-formed.
    pub proof fn lemma_wf_view(self)
        requires
            self.wf(),
        ensures
            self@.wf(),
    {
        self.chunk_type.lemma_wf_view();
    }

    /// A chunk of the given type and payload, with the checksum computed
    /// over both.
    pub fn new(chunk_type: ChunkType, data: Vec<u8>) -> (c: Chunk)
        requires
            data@.len() <= u32::MAX,
        ensures
            c@ == (ChunkView { chunk_type: chunk_type@, data: data@ }),
            c@.wf(),
    {
        proof {
            use_type_invariant(&chunk_type);
            chunk_type.lemma_wf_view();
        }
        let crc = content_checksum(&chunk_type, &data);
        Chunk { length: data.len() as u32, chunk_type, data, crc }
    }

    /// The number of payload bytes.
    pub fn length(&self) -> (n: u32)
        ensures
            n == self@.length(),
    {
        proof {
            use_type_invariant(self);
        }
        self.length
    }

    /// The type code.
    pub fn chunk_type(&self) -> (t: &ChunkType)
        ensures
            t@ == self@.chunk_type,
    {
        &self.chunk_type
    }

    /// The payload.
    pub fn data(&self) -> (d: &[u8])
        ensures
            d@ == self@.data,
    {
        self.data.as_slice()
    }

    /// The checksum over type code and payload.
    pub fn crc(&self) -> (sum: u32)
        ensures
            sum == self@.crc(),
    {
        proof {
            use_type_invariant(self);
        }
        self.crc
    }

    /// The payload as text. It succeeds exactly when the payload is valid
    /// UTF-8, and then gives the text that the payload encodes.
    pub fn data_as_string(&self) -> (r: Result<String, Error>)
        ensures
            valid_utf8(self@.data) ==> r is Ok && r->Ok_0@ == decode_utf8(self@.data),
            !valid_utf8(self@.data) ==> r == Err::<String, Error>(Error::EncodingError),
    {
        let bytes = self.data.clone();
        assert(bytes@ == self.data@);
        text_of_utf8(bytes)
    }

    /// The record of this chunk as it stands in a file.
    pub fn as_bytes(&self) -> (out: Vec<u8>)
        ensures
            out@ == self@.wire(),
    {
        proof {
            use_type_invariant(self);
        }
        let mut out: Vec<u8> = Vec::new();
        push_be32(&mut out, self.length);
        let code = self.chunk_type.bytes();
        out.push(code[0]);
        out.push(code[1]);
        out.push(code[2]);
        out.push(code[3]);
        assert(out@ == be32_bytes(self.length) + self.chunk_type@);
        let ghost head = out@;
        let mut i: usize = 0;
        while i < self.data.len()
            invariant
                i <= self.data@.len(),
                out@ == head + self.data@.subrange(0, i as int),
            decreases self.data@.len() - i,
        {
            out.push(self.data[i]);
            i += 1;
        }
        assert(self.data@.subrange(0, i as int) == self.data@);
        push_be32(&mut out, self.crc);
        out
    }

    /// A summary of the chunk for a reader.
    pub fn to_string(&self) -> (s: String)
        ensures
            s@ == self@.summary(),
    {
        proof {
            use_type_invariant(self);
        }
        let code = self.chunk_type.to_string();
        let mut s = String::new();
        s.append("Chunk {\n");
        s.append("   Length: ");
        push_decimal(&mut s, self.length as u64);
        s.append("\n");
        s.append("   Type: ");
        s.append(code.as_str());
        s.append("\n");
        s.append("   Data: ");
        push_decimal(&mut s, self.data.len() as u64);
        s.append(" bytes\n");
        s.append("   Crc: ");
        push_decimal(&mut s, self.crc as u64);
        s.append("\n");
        s.append("}\n");
        assert(s@ == Seq::<char>::empty() + self@.summary());
        s
    }

    /// Takes the record at the start of `bytes` apart into type code,
    /// payload and stored checksum, without looking at what the checksum
    /// says. Bytes behind the record are left alone.
    pub fn read_fields(bytes: &[u8]) -> (r: Result<(ChunkType, Vec<u8>, u32), Error>)
        ensures
            match r {
                Ok((chunk_type, data, stored)) => chunk_fields(bytes@) == Ok::<
                    (Seq<u8>, Seq<u8>, u32),
                    Error,
                >((chunk_type@, data@, stored)),
                Err(e) => chunk_fields(bytes@) == Err::<(Seq<u8>, Seq<u8>, u32), Error>(e),
            },
    {
        if bytes.len() < 12 {
            return Err(Error::MalformedInput);
        }
        let length = read_be32(bytes, 0);
        let code: [u8; 4] = [bytes[4], bytes[5], bytes[6], bytes[7]];
        assert(code@ =~= bytes@.subrange(4, 8));
        let chunk_type = match ChunkType::from_bytes(code) {
            Ok(t) => t,
            Err(e) => {
                return Err(e);
            },
        };
        let n = length as usize;
        if bytes.len() - 12 < n {
            return Err(Error::MalformedInput);
        }
        let data = slice_to_vec(slice_subrange(bytes, 8, 8 + n));
        let stored = read_be32(bytes, 8 + n);
        Ok((chunk_type, data, stored))
    }

    /// Holds the checksum stored in a record against the one computed over
    /// the record's type code and payload: the record is intact exactly when
    /// the two are the same number.
    pub fn check_crc(stored: u32, computed: u32) -> (r: Result<(), Error>)
        ensures
            stored == computed ==> r == Ok::<(), Error>(()),
            stored != computed ==> r == Err::<(), Error>(Error::IntegrityError),
    {
        if stored == computed {
            Ok(())
        } else {
            Err(Error::IntegrityError)
        }
    }

    /// Reads the chunk whose record stands at the start of `bytes`. The
    /// buffer must hold the twelve bytes of length, type code and checksum
    /// and as many payload bytes as the length says, the type code must be
    /// four ASCII letters, and the stored checksum must be the one computed
    /// over type code and payload. Bytes behind the record are left alone.
    pub fn decode(bytes: &[u8]) -> (r: Result<Chunk, Error>)
        ensures
            match r {
                Ok(c) => decode_chunk(bytes@) == Ok::<ChunkView, Error>(c@) && c@.wf(),
                Err(e) => decode_chunk(bytes@) == Err::<ChunkView, Error>(e),
            },
    {
        let (chunk_type, data, stored) = match Chunk::read_fields(bytes) {
            Ok(fields) => fields,
            Err(e) => {
                return Err(e);
            },
        };
        proof {
            use_type_invariant(&chunk_type);
            chunk_type.lemma_wf_view();
        }
        let computed = content_checksum(&chunk_type, &data);
        match Chunk::check_crc(stored, computed) {
            Ok(()) => Ok(Chunk { length: data.len() as u32, chunk_type, data, crc: stored }),
            Err(e) => Err(e),
        }
    }
}

impl TryFrom<&[u8]> for Chunk {
    type Error = Error;

    fn try_from(value: &[u8]) -> (r: Result<Chunk, Error>)
        ensures
            match r {
                Ok(c) => decode_chunk(value@) == Ok::<ChunkView, Error>(c@) && c@.wf(),
                Err(e) => decode_chunk(value@) == Err::<ChunkView, Error>(e),
            },
    {
        Chunk::decode(value)
    }
}

/// What `try_from` gives is stated by its own `ensures`, over the chunk's
/// view: no spec function builds a `Chunk`.
impl vstd::std_specs::convert::TryFromSpecImpl<&[u8]> for Chunk {
    open spec fn obeys_try_from_spec() -> bool {
        false
    }

    open spec fn try_from_spec(value: &[u8]) -> Result<Chunk, Error> {
        Err(Error::MalformedInput)
    }
}

/// A record is twelve bytes longer than its payload.
pub proof fn lemma_wire_len(c: ChunkView)
    requires
        c.wf(),
    ensures
        c.wire().len() == c.data.len() + 12,
{
}

/// Reading a chunk's record gives the chunk back, whatever follows the
/// record in the buffer.
pub proof fn lemma_decode_wire_then(c: ChunkView, rest: Seq<u8>)
    requires
        c.wf(),
    ensures
        decode_chunk(c.wire() + rest) == Ok::<ChunkView, Error>(c),
{
    let n = c.data.len() as int;
    let bytes = c.wire() + rest;
    lemma_be32_value_of_bytes(n as u32);
    lemma_be32_value_of_bytes(c.crc());
    assert(bytes.subrange(0, 4) =~= be32_bytes(n as u32));
    assert(bytes.subrange(4, 8) =~= c.chunk_type);
    assert(bytes.subrange(8, 8 + n) =~= c.data);
    assert(bytes.subrange(8 + n, 12 + n) =~= be32_bytes(c.crc()));
}

/// A record whose stored checksum is not the checksum of its type code and
/// payload is rejected as corrupt, whatever follows it in the buffer.
pub proof fn lemma_wrong_checksum_rejected(c: ChunkView, stored: u32, rest: Seq<u8>)
    requires
        c.wf(),
        stored != c.crc(),
    ensures
        decode_chunk(
            be32_bytes(c.data.len() as u32) + c.chunk_type + c.data + be32_bytes(stored) + rest,
        ) == Err::<ChunkView, Error>(Error::IntegrityError),
{
    let n = c.data.len() as int;
    let bytes = be32_bytes(n as u32) + c.chunk_type + c.data + be32_bytes(stored) + rest;
    lemma_be32_value_of_bytes(n as u32);
    lemma_be32_value_of_bytes(stored);
    assert(bytes.subrange(0, 4) =~= be32_bytes(n as u32));
    assert(bytes.subrange(4, 8) =~= c.chunk_type);
    assert(bytes.subrange(8, 8 + n) =~= c.data);
    assert(bytes.subrange(8 + n, 12 + n) =~= be32_bytes(stored));
}

/// A record decodes to the chunk it was written from.
pub proof fn lemma_decode_wire(c: ChunkView)
    requires
        c.wf(),
    ensures
        decode_chunk(c.wire()) == Ok::<ChunkView, Error>(c),
{
    lemma_decode_wire_then(c, Seq::empty());
    assert(c.wire() + Seq::<u8>::empty() =~= c.wire());
}

/// A buffer that decodes to a chunk starts with that chunk's record.
pub proof fn lemma_wire_decoded(bytes: Seq<u8>)
    requires
        decode_chunk(bytes) is Ok,
    ensures
        decode_chunk(bytes)->Ok_0.wf(),
        decode_chunk(bytes)->Ok_0.wire() == bytes.subrange(
            0,
            decode_chunk(bytes)->Ok_0.data.len() as int + 12,
        ),
{
    let c = decode_chunk(bytes)->Ok_0;
    let n = be32_value(bytes.subrange(0, 4)) as int;
    lemma_be32_bytes_of_value(bytes.subrange(0, 4));
    lemma_be32_bytes_of_value(bytes.subrange(8 + n, 12 + n));
    assert(c.wire() =~= bytes.subrange(0, 12 + n));
}

/// A buffer decodes to a chunk exactly when the chunk is well-formed and
/// the buffer starts with its record.
pub proof fn lemma_decode_ok_iff(bytes: Seq<u8>, c: ChunkView)
    ensures
        decode_chunk(bytes) == Ok::<ChunkView, Error>(c) <==> c.wf() && c.wire().is_prefix_of(
            bytes,
        ),
{
    if decode_chunk(bytes) == Ok::<ChunkView, Error>(c) {
        lemma_wire_decoded(bytes);
    }
    if c.wf() && c.wire().is_prefix_of(bytes) {
        let rest = bytes.subrange(c.wire().len() as int, bytes.len() as int);
        assert(bytes == c.wire() + rest);
        lemma_decode_wire_then(c, rest);
    }
}

} // verus!
