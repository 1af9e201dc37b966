//! The `identify` exchange, by which the compressed data dictionary of an MCU
//! is obtained.

use super::vlq::{self, encode_vlq_int, parse_vlq_int};
use vstd::prelude::*;

verus! {

/// Klipper fixed command ID for `identify`.
pub const CMD_IDENTIFY: u32 = 1;

/// Klipper fixed command ID for `identify_response`.
pub const CMD_IDENTIFY_RESPONSE: u32 = 0;

/// Dictionary bytes asked for in one request.
pub const IDENTIFY_CHUNK_SIZE: u32 = 40;

/// The payload of an `identify` request.
pub open spec fn identify_request(offset: u32, count: u32) -> Seq<u8> {
    vlq::vlq(CMD_IDENTIFY) + vlq::vlq(offset) + vlq::vlq(count)
}

/// The payload of an `identify_response`.
pub open spec fn identify_response(offset: u32, chunk: Seq<u8>) -> Seq<u8> {
    vlq::vlq(CMD_IDENTIFY_RESPONSE) + vlq::vlq(offset) + vlq::vlq(chunk.len() as u32) + chunk
}

/// The chunk that a payload brings, if it is an `identify_response` for the
/// expected offset that holds as many bytes as it claims.
pub open spec fn identify_chunk(payload: Seq<u8>, expected_offset: u32) -> Option<Seq<u8>> {
    match vlq::vlq_read(payload) {
        Some((cmd, r1)) if cmd == CMD_IDENTIFY_RESPONSE => match vlq::vlq_read(r1) {
            Some((offset, r2)) if offset == expected_offset => match vlq::vlq_read(r2) {
                Some((n, r3)) if n <= r3.len() => Some(r3.take(n as int)),
                _ => None,
            },
            _ => None,
        },
        _ => None,
    }
}

/// Build the request for the chunk at `offset`.
pub fn build_identify_request(offset: u32) -> (req: Vec<u8>)
    ensures
        req@ == identify_request(offset, IDENTIFY_CHUNK_SIZE),
{
    let mut req: Vec<u8> = Vec::new();
    encode_vlq_int(&mut req, CMD_IDENTIFY);
    encode_vlq_int(&mut req, offset);
    encode_vlq_int(&mut req, IDENTIFY_CHUNK_SIZE);
    assert(req@ =~= identify_request(offset, IDENTIFY_CHUNK_SIZE));
    req
}

/// The chunk that `payload` brings, or `None` where it is some other message.
pub fn parse_identify_response(payload: &[u8], expected_offset: u32) -> (chunk: Option<Vec<u8>>)
    ensures
        match chunk {
            Some(c) => identify_chunk(payload@, expected_offset) == Some(c@),
            None => identify_chunk(payload@, expected_offset) is None,
        },
{
    let mut data: &[u8] = payload;
    let cmd: u32 = match parse_vlq_int(&mut data) {
        Ok(v) => v,
        Err(_) => return None,
    };
    if cmd != CMD_IDENTIFY_RESPONSE {
        return None;
    }
    let offset: u32 = match parse_vlq_int(&mut data) {
        Ok(v) => v,
        Err(_) => return None,
    };
    let data_len: u32 = match parse_vlq_int(&mut data) {
        Ok(v) => v,
        Err(_) => return None,
    };
    if offset != expected_offset || (data.len() as u64) < data_len as u64 {
        return None;
    }
    let n: usize = data_len as usize;
    let mut out: Vec<u8> = Vec::new();
    out.extend_from_slice(&data[0..n]);
    assert(out@ =~= data@.take(n as int));
    Some(out)
}

/// A response that was built is read back as the chunk it was built from,
/// under its own offset and no other.
pub proof fn law_response_is_read_back(offset: u32, chunk: Seq<u8>, expected_offset: u32)
    requires
        chunk.len() <= u32::MAX,
    ensures
        identify_chunk(identify_response(offset, chunk), expected_offset) == (if offset
            == expected_offset {
            Some(chunk)
        } else {
            None
        }),
{
    let n = chunk.len() as u32;
    let r2 = vlq::vlq(n) + chunk;
    let r1 = vlq::vlq(offset) + r2;
    assert(identify_response(offset, chunk) =~= vlq::vlq(CMD_IDENTIFY_RESPONSE) + r1);
    vlq::law_vlq_roundtrip(CMD_IDENTIFY_RESPONSE, r1);
    vlq::law_vlq_roundtrip(offset, r2);
    vlq::law_vlq_roundtrip(n, chunk);
    assert(chunk.take(n as int) =~= chunk);
}

/// Where in a dictionary of `len` bytes the chunk ends that answers a request
/// of `count` bytes from `offset` on.
pub open spec fn chunk_end(len: nat, offset: nat, count: nat) -> nat {
    if offset + count <= len {
        offset + count
    } else {
        len
    }
}

/// The chunk of a dictionary that answers a request: what there is of the
/// wanted range, nothing where the offset lies behind the end.
pub open spec fn dictionary_chunk(dictionary: Seq<u8>, offset: nat, count: nat) -> Seq<u8> {
    if offset <= dictionary.len() {
        dictionary.subrange(offset as int, chunk_end(dictionary.len(), offset, count) as int)
    } else {
        Seq::empty()
    }
}

/// What became of a payload that arrived during a fetch.
#[derive(Debug, Clone, Copy, PartialEq, Eq, Structural)]
pub enum FetchStep {
    /// Some other message: keep waiting.
    Ignored,
    /// A full chunk: send the next request.
    NextRequest,
    /// The last chunk: the dictionary is complete.
    Complete,
}

/// A dictionary on its way: requests with increasing offsets are answered by
/// chunks until one is short.
pub struct DictionaryFetch {
    dict: Vec<u8>,
    offset: u32,
}

impl View for DictionaryFetch {
    type V = Seq<u8>;

    /// The bytes fetched so far.
    closed spec fn view(&self) -> Seq<u8> {
        self.dict@
    }
}

impl DictionaryFetch {
    /// The next offset is the number of bytes fetched.
    pub closed spec fn wf(&self) -> bool {
        self.offset == self.dict@.len()
    }

    /// A fetch that has asked for nothing yet.
    pub fn new() -> (f: Self)
        ensures
            f.wf(),
            f@ == Seq::<u8>::empty(),
    {
        DictionaryFetch { dict: Vec::new(), offset: 0 }
    }

    /// The request to send next.
    pub fn request(&self) -> (req: Vec<u8>)
        requires
            self.wf(),
        ensures
            req@ == identify_request(self@.len() as u32, IDENTIFY_CHUNK_SIZE),
    {
        build_identify_request(self.offset)
    }

    /// A payload arrived from the MCU.
    pub fn on_payload(&mut self, payload: &[u8]) -> (step: FetchStep)
        requires
            old(self).wf(),
            old(self)@.len() + payload@.len() <= u32::MAX,
        ensures
            final(self).wf(),
            match identify_chunk(payload@, old(self)@.len() as u32) {
                Some(chunk) => final(self)@ == old(self)@ + chunk && step == (if chunk.len()
                    < IDENTIFY_CHUNK_SIZE {
                    FetchStep::Complete
                } else {
                    FetchStep::NextRequest
                }),
                None => final(self)@ == old(self)@ && step == FetchStep::Ignored,
            },
    {
        proof {
            lemma_chunk_is_part(payload@, self.offset);
        }
        match parse_identify_response(payload, self.offset) {
            Some(chunk) => {
                let chunk_len: u32 = chunk.len() as u32;
                self.dict.extend_from_slice(&chunk);
                self.offset += chunk_len;
                if chunk_len < IDENTIFY_CHUNK_SIZE {
                    FetchStep::Complete
                } else {
                    FetchStep::NextRequest
                }
            },
            None => FetchStep::Ignored,
        }
    }

    /// The fetched dictionary.
    pub fn into_dictionary(self) -> (dict: Vec<u8>)
        ensures
            dict@ == self@,
    {
        self.dict
    }
}

proof fn lemma_chunk_is_part(payload: Seq<u8>, expected_offset: u32)
    ensures
        identify_chunk(payload, expected_offset) matches Some(c) ==> c.len() <= payload.len(),
{
    if identify_chunk(payload, expected_offset) is Some {
        let r1 = vlq::vlq_read(payload)->Some_0.1;
        let r2 = vlq::vlq_read(r1)->Some_0.1;
        vlq::lemma_vlq_read_shrinks(payload);
        vlq::lemma_vlq_read_shrinks(r1);
        vlq::lemma_vlq_read_shrinks(r2);
    }
}

/// A fetch makes progress and ends with the dictionary: where the first bytes
/// of a dictionary are there and the next request is answered by the chunk
/// that it asks for, more of the dictionary is there; and the answer that ends
/// the fetch makes it whole.
pub proof fn law_fetch_recovers_dictionary(dictionary: Seq<u8>, offset: u32)
    requires
        offset <= dictionary.len(),
    ensures
        ({
            let chunk = dictionary_chunk(dictionary, offset as nat, IDENTIFY_CHUNK_SIZE as nat);
            let fetched = dictionary.take(offset as int);
            let next = chunk_end(dictionary.len(), offset as nat, IDENTIFY_CHUNK_SIZE as nat);
            &&& identify_chunk(identify_response(offset, chunk), offset) == Some(chunk)
            &&& fetched + chunk == dictionary.take(next as int)
            &&& chunk.len() < IDENTIFY_CHUNK_SIZE ==> fetched + chunk == dictionary
            &&& chunk.len() >= IDENTIFY_CHUNK_SIZE ==> next == offset + IDENTIFY_CHUNK_SIZE
        }),
{
    let chunk = dictionary_chunk(dictionary, offset as nat, IDENTIFY_CHUNK_SIZE as nat);
    let next = chunk_end(dictionary.len(), offset as nat, IDENTIFY_CHUNK_SIZE as nat);
    law_response_is_read_back(offset, chunk, offset);
    assert(dictionary.take(offset as int) + chunk =~= dictionary.take(next as int));
    if chunk.len() < IDENTIFY_CHUNK_SIZE {
        assert(dictionary.take(next as int) =~= dictionary);
    }
}

/// What a request for forty bytes of the dictionary is: the command 1, the
/// offset, and the count; and what its answer is: the command 0, the offset,
/// the length, and as many bytes.
pub proof fn law_identify_messages(offset: u32, count: u32, chunk: Seq<u8>)
    requires
        chunk.len() <= u32::MAX,
    ensures
        IDENTIFY_CHUNK_SIZE == 40,
        identify_request(offset, count) == vlq::vlq(1) + vlq::vlq(offset) + vlq::vlq(count),
        identify_response(offset, chunk) == vlq::vlq(0) + vlq::vlq(offset) + vlq::vlq(
            chunk.len() as u32,
        ) + chunk,
{
}

/// Other messages bring no chunk: one of another command, and one that claims
/// more bytes than it holds.
pub proof fn law_other_messages_bring_no_chunk(
    cmd: u32,
    offset: u32,
    n: u32,
    rest: Seq<u8>,
    expected_offset: u32,
)
    requires
        cmd != 0 || rest.len() < n,
    ensures
        identify_chunk(
            vlq::vlq(cmd) + (vlq::vlq(offset) + (vlq::vlq(n) + rest)),
            expected_offset,
        ) is None,
{
    let r2 = vlq::vlq(n) + rest;
    let r1 = vlq::vlq(offset) + r2;
    vlq::law_vlq_roundtrip(cmd, r1);
    vlq::law_vlq_roundtrip(offset, r2);
    vlq::law_vlq_roundtrip(n, rest);
}

/// What stands behind the claimed bytes of an answer is not part of its chunk.
pub proof fn law_chunk_ends_where_claimed(offset: u32, chunk: Seq<u8>, more: Seq<u8>)
    requires
        chunk.len() <= u32::MAX,
    ensures
        identify_chunk(identify_response(offset, chunk) + more, offset) == Some(chunk),
{
    let n = chunk.len() as u32;
    let r3 = chunk + more;
    let r2 = vlq::vlq(n) + r3;
    let r1 = vlq::vlq(offset) + r2;
    assert(identify_response(offset, chunk) + more =~= vlq::vlq(0) + r1);
    vlq::law_vlq_roundtrip(0, r1);
    vlq::law_vlq_roundtrip(offset, r2);
    vlq::law_vlq_roundtrip(n, r3);
    assert(r3.take(n as int) =~= chunk);
}

} // verus!
